//! What a change to the file of an open tab, seen on disk, asks of the tab.
use vstd::prelude::*;

use crate::editor::buffer::FileEtag;

verus! {

/// What the tab does about a change on disk.
#[derive(Clone, Copy, Debug, PartialEq, Eq, Structural)]
pub enum DiskChange {
    /// Nothing: the event does not concern the contents, or the file is as
    /// it was last read or written.
    Ignore,
    /// The text had no edits of its own: it is read again.
    Reload,
    /// The text has edits of its own: a banner offers to reload it.
    ChangedBanner,
    /// The file is gone: a banner offers to save the text anew.
    DeletedBanner,
}

/// The decision for an event of the file monitor. `relevant` says whether
/// the event is one that ends a change (changes done, created or deleted);
/// `current` is the file's modification time and size now (none when it
/// cannot be read), `saved` those when the tab last read or wrote it, and
/// `dirty` whether the text has edits of its own.
pub fn disk_change(relevant: bool, current: Option<FileEtag>, saved: Option<FileEtag>, dirty: bool) -> (res: DiskChange)
    ensures
        res == if !relevant || current == saved {
            DiskChange::Ignore
        } else {
            match current {
                Some(_) => if dirty {
                    DiskChange::ChangedBanner
                } else {
                    DiskChange::Reload
                },
                None => DiskChange::DeletedBanner,
            }
        },
{
    if !relevant {
        return DiskChange::Ignore;
    }
    let same = match (current, saved) {
        (Some(a), Some(b)) => a.mtime == b.mtime && a.size == b.size,
        (None, None) => true,
        _ => false,
    };
    if same {
        return DiskChange::Ignore;
    }
    match current {
        Some(_) => if dirty {
            DiskChange::ChangedBanner
        } else {
            DiskChange::Reload
        },
        None => DiskChange::DeletedBanner,
    }
}

} // verus!
