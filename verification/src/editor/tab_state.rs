//! Whether an editor tab holds unsaved changes.
use vstd::prelude::*;

use crate::text::str_eq;

verus! {

/// A buffer is dirty when its text differs from the text last saved.
pub fn compute_dirty(current: &str, saved: &str) -> (res: bool)
    ensures
        res == (current@ != saved@),
{
    !str_eq(current, saved)
}

/// The dirty flag of a tab, which tells the tab's marker only when it flips.
#[derive(Clone, Copy, Debug, PartialEq, Eq)]
pub struct DirtyTracker {
    pub dirty: bool,
}

/// The flag after a change of the buffer, and what the marker is told.
pub open spec fn change_spec(dirty: bool, suppressed: bool, current: Seq<char>, saved: Seq<char>) -> (bool, Option<bool>) {
    if suppressed {
        (dirty, None)
    } else {
        let now = current != saved;
        (now, if now != dirty {
            Some(now)
        } else {
            None
        })
    }
}

impl DirtyTracker {
    pub fn new() -> (res: DirtyTracker)
        ensures
            !res.dirty,
    {
        DirtyTracker { dirty: false }
    }

    /// The buffer changed to `current`; `saved` is the text on disk. Gives the
    /// new flag where it differs from the old one, `None` where it does not,
    /// and ignores the change while changes are suppressed.
    pub fn on_change(&mut self, suppressed: bool, current: &str, saved: &str) -> (emitted: Option<bool>)
        ensures
            (final(self).dirty, emitted) == change_spec(old(self).dirty, suppressed, current@, saved@),
    {
        if suppressed {
            return None;
        }
        let now = compute_dirty(current, saved);
        if self.dirty != now {
            self.dirty = now;
            Some(now)
        } else {
            None
        }
    }
}

/// Law: the marker is never told the same thing twice in a row: of two
/// changes that both tell it something, the second tells the opposite.
pub proof fn emissions_alternate(
    dirty: bool,
    s1: bool,
    c1: Seq<char>,
    v1: Seq<char>,
    s2: bool,
    c2: Seq<char>,
    v2: Seq<char>,
)
    ensures
        ({
            let (d1, e1) = change_spec(dirty, s1, c1, v1);
            let (d2, e2) = change_spec(d1, s2, c2, v2);
            (e1 is Some && e2 is Some) ==> e1->0 != e2->0
        }),
{
}

/// Law: after a change that is not suppressed the flag says whether the text
/// differs from the saved one, so typing and then undoing it leaves it clean.
pub proof fn edit_then_revert_is_clean(dirty: bool, edited: Seq<char>, saved: Seq<char>)
    ensures
        ({
            let (d1, _e1) = change_spec(dirty, false, edited, saved);
            let (d2, _e2) = change_spec(d1, false, saved, saved);
            !d2
        }),
{
}

} // verus!
