//! What the file watcher passes on, and when it must poll.
use vstd::prelude::*;

use crate::paths::{components, path_components, views};
use crate::text::{in_list, one_of};

verus! {

/// Directory names whose changes the panel ignores.
pub open spec fn excluded_components() -> Seq<&'static str> {
    seq!["target", "node_modules", ".git", ".next", "dist", "build", ".cache", "out"]
}

/// A path with an ignored directory name among its components.
pub open spec fn is_excluded_spec(path: Seq<char>) -> bool {
    exists|i: int| 0 <= i < components(path).len() && in_list(components(path)[i], excluded_components())
}

pub fn is_excluded(path: &str) -> (res: bool)
    ensures
        res == is_excluded_spec(path@),
{
    let list: [&str; 8] = ["target", "node_modules", ".git", ".next", "dist", "build", ".cache", "out"];
    assert(list@ == excluded_components());
    let comps = path_components(path);
    let mut i: usize = 0;
    while i < comps.len()
        invariant
            0 <= i <= comps.len(),
            views(comps@) == components(path@),
            list@ == excluded_components(),
            forall|j: int| 0 <= j < i ==> !in_list(components(path@)[j], excluded_components()),
        decreases comps.len() - i,
    {
        assert(views(comps@)[i as int] == comps@[i as int]@);
        if one_of(&comps[i], &list) {
            return true;
        }
        i += 1;
    }
    false
}

/// The paths of one batch of events that the panel acts on, in order.
pub open spec fn kept_paths(paths: Seq<Seq<char>>) -> Seq<Seq<char>> {
    paths.filter(|p: Seq<char>| !is_excluded_spec(p))
}

/// Drops the paths that lie under an ignored directory name.
pub fn filter_events(paths: Vec<String>) -> (res: Vec<String>)
    ensures
        crate::paths::views_of_strings(res@) == kept_paths(crate::paths::views_of_strings(paths@)),
{
    let ghost pv = crate::paths::views_of_strings(paths@);
    let mut out: Vec<String> = Vec::new();
    let mut i: usize = 0;
    while i < paths.len()
        invariant
            0 <= i <= paths.len(),
            pv == crate::paths::views_of_strings(paths@),
            crate::paths::views_of_strings(out@) == kept_paths(pv.subrange(0, i as int)),
        decreases paths.len() - i,
    {
        let ghost pre = pv.subrange(0, i as int);
        assert(pv.subrange(0, i + 1) =~= pre.push(pv[i as int]));
        assert(pv.subrange(0, i + 1).drop_last() =~= pre);
        reveal_with_fuel(Seq::filter, 1);
        let ghost old_out = out@;
        if !is_excluded(&paths[i]) {
            out.push(paths[i].clone());
            assert(crate::paths::views_of_strings(out@) =~= crate::paths::views_of_strings(
                old_out,
            ).push(pv[i as int]));
        }
        i += 1;
    }
    assert(pv.subrange(0, pv.len() as int) =~= pv);
    out
}

/// File systems that inotify cannot follow: NFS, SMB, CIFS and FUSE.
pub open spec fn needs_polling_spec(magic: i64) -> bool {
    magic == 0x6969 || magic == 0x517B || magic == 0xFF534D42 || magic == 0x65735546
}

/// Whether a file system with this `statfs` type must be polled.
pub fn needs_polling_for_magic(magic: i64) -> (res: bool)
    ensures
        res == needs_polling_spec(magic),
{
    magic == 0x6969 || magic == 0x517B || magic == 0xFF534D42 || magic == 0x65735546
}


/// Most changed paths handed on in one batch.
pub const MAX_PATHS_PER_TICK: usize = 10_000;

/// Adds what the watcher sent to the paths gathered so far; once they reach
/// `MAX_PATHS_PER_TICK` they are handed back as a batch and gathering starts
/// afresh.
pub fn gather_batch(merged: &mut Vec<String>, paths: Vec<String>) -> (batch: Option<Vec<String>>)
    ensures
        old(merged)@.len() + paths@.len() >= MAX_PATHS_PER_TICK ==> (batch matches Some(b) && b@ == old(merged)@ + paths@ && final(merged)@.len() == 0),
        old(merged)@.len() + paths@.len() < MAX_PATHS_PER_TICK ==> (batch is None && final(merged)@ == old(merged)@ + paths@),
{
    let mut i: usize = 0;
    let ghost start = merged@;
    while i < paths.len()
        invariant
            i <= paths.len(),
            merged@ == start + paths@.subrange(0, i as int),
        decreases paths.len() - i,
    {
        merged.push(paths[i].clone());
        assert(paths@.subrange(0, i + 1) =~= paths@.subrange(0, i as int).push(paths@[i as int]));
        i += 1;
    }
    assert(paths@.subrange(0, paths@.len() as int) =~= paths@);
    if merged.len() >= MAX_PATHS_PER_TICK {
        let mut out: Vec<String> = Vec::new();
        std::mem::swap(&mut out, merged);
        Some(out)
    } else {
        None
    }
}

} // verus!
