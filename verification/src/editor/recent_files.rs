//! The most-recently-used list of opened files.
use vstd::prelude::*;

use crate::paths::{path_eq, paths_equal, views_of_strings};

verus! {

pub const CONFIG_DIR_NAME: &'static str = "limux";

pub const RECENT_FILES_FILE_NAME: &'static str = "recent-files.json";

pub const MAX_RECENT_FILES: usize = 50;

/// Opened files, the most recent first.
#[derive(Clone, Debug)]
pub struct RecentFiles {
    pub entries: Vec<String>,
}

/// `s` without the paths equal to `p`.
pub open spec fn without(s: Seq<Seq<char>>, p: Seq<char>) -> Seq<Seq<char>> {
    s.filter(|q: Seq<char>| !path_eq(q, p))
}

/// The list after opening `p`: `p` first, its older occurrences dropped,
/// at most `MAX_RECENT_FILES` kept.
pub open spec fn push_front_spec(s: Seq<Seq<char>>, p: Seq<char>) -> Seq<Seq<char>> {
    let t = seq![p] + without(s, p);
    if t.len() > MAX_RECENT_FILES {
        t.subrange(0, MAX_RECENT_FILES as int)
    } else {
        t
    }
}

impl RecentFiles {
    pub open spec fn view(&self) -> Seq<Seq<char>> {
        views_of_strings(self.entries@)
    }

    pub fn new() -> (res: Self)
        ensures
            res.view() == Seq::<Seq<char>>::empty(),
    {
        let r = RecentFiles { entries: Vec::new() };
        assert(r.view() =~= Seq::<Seq<char>>::empty());
        r
    }

    /// Records that `path` was opened.
    pub fn push(&mut self, path: String)
        ensures
            final(self).view() == push_front_spec(old(self).view(), path@),
    {
        let ghost s = self.view();
        let ghost p = path@;
        let mut kept: Vec<String> = Vec::new();
        kept.push(path.clone());
        let mut i: usize = 0;
        while i < self.entries.len()
            invariant
                0 <= i <= self.entries.len(),
                s == views_of_strings(self.entries@),
                p == path@,
                views_of_strings(kept@) == seq![p] + without(s.subrange(0, i as int), p),
            decreases self.entries.len() - i,
        {
            let ghost pre = s.subrange(0, i as int);
            assert(s.subrange(0, i + 1) =~= pre.push(s[i as int]));
            assert(s.subrange(0, i + 1).drop_last() =~= pre);
            reveal_with_fuel(Seq::filter, 1);
            let ghost old_kept = kept@;
            if !paths_equal(&self.entries[i], &path) {
                kept.push(self.entries[i].clone());
                assert(views_of_strings(kept@) =~= views_of_strings(old_kept).push(s[i as int]));
            }
            i += 1;
        }
        assert(s.subrange(0, s.len() as int) =~= s);
        if kept.len() > MAX_RECENT_FILES {
            kept.truncate(MAX_RECENT_FILES);
            assert(views_of_strings(kept@) =~= (seq![p] + without(s, p)).subrange(
                0,
                MAX_RECENT_FILES as int,
            ));
        }
        self.entries = kept;
    }

    /// The `n` most recent entries.
    pub fn top(&self, n: usize) -> (res: Vec<String>)
        ensures
            views_of_strings(res@) == if n < self.view().len() {
                self.view().subrange(0, n as int)
            } else {
                self.view()
            },
    {
        let mut out: Vec<String> = Vec::new();
        let mut i: usize = 0;
        while i < n && i < self.entries.len()
            invariant
                0 <= i <= self.entries.len(),
                i <= n,
                views_of_strings(out@) == self.view().subrange(0, i as int),
            decreases self.entries.len() - i,
        {
            let ghost old_out = out@;
            out.push(self.entries[i].clone());
            assert(views_of_strings(out@) =~= views_of_strings(old_out).push(self.view()[i as int]));
            assert(self.view().subrange(0, i + 1) =~= self.view().subrange(0, i as int).push(
                self.view()[i as int],
            ));
            i += 1;
        }
        assert(self.view().subrange(0, self.view().len() as int) =~= self.view());
        out
    }
}

impl Default for RecentFiles {
    fn default() -> (res: Self)
        ensures
            res.view() == Seq::<Seq<char>>::empty(),
    {
        RecentFiles::new()
    }
}

/// The path just opened comes first.
pub proof fn push_puts_path_first(s: Seq<Seq<char>>, p: Seq<char>)
    ensures
        push_front_spec(s, p).len() > 0,
        push_front_spec(s, p)[0] == p,
{
}

/// The list never grows beyond `MAX_RECENT_FILES`.
pub proof fn push_is_capped(s: Seq<Seq<char>>, p: Seq<char>)
    ensures
        push_front_spec(s, p).len() <= MAX_RECENT_FILES,
{
}

/// After opening `p`, no entry but the first equals `p`.
pub proof fn push_dedupes(s: Seq<Seq<char>>, p: Seq<char>, i: int)
    requires
        1 <= i < push_front_spec(s, p).len(),
    ensures
        !path_eq(push_front_spec(s, p)[i], p),
{
    let f = without(s, p);
    assert(push_front_spec(s, p)[i] == f[i - 1]);
    s.lemma_filter_pred(|q: Seq<char>| !path_eq(q, p), i - 1);
}

} // verus!
