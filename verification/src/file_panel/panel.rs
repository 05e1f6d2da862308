//! What the file panel keeps apart from its widgets: the loaded workspaces,
//! the expanded paths saved for workspaces put aside, the active workspace,
//! and what each action of the panel does to them.
use vstd::prelude::*;

use crate::file_panel::clipboard::Clipboard;
use crate::file_panel::git::{finished_spec, request_spec, GitRefresh};
use crate::file_panel::model::{compute_desired_width, desired_width_spec, rows_fit_i32, GitStatus, Row};
use crate::file_panel::tree::{
    children_spec, first_row, plan_spec, refresh_spec, same_model, seed_all, string_views, toggle_change, toggled,
    tree_matches, with_paths, FsListing, ListChange, TreeModel,
};
use crate::paths::{parent, parent_of, views_of_strings};
use crate::text::{chars_of, dec, push_dec, push_str, str_eq, string_of};

verus! {

/// A workspace whose tree is loaded.
#[derive(Debug)]
pub struct Workspace {
    pub id: String,
    pub model: TreeModel,
    pub git: GitRefresh,
}

/// The file panel's state.
#[derive(Debug)]
pub struct PanelState {
    pub clipboard: Clipboard,
    pub cache: Vec<Workspace>,
    pub active: Option<String>,
    pub visible: bool,
    pub snapshots: Vec<(String, Vec<String>)>,
}

pub open spec fn cache_ids(c: Seq<Workspace>) -> Seq<Seq<char>> {
    c.map_values(|w: Workspace| w.id@)
}

pub open spec fn snapshot_ids(s: Seq<(String, Vec<String>)>) -> Seq<Seq<char>> {
    s.map_values(|p: (String, Vec<String>)| p.0@)
}

/// Where the workspace `id` is loaded, if it is.
pub open spec fn slot(c: Seq<Workspace>, id: Seq<char>) -> Option<int> {
    if cache_ids(c).contains(id) {
        Some(cache_ids(c).index_of(id))
    } else {
        None
    }
}

/// The expanded paths saved for `id`, if any.
pub open spec fn snapshot_of(s: Seq<(String, Vec<String>)>, id: Seq<char>) -> Option<Seq<String>> {
    if snapshot_ids(s).contains(id) {
        Some(s[snapshot_ids(s).index_of(id)].1@)
    } else {
        None
    }
}

pub open spec fn active_is(a: Option<String>, id: Seq<char>) -> bool {
    a matches Some(x) && x@ == id
}

impl PanelState {
    /// No workspace is loaded twice or has two saved snapshots.
    pub open spec fn wf(&self) -> bool {
        &&& cache_ids(self.cache@).no_duplicates()
        &&& snapshot_ids(self.snapshots@).no_duplicates()
    }
}

proof fn lemma_index_of_unique(ids: Seq<Seq<char>>, i: int)
    requires
        ids.no_duplicates(),
        0 <= i < ids.len(),
    ensures
        ids.contains(ids[i]),
        ids.index_of(ids[i]) == i,
{
    assert(ids[i] == ids[i]);
    let j = ids.index_of(ids[i]);
    assert(0 <= j < ids.len() && ids[j] == ids[i]);
}

proof fn lemma_push_ids(ids: Seq<Seq<char>>, x: Seq<char>)
    requires
        ids.no_duplicates(),
        !ids.contains(x),
    ensures
        ids.push(x).no_duplicates(),
        ids.push(x).contains(x),
        ids.push(x).index_of(x) == ids.len(),
        forall|k: Seq<char>| k != x ==> (#[trigger] ids.push(x).contains(k) == ids.contains(k)),
        forall|k: Seq<char>| k != x && ids.contains(k) ==> #[trigger] ids.push(x).index_of(k) == ids.index_of(k),
{
    let t = ids.push(x);
    assert forall|a: int, b: int| 0 <= a < t.len() && 0 <= b < t.len() && a != b implies t[a] != t[b] by {
        if a < ids.len() && b < ids.len() {
            assert(t[a] == ids[a] && t[b] == ids[b]);
        } else if a < ids.len() {
            assert(t[a] == ids[a]);
        } else if b < ids.len() {
            assert(t[b] == ids[b]);
        }
    }
    lemma_index_of_unique(t, ids.len() as int);
    assert forall|k: Seq<char>| k != x implies (#[trigger] t.contains(k) == ids.contains(k)) by {
        if t.contains(k) {
            let j = choose|j: int| 0 <= j < t.len() && t[j] == k;
            assert(j < ids.len());
            assert(ids[j] == k);
        }
        if ids.contains(k) {
            let j = choose|j: int| 0 <= j < ids.len() && ids[j] == k;
            assert(t[j] == k);
        }
    }
    assert forall|k: Seq<char>| k != x && ids.contains(k) implies #[trigger] t.index_of(k) == ids.index_of(k) by {
        let j = ids.index_of(k);
        assert(0 <= j < ids.len() && ids[j] == k);
        assert(t[j] == ids[j]);
        lemma_index_of_unique(t, j);
    }
}

proof fn lemma_remove_ids(ids: Seq<Seq<char>>, r: int)
    requires
        ids.no_duplicates(),
        0 <= r < ids.len(),
    ensures
        ids.remove(r).no_duplicates(),
        !ids.remove(r).contains(ids[r]),
        forall|k: Seq<char>| k != ids[r] ==> (#[trigger] ids.remove(r).contains(k) == ids.contains(k)),
        forall|k: Seq<char>|
            k != ids[r] && ids.contains(k) ==> #[trigger] ids.remove(r).index_of(k) == if ids.index_of(k) < r {
                ids.index_of(k)
            } else {
                ids.index_of(k) - 1
            },
{
    let t = ids.remove(r);
    assert forall|a: int, b: int| 0 <= a < t.len() && 0 <= b < t.len() && a != b implies t[a] != t[b] by {
        let a2 = if a < r { a } else { a + 1 };
        let b2 = if b < r { b } else { b + 1 };
        assert(t[a] == ids[a2] && t[b] == ids[b2]);
    }
    if t.contains(ids[r]) {
        let j = choose|j: int| 0 <= j < t.len() && t[j] == ids[r];
        let j2 = if j < r { j } else { j + 1 };
        assert(t[j] == ids[j2]);
    }
    assert forall|k: Seq<char>| k != ids[r] implies (#[trigger] t.contains(k) == ids.contains(k)) by {
        if t.contains(k) {
            let j = choose|j: int| 0 <= j < t.len() && t[j] == k;
            let j2 = if j < r { j } else { j + 1 };
            assert(t[j] == ids[j2]);
        }
        if ids.contains(k) {
            let j = choose|j: int| 0 <= j < ids.len() && ids[j] == k;
            assert(j != r);
            let j1 = if j < r { j } else { j - 1 };
            assert(t[j1] == ids[j]);
        }
    }
    assert forall|k: Seq<char>|
        k != ids[r] && ids.contains(k) implies #[trigger] t.index_of(k) == if ids.index_of(k) < r {
            ids.index_of(k)
        } else {
            ids.index_of(k) - 1
        } by {
        let j = ids.index_of(k);
        assert(0 <= j < ids.len() && ids[j] == k);
        assert(j != r);
        let j1 = if j < r { j } else { j - 1 };
        assert(t[j1] == ids[j]);
        lemma_index_of_unique(t, j1);
    }
}

/// Where `id` is loaded.
fn find_slot(c: &Vec<Workspace>, id: &str) -> (res: Option<usize>)
    requires
        cache_ids(c@).no_duplicates(),
    ensures
        match slot(c@, id@) {
            Some(i) => res matches Some(r) && r == i && 0 <= i < c@.len() && c@[i].id@ == id@,
            None => res is None,
        },
{
    let ghost ids = cache_ids(c@);
    let mut i: usize = 0;
    while i < c.len()
        invariant
            i <= c.len(),
            ids == cache_ids(c@),
            ids.no_duplicates(),
            forall|j: int| 0 <= j < i ==> ids[j] != id@,
        decreases c.len() - i,
    {
        assert(ids[i as int] == c@[i as int].id@);
        if str_eq(c[i].id.as_str(), id) {
            proof {
                lemma_index_of_unique(ids, i as int);
            }
            return Some(i);
        }
        i += 1;
    }
    proof {
        if ids.contains(id@) {
            let j = choose|j: int| 0 <= j < ids.len() && ids[j] == id@;
            assert(false);
        }
    }
    None
}

/// Where the snapshot of `id` is kept.
fn find_snapshot(s: &Vec<(String, Vec<String>)>, id: &str) -> (res: Option<usize>)
    requires
        snapshot_ids(s@).no_duplicates(),
    ensures
        snapshot_ids(s@).contains(id@) ==> (res matches Some(r) && r == snapshot_ids(s@).index_of(id@)),
        !snapshot_ids(s@).contains(id@) ==> res is None,
        res matches Some(k) ==> k < s@.len() && s@[k as int].0@ == id@,
{
    let ghost ids = snapshot_ids(s@);
    let mut i: usize = 0;
    while i < s.len()
        invariant
            i <= s.len(),
            ids == snapshot_ids(s@),
            ids.no_duplicates(),
            forall|j: int| 0 <= j < i ==> ids[j] != id@,
        decreases s.len() - i,
    {
        assert(ids[i as int] == s@[i as int].0@);
        if str_eq(s[i].0.as_str(), id) {
            proof {
                lemma_index_of_unique(ids, i as int);
            }
            return Some(i);
        }
        i += 1;
    }
    proof {
        if ids.contains(id@) {
            let j = choose|j: int| 0 <= j < ids.len() && ids[j] == id@;
            assert(false);
        }
    }
    None
}

/// Saves `paths` as the snapshot of `id`, in place of any earlier one.
fn set_snapshot(s: &mut Vec<(String, Vec<String>)>, id: String, paths: Vec<String>)
    requires
        snapshot_ids(old(s)@).no_duplicates(),
    ensures
        snapshot_ids(final(s)@).no_duplicates(),
        snapshot_of(final(s)@, id@) == Some(paths@),
        forall|k: Seq<char>| k != id@ ==> #[trigger] snapshot_of(final(s)@, k) == snapshot_of(old(s)@, k),
{
    let ghost old_s = s@;
    let ghost ids = snapshot_ids(old_s);
    let ghost idv = id@;
    let ghost pv = paths@;
    match find_snapshot(s, id.as_str()) {
        Some(k) => {
            s.set(k, (id, paths));
            assert(snapshot_ids(s@) =~= ids);
            proof {
                lemma_index_of_unique(ids, k as int);
            }
        },
        None => {
            s.push((id, paths));
            assert(snapshot_ids(s@) =~= ids.push(idv));
            proof {
                lemma_push_ids(ids, idv);
                assert forall|k: Seq<char>| k != idv implies #[trigger] snapshot_of(s@, k) == snapshot_of(old_s, k) by {
                    if ids.contains(k) {
                        let j = ids.index_of(k);
                        assert(0 <= j < ids.len() && ids[j] == k);
                        assert(s@[j] == old_s[j]);
                    }
                }
            }
        },
    }
}

/// Drops the snapshot of `id`, if there is one.
fn remove_snapshot(s: &mut Vec<(String, Vec<String>)>, id: &str)
    requires
        snapshot_ids(old(s)@).no_duplicates(),
    ensures
        snapshot_ids(final(s)@).no_duplicates(),
        snapshot_of(final(s)@, id@) is None,
        forall|k: Seq<char>| k != id@ ==> #[trigger] snapshot_of(final(s)@, k) == snapshot_of(old(s)@, k),
{
    let ghost old_s = s@;
    let ghost ids = snapshot_ids(old_s);
    match find_snapshot(s, id) {
        Some(r) => {
            s.remove(r);
            assert(snapshot_ids(s@) =~= ids.remove(r as int));
            proof {
                lemma_index_of_unique(ids, r as int);
                lemma_remove_ids(ids, r as int);
                assert forall|k: Seq<char>| k != id@ implies #[trigger] snapshot_of(s@, k) == snapshot_of(old_s, k) by {
                    if ids.contains(k) {
                        let j = ids.index_of(k);
                        assert(0 <= j < ids.len() && ids[j] == k);
                        if j < r {
                            assert(s@[j] == old_s[j]);
                        } else {
                            assert(s@[j - 1] == old_s[j]);
                        }
                    }
                }
            }
        },
        None => {},
    }
}

/// A copy of a list of paths.
fn clone_paths(v: &Vec<String>) -> (res: Vec<String>)
    ensures
        res@ == v@,
{
    let mut out: Vec<String> = Vec::new();
    let mut i: usize = 0;
    while i < v.len()
        invariant
            i <= v.len(),
            out@ == v@.subrange(0, i as int),
        decreases v.len() - i,
    {
        out.push(v[i].clone());
        assert(out@ =~= v@.subrange(0, i + 1));
        i += 1;
    }
    assert(v@.subrange(0, v@.len() as int) =~= v@);
    out
}

/// The ids among the first `n` of `ids` other than `id`, in order.
pub open spec fn others(ids: Seq<Seq<char>>, id: Seq<char>, n: int) -> Seq<Seq<char>>
    decreases n,
{
    if n <= 0 {
        Seq::empty()
    } else if ids[n - 1] == id {
        others(ids, id, n - 1)
    } else {
        others(ids, id, n - 1).push(ids[n - 1])
    }
}

/// The snapshot of `k` once every loaded workspace but `id` is put aside.
pub open spec fn snapshot_after_show(
    c: Seq<Workspace>,
    snaps: Seq<(String, Vec<String>)>,
    id: Seq<char>,
    k: Seq<char>,
) -> Option<Seq<String>> {
    match slot(c, k) {
        Some(i) => if k != id {
            Some(c[i].model.expanded_paths@)
        } else {
            snapshot_of(snaps, k)
        },
        None => snapshot_of(snaps, k),
    }
}

/// The paths a workspace opens with: those asked for, then those saved for it.
pub open spec fn seed_paths(expanded: Seq<String>, snaps: Seq<(String, Vec<String>)>, id: Seq<char>) -> Seq<String> {
    match snapshot_of(snaps, id) {
        Some(p) => expanded + p,
        None => expanded,
    }
}

/// The rows and expanded paths of a fresh tree of `root` opened with `paths`.
pub open spec fn seeded(root: Seq<char>, paths: Seq<String>, fs: Seq<FsListing>, ignored: Seq<String>) -> (
    Seq<Row>,
    Seq<String>,
) {
    let exp = with_paths(Seq::empty(), paths, paths.len() as int);
    let rows0 = children_spec(exp, Seq::empty(), ignored, false, fs, root, 0, None);
    seed_all((rows0, exp), paths, Seq::empty(), ignored, false, fs, paths.len() as int)
}

/// What showing a workspace did, for the widgets to follow.
#[derive(Debug)]
pub struct ShowOutcome {
    /// Whether anything changed: not when the workspace was active already.
    pub shown: bool,
    /// Whether its tree was loaded anew, so that its file watcher starts.
    pub built: bool,
    /// The workspaces put aside, whose file watchers stop.
    pub hibernated: Vec<String>,
    /// Whether a `git status` run starts for it.
    pub start_git: bool,
}

impl PanelState {
    /// A hidden panel with nothing loaded.
    pub fn new() -> (res: PanelState)
        ensures
            res.wf(),
            res.cache@.len() == 0,
            res.active is None,
            !res.visible,
            res.snapshots@.len() == 0,
            res.clipboard.held().len() == 0,
            res.clipboard.held_mode() is None,
    {
        let res = PanelState {
            clipboard: Clipboard::new(),
            cache: Vec::new(),
            active: None,
            visible: false,
            snapshots: Vec::new(),
        };
        assert(cache_ids(res.cache@) =~= Seq::<Seq<char>>::empty());
        assert(snapshot_ids(res.snapshots@) =~= Seq::<Seq<char>>::empty());
        res
    }

    /// Puts workspace `id` aside: its tree is dropped and its expanded paths
    /// saved, so that showing it again opens them. The active workspace stays
    /// as it is.
    pub fn hibernate_workspace(&mut self, id: &str)
        requires
            old(self).wf(),
        ensures
            final(self).wf(),
            final(self).active == old(self).active,
            final(self).visible == old(self).visible,
            final(self).clipboard == old(self).clipboard,
            match slot(old(self).cache@, id@) {
                None => final(self).cache@ == old(self).cache@ && final(self).snapshots@ == old(self).snapshots@,
                Some(i) => {
                    &&& final(self).cache@ == old(self).cache@.remove(i)
                    &&& snapshot_of(final(self).snapshots@, id@) == Some(old(self).cache@[i].model.expanded_paths@)
                    &&& forall|k: Seq<char>| k != id@ ==> #[trigger] snapshot_of(final(self).snapshots@, k) == snapshot_of(old(self).snapshots@, k)
                },
            },
    {
        let ghost ids = cache_ids(self.cache@);
        match find_slot(&self.cache, id) {
            None => {},
            Some(i) => {
                let ghost old_c = self.cache@;
                assert(slot(old_c, id@) == Some(i as int));
                let w = self.cache.remove(i);
                assert(self.cache@ == old_c.remove(i as int));
                assert(cache_ids(self.cache@) =~= ids.remove(i as int));
                proof {
                    lemma_remove_ids(ids, i as int);
                }
                set_snapshot(&mut self.snapshots, w.id, w.model.expanded_paths);
            },
        }
    }

    /// Closes workspace `id`: its tree and its saved paths are dropped, and
    /// it is no longer the active one.
    pub fn forget_workspace(&mut self, id: &str)
        requires
            old(self).wf(),
        ensures
            final(self).wf(),
            final(self).cache@ == match slot(old(self).cache@, id@) {
                Some(i) => old(self).cache@.remove(i),
                None => old(self).cache@,
            },
            final(self).active == if active_is(old(self).active, id@) {
                None
            } else {
                old(self).active
            },
            snapshot_of(final(self).snapshots@, id@) is None,
            forall|k: Seq<char>| k != id@ ==> #[trigger] snapshot_of(final(self).snapshots@, k) == snapshot_of(old(self).snapshots@, k),
            final(self).visible == old(self).visible,
            final(self).clipboard == old(self).clipboard,
    {
        let ghost ids = cache_ids(self.cache@);
        match find_slot(&self.cache, id) {
            None => {},
            Some(i) => {
                let ghost old_c = self.cache@;
                assert(slot(old_c, id@) == Some(i as int));
                self.cache.remove(i);
                assert(self.cache@ == old_c.remove(i as int));
                assert(cache_ids(self.cache@) =~= ids.remove(i as int));
                proof {
                    lemma_remove_ids(ids, i as int);
                }
            },
        }
        let is_active = match &self.active {
            Some(a) => str_eq(a.as_str(), id),
            None => false,
        };
        if is_active {
            self.active = None;
        }
        remove_snapshot(&mut self.snapshots, id);
    }

    /// Shows workspace `id`, rooted at `root`. Unless it is active already, it
    /// becomes the active one: loaded anew, when it was not loaded, with the
    /// paths `expanded` and then those saved for it expanded (`fs` and
    /// `ignored` say what the disk holds and what the ignore rules match);
    /// every other loaded workspace is put aside; and its git status is
    /// asked for.
    pub fn show_workspace(
        &mut self,
        id: String,
        root: String,
        expanded: &Vec<String>,
        fs: &Vec<FsListing>,
        ignored: Vec<String>,
    ) -> (res: ShowOutcome)
        requires
            old(self).wf(),
        ensures
            final(self).wf(),
            final(self).visible == old(self).visible,
            final(self).clipboard == old(self).clipboard,
            active_is(old(self).active, id@) ==> {
                &&& !res.shown && !res.built && res.hibernated@.len() == 0 && !res.start_git
                &&& final(self).cache@ == old(self).cache@
                &&& final(self).snapshots@ == old(self).snapshots@
                &&& final(self).active == old(self).active
            },
            !active_is(old(self).active, id@) ==> {
                &&& res.shown
                &&& final(self).active == Some(id)
                &&& final(self).cache@.len() == 1
                &&& final(self).cache@[0].id@ == id@
                &&& res.built == (slot(old(self).cache@, id@) is None)
                &&& match slot(old(self).cache@, id@) {
                    Some(i) => {
                        &&& final(self).cache@[0].model == old(self).cache@[i].model
                        &&& (final(self).cache@[0].git, res.start_git) == request_spec(old(self).cache@[i].git)
                    },
                    None => {
                        let m = final(self).cache@[0].model;
                        let paths = seed_paths(expanded@, old(self).snapshots@, id@);
                        &&& m.root == root
                        &&& (m.rows@, m.expanded_paths@) == seeded(root@, paths, fs@, ignored@)
                        &&& !m.hidden_visible
                        &&& m.git_status_map@.len() == 0
                        &&& m.ignored_cache@ == ignored@
                        &&& (final(self).cache@[0].git, res.start_git) == request_spec(
                            GitRefresh { in_flight: false, rerun_pending: false },
                        )
                    },
                }
                &&& views_of_strings(res.hibernated@) == others(cache_ids(old(self).cache@), id@, old(self).cache@.len() as int)
                &&& forall|k: Seq<char>| #[trigger] snapshot_of(final(self).snapshots@, k) == snapshot_after_show(old(self).cache@, old(self).snapshots@, id@, k)
            },
    {
        let already = match &self.active {
            Some(a) => str_eq(a.as_str(), id.as_str()),
            None => false,
        };
        if already {
            return ShowOutcome { shown: false, built: false, hibernated: Vec::new(), start_git: false };
        }
        let ghost orig = self.cache@;
        let ghost ids = cache_ids(orig);
        let ghost snaps0 = self.snapshots@;
        let mut rest: Vec<Workspace> = Vec::new();
        std::mem::swap(&mut rest, &mut self.cache);
        let ghost pre = *self;
        let mut kept: Option<Workspace> = None;
        let mut hibernated: Vec<String> = Vec::new();
        let mut j: usize = 0;
        assert(rest@ =~= orig.subrange(0, orig.len() as int));
        let n = rest.len();
        assert(orig.len() == n);
        assert(views_of_strings(hibernated@) =~= others(ids, id@, 0));
        while rest.len() > 0
            invariant
                ids == cache_ids(orig),
                ids.no_duplicates(),
                orig.len() <= usize::MAX,
                j + rest@.len() == orig.len(),
                rest@ == orig.subrange(j as int, orig.len() as int),
                self.cache@.len() == 0,
                self.clipboard == pre.clipboard,
                self.visible == pre.visible,
                self.active == pre.active,
                snapshot_ids(self.snapshots@).no_duplicates(),
                kept is Some <==> (exists|t: int| 0 <= t < j && ids[t] == id@),
                kept matches Some(w) ==> w == orig[ids.index_of(id@)],
                views_of_strings(hibernated@) == others(ids, id@, j as int),
                forall|k: Seq<char>| #[trigger] snapshot_of(self.snapshots@, k) == if k != id@ && ids.contains(k) && ids.index_of(k) < j {
                    Some(orig[ids.index_of(k)].model.expanded_paths@)
                } else {
                    snapshot_of(snaps0, k)
                },
            decreases rest.len(),
        {
            let ghost before = self.snapshots@;
            let ghost hb = hibernated@;
            let w = rest.remove(0);
            assert(w == orig[j as int]);
            assert(rest@ =~= orig.subrange(j + 1, orig.len() as int));
            assert(ids[j as int] == w.id@);
            proof {
                lemma_index_of_unique(ids, j as int);
            }
            if str_eq(w.id.as_str(), id.as_str()) {
                proof {
                    if exists|t: int| 0 <= t < j && ids[t] == id@ {
                        let t = choose|t: int| 0 <= t < j && ids[t] == id@;
                        assert(ids[t] == ids[j as int]);
                    }
                    assert forall|k: Seq<char>| #[trigger] snapshot_of(self.snapshots@, k) == if k != id@ && ids.contains(k) && ids.index_of(k) < j + 1 {
                        Some(orig[ids.index_of(k)].model.expanded_paths@)
                    } else {
                        snapshot_of(snaps0, k)
                    } by {
                        if ids.contains(k) {
                            let t = ids.index_of(k);
                            assert(0 <= t < ids.len() && ids[t] == k);
                        }
                    }
                }
                kept = Some(w);
            } else {
                let wid = w.id.clone();
                hibernated.push(wid);
                assert(views_of_strings(hibernated@) =~= views_of_strings(hb).push(w.id@));
                set_snapshot(&mut self.snapshots, w.id, w.model.expanded_paths);
                proof {
                    assert forall|k: Seq<char>| #[trigger] snapshot_of(self.snapshots@, k) == if k != id@ && ids.contains(k) && ids.index_of(k) < j + 1 {
                        Some(orig[ids.index_of(k)].model.expanded_paths@)
                    } else {
                        snapshot_of(snaps0, k)
                    } by {
                        if ids.contains(k) {
                            let t = ids.index_of(k);
                            assert(0 <= t < ids.len() && ids[t] == k);
                        }
                        if k != ids[j as int] {
                            assert(snapshot_of(self.snapshots@, k) == snapshot_of(before, k));
                        }
                    }
                }
            }
            j += 1;
        }
        proof {
            assert(j == orig.len());
            if ids.contains(id@) {
                let t = choose|t: int| 0 <= t < ids.len() && ids[t] == id@;
                assert(exists|t: int| 0 <= t < j && ids[t] == id@);
            }
            if kept is Some {
                let t = choose|t: int| 0 <= t < j && ids[t] == id@;
                assert(ids.contains(id@));
            }
            assert(snapshot_of(self.snapshots@, id@) == snapshot_of(snaps0, id@));
            assert forall|k: Seq<char>| #[trigger] snapshot_of(self.snapshots@, k) == snapshot_after_show(orig, snaps0, id@, k) by {
                if ids.contains(k) {
                    let t = ids.index_of(k);
                    assert(0 <= t < ids.len() && ids[t] == k);
                }
            }
        }
        let built = kept.is_none();
        let mut ws = match kept {
            Some(w) => w,
            None => {
                let mut paths = clone_paths(expanded);
                let ghost p0 = paths@;
                match find_snapshot(&self.snapshots, id.as_str()) {
                    Some(k) => {
                        let mut extra = clone_paths(&self.snapshots[k].1);
                        let ghost e0 = extra@;
                        paths.append(&mut extra);
                        assert(paths@ == p0 + e0);
                    },
                    None => {},
                }
                assert(paths@ == seed_paths(expanded@, snaps0, id@));
                let mut model = TreeModel::new(root);
                assert(model.expanded_paths@ =~= Seq::<String>::empty());
                assert(model.git_status_map@ =~= Seq::<(String, crate::file_panel::model::GitStatus)>::empty());
                model.seed_expansion(&paths, fs, ignored);
                Workspace { id: id.clone(), model, git: GitRefresh::new() }
            },
        };
        let start_git = ws.git.request();
        self.cache.push(ws);
        assert(cache_ids(self.cache@) =~= seq![id@]);
        self.active = Some(id);
        ShowOutcome { shown: true, built, hibernated, start_git }
    }
}


/// The workspaces `c` and `d` differ at most at `i`, which keeps its id.
pub open spec fn only_at(c: Seq<Workspace>, d: Seq<Workspace>, i: int) -> bool {
    &&& 0 <= i < c.len()
    &&& d == c.update(i, d[i])
    &&& d[i].id == c[i].id
}

/// Everything but the loaded workspaces is as it was.
pub open spec fn same_rest(a: PanelState, b: PanelState) -> bool {
    &&& a.active == b.active
    &&& a.visible == b.visible
    &&& a.clipboard == b.clipboard
    &&& a.snapshots@ == b.snapshots@
}

/// Where the active workspace is loaded, if it is.
pub open spec fn active_slot(s: PanelState) -> Option<int> {
    match s.active {
        Some(a) => slot(s.cache@, a@),
        None => None,
    }
}

/// The id of the active workspace (empty when there is none).
pub open spec fn active_id(s: PanelState) -> Seq<char> {
    match s.active {
        Some(a) => a@,
        None => Seq::empty(),
    }
}

/// `m` with `map` as its git status.
pub open spec fn with_map(m: TreeModel, map: Vec<(String, GitStatus)>) -> TreeModel {
    TreeModel {
        root: m.root,
        rows: m.rows,
        expanded_paths: m.expanded_paths,
        hidden_visible: m.hidden_visible,
        git_status_map: map,
        ignored_cache: m.ignored_cache,
    }
}

/// A model with the settings of `m` and the rows, expanded paths and ignored
/// paths of `st`.
pub open spec fn remodel(m: TreeModel, st: (bool, Seq<Row>, Seq<String>, Seq<String>)) -> TreeModel {
    choose|b: TreeModel|
        b.root == m.root && b.hidden_visible == m.hidden_visible && b.git_status_map@ == m.git_status_map@
            && b.rows@ == st.1 && b.expanded_paths@ == st.2 && b.ignored_cache@ == st.3
}

/// Refreshing the first `n` of `parents` in turn: whether the rows changed,
/// and the model after.
pub open spec fn refresh_all(
    m: TreeModel,
    parents: Seq<Seq<char>>,
    fs: Seq<FsListing>,
    ignored: Seq<String>,
    n: int,
) -> (bool, TreeModel)
    decreases n,
{
    if n <= 0 {
        (false, m)
    } else {
        let prev = refresh_all(m, parents, fs, ignored, n - 1);
        let r = refresh_spec(prev.1, parents[n - 1], fs, ignored);
        (prev.0 || r.0, remodel(prev.1, r))
    }
}

proof fn lemma_put_back(c: Seq<Workspace>, i: int, w: Workspace)
    requires
        0 <= i < c.len(),
        w.id == c[i].id,
    ensures
        c.remove(i).insert(i, w) == c.update(i, w),
        only_at(c, c.update(i, w), i),
        cache_ids(c.update(i, w)) == cache_ids(c),
{
    assert(c.remove(i).insert(i, w) =~= c.update(i, w));
    assert(c.update(i, w) =~= c.update(i, w).update(i, c.update(i, w)[i]));
    assert(cache_ids(c.update(i, w)) =~= cache_ids(c));
}

proof fn lemma_refresh_same_model(a: TreeModel, b: TreeModel, parent: Seq<char>, fs: Seq<FsListing>, ignored: Seq<String>)
    requires
        same_model(a, b),
    ensures
        refresh_spec(a, parent, fs, ignored) == refresh_spec(b, parent, fs, ignored),
{
    assert(tree_matches(a, fs) == tree_matches(b, fs));
}

/// What the result of a `git status` run did.
#[derive(Debug, Clone, Copy, PartialEq, Eq, Structural)]
pub struct GitApplied {
    /// Whether the rows shown change.
    pub redraw: bool,
    /// Whether another run starts.
    pub start_git: bool,
}

/// What a batch of changed paths did.
#[derive(Debug, Clone, Copy, PartialEq, Eq, Structural)]
pub struct WatchOutcome {
    /// Whether the rows shown change.
    pub redraw: bool,
    /// Whether a `git status` run starts.
    pub start_git: bool,
}

impl PanelState {
    /// Asks for the git status of workspace `id`: a run starts unless one is
    /// under way, in which case one more is remembered for when it ends.
    pub fn refresh_git_for(&mut self, id: &str) -> (start: bool)
        requires
            old(self).wf(),
        ensures
            final(self).wf(),
            same_rest(*final(self), *old(self)),
            match slot(old(self).cache@, id@) {
                None => !start && final(self).cache@ == old(self).cache@,
                Some(i) => {
                    &&& only_at(old(self).cache@, final(self).cache@, i)
                    &&& final(self).cache@[i].model == old(self).cache@[i].model
                    &&& (final(self).cache@[i].git, start) == request_spec(old(self).cache@[i].git)
                },
            },
    {
        match find_slot(&self.cache, id) {
            None => false,
            Some(i) => {
                let ghost c0 = self.cache@;
                let mut w = self.cache.remove(i);
                let start = w.git.request();
                self.cache.insert(i, w);
                proof {
                    lemma_put_back(c0, i as int, self.cache@[i as int]);
                }
                start
            },
        }
    }

    /// A `git status` run of workspace `id` ended without a result: nothing
    /// is under way or pending for it any more.
    pub fn git_abandoned(&mut self, id: &str)
        requires
            old(self).wf(),
        ensures
            final(self).wf(),
            same_rest(*final(self), *old(self)),
            match slot(old(self).cache@, id@) {
                None => final(self).cache@ == old(self).cache@,
                Some(i) => {
                    &&& only_at(old(self).cache@, final(self).cache@, i)
                    &&& final(self).cache@[i].model == old(self).cache@[i].model
                    &&& !final(self).cache@[i].git.in_flight && !final(self).cache@[i].git.rerun_pending
                },
            },
    {
        match find_slot(&self.cache, id) {
            None => {},
            Some(i) => {
                let ghost c0 = self.cache@;
                let mut w = self.cache.remove(i);
                w.git.abandoned();
                self.cache.insert(i, w);
                proof {
                    lemma_put_back(c0, i as int, self.cache@[i as int]);
                }
            },
        }
    }

    /// The statuses `map` of a `git status` run of workspace `id` arrived:
    /// they decorate its rows, the tree is refreshed from its root, and the
    /// run ends, another one starting when one was asked for meanwhile.
    pub fn apply_git_result(
        &mut self,
        id: &str,
        map: Vec<(String, GitStatus)>,
        fs: &Vec<FsListing>,
        ignored: Vec<String>,
    ) -> (res: GitApplied)
        requires
            old(self).wf(),
        ensures
            final(self).wf(),
            same_rest(*final(self), *old(self)),
            match slot(old(self).cache@, id@) {
                None => final(self).cache@ == old(self).cache@ && !res.redraw && !res.start_git,
                Some(i) => {
                    let m0 = with_map(old(self).cache@[i].model, map);
                    let r = refresh_spec(m0, m0.root@, fs@, ignored@);
                    let fin = finished_spec(old(self).cache@[i].git);
                    let m = final(self).cache@[i].model;
                    &&& only_at(old(self).cache@, final(self).cache@, i)
                    &&& m.root == m0.root
                    &&& m.hidden_visible == m0.hidden_visible
                    &&& m.git_status_map@ == map@
                    &&& m.rows@ == r.1
                    &&& m.expanded_paths@ == r.2
                    &&& m.ignored_cache@ == r.3
                    &&& res.redraw == (active_is(old(self).active, id@) && r.0)
                    &&& (final(self).cache@[i].git, res.start_git) == if fin.1 {
                        request_spec(fin.0)
                    } else {
                        (fin.0, false)
                    }
                },
            },
    {
        let is_active = match &self.active {
            Some(a) => str_eq(a.as_str(), id),
            None => false,
        };
        match find_slot(&self.cache, id) {
            None => GitApplied { redraw: false, start_git: false },
            Some(i) => {
                let ghost c0 = self.cache@;
                let ghost mapv = map;
                let mut w = self.cache.remove(i);
                let ghost m0 = w.model;
                w.model.set_git_status_map(map);
                proof {
                    assert(same_model(w.model, with_map(m0, mapv)));
                    lemma_refresh_same_model(w.model, with_map(m0, mapv), w.model.root@, fs@, ignored@);
                }
                let root = w.model.root.clone();
                let changed = w.model.refresh_subtree(root.as_str(), fs, ignored);
                let rerun = w.git.finished();
                let start = if rerun {
                    w.git.request()
                } else {
                    false
                };
                self.cache.insert(i, w);
                proof {
                    lemma_put_back(c0, i as int, self.cache@[i as int]);
                }
                GitApplied { redraw: is_active && changed, start_git: start }
            },
        }
    }

    /// The file watcher of workspace `id` reports the changed `paths`. For the
    /// active workspace, the directories that `TreeModel::watcher_plan` picks
    /// are refreshed in turn, and a path inside `.git` asks for the git
    /// status; any other workspace is left alone.
    pub fn on_watcher_event(
        &mut self,
        id: &str,
        paths: Vec<String>,
        fs: &Vec<FsListing>,
        ignored: &Vec<String>,
    ) -> (res: WatchOutcome)
        requires
            old(self).wf(),
        ensures
            final(self).wf(),
            same_rest(*final(self), *old(self)),
            !active_is(old(self).active, id@) || slot(old(self).cache@, id@) is None ==> {
                &&& final(self).cache@ == old(self).cache@
                &&& !res.redraw && !res.start_git
            },
            active_is(old(self).active, id@) ==> match slot(old(self).cache@, id@) {
                None => true,
                Some(i) => {
                    let m0 = old(self).cache@[i].model;
                    let plan = plan_spec(m0, paths@);
                    let after = refresh_all(m0, plan.0, fs@, ignored@, plan.0.len() as int);
                    &&& only_at(old(self).cache@, final(self).cache@, i)
                    &&& same_model(final(self).cache@[i].model, after.1)
                    &&& res.redraw == after.0
                    &&& (final(self).cache@[i].git, res.start_git) == if plan.1 {
                        request_spec(old(self).cache@[i].git)
                    } else {
                        (old(self).cache@[i].git, false)
                    }
                },
            },
    {
        let is_active = match &self.active {
            Some(a) => str_eq(a.as_str(), id),
            None => false,
        };
        if !is_active {
            return WatchOutcome { redraw: false, start_git: false };
        }
        match find_slot(&self.cache, id) {
            None => WatchOutcome { redraw: false, start_git: false },
            Some(i) => {
                let ghost c0 = self.cache@;
                let mut w = self.cache.remove(i);
                let ghost m0 = w.model;
                let ghost w0 = w;
                let plan = w.model.watcher_plan(paths);
                let ghost pv = string_views(plan.refresh@);
                let mut changed = false;
                let mut k: usize = 0;
                while k < plan.refresh.len()
                    invariant
                        k <= plan.refresh.len(),
                        pv == string_views(plan.refresh@),
                        w.id == w0.id,
                        w.git == w0.git,
                        changed == refresh_all(m0, pv, fs@, ignored@, k as int).0,
                        same_model(w.model, refresh_all(m0, pv, fs@, ignored@, k as int).1),
                    decreases plan.refresh.len() - k,
                {
                    let ghost prev = refresh_all(m0, pv, fs@, ignored@, k as int);
                    assert(pv[k as int] == plan.refresh@[k as int]@);
                    proof {
                        lemma_refresh_same_model(w.model, prev.1, pv[k as int], fs@, ignored@);
                    }
                    let ig = clone_paths(ignored);
                    let c = w.model.refresh_subtree(plan.refresh[k].as_str(), fs, ig);
                    proof {
                        let r = refresh_spec(prev.1, pv[k as int], fs@, ignored@);
                        let b = w.model;
                        assert(b.root == prev.1.root && b.hidden_visible == prev.1.hidden_visible
                            && b.git_status_map@ == prev.1.git_status_map@ && b.rows@ == r.1
                            && b.expanded_paths@ == r.2 && b.ignored_cache@ == r.3);
                    }
                    changed = changed || c;
                    k += 1;
                }
                let start = if plan.refresh_git {
                    w.git.request()
                } else {
                    false
                };
                self.cache.insert(i, w);
                proof {
                    lemma_put_back(c0, i as int, self.cache@[i as int]);
                }
                WatchOutcome { redraw: changed, start_git: start }
            },
        }
    }
}


impl PanelState {
    /// The user opened or closed the row of `path` in the active workspace: a
    /// directory row is toggled (see `TreeModel::toggle_expand`); a row at
    /// the deepest depth there is, or no row, is left alone.
    pub fn toggle_expand_path(&mut self, path: &str, fs: &Vec<FsListing>) -> (res: Option<ListChange>)
        requires
            old(self).wf(),
        ensures
            final(self).wf(),
            same_rest(*final(self), *old(self)),
            match active_slot(*old(self)) {
                None => res is None && final(self).cache@ == old(self).cache@,
                Some(i) => match first_row(old(self).cache@[i].model.rows@, path@) {
                    None => res is None && final(self).cache@ == old(self).cache@,
                    Some(k) => if old(self).cache@[i].model.rows@[k].depth == u32::MAX {
                        res is None && final(self).cache@ == old(self).cache@
                    } else {
                        &&& only_at(old(self).cache@, final(self).cache@, i)
                        &&& final(self).cache@[i].git == old(self).cache@[i].git
                        &&& toggled(old(self).cache@[i].model, final(self).cache@[i].model, k, fs@, res is Some)
                        &&& toggle_change(old(self).cache@[i].model, k, fs@, res)
                    },
                },
            },
    {
        let i = match &self.active {
            Some(a) => match find_slot(&self.cache, a.as_str()) {
                Some(i) => i,
                None => {
                    return None;
                },
            },
            None => {
                return None;
            },
        };
        let k = match self.cache[i].model.find_row(path) {
            Some(k) => k,
            None => {
                return None;
            },
        };
        if self.cache[i].model.rows[k].depth == u32::MAX {
            return None;
        }
        let ghost c0 = self.cache@;
        let mut w = self.cache.remove(i);
        let change = w.model.toggle_expand(k, fs);
        self.cache.insert(i, w);
        proof {
            lemma_put_back(c0, i as int, self.cache@[i as int]);
        }
        change
    }

    /// "Collapse all", or "restore" when nothing is expanded: collapsing the
    /// active workspace saves its expanded paths as its snapshot; restoring
    /// expands the snapshot again, and does nothing without one. Says whether
    /// the rows shown change.
    pub fn collapse_all_or_restore(&mut self, fs: &Vec<FsListing>, ignored: Vec<String>) -> (res: bool)
        requires
            old(self).wf(),
        ensures
            final(self).wf(),
            final(self).active == old(self).active,
            final(self).visible == old(self).visible,
            final(self).clipboard == old(self).clipboard,
            match active_slot(*old(self)) {
                None => !res && final(self).cache@ == old(self).cache@ && final(self).snapshots@ == old(self).snapshots@,
                Some(i) => {
                    let m0 = old(self).cache@[i].model;
                    let a = active_id(*old(self));
                    let m = final(self).cache@[i].model;
                    let settled = {
                        &&& only_at(old(self).cache@, final(self).cache@, i)
                        &&& final(self).cache@[i].git == old(self).cache@[i].git
                        &&& m.root == m0.root
                        &&& m.hidden_visible == m0.hidden_visible
                        &&& m.git_status_map@ == m0.git_status_map@
                        &&& m.ignored_cache@ == ignored@
                    };
                    if m0.expanded_paths@.len() == 0 {
                        match snapshot_of(old(self).snapshots@, a) {
                            None => !res && final(self).cache@ == old(self).cache@ && final(self).snapshots@ == old(self).snapshots@,
                            Some(saved) => {
                                &&& res
                                &&& settled
                                &&& m.expanded_paths@ == saved
                                &&& m.rows@ == children_spec(saved, m0.git_status_map@, ignored@, m0.hidden_visible, fs@, m0.root@, 0, None)
                                &&& final(self).snapshots@ == old(self).snapshots@
                            },
                        }
                    } else {
                        &&& res
                        &&& settled
                        &&& m.expanded_paths@.len() == 0
                        &&& m.rows@ == children_spec(Seq::empty(), m0.git_status_map@, ignored@, m0.hidden_visible, fs@, m0.root@, 0, None)
                        &&& snapshot_of(final(self).snapshots@, a) == Some(m0.expanded_paths@)
                        &&& forall|k: Seq<char>| k != a ==> #[trigger] snapshot_of(final(self).snapshots@, k) == snapshot_of(old(self).snapshots@, k)
                    }
                },
            },
    {
        let a = match &self.active {
            Some(a) => a.clone(),
            None => {
                return false;
            },
        };
        let i = match find_slot(&self.cache, a.as_str()) {
            Some(i) => i,
            None => {
                return false;
            },
        };
        let ghost c0 = self.cache@;
        if self.cache[i].model.expanded_paths.len() == 0 {
            let k = match find_snapshot(&self.snapshots, a.as_str()) {
                Some(k) => k,
                None => {
                    return false;
                },
            };
            let saved = clone_paths(&self.snapshots[k].1);
            let mut w = self.cache.remove(i);
            w.model.collapse_all_or_restore(Some(saved), fs, ignored);
            self.cache.insert(i, w);
            proof {
                lemma_put_back(c0, i as int, self.cache@[i as int]);
            }
            true
        } else {
            let mut w = self.cache.remove(i);
            let keep = w.model.collapse_all_or_restore(None, fs, ignored);
            self.cache.insert(i, w);
            proof {
                lemma_put_back(c0, i as int, self.cache@[i as int]);
            }
            match keep {
                Some(kp) => set_snapshot(&mut self.snapshots, a, kp),
                None => {},
            }
            true
        }
    }

    /// Shows or hides the hidden files of the active workspace, listing its
    /// root again. Says whether there was an active workspace.
    pub fn toggle_hidden(&mut self, fs: &Vec<FsListing>, ignored: Vec<String>) -> (res: bool)
        requires
            old(self).wf(),
        ensures
            final(self).wf(),
            same_rest(*final(self), *old(self)),
            match active_slot(*old(self)) {
                None => !res && final(self).cache@ == old(self).cache@,
                Some(i) => {
                    let m0 = old(self).cache@[i].model;
                    let m = final(self).cache@[i].model;
                    &&& res
                    &&& only_at(old(self).cache@, final(self).cache@, i)
                    &&& final(self).cache@[i].git == old(self).cache@[i].git
                    &&& m.root == m0.root
                    &&& m.hidden_visible == !m0.hidden_visible
                    &&& m.git_status_map@ == m0.git_status_map@
                    &&& m.expanded_paths@ == m0.expanded_paths@
                    &&& m.ignored_cache@ == ignored@
                    &&& m.rows@ == children_spec(m0.expanded_paths@, m0.git_status_map@, ignored@, !m0.hidden_visible, fs@, m0.root@, 0, None)
                },
            },
    {
        let i = match &self.active {
            Some(a) => match find_slot(&self.cache, a.as_str()) {
                Some(i) => i,
                None => {
                    return false;
                },
            },
            None => {
                return false;
            },
        };
        let ghost c0 = self.cache@;
        let mut w = self.cache.remove(i);
        let hv = w.model.hidden_visible;
        w.model.set_hidden_visible(!hv);
        w.model.rebuild_visible(fs, ignored);
        self.cache.insert(i, w);
        proof {
            lemma_put_back(c0, i as int, self.cache@[i as int]);
        }
        true
    }

    /// Flips whether the panel is shown; says whether it is now.
    pub fn toggle_visible(&mut self) -> (res: bool)
        ensures
            final(self).visible == !old(self).visible,
            res == final(self).visible,
            final(self).cache@ == old(self).cache@,
            final(self).snapshots@ == old(self).snapshots@,
            final(self).active == old(self).active,
            final(self).clipboard == old(self).clipboard,
    {
        self.visible = !self.visible;
        self.visible
    }

    pub fn set_visible(&mut self, v: bool)
        ensures
            final(self).visible == v,
            final(self).cache@ == old(self).cache@,
            final(self).snapshots@ == old(self).snapshots@,
            final(self).active == old(self).active,
            final(self).clipboard == old(self).clipboard,
    {
        self.visible = v;
    }

    pub fn is_visible(&self) -> (res: bool)
        ensures
            res == self.visible,
    {
        self.visible
    }

    /// The root of the active workspace, when it is loaded.
    pub fn current_root(&self) -> (res: Option<String>)
        requires
            self.wf(),
        ensures
            match active_slot(*self) {
                None => res is None,
                Some(i) => res == Some(self.cache@[i].model.root),
            },
    {
        match &self.active {
            Some(a) => match find_slot(&self.cache, a.as_str()) {
                Some(i) => Some(self.cache[i].model.root.clone()),
                None => None,
            },
            None => None,
        }
    }

    /// The width the panel asks for: that of the rows of the active
    /// workspace (see `compute_desired_width`), or 200 when none is loaded.
    pub fn desired_width(&self) -> (res: i32)
        requires
            self.wf(),
            active_slot(*self) matches Some(i) ==> rows_fit_i32(self.cache@[i].model.rows@),
        ensures
            res == match active_slot(*self) {
                None => 200,
                Some(i) => desired_width_spec(self.cache@[i].model.rows@),
            },
    {
        match &self.active {
            Some(a) => match find_slot(&self.cache, a.as_str()) {
                Some(i) => compute_desired_width(&self.cache[i].model.rows),
                None => 200,
            },
            None => 200,
        }
    }
}


/// Law: a workspace put aside with `expanded` paths open, and shown again
/// with `asked` paths, opens `asked` and then every one of those paths: the
/// snapshot that `hibernate_workspace` saves is what `show_workspace` seeds
/// the new tree with.
pub proof fn reshow_opens_saved_paths(
    snaps: Seq<(String, Vec<String>)>,
    id: Seq<char>,
    expanded: Seq<String>,
    asked: Seq<String>,
)
    requires
        snapshot_of(snaps, id) == Some(expanded),
    ensures
        seed_paths(asked, snaps, id) == asked + expanded,
        forall|j: int| 0 <= j < expanded.len() ==> seed_paths(asked, snaps, id)[asked.len() + j] == expanded[j],
{
}


/// The directory that a new file or a paste goes into: the first selected
/// path (`first_selected`, with whether it is a directory) when it is a
/// directory, else its parent; the root when nothing is selected or the
/// path has no parent.
pub open spec fn target_parent_spec(first_selected: Option<(Seq<char>, bool)>, root: Seq<char>) -> Seq<char> {
    match first_selected {
        None => root,
        Some((p, is_dir)) => if is_dir {
            p
        } else {
            match parent(p) {
                Some(q) => q,
                None => root,
            }
        },
    }
}

pub fn target_parent(first_selected: Option<(&str, bool)>, root: &str) -> (res: String)
    ensures
        res@ == target_parent_spec(
            match first_selected {
                Some((p, d)) => Some((p@, d)),
                None => None,
            },
            root@,
        ),
{
    match first_selected {
        None => string_of(&chars_of(root)),
        Some((p, is_dir)) => {
            if is_dir {
                string_of(&chars_of(p))
            } else {
                match parent_of(p) {
                    Some(q) => q,
                    None => string_of(&chars_of(root)),
                }
            }
        },
    }
}

/// The name given to a new entry: `"{default}-{n}-{nanos}"`, from a counter
/// of the names given so far and the nanoseconds of the current second.
pub fn untitled_name(default: &str, n: u32, nanos: u32) -> (res: String)
    ensures
        res@ == default@ + seq!['-'] + dec(n as nat) + seq!['-'] + dec(nanos as nat),
{
    let mut v: Vec<char> = Vec::new();
    push_str(&mut v, default);
    v.push('-');
    push_dec(&mut v, n as u64);
    v.push('-');
    push_dec(&mut v, nanos as u64);
    assert(v@ =~= default@ + seq!['-'] + dec(n as nat) + seq!['-'] + dec(nanos as nat));
    string_of(&v)
}

} // verus!
