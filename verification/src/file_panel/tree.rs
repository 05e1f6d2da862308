//! The file tree as rows: which directories are expanded, and what a
//! listing of the file system puts under each.
use vstd::prelude::*;

use crate::file_panel::model::{priority_of, GitStatus, Kind, Row};
use crate::order::{is_ranking, key_views, ranked, sort_order};
use crate::paths::{
    components, file_name, file_name_of, parent, parent_of, path_components, path_eq,
    path_starts_with, paths_equal, starts_with_path, views,
};
use crate::text::{chars_of, to_lowercase, lowercase};

verus! {

/// One entry of a directory, as reading the directory gave it: its path, its
/// file name and what it is.
#[derive(Clone, Debug)]
pub struct DirEntry {
    pub path: String,
    pub name: String,
    pub kind: Kind,
}

/// What reading the directory `dir` gave. A directory that could not be read
/// has no listing.
#[derive(Clone, Debug)]
pub struct FsListing {
    pub dir: String,
    pub entries: Vec<DirEntry>,
}

/// The rows of the tree and what decides them.
#[derive(Debug)]
pub struct TreeModel {
    pub root: String,
    pub rows: Vec<Row>,
    pub expanded_paths: Vec<String>,
    pub hidden_visible: bool,
    pub git_status_map: Vec<(String, GitStatus)>,
    pub ignored_cache: Vec<String>,
}

/// A change to the list of rows: `removed` rows at `at` give way to `rows`.
#[derive(Clone, Debug)]
pub enum ListChange {
    Replace { at: u32, removed: u32, rows: Vec<Row> },
}

// ---------------------------------------------------------------------------
// Sets of paths, compared as paths
// ---------------------------------------------------------------------------

/// `p` is among `v`, as `HashSet<PathBuf>::contains` decides.
pub open spec fn in_paths(v: Seq<String>, p: Seq<char>) -> bool {
    exists|i: int| 0 <= i < v.len() && path_eq(#[trigger] v[i]@, p)
}

/// `v` with `p` added, where it is not among them yet.
pub open spec fn with_path(v: Seq<String>, p: String) -> Seq<String> {
    if in_paths(v, p@) {
        v
    } else {
        v.push(p)
    }
}

pub fn contains_path(v: &Vec<String>, p: &str) -> (res: bool)
    ensures
        res == in_paths(v@, p@),
{
    let mut i: usize = 0;
    while i < v.len()
        invariant
            i <= v.len(),
            forall|j: int| 0 <= j < i ==> !path_eq(#[trigger] v@[j]@, p@),
        decreases v.len() - i,
    {
        if paths_equal(v[i].as_str(), p) {
            return true;
        }
        i += 1;
    }
    false
}

fn insert_path(v: &mut Vec<String>, p: String)
    ensures
        final(v)@ == with_path(old(v)@, p),
{
    if !contains_path(v, p.as_str()) {
        v.push(p);
    }
}

/// Removes every path that equals `p`.
fn remove_path(v: &mut Vec<String>, p: &str)
    ensures
        forall|q: Seq<char>| #[trigger] in_paths(final(v)@, q) <==> (in_paths(old(v)@, q) && !path_eq(p@, q)),
{
    let mut kept: Vec<String> = Vec::new();
    let mut i: usize = 0;
    while i < v.len()
        invariant
            i <= v.len(),
            v@ == old(v)@,
            forall|j: int| 0 <= j < kept.len() ==> !path_eq(#[trigger] kept@[j]@, p@),
            forall|q: Seq<char>| in_paths(kept@, q) <==> (exists|j: int| 0 <= j < i && path_eq(#[trigger] v@[j]@, q) && !path_eq(p@, v@[j]@)),
        decreases v.len() - i,
    {
        let ghost old_kept = kept@;
        if !paths_equal(p, v[i].as_str()) {
            kept.push(v[i].clone());
        }
        proof {
            assert forall|q: Seq<char>| in_paths(kept@, q) <==> (exists|j: int| 0 <= j < i + 1 && path_eq(#[trigger] v@[j]@, q) && !path_eq(p@, v@[j]@)) by {
                if in_paths(kept@, q) {
                    let k = choose|k: int| 0 <= k < kept@.len() && path_eq(#[trigger] kept@[k]@, q);
                    if k < old_kept.len() {
                        assert(old_kept[k] == kept@[k]);
                        assert(in_paths(old_kept, q));
                    }
                }
                if exists|j: int| 0 <= j < i + 1 && path_eq(#[trigger] v@[j]@, q) && !path_eq(p@, v@[j]@) {
                    let j = choose|j: int| 0 <= j < i + 1 && path_eq(#[trigger] v@[j]@, q) && !path_eq(p@, v@[j]@);
                    if j < i {
                        assert(in_paths(old_kept, q));
                        let k = choose|k: int| 0 <= k < old_kept.len() && path_eq(#[trigger] old_kept[k]@, q);
                        assert(kept@[k] == old_kept[k]);
                    } else {
                        assert(kept@[kept@.len() - 1] == v@[i as int]);
                    }
                }
            }
        }
        i += 1;
    }
    proof {
        assert forall|q: Seq<char>| in_paths(kept@, q) <==> (in_paths(old(v)@, q) && !path_eq(p@, q)) by {
            if in_paths(old(v)@, q) && !path_eq(p@, q) {
                let j = choose|j: int| 0 <= j < old(v)@.len() && path_eq(#[trigger] old(v)@[j]@, q);
                assert(!path_eq(p@, v@[j]@));
            }
        }
    }
    *v = kept;
}


// ---------------------------------------------------------------------------
// Git status of a row
// ---------------------------------------------------------------------------

/// The status recorded for `p`: the last entry for that path (a later
/// record overrides an earlier one, as in a map), else clean.
pub open spec fn status_of(map: Seq<(String, GitStatus)>, p: Seq<char>) -> GitStatus
    decreases map.len(),
{
    if map.len() == 0 {
        GitStatus::Clean
    } else if path_eq(map.last().0@, p) {
        map.last().1
    } else {
        status_of(map.drop_last(), p)
    }
}

/// Entry `i` is the last one for its path: no later entry overrides it.
pub open spec fn live(map: Seq<(String, GitStatus)>, i: int) -> bool {
    forall|j: int| i < j < map.len() ==> !path_eq(#[trigger] map[j].0@, map[i].0@)
}

/// The strongest status among the first `n` entries that are at or below
/// directory `dir` and not overridden by a later entry (clean when none is).
pub open spec fn rollup_upto(map: Seq<(String, GitStatus)>, dir: Seq<char>, n: int) -> GitStatus
    decreases n,
{
    if n <= 0 {
        GitStatus::Clean
    } else {
        let best = rollup_upto(map, dir, n - 1);
        let e = map[n - 1];
        if path_starts_with(e.0@, dir) && priority_of(e.1) > priority_of(best) && live(map, n - 1) {
            e.1
        } else {
            best
        }
    }
}

/// The strongest status recorded at or below directory `dir`, each path
/// counted by its last entry (clean when none is).
pub open spec fn rollup(map: Seq<(String, GitStatus)>, dir: Seq<char>) -> GitStatus {
    rollup_upto(map, dir, map.len() as int)
}

fn lookup_status(map: &Vec<(String, GitStatus)>, p: &str) -> (res: GitStatus)
    ensures
        res == status_of(map@, p@),
{
    let mut i: usize = map.len();
    assert(map@.subrange(0, map@.len() as int) =~= map@);
    while i > 0
        invariant
            i <= map.len(),
            status_of(map@, p@) == status_of(map@.subrange(0, i as int), p@),
        decreases i,
    {
        proof {
            let pre = map@.subrange(0, i as int);
            assert(pre.last() == map@[i - 1]);
            assert(pre.drop_last() =~= map@.subrange(0, i - 1));
        }
        if paths_equal(map[i - 1].0.as_str(), p) {
            return map[i - 1].1;
        }
        i -= 1;
    }
    GitStatus::Clean
}

fn is_live(map: &Vec<(String, GitStatus)>, i: usize) -> (res: bool)
    requires
        i < map.len(),
    ensures
        res == live(map@, i as int),
{
    let mut j: usize = i + 1;
    while j < map.len()
        invariant
            i < j <= map.len(),
            forall|k: int| i < k < j ==> !path_eq(#[trigger] map@[k].0@, map@[i as int].0@),
        decreases map.len() - j,
    {
        if paths_equal(map[j].0.as_str(), map[i].0.as_str()) {
            return false;
        }
        j += 1;
    }
    true
}

fn rollup_status(map: &Vec<(String, GitStatus)>, dir: &str) -> (res: GitStatus)
    ensures
        res == rollup(map@, dir@),
{
    let mut best = GitStatus::Clean;
    let mut i: usize = 0;
    while i < map.len()
        invariant
            i <= map.len(),
            best == rollup_upto(map@, dir@, i as int),
        decreases map.len() - i,
    {
        if starts_with_path(map[i].0.as_str(), dir) && map[i].1.priority() > best.priority() && is_live(map, i) {
            best = map[i].1;
        }
        i += 1;
    }
    best
}

// ---------------------------------------------------------------------------
// Children of a directory
// ---------------------------------------------------------------------------

/// The entries that reading `dir` gave (none where it could not be read).
pub open spec fn entries_for(fs: Seq<FsListing>, dir: Seq<char>) -> Seq<DirEntry>
    decreases fs.len(),
{
    if fs.len() == 0 {
        Seq::empty()
    } else if path_eq(fs[0].dir@, dir) {
        fs[0].entries@
    } else {
        entries_for(fs.drop_first(), dir)
    }
}

pub open spec fn is_hidden(e: DirEntry) -> bool {
    e.name@.len() > 0 && e.name@[0] == '.'
}

/// The entries shown: hidden ones (whose name starts with `.`) only when
/// hidden files are visible.
pub open spec fn shown(es: Seq<DirEntry>, hidden_visible: bool) -> Seq<DirEntry>
    decreases es.len(),
{
    if es.len() == 0 {
        Seq::empty()
    } else {
        let prev = shown(es.drop_last(), hidden_visible);
        if hidden_visible || !is_hidden(es.last()) {
            prev.push(es.last())
        } else {
            prev
        }
    }
}

/// Directories first, then by lower-case name.
pub open spec fn child_keys(es: Seq<DirEntry>) -> Seq<(int, Seq<char>)> {
    es.map_values(|e: DirEntry| (if e.kind == Kind::Dir { 1int } else { 0int }, lowercase(e.name@)))
}

/// The row for entry `e` at `depth`, under the row at `parent`, where `exp`
/// are the expanded paths.
pub open spec fn child_row(
    exp: Seq<String>,
    map: Seq<(String, GitStatus)>,
    ignored: Seq<String>,
    e: DirEntry,
    depth: u32,
    parent: Option<usize>,
) -> Row {
    Row {
        path: e.path,
        depth,
        kind: e.kind,
        expanded: in_paths(exp, e.path@),
        git_status: if e.kind == Kind::Dir {
            rollup(map, e.path@)
        } else {
            status_of(map, e.path@)
        },
        parent_idx: parent,
        ignored: in_paths(ignored, e.path@),
    }
}

/// The rows for the children of `dir`, in order.
pub open spec fn children_spec(
    exp: Seq<String>,
    map: Seq<(String, GitStatus)>,
    ignored: Seq<String>,
    hidden_visible: bool,
    fs: Seq<FsListing>,
    dir: Seq<char>,
    depth: u32,
    parent: Option<usize>,
) -> Seq<Row> {
    let vis = shown(entries_for(fs, dir), hidden_visible);
    let order = ranked(child_keys(vis));
    Seq::new(vis.len(), |i: int| child_row(exp, map, ignored, vis[order[i] as int], depth, parent))
}

fn listing_index(fs: &Vec<FsListing>, dir: &str) -> (res: Option<usize>)
    ensures
        match res {
            Some(i) => i < fs.len() && entries_for(fs@, dir@) == fs@[i as int].entries@,
            None => entries_for(fs@, dir@) == Seq::<DirEntry>::empty(),
        },
{
    let mut i: usize = 0;
    assert(fs@.subrange(0, fs@.len() as int) =~= fs@);
    while i < fs.len()
        invariant
            i <= fs.len(),
            entries_for(fs@, dir@) == entries_for(fs@.subrange(i as int, fs@.len() as int), dir@),
        decreases fs.len() - i,
    {
        proof {
            let rest = fs@.subrange(i as int, fs@.len() as int);
            assert(rest[0] == fs@[i as int]);
            assert(rest.drop_first() =~= fs@.subrange(i + 1, fs@.len() as int));
        }
        if paths_equal(fs[i].dir.as_str(), dir) {
            return Some(i);
        }
        i += 1;
    }
    None
}

fn copy_entry(e: &DirEntry) -> (res: DirEntry)
    ensures
        res == *e,
{
    DirEntry { path: e.path.clone(), name: e.name.clone(), kind: e.kind }
}

fn shown_entries(es: &Vec<DirEntry>, hidden_visible: bool) -> (res: Vec<DirEntry>)
    ensures
        res@ == shown(es@, hidden_visible),
{
    let mut out: Vec<DirEntry> = Vec::new();
    let mut i: usize = 0;
    while i < es.len()
        invariant
            i <= es.len(),
            out@ == shown(es@.subrange(0, i as int), hidden_visible),
        decreases es.len() - i,
    {
        proof {
            assert(es@.subrange(0, i + 1).drop_last() =~= es@.subrange(0, i as int));
        }
        let n = chars_of(es[i].name.as_str());
        let hidden = n.len() > 0 && n[0] == '.';
        if hidden_visible || !hidden {
            out.push(copy_entry(&es[i]));
        }
        i += 1;
    }
    assert(es@.subrange(0, es@.len() as int) =~= es@);
    out
}

impl TreeModel {
    /// The rows for the children of `dir` at `depth`, under the row at
    /// `parent_idx`, from the listing `fs`.
    pub fn list_children(&self, dir: &str, depth: u32, parent_idx: Option<usize>, fs: &Vec<FsListing>) -> (res: Vec<Row>)
        ensures
            res@ == children_spec(
                self.expanded_paths@,
                self.git_status_map@,
                self.ignored_cache@,
                self.hidden_visible,
                fs@,
                dir@,
                depth,
                parent_idx,
            ),
    {
        let vis: Vec<DirEntry> = match listing_index(fs, dir) {
            Some(i) => shown_entries(&fs[i].entries, self.hidden_visible),
            None => {
                let empty: Vec<DirEntry> = Vec::new();
                assert(shown(Seq::<DirEntry>::empty(), self.hidden_visible) =~= Seq::<DirEntry>::empty());
                empty
            },
        };
        let mut keys: Vec<(i128, Vec<char>)> = Vec::new();
        let mut i: usize = 0;
        while i < vis.len()
            invariant
                i <= vis.len(),
                keys.len() == i,
                forall|j: int| 0 <= j < i ==> #[trigger] key_views(keys@)[j] == child_keys(vis@)[j],
            decreases vis.len() - i,
        {
            let ghost old_keys = keys@;
            let primary: i128 = if vis[i].kind == Kind::Dir {
                1
            } else {
                0
            };
            let low = to_lowercase(vis[i].name.as_str());
            keys.push((primary, chars_of(low.as_str())));
            proof {
                assert forall|j: int| 0 <= j < i + 1 implies #[trigger] key_views(keys@)[j] == child_keys(vis@)[j] by {
                    if j < i {
                        assert(keys@[j] == old_keys[j]);
                        assert(key_views(old_keys)[j] == child_keys(vis@)[j]);
                    }
                }
            }
            i += 1;
        }
        assert(key_views(keys@) =~= child_keys(vis@));
        let order = sort_order(&keys);
        let mut out: Vec<Row> = Vec::new();
        let mut r: usize = 0;
        while r < order.len()
            invariant
                order@ == ranked(child_keys(vis@)),
                is_ranking(child_keys(vis@), order@),
                order.len() == vis.len(),
                r <= order.len(),
                out.len() == r,
                forall|j: int| 0 <= j < r ==> out@[j] == child_row(
                    self.expanded_paths@,
                    self.git_status_map@,
                    self.ignored_cache@,
                    vis@[order@[j] as int],
                    depth,
                    parent_idx,
                ),
            decreases order.len() - r,
        {
            let e = &vis[order[r]];
            let is_dir = e.kind == Kind::Dir;
            let expanded = contains_path(&self.expanded_paths, e.path.as_str());
            let git_status = if is_dir {
                rollup_status(&self.git_status_map, e.path.as_str())
            } else {
                lookup_status(&self.git_status_map, e.path.as_str())
            };
            let ignored = contains_path(&self.ignored_cache, e.path.as_str());
            out.push(Row { path: e.path.clone(), depth, kind: e.kind, expanded, git_status, parent_idx, ignored });
            r += 1;
        }
        assert(out@ =~= children_spec(
            self.expanded_paths@,
            self.git_status_map@,
            self.ignored_cache@,
            self.hidden_visible,
            fs@,
            dir@,
            depth,
            parent_idx,
        ));
        out
    }
}


// ---------------------------------------------------------------------------
// Expanding and collapsing
// ---------------------------------------------------------------------------

pub open spec fn set_expanded(r: Row, b: bool) -> Row {
    Row {
        path: r.path,
        depth: r.depth,
        kind: r.kind,
        expanded: b,
        git_status: r.git_status,
        parent_idx: r.parent_idx,
        ignored: r.ignored,
    }
}

/// The first index at or after `j` whose row is not deeper than `d`: the end
/// of the rows shown under a row at depth `d`.
pub open spec fn subtree_end(rows: Seq<Row>, d: u32, j: int) -> int
    decreases rows.len() - j,
{
    if j < 0 || j >= rows.len() {
        rows.len() as int
    } else if rows[j].depth <= d {
        j
    } else {
        subtree_end(rows, d, j + 1)
    }
}

pub proof fn lemma_subtree_end(rows: Seq<Row>, d: u32, j: int, e: int)
    requires
        0 <= j <= e <= rows.len(),
        forall|k: int| j <= k < e ==> (#[trigger] rows[k]).depth > d,
        e < rows.len() ==> rows[e].depth <= d,
    ensures
        subtree_end(rows, d, j) == e,
    decreases e - j,
{
    if j < e {
        lemma_subtree_end(rows, d, j + 1, e);
    }
}

/// The children that expanding row `idx` shows, and the expanded paths then.
pub open spec fn expansion(m: TreeModel, idx: int, fs: Seq<FsListing>) -> (Seq<Row>, Seq<String>) {
    let r = m.rows@[idx];
    let exp = with_path(m.expanded_paths@, r.path);
    (children_spec(exp, m.git_status_map@, m.ignored_cache@, m.hidden_visible, fs, r.path@, (r.depth + 1) as u32, Some(idx as usize)), exp)
}

/// The rows once row `idx` is expanded.
pub open spec fn expanded_rows(m: TreeModel, idx: int, fs: Seq<FsListing>) -> Seq<Row> {
    m.rows@.subrange(0, idx) + seq![set_expanded(m.rows@[idx], true)] + expansion(m, idx, fs).0 + m.rows@.subrange(idx + 1, m.rows@.len() as int)
}

/// The rows once row `idx` is collapsed: the rows below it go.
pub open spec fn collapsed_rows(rows: Seq<Row>, idx: int) -> Seq<Row> {
    let end = subtree_end(rows, rows[idx].depth, idx + 1);
    rows.subrange(0, idx) + seq![set_expanded(rows[idx], false)] + rows.subrange(end, rows.len() as int)
}

/// Whether `q` stays expanded when row `idx` collapses: neither that row nor
/// any row below it keeps its expansion.
pub open spec fn stays_expanded(m: TreeModel, idx: int, q: Seq<char>) -> bool {
    keeps_until(m, idx, subtree_end(m.rows@, m.rows@[idx].depth, idx + 1), q)
}

/// Whether `q` stays expanded once the rows from `idx` up to `end` are collapsed.
pub open spec fn keeps_until(m: TreeModel, idx: int, end: int, q: Seq<char>) -> bool {
    &&& in_paths(m.expanded_paths@, q)
    &&& !path_eq(m.rows@[idx].path@, q)
    &&& !(exists|j: int| idx < j < end && path_eq(#[trigger] m.rows@[j].path@, q))
}

/// The fields other than the rows and the expanded paths are as they were.
pub open spec fn same_settings(a: TreeModel, b: TreeModel) -> bool {
    &&& a.root == b.root
    &&& a.hidden_visible == b.hidden_visible
    &&& a.git_status_map@ == b.git_status_map@
    &&& a.ignored_cache@ == b.ignored_cache@
}

pub open spec fn same_model(a: TreeModel, b: TreeModel) -> bool {
    &&& same_settings(a, b)
    &&& a.rows@ == b.rows@
    &&& a.expanded_paths@ == b.expanded_paths@
}

fn copy_row(r: &Row) -> (res: Row)
    ensures
        res == *r,
{
    Row {
        path: r.path.clone(),
        depth: r.depth,
        kind: r.kind,
        expanded: r.expanded,
        git_status: r.git_status,
        parent_idx: r.parent_idx,
        ignored: r.ignored,
    }
}

impl TreeModel {
    pub fn new(root: String) -> (res: TreeModel)
        ensures
            res.root == root,
            res.rows@.len() == 0,
            res.expanded_paths@.len() == 0,
            !res.hidden_visible,
            res.git_status_map@.len() == 0,
            res.ignored_cache@.len() == 0,
    {
        TreeModel {
            root,
            rows: Vec::new(),
            expanded_paths: Vec::new(),
            hidden_visible: false,
            git_status_map: Vec::new(),
            ignored_cache: Vec::new(),
        }
    }

    pub fn set_hidden_visible(&mut self, v: bool)
        ensures
            final(self).hidden_visible == v,
            final(self).root == old(self).root,
            final(self).rows@ == old(self).rows@,
            final(self).expanded_paths@ == old(self).expanded_paths@,
            final(self).git_status_map@ == old(self).git_status_map@,
            final(self).ignored_cache@ == old(self).ignored_cache@,
    {
        self.hidden_visible = v;
    }

    /// Records the statuses that `git status` reported, one per path.
    pub fn set_git_status_map(&mut self, map: Vec<(String, GitStatus)>)
        ensures
            final(self).git_status_map@ == map@,
            final(self).root == old(self).root,
            final(self).hidden_visible == old(self).hidden_visible,
            final(self).rows@ == old(self).rows@,
            final(self).expanded_paths@ == old(self).expanded_paths@,
            final(self).ignored_cache@ == old(self).ignored_cache@,
    {
        self.git_status_map = map;
    }

    /// The first row whose path equals `path`.
    pub fn find_row(&self, path: &str) -> (res: Option<usize>)
        ensures
            match first_row(self.rows@, path@) {
                Some(i) => res == Some(i as usize),
                None => res is None,
            },
            res matches Some(i) ==> i < self.rows@.len() && first_row(self.rows@, path@) == Some(i as int),
    {
        let mut i: usize = 0;
        while i < self.rows.len()
            invariant
                i <= self.rows.len(),
                forall|j: int| 0 <= j < i ==> !path_eq(#[trigger] self.rows@[j].path@, path@),
            decreases self.rows.len() - i,
        {
            if paths_equal(self.rows[i].path.as_str(), path) {
                proof {
                    lemma_first_row(self.rows@, path@, i as int);
                }
                return Some(i);
            }
            i += 1;
        }
        proof {
            lemma_first_row(self.rows@, path@, self.rows@.len() as int);
        }
        None
    }

    /// Lists the root again: the rows become its children, hidden files and
    /// ignored paths (`ignored`, what the ignore rules match) as set.
    pub fn rebuild_visible(&mut self, fs: &Vec<FsListing>, ignored: Vec<String>)
        ensures
            final(self).ignored_cache@ == ignored@,
            final(self).rows@ == children_spec(
                old(self).expanded_paths@,
                old(self).git_status_map@,
                ignored@,
                old(self).hidden_visible,
                fs@,
                old(self).root@,
                0,
                None,
            ),
            final(self).root == old(self).root,
            final(self).hidden_visible == old(self).hidden_visible,
            final(self).git_status_map@ == old(self).git_status_map@,
            final(self).expanded_paths@ == old(self).expanded_paths@,
    {
        self.ignored_cache = ignored;
        let rows = self.list_children(self.root.as_str(), 0, None, fs);
        self.rows = rows;
    }

    fn expand_at_no_change(&mut self, idx: usize, fs: &Vec<FsListing>) -> (count: usize)
        requires
            idx < old(self).rows.len(),
            old(self).rows@[idx as int].depth < u32::MAX,
        ensures
            final(self).rows@ == expanded_rows(*old(self), idx as int, fs@),
            final(self).expanded_paths@ == expansion(*old(self), idx as int, fs@).1,
            count == expansion(*old(self), idx as int, fs@).0.len(),
            same_settings(*final(self), *old(self)),
    {
        let ghost m = *self;
        let path = self.rows[idx].path.clone();
        let depth = self.rows[idx].depth + 1;
        let mut r = copy_row(&self.rows[idx]);
        r.expanded = true;
        self.rows.set(idx, r);
        insert_path(&mut self.expanded_paths, path.clone());
        let mut children = self.list_children(path.as_str(), depth, Some(idx), fs);
        let count = children.len();
        let mut tail = self.rows.split_off(idx + 1);
        self.rows.append(&mut children);
        self.rows.append(&mut tail);
        assert(self.rows@ =~= expanded_rows(m, idx as int, fs@));
        count
    }

    fn expand_at(&mut self, idx: usize, fs: &Vec<FsListing>) -> (change: ListChange)
        requires
            idx < old(self).rows.len(),
            old(self).rows@[idx as int].depth < u32::MAX,
        ensures
            final(self).rows@ == expanded_rows(*old(self), idx as int, fs@),
            final(self).expanded_paths@ == expansion(*old(self), idx as int, fs@).1,
            same_settings(*final(self), *old(self)),
            change matches ListChange::Replace { at, removed, rows } && at == idx as u32 && removed == 1
                && rows@ == seq![set_expanded(old(self).rows@[idx as int], true)] + expansion(*old(self), idx as int, fs@).0,
    {
        let ghost m = *self;
        let inserted = self.expand_at_no_change(idx, fs);
        let mut rows: Vec<Row> = Vec::new();
        let mut k: usize = idx;
        while k < idx + 1 + inserted
            invariant
                idx < self.rows.len(),
                idx + 1 + inserted <= self.rows.len(),
                self.rows@ == expanded_rows(m, idx as int, fs@),
                inserted == expansion(m, idx as int, fs@).0.len(),
                idx <= k <= idx + 1 + inserted,
                rows@ == self.rows@.subrange(idx as int, k as int),
            decreases idx + 1 + inserted - k,
        {
            rows.push(copy_row(&self.rows[k]));
            assert(self.rows@.subrange(idx as int, k + 1) =~= self.rows@.subrange(idx as int, k as int).push(self.rows@[k as int]));
            k += 1;
        }
        assert(rows@ =~= seq![set_expanded(m.rows@[idx as int], true)] + expansion(m, idx as int, fs@).0);
        let at: u32 = idx as u32;
        ListChange::Replace { at, removed: 1, rows }
    }

    fn collapse_at(&mut self, idx: usize) -> (change: ListChange)
        requires
            idx < old(self).rows.len(),
        ensures
            final(self).rows@ == collapsed_rows(old(self).rows@, idx as int),
            forall|q: Seq<char>| in_paths(final(self).expanded_paths@, q) <==> stays_expanded(*old(self), idx as int, q),
            same_settings(*final(self), *old(self)),
            change matches ListChange::Replace { at, removed, rows } && at == idx as u32
                && removed == (subtree_end(old(self).rows@, old(self).rows@[idx as int].depth, idx + 1) - idx) as u32
                && rows@ == seq![set_expanded(old(self).rows@[idx as int], false)],
    {
        let ghost m = *self;
        let depth = self.rows[idx].depth;
        let top = self.rows[idx].path.clone();
        let mut r = copy_row(&self.rows[idx]);
        r.expanded = false;
        self.rows.set(idx, r);
        remove_path(&mut self.expanded_paths, top.as_str());
        let mut end = idx + 1;
        assert(top@ == m.rows@[idx as int].path@);
        assert forall|q: Seq<char>| #[trigger] in_paths(self.expanded_paths@, q) == keeps_until(m, idx as int, end as int, q) by {
            assert(in_paths(self.expanded_paths@, q) <==> (in_paths(m.expanded_paths@, q) && !path_eq(top@, q)));
        }
        while end < self.rows.len() && self.rows[end].depth > depth
            invariant
                idx < end <= self.rows.len(),
                idx < m.rows@.len(),
                self.rows@ == m.rows@.update(idx as int, set_expanded(m.rows@[idx as int], false)),
                depth == m.rows@[idx as int].depth,
                forall|k: int| idx < k < end ==> (#[trigger] m.rows@[k]).depth > depth,
                same_settings(*self, m),
                forall|q: Seq<char>| #[trigger] in_paths(self.expanded_paths@, q) == keeps_until(m, idx as int, end as int, q),
            decreases self.rows.len() - end,
        {
            let ghost before = self.expanded_paths@;
            let p = self.rows[end].path.clone();
            assert(self.rows@[end as int] == m.rows@[end as int]);
            assert(p@ == m.rows@[end as int].path@);
            remove_path(&mut self.expanded_paths, p.as_str());
            proof {
                assert forall|q: Seq<char>| #[trigger] in_paths(self.expanded_paths@, q) == keeps_until(m, idx as int, end + 1, q) by {
                    assert(in_paths(self.expanded_paths@, q) <==> (in_paths(before, q) && !path_eq(p@, q)));
                    if exists|j: int| idx < j < end + 1 && path_eq(#[trigger] m.rows@[j].path@, q) {
                        let j = choose|j: int| idx < j < end + 1 && path_eq(#[trigger] m.rows@[j].path@, q);
                        if j == end {
                            assert(path_eq(p@, q));
                        }
                    }
                }
            }
            end += 1;
        }
        proof {
            lemma_subtree_end(m.rows@, depth, idx + 1, end as int);
        }
        let removed_count = end - idx;
        let mut tail = self.rows.split_off(end);
        self.rows.truncate(idx + 1);
        self.rows.append(&mut tail);
        assert(self.rows@ =~= collapsed_rows(m.rows@, idx as int));
        let mut rows: Vec<Row> = Vec::new();
        rows.push(copy_row(&self.rows[idx]));
        assert(rows@ =~= seq![set_expanded(m.rows@[idx as int], false)]);
        let at: u32 = idx as u32;
        let removed: u32 = removed_count as u32;
        ListChange::Replace { at, removed, rows }
    }

    /// Expands a collapsed directory row or collapses an expanded one; other
    /// rows, and indices past the end, are left alone.
    pub fn toggle_expand(&mut self, idx: usize, fs: &Vec<FsListing>) -> (res: Option<ListChange>)
        requires
            idx < old(self).rows.len() ==> old(self).rows@[idx as int].depth < u32::MAX,
        ensures
            toggled(*old(self), *final(self), idx as int, fs@, res is Some),
            toggle_change(*old(self), idx as int, fs@, res),
    {
        if idx >= self.rows.len() {
            return None;
        }
        if self.rows[idx].kind != Kind::Dir {
            return None;
        }
        if self.rows[idx].expanded {
            Some(self.collapse_at(idx))
        } else {
            Some(self.expand_at(idx, fs))
        }
    }
}

/// What toggling row `idx` of `a` gives: `b`, and whether anything changed.
/// A directory row collapses when expanded and expands otherwise; any other
/// row, or an index past the end, is left alone.
pub open spec fn toggled(a: TreeModel, b: TreeModel, idx: int, fs: Seq<FsListing>, changed: bool) -> bool {
    &&& (idx >= a.rows@.len() || a.rows@[idx].kind != Kind::Dir) ==> (!changed && same_model(b, a))
    &&& (0 <= idx < a.rows@.len() && a.rows@[idx].kind == Kind::Dir && a.rows@[idx].expanded) ==> {
        &&& changed
        &&& b.rows@ == collapsed_rows(a.rows@, idx)
        &&& forall|q: Seq<char>| in_paths(b.expanded_paths@, q) <==> stays_expanded(a, idx, q)
        &&& same_settings(b, a)
    }
    &&& (0 <= idx < a.rows@.len() && a.rows@[idx].kind == Kind::Dir && !a.rows@[idx].expanded) ==> {
        &&& changed
        &&& b.rows@ == expanded_rows(a, idx, fs)
        &&& b.expanded_paths@ == expansion(a, idx, fs).1
        &&& same_settings(b, a)
    }
}

/// The list change that toggling row `idx` of `a` hands back (where it hands
/// one back): the row at `idx` and the rows under it are replaced, by the
/// row collapsed where it was expanded, else by the row expanded and its new
/// children.
pub open spec fn toggle_change(a: TreeModel, idx: int, fs: Seq<FsListing>, res: Option<ListChange>) -> bool {
    match res {
        None => true,
        Some(ListChange::Replace { at, removed, rows }) => {
            &&& at == idx as u32
            &&& if a.rows@[idx].expanded {
                &&& removed == (subtree_end(a.rows@, a.rows@[idx].depth, idx + 1) - idx) as u32
                &&& rows@ == seq![set_expanded(a.rows@[idx], false)]
            } else {
                &&& removed == 1
                &&& rows@ == seq![set_expanded(a.rows@[idx], true)] + expansion(a, idx, fs).0
            }
        },
    }
}

/// The first row whose path equals `p`.
pub open spec fn first_row(rows: Seq<Row>, p: Seq<char>) -> Option<int>
    decreases rows.len(),
{
    if rows.len() == 0 {
        None
    } else if path_eq(rows.last().path@, p) && first_row(rows.drop_last(), p) is None {
        Some(rows.len() - 1)
    } else {
        first_row(rows.drop_last(), p)
    }
}

proof fn lemma_first_row(rows: Seq<Row>, p: Seq<char>, i: int)
    requires
        0 <= i <= rows.len(),
        forall|j: int| 0 <= j < i ==> !path_eq(#[trigger] rows[j].path@, p),
        i < rows.len() ==> path_eq(rows[i].path@, p),
    ensures
        first_row(rows, p) == if i < rows.len() {
            Some(i)
        } else {
            None::<int>
        },
    decreases rows.len(),
{
    if rows.len() > 0 {
        if i < rows.len() - 1 {
            lemma_first_row(rows.drop_last(), p, i);
        } else if i == rows.len() - 1 {
            lemma_first_row(rows.drop_last(), p, i);
        } else {
            lemma_first_row(rows.drop_last(), p, i - 1);
        }
    }
}

/// Law: collapsing a directory row right after expanding it gives back the
/// rows as they were, where nothing was shown below it before.
pub proof fn collapse_undoes_expand(m: TreeModel, idx: int, fs: Seq<FsListing>)
    requires
        0 <= idx < m.rows@.len(),
        m.rows@[idx].kind == Kind::Dir,
        !m.rows@[idx].expanded,
        m.rows@[idx].depth < u32::MAX,
        idx + 1 < m.rows@.len() ==> m.rows@[idx + 1].depth <= m.rows@[idx].depth,
    ensures
        collapsed_rows(expanded_rows(m, idx, fs), idx) == m.rows@,
{
    let rows1 = expanded_rows(m, idx, fs);
    let ch = expansion(m, idx, fs).0;
    let d = m.rows@[idx].depth;
    assert(rows1[idx] == set_expanded(m.rows@[idx], true));
    assert forall|k: int| idx + 1 <= k < idx + 1 + ch.len() implies (#[trigger] rows1[k]).depth > d by {
        assert(rows1[k] == ch[k - idx - 1]);
    }
    if idx + 1 + ch.len() < rows1.len() {
        assert(rows1[idx + 1 + ch.len()] == m.rows@[idx + 1]);
    }
    lemma_subtree_end(rows1, d, idx + 1, idx + 1 + ch.len());
    assert(set_expanded(set_expanded(m.rows@[idx], true), false) == m.rows@[idx]);
    assert(collapsed_rows(rows1, idx) =~= m.rows@);
}


// ---------------------------------------------------------------------------
// Comparing the rows with the file system
// ---------------------------------------------------------------------------

/// Reading `dir` succeeded.
pub open spec fn has_listing(fs: Seq<FsListing>, dir: Seq<char>) -> bool {
    exists|i: int| 0 <= i < fs.len() && path_eq(#[trigger] fs[i].dir@, dir)
}

/// The names that reading `dir` gives, hidden ones left out unless shown.
pub open spec fn fs_names(fs: Seq<FsListing>, dir: Seq<char>, hidden_visible: bool) -> Seq<Seq<char>> {
    shown(entries_for(fs, dir), hidden_visible).map_values(|e: DirEntry| e.name@)
}

pub open spec fn name_keys(ns: Seq<Seq<char>>) -> Seq<(int, Seq<char>)> {
    ns.map_values(|n: Seq<char>| (0int, n))
}

/// `ns` in the order of `str`.
pub open spec fn sorted_names(ns: Seq<Seq<char>>) -> Seq<Seq<char>> {
    let o = ranked(name_keys(ns));
    Seq::new(ns.len(), |i: int| ns[o[i] as int])
}

/// The same names, in whatever order.
pub open spec fn same_names(a: Seq<Seq<char>>, b: Seq<Seq<char>>) -> bool {
    sorted_names(a) == sorted_names(b)
}

/// `a` comes before `b` in the order of `str`, or is `b`.
pub open spec fn name_le(a: Seq<char>, b: Seq<char>) -> bool {
    a == b || crate::text::lex_lt(a, b)
}

proof fn lemma_name_le_total()
    ensures
        vstd::relations::total_ordering(|a: Seq<char>, b: Seq<char>| name_le(a, b)),
{
    let r = |a: Seq<char>, b: Seq<char>| name_le(a, b);
    assert forall|a: Seq<char>, b: Seq<char>| #[trigger] r(a, b) && #[trigger] r(b, a) implies a == b by {
        if a != b {
            crate::text::lemma_lex_lt_transitive(a, b, a);
            crate::text::lemma_lex_lt_irreflexive(a);
        }
    }
    assert forall|a: Seq<char>, b: Seq<char>, c: Seq<char>| #[trigger] r(a, b) && #[trigger] r(b, c) implies r(a, c) by {
        if a != b && b != c {
            crate::text::lemma_lex_lt_transitive(a, b, c);
        }
    }
    assert forall|a: Seq<char>, b: Seq<char>| #[trigger] r(a, b) || #[trigger] r(b, a) by {
        crate::text::lemma_lex_lt_total(a, b);
    }
}

/// A list of distinct positions below `n`, `n` of them, holds each of them.
proof fn lemma_distinct_covers(o: Seq<usize>, n: int, x: int)
    requires
        o.len() == n,
        forall|i: int| 0 <= i < n ==> o[i] < n,
        forall|i: int, j: int| 0 <= i < j < n ==> o[i] != o[j],
        0 <= x < n,
    ensures
        exists|j: int| 0 <= j < n && o[j] == x,
{
    let s = o.map_values(|u: usize| u as int);
    assert forall|i: int, j: int| 0 <= i < s.len() && 0 <= j < s.len() && i != j implies s[i] != s[j] by {
        if i < j {
            assert(o[i] != o[j]);
        } else {
            assert(o[j] != o[i]);
        }
    }
    assert(s.no_duplicates());
    s.unique_seq_to_set();
    let r = vstd::set_lib::set_int_range(0, n);
    vstd::set_lib::lemma_int_range(0, n);
    assert forall|v: int| s.to_set().contains(v) implies r.contains(v) by {
        let j = choose|j: int| 0 <= j < s.len() && s[j] == v;
    }
    vstd::set_lib::lemma_len_subset(s.to_set(), r);
    vstd::set_lib::lemma_subset_equality(s.to_set(), r);
    assert(s.to_set().contains(x));
    let j = choose|j: int| 0 <= j < s.len() && s[j] == x;
    assert(o[j] == x);
}

/// Rearranging a list by distinct positions keeps its elements.
proof fn lemma_rearranged_multiset(x: Seq<Seq<char>>, o: Seq<usize>)
    requires
        o.len() == x.len(),
        forall|i: int| 0 <= i < x.len() ==> o[i] < x.len(),
        forall|i: int, j: int| 0 <= i < j < x.len() ==> o[i] != o[j],
    ensures
        Seq::new(x.len(), |i: int| x[o[i] as int]).to_multiset() == x.to_multiset(),
    decreases x.len(),
{
    broadcast use vstd::seq_lib::group_to_multiset_ensures;
    broadcast use vstd::multiset::group_multiset_axioms;

    let n = x.len() as int;
    let y = Seq::new(x.len(), |i: int| x[o[i] as int]);
    if n == 0 {
        assert(y =~= x);
    } else {
        lemma_distinct_covers(o, n, n - 1);
        let j = choose|j: int| 0 <= j < n && o[j] == n - 1;
        let o2 = o.remove(j);
        let x2 = x.drop_last();
        assert forall|i: int| 0 <= i < x2.len() implies o2[i] < x2.len() by {
            if i < j {
                assert(o2[i] == o[i]);
                assert(o[i] != o[j]);
            } else {
                assert(o2[i] == o[i + 1]);
                assert(o[j] != o[i + 1]);
            }
        }
        assert forall|a: int, b: int| 0 <= a < b < x2.len() implies o2[a] != o2[b] by {
            let a1 = if a < j { a } else { a + 1 };
            let b1 = if b < j { b } else { b + 1 };
            assert(o2[a] == o[a1] && o2[b] == o[b1]);
        }
        lemma_rearranged_multiset(x2, o2);
        let y2 = Seq::new(x2.len(), |i: int| x2[o2[i] as int]);
        assert(y.remove(j) =~= y2);
        assert(y.remove(j).to_multiset() == y.to_multiset().remove(y[j]));
        assert(y[j] == x[n - 1]);
        assert(x =~= x2.push(x[n - 1]));
        assert(x.to_multiset() =~= x2.to_multiset().insert(x[n - 1]));
        assert(y.to_multiset().count(y[j]) > 0);
        assert(y.to_multiset() =~= y.to_multiset().remove(y[j]).insert(y[j]));
    }
}

/// The same names, rearranged, are the same names.
proof fn lemma_same_names_rearranged(x: Seq<Seq<char>>, o: Seq<usize>)
    requires
        x.len() <= usize::MAX,
        o.len() == x.len(),
        forall|i: int| 0 <= i < x.len() ==> o[i] < x.len(),
        forall|i: int, j: int| 0 <= i < j < x.len() ==> o[i] != o[j],
    ensures
        same_names(Seq::new(x.len(), |i: int| x[o[i] as int]), x),
{
    let y = Seq::new(x.len(), |i: int| x[o[i] as int]);
    let le = |a: Seq<char>, b: Seq<char>| name_le(a, b);
    lemma_name_le_total();
    lemma_sorted_names(x);
    lemma_sorted_names(y);
    lemma_rearranged_multiset(x, o);
    lemma_rearranged_multiset(x, ranked(name_keys(x)));
    lemma_rearranged_multiset(y, ranked(name_keys(y)));
    vstd::seq_lib::lemma_sorted_unique(sorted_names(y), sorted_names(x), le);
}

/// `sorted_names` is in the order of `str`, and takes each position once.
proof fn lemma_sorted_names(x: Seq<Seq<char>>)
    requires
        x.len() <= usize::MAX,
    ensures
        vstd::relations::sorted_by(sorted_names(x), |a: Seq<char>, b: Seq<char>| name_le(a, b)),
        ranked(name_keys(x)).len() == x.len(),
        forall|i: int| 0 <= i < x.len() ==> ranked(name_keys(x))[i] < x.len(),
        forall|i: int, j: int| 0 <= i < j < x.len() ==> ranked(name_keys(x))[i] != ranked(name_keys(x))[j],
{
    let k = name_keys(x);
    crate::order::lemma_ranking_exists(k);
    let o = ranked(k);
    let y = sorted_names(x);
    assert forall|i: int, j: int| 0 <= i < j < y.len() implies #[trigger] name_le(y[i], y[j]) by {
        assert(crate::order::key_lt(k, o[i] as int, o[j] as int));
    }
    assert forall|i: int, j: int| 0 <= i < j < x.len() implies o[i] != o[j] by {
        assert(crate::order::key_lt(k, o[i] as int, o[j] as int));
        crate::order::lemma_key_lt_irreflexive(k, o[i] as int);
    }
}

/// The names of the rows one level below row `p`, among the rows before `to`.
pub open spec fn kid_names(rows: Seq<Row>, p: int, to: int) -> Seq<Seq<char>>
    decreases to - p,
{
    if to <= p + 1 {
        Seq::empty()
    } else {
        let prev = kid_names(rows, p, to - 1);
        let r = rows[to - 1];
        if r.depth == rows[p].depth + 1 && file_name(r.path@) is Some {
            prev.push(file_name(r.path@)->0)
        } else {
            prev
        }
    }
}

/// The names of the rows at the top level, among the first `to`.
pub open spec fn root_names(rows: Seq<Row>, to: int) -> Seq<Seq<char>>
    decreases to,
{
    if to <= 0 {
        Seq::empty()
    } else {
        let prev = root_names(rows, to - 1);
        let r = rows[to - 1];
        if r.depth == 0 && file_name(r.path@) is Some {
            prev.push(file_name(r.path@)->0)
        } else {
            prev
        }
    }
}

/// The rows below row `p` name what reading its directory gives.
pub open spec fn kids_match(rows: Seq<Row>, fs: Seq<FsListing>, hidden_visible: bool, p: int) -> bool {
    let dir = rows[p].path@;
    has_listing(fs, dir) && same_names(
        kid_names(rows, p, subtree_end(rows, rows[p].depth, p + 1)),
        fs_names(fs, dir, hidden_visible),
    )
}

proof fn lemma_root_names_all_top(rows: Seq<Row>, names: Seq<Seq<char>>, to: int)
    requires
        0 <= to <= rows.len(),
        names.len() == rows.len(),
        forall|i: int| 0 <= i < rows.len() ==> (#[trigger] rows[i]).depth == 0 && file_name(rows[i].path@) == Some(names[i]),
    ensures
        root_names(rows, to) == names.subrange(0, to),
    decreases to,
{
    if to > 0 {
        lemma_root_names_all_top(rows, names, to - 1);
        assert(names.subrange(0, to) =~= names.subrange(0, to - 1).push(names[to - 1]));
    }
}

/// Every expanded path has a directory row whose rows below match the disk.
pub open spec fn expanded_match(rows: Seq<Row>, exp: Seq<String>, fs: Seq<FsListing>, hidden_visible: bool, n: int) -> bool
    decreases n,
{
    if n <= 0 {
        true
    } else {
        expanded_match(rows, exp, fs, hidden_visible, n - 1) && match first_row(rows, exp[n - 1]@) {
            None => false,
            Some(k) => rows[k].kind == Kind::Dir && kids_match(rows, fs, hidden_visible, k),
        }
    }
}

/// The rows show what the disk holds: the top level and every expanded directory.
pub open spec fn tree_matches(m: TreeModel, fs: Seq<FsListing>) -> bool {
    &&& has_listing(fs, m.root@)
    &&& same_names(root_names(m.rows@, m.rows@.len() as int), fs_names(fs, m.root@, m.hidden_visible))
    &&& expanded_match(m.rows@, m.expanded_paths@, fs, m.hidden_visible, m.expanded_paths@.len() as int)
}

/// The entries of a listing are named by the last component of their path.
pub open spec fn names_its_entries(es: Seq<DirEntry>) -> bool {
    forall|i: int| 0 <= i < es.len() ==> file_name((#[trigger] es[i]).path@) == Some(es[i].name@)
}

proof fn lemma_shown_keeps_names(es: Seq<DirEntry>, hv: bool)
    requires
        names_its_entries(es),
    ensures
        names_its_entries(shown(es, hv)),
        shown(es, hv).len() <= es.len(),
    decreases es.len(),
{
    if es.len() > 0 {
        lemma_shown_keeps_names(es.drop_last(), hv);
        let prev = shown(es.drop_last(), hv);
        assert forall|i: int| 0 <= i < es.drop_last().len() implies file_name((#[trigger] es.drop_last()[i]).path@) == Some(es.drop_last()[i].name@) by {
            assert(es.drop_last()[i] == es[i]);
        }
        lemma_shown_keeps_names(es.drop_last(), hv);
        if hv || !is_hidden(es.last()) {
            assert forall|i: int| 0 <= i < prev.push(es.last()).len() implies file_name((#[trigger] prev.push(es.last())[i]).path@) == Some(prev.push(es.last())[i].name@) by {
                if i == prev.len() {
                    assert(es.last() == es[es.len() - 1]);
                }
            }
        }
    }
}

/// Law: a tree just built from the disk, with no directory expanded, shows
/// what the disk holds (where each entry is named by the end of its path),
/// so refreshing it from the root against the same disk changes nothing.
pub proof fn rebuilt_tree_is_unchanged_by_refresh(m: TreeModel, fs: Seq<FsListing>, ignored: Seq<String>)
    requires
        m.expanded_paths@.len() == 0,
        has_listing(fs, m.root@),
        names_its_entries(entries_for(fs, m.root@)),
        entries_for(fs, m.root@).len() <= usize::MAX,
        m.rows@ == children_spec(
            m.expanded_paths@,
            m.git_status_map@,
            m.ignored_cache@,
            m.hidden_visible,
            fs,
            m.root@,
            0,
            None,
        ),
    ensures
        tree_matches(m, fs),
        refresh_spec(m, m.root@, fs, ignored) == (false, m.rows@, m.expanded_paths@, m.ignored_cache@),
{
    let es = entries_for(fs, m.root@);
    let vis = shown(es, m.hidden_visible);
    lemma_shown_keeps_names(es, m.hidden_visible);
    let keys = child_keys(vis);
    crate::order::lemma_ranking_exists(keys);
    let o = ranked(keys);
    let names = vis.map_values(|e: DirEntry| e.name@);
    let rows = m.rows@;
    assert forall|i: int, j: int| 0 <= i < j < vis.len() implies o[i] != o[j] by {
        assert(crate::order::key_lt(keys, o[i] as int, o[j] as int));
        crate::order::lemma_key_lt_irreflexive(keys, o[i] as int);
    }
    let arranged = Seq::new(vis.len(), |i: int| names[o[i] as int]);
    assert forall|i: int| 0 <= i < rows.len() implies (#[trigger] rows[i]).depth == 0 && file_name(rows[i].path@) == Some(arranged[i]) by {
        assert(rows[i].path == vis[o[i] as int].path);
    }
    lemma_root_names_all_top(rows, arranged, rows.len() as int);
    assert(arranged.subrange(0, rows.len() as int) =~= arranged);
    lemma_same_names_rearranged(names, o);
    assert(fs_names(fs, m.root@, m.hidden_visible) == names);
}

fn has_listing_exec(fs: &Vec<FsListing>, dir: &str) -> (res: bool)
    ensures
        res == has_listing(fs@, dir@),
{
    let mut i: usize = 0;
    while i < fs.len()
        invariant
            i <= fs.len(),
            forall|j: int| 0 <= j < i ==> !path_eq(#[trigger] fs@[j].dir@, dir@),
        decreases fs.len() - i,
    {
        if paths_equal(fs[i].dir.as_str(), dir) {
            return true;
        }
        i += 1;
    }
    false
}

fn names_listed(fs: &Vec<FsListing>, dir: &str, hidden_visible: bool) -> (res: Vec<Vec<char>>)
    ensures
        views(res@) == fs_names(fs@, dir@, hidden_visible),
{
    let vis: Vec<DirEntry> = match listing_index(fs, dir) {
        Some(i) => shown_entries(&fs[i].entries, hidden_visible),
        None => {
            assert(shown(Seq::<DirEntry>::empty(), hidden_visible) =~= Seq::<DirEntry>::empty());
            Vec::new()
        },
    };
    let mut out: Vec<Vec<char>> = Vec::new();
    let mut i: usize = 0;
    while i < vis.len()
        invariant
            i <= vis.len(),
            out.len() == i,
            views(out@) == vis@.subrange(0, i as int).map_values(|e: DirEntry| e.name@),
        decreases vis.len() - i,
    {
        let ghost before = out@;
        let c = chars_of(vis[i].name.as_str());
        out.push(c);
        proof {
            let want = vis@.subrange(0, i + 1).map_values(|e: DirEntry| e.name@);
            assert forall|j: int| 0 <= j < i + 1 implies views(out@)[j] == want[j] by {
                if j < i {
                    assert(out@[j] == before[j]);
                    assert(views(before)[j] == vis@.subrange(0, i as int).map_values(|e: DirEntry| e.name@)[j]);
                }
            }
            assert(views(out@) =~= want);
        }
        i += 1;
    }
    assert(vis@.subrange(0, vis@.len() as int) =~= vis@);
    out
}

fn sort_names(ns: &Vec<Vec<char>>) -> (res: Vec<Vec<char>>)
    ensures
        views(res@) == sorted_names(views(ns@)),
{
    let mut keys: Vec<(i128, Vec<char>)> = Vec::new();
    let mut i: usize = 0;
    while i < ns.len()
        invariant
            i <= ns.len(),
            keys.len() == i,
            key_views(keys@) == name_keys(views(ns@)).subrange(0, i as int),
        decreases ns.len() - i,
    {
        let mut c: Vec<char> = Vec::new();
        crate::text::push_range(&mut c, &ns[i], 0, ns[i].len());
        assert(ns@[i as int]@.subrange(0, ns@[i as int]@.len() as int) =~= ns@[i as int]@);
        let ghost before = keys@;
        keys.push((0, c));
        proof {
            let want = name_keys(views(ns@)).subrange(0, i + 1);
            assert forall|j: int| 0 <= j < i + 1 implies key_views(keys@)[j] == want[j] by {
                if j < i {
                    assert(keys@[j] == before[j]);
                    assert(key_views(before)[j] == name_keys(views(ns@)).subrange(0, i as int)[j]);
                }
            }
            assert(key_views(keys@) =~= want);
        }
        i += 1;
    }
    assert(name_keys(views(ns@)).subrange(0, ns@.len() as int) =~= name_keys(views(ns@)));
    let order = sort_order(&keys);
    let mut out: Vec<Vec<char>> = Vec::new();
    let mut r: usize = 0;
    while r < order.len()
        invariant
            order@ == ranked(name_keys(views(ns@))),
            is_ranking(name_keys(views(ns@)), order@),
            order.len() == ns.len(),
            r <= order.len(),
            out.len() == r,
            forall|j: int| 0 <= j < r ==> (#[trigger] out@[j])@ == ns@[order@[j] as int]@,
        decreases order.len() - r,
    {
        let src = &ns[order[r]];
        let mut c: Vec<char> = Vec::new();
        crate::text::push_range(&mut c, src, 0, src.len());
        assert(src@.subrange(0, src@.len() as int) =~= src@);
        out.push(c);
        r += 1;
    }
    assert(views(out@) =~= sorted_names(views(ns@)));
    out
}

fn same_names_exec(a: &Vec<Vec<char>>, b: &Vec<Vec<char>>) -> (res: bool)
    ensures
        res == same_names(views(a@), views(b@)),
{
    let sa = sort_names(a);
    let sb = sort_names(b);
    assert(views(sa@).len() == sa@.len() && views(sb@).len() == sb@.len());
    if sa.len() != sb.len() {
        return false;
    }
    let mut i: usize = 0;
    while i < sa.len()
        invariant
            i <= sa.len(),
            sa.len() == sb.len(),
            views(sa@) == sorted_names(views(a@)),
            views(sb@) == sorted_names(views(b@)),
            forall|j: int| 0 <= j < i ==> (#[trigger] sa@[j])@ == sb@[j]@,
        decreases sa.len() - i,
    {
        if !crate::text::seq_eq(&sa[i], &sb[i]) {
            assert(views(sa@)[i as int] == sa@[i as int]@);
            assert(views(sb@)[i as int] == sb@[i as int]@);
            assert(views(sa@) != views(sb@));
            return false;
        }
        i += 1;
    }
    assert(views(sa@) =~= views(sb@));
    true
}

impl TreeModel {
    fn row_kids_match_fs(&self, p: usize, fs: &Vec<FsListing>) -> (res: bool)
        requires
            p < self.rows.len(),
        ensures
            res == kids_match(self.rows@, fs@, self.hidden_visible, p as int),
    {
        let dir = self.rows[p].path.as_str();
        if !has_listing_exec(fs, dir) {
            return false;
        }
        let listed = names_listed(fs, dir, self.hidden_visible);
        let d = self.rows[p].depth;
        let mut current: Vec<Vec<char>> = Vec::new();
        let mut i = p + 1;
        while i < self.rows.len() && self.rows[i].depth > d
            invariant
                p < i <= self.rows.len(),
                d == self.rows@[p as int].depth,
                forall|k: int| p < k < i ==> (#[trigger] self.rows@[k]).depth > d,
                views(current@) == kid_names(self.rows@, p as int, i as int),
            decreases self.rows.len() - i,
        {
            if self.rows[i].depth as u64 == d as u64 + 1 {
                match file_name_of(self.rows[i].path.as_str()) {
                    Some(n) => {
                        current.push(n);
                    },
                    None => {},
                }
            }
            assert(views(current@) =~= kid_names(self.rows@, p as int, i + 1));
            i += 1;
        }
        proof {
            lemma_subtree_end(self.rows@, d, p + 1, i as int);
        }
        same_names_exec(&current, &listed)
    }
}


impl TreeModel {
    fn tree_matches_fs(&self, fs: &Vec<FsListing>) -> (res: bool)
        ensures
            res == tree_matches(*self, fs@),
    {
        let root = self.root.as_str();
        if !has_listing_exec(fs, root) {
            return false;
        }
        let listed = names_listed(fs, root, self.hidden_visible);
        let mut current: Vec<Vec<char>> = Vec::new();
        let mut i: usize = 0;
        while i < self.rows.len()
            invariant
                i <= self.rows.len(),
                views(current@) == root_names(self.rows@, i as int),
            decreases self.rows.len() - i,
        {
            if self.rows[i].depth == 0 {
                match file_name_of(self.rows[i].path.as_str()) {
                    Some(n) => {
                        current.push(n);
                    },
                    None => {},
                }
            }
            assert(views(current@) =~= root_names(self.rows@, i + 1));
            i += 1;
        }
        if !same_names_exec(&current, &listed) {
            return false;
        }
        let mut k: usize = 0;
        while k < self.expanded_paths.len()
            invariant
                k <= self.expanded_paths.len(),
                expanded_match(self.rows@, self.expanded_paths@, fs@, self.hidden_visible, k as int),
            decreases self.expanded_paths.len() - k,
        {
            match self.find_row(self.expanded_paths[k].as_str()) {
                None => {
                    proof {
                        lemma_expanded_match_prefix(self.rows@, self.expanded_paths@, fs@, self.hidden_visible, k + 1);
                    }
                    return false;
                },
                Some(idx) => {
                    if self.rows[idx].kind != Kind::Dir || !self.row_kids_match_fs(idx, fs) {
                        proof {
                            lemma_expanded_match_prefix(self.rows@, self.expanded_paths@, fs@, self.hidden_visible, k + 1);
                        }
                        return false;
                    }
                },
            }
            k += 1;
        }
        true
    }
}

/// A failure among the first `n` expanded paths is a failure for all of them.
proof fn lemma_expanded_match_prefix(rows: Seq<Row>, exp: Seq<String>, fs: Seq<FsListing>, hv: bool, n: int)
    requires
        0 <= n <= exp.len(),
        !expanded_match(rows, exp, fs, hv, n),
    ensures
        !expanded_match(rows, exp, fs, hv, exp.len() as int),
    decreases exp.len() - n,
{
    if n < exp.len() {
        lemma_expanded_match_prefix(rows, exp, fs, hv, n + 1);
    }
}

// ---------------------------------------------------------------------------
// Refreshing after the disk changed
// ---------------------------------------------------------------------------

/// Expanding row `k` of the rows and expanded paths `st`.
pub open spec fn expand_state(
    st: (Seq<Row>, Seq<String>),
    map: Seq<(String, GitStatus)>,
    ignored: Seq<String>,
    hv: bool,
    fs: Seq<FsListing>,
    k: int,
) -> (Seq<Row>, Seq<String>) {
    let r = st.0[k];
    let exp = with_path(st.1, r.path);
    let ch = children_spec(exp, map, ignored, hv, fs, r.path@, (r.depth + 1) as u32, Some(k as usize));
    (st.0.subrange(0, k) + seq![set_expanded(r, true)] + ch + st.0.subrange(k + 1, st.0.len() as int), exp)
}

/// Expanding the directory row of `path` afresh, unless it is expanded with
/// the rows that the disk holds below it already.
pub open spec fn force_state(
    st: (Seq<Row>, Seq<String>),
    map: Seq<(String, GitStatus)>,
    ignored: Seq<String>,
    hv: bool,
    fs: Seq<FsListing>,
    path: Seq<char>,
) -> (Seq<Row>, Seq<String>) {
    match first_row(st.0, path) {
        None => st,
        Some(k) => if st.0[k].kind != Kind::Dir || st.0[k].depth == u32::MAX {
            st
        } else if st.0[k].expanded && kids_match(st.0, fs, hv, k) {
            st
        } else {
            expand_state((st.0.update(k, set_expanded(st.0[k], false)), st.1), map, ignored, hv, fs, k)
        },
    }
}

/// `force_state` for the first `n` of `paths`, in order.
pub open spec fn force_all(
    st: (Seq<Row>, Seq<String>),
    paths: Seq<String>,
    map: Seq<(String, GitStatus)>,
    ignored: Seq<String>,
    hv: bool,
    fs: Seq<FsListing>,
    n: int,
) -> (Seq<Row>, Seq<String>)
    decreases n,
{
    if n <= 0 {
        st
    } else {
        force_state(force_all(st, paths, map, ignored, hv, fs, n - 1), map, ignored, hv, fs, paths[n - 1]@)
    }
}

pub open spec fn depth_keys(paths: Seq<String>) -> Seq<(int, Seq<char>)> {
    paths.map_values(|p: String| (-(components(p@).len() as int), Seq::<char>::empty()))
}

/// `paths` from the shallowest to the deepest, keeping their order otherwise.
pub open spec fn depth_order(paths: Seq<String>) -> Seq<String> {
    let o = ranked(depth_keys(paths));
    Seq::new(paths.len(), |i: int| paths[o[i] as int])
}

/// The paths of the expanded rows after row `k` and before `to`.
pub open spec fn expanded_below(rows: Seq<Row>, exp: Seq<String>, k: int, to: int) -> Seq<String>
    decreases to - k,
{
    if to <= k + 1 {
        Seq::empty()
    } else {
        let prev = expanded_below(rows, exp, k, to - 1);
        if in_paths(exp, rows[to - 1].path@) {
            prev.push(rows[to - 1].path)
        } else {
            prev
        }
    }
}

/// What refreshing `parent` does: whether the rows change, the rows, the
/// expanded paths and the ignored paths after it. The root is listed again
/// unless the rows match the disk; an expanded directory is listed again;
/// then every expanded directory below is expanded again, shallowest first.
pub open spec fn refresh_spec(m: TreeModel, parent: Seq<char>, fs: Seq<FsListing>, ignored: Seq<String>) -> (bool, Seq<Row>, Seq<String>, Seq<String>) {
    let map = m.git_status_map@;
    let hv = m.hidden_visible;
    let unchanged = (false, m.rows@, m.expanded_paths@, m.ignored_cache@);
    if path_eq(parent, m.root@) {
        if tree_matches(m, fs) {
            unchanged
        } else {
            let rows0 = children_spec(Seq::empty(), map, ignored, hv, fs, m.root@, 0, None);
            let paths = depth_order(m.expanded_paths@);
            let st = force_all((rows0, m.expanded_paths@), paths, map, ignored, hv, fs, paths.len() as int);
            (true, st.0, st.1, ignored)
        }
    } else {
        match first_row(m.rows@, parent) {
            None => unchanged,
            Some(k) => if !m.rows@[k].expanded {
                unchanged
            } else {
                let rows = m.rows@;
                let end = subtree_end(rows, rows[k].depth, k + 1);
                let deep = depth_order(expanded_below(rows, m.expanded_paths@, k, end));
                let rows1 = rows.subrange(0, k) + seq![set_expanded(rows[k], false)] + rows.subrange(end, rows.len() as int);
                let st1 = if rows[k].depth == u32::MAX {
                    (rows1, m.expanded_paths@)
                } else {
                    expand_state((rows1, m.expanded_paths@), map, ignored, hv, fs, k)
                };
                let st2 = force_all(st1, deep, map, ignored, hv, fs, deep.len() as int);
                (true, st2.0, st2.1, ignored)
            },
        }
    }
}

fn depth_ordered(paths: &Vec<String>) -> (res: Vec<String>)
    ensures
        res@ == depth_order(paths@),
{
    let mut keys: Vec<(i128, Vec<char>)> = Vec::new();
    let mut i: usize = 0;
    while i < paths.len()
        invariant
            i <= paths.len(),
            keys.len() == i,
            key_views(keys@) == depth_keys(paths@).subrange(0, i as int),
        decreases paths.len() - i,
    {
        let n = path_components(paths[i].as_str()).len();
        assert(n == components(paths@[i as int]@).len());
        let ghost before = keys@;
        let key: i128 = -(n as i128);
        keys.push((key, Vec::new()));
        proof {
            let want = depth_keys(paths@).subrange(0, i + 1);
            assert forall|j: int| 0 <= j < i + 1 implies key_views(keys@)[j] == want[j] by {
                if j < i {
                    assert(keys@[j] == before[j]);
                    assert(key_views(before)[j] == depth_keys(paths@).subrange(0, i as int)[j]);
                }
            }
            assert(key_views(keys@) =~= want);
        }
        i += 1;
    }
    assert(depth_keys(paths@).subrange(0, paths@.len() as int) =~= depth_keys(paths@));
    let order = sort_order(&keys);
    let mut out: Vec<String> = Vec::new();
    let mut r: usize = 0;
    while r < order.len()
        invariant
            order@ == ranked(depth_keys(paths@)),
            is_ranking(depth_keys(paths@), order@),
            order.len() == paths.len(),
            r <= order.len(),
            out.len() == r,
            forall|j: int| 0 <= j < r ==> out@[j] == paths@[order@[j] as int],
        decreases order.len() - r,
    {
        out.push(paths[order[r]].clone());
        r += 1;
    }
    assert(out@ =~= depth_order(paths@));
    out
}

impl TreeModel {
    fn force_expand_at_path(&mut self, path: &str, fs: &Vec<FsListing>)
        ensures
            (final(self).rows@, final(self).expanded_paths@) == force_state(
                (old(self).rows@, old(self).expanded_paths@),
                old(self).git_status_map@,
                old(self).ignored_cache@,
                old(self).hidden_visible,
                fs@,
                path@,
            ),
            same_settings(*final(self), *old(self)),
    {
        let ghost m = *self;
        let idx = match self.find_row(path) {
            Some(i) => i,
            None => {
                return;
            },
        };
        if self.rows[idx].kind != Kind::Dir || self.rows[idx].depth == u32::MAX {
            return;
        }
        if self.rows[idx].expanded && self.row_kids_match_fs(idx, fs) {
            return;
        }
        let mut r = copy_row(&self.rows[idx]);
        r.expanded = false;
        self.rows.set(idx, r);
        let ghost m1 = *self;
        self.expand_at_no_change(idx, fs);
        assert(expanded_rows(m1, idx as int, fs@) =~= expand_state(
            (m1.rows@, m1.expanded_paths@),
            m1.git_status_map@,
            m1.ignored_cache@,
            m1.hidden_visible,
            fs@,
            idx as int,
        ).0);
    }

    fn force_expand_all(&mut self, paths: &Vec<String>, fs: &Vec<FsListing>)
        ensures
            (final(self).rows@, final(self).expanded_paths@) == force_all(
                (old(self).rows@, old(self).expanded_paths@),
                paths@,
                old(self).git_status_map@,
                old(self).ignored_cache@,
                old(self).hidden_visible,
                fs@,
                paths@.len() as int,
            ),
            same_settings(*final(self), *old(self)),
    {
        let ghost m = *self;
        let mut i: usize = 0;
        while i < paths.len()
            invariant
                i <= paths.len(),
                same_settings(*self, m),
                (self.rows@, self.expanded_paths@) == force_all(
                    (m.rows@, m.expanded_paths@),
                    paths@,
                    m.git_status_map@,
                    m.ignored_cache@,
                    m.hidden_visible,
                    fs@,
                    i as int,
                ),
            decreases paths.len() - i,
        {
            self.force_expand_at_path(paths[i].as_str(), fs);
            i += 1;
        }
    }

    /// Brings the rows at and below `parent_path` up to date with the disk,
    /// as `fs` and the ignore rules (`ignored`) now describe it, keeping the
    /// directories that were expanded expanded. Says whether the rows changed.
    pub fn refresh_subtree(&mut self, parent_path: &str, fs: &Vec<FsListing>, ignored: Vec<String>) -> (res: bool)
        ensures
            (res, final(self).rows@, final(self).expanded_paths@, final(self).ignored_cache@) == refresh_spec(
                *old(self),
                parent_path@,
                fs@,
                ignored@,
            ),
            final(self).root == old(self).root,
            final(self).hidden_visible == old(self).hidden_visible,
            final(self).git_status_map@ == old(self).git_status_map@,
    {
        let ghost m = *self;
        if paths_equal(parent_path, self.root.as_str()) {
            if self.tree_matches_fs(fs) {
                return false;
            }
            let was_expanded = depth_ordered(&self.expanded_paths);
            let mut saved: Vec<String> = Vec::new();
            std::mem::swap(&mut saved, &mut self.expanded_paths);
            self.rebuild_visible(fs, ignored);
            self.expanded_paths = saved;
            self.force_expand_all(&was_expanded, fs);
            return true;
        }
        let k = match self.find_row(parent_path) {
            Some(i) => i,
            None => {
                return false;
            },
        };
        assert(k < self.rows.len());
        if !self.rows[k].expanded {
            return false;
        }
        let depth = self.rows[k].depth;
        let mut end = k + 1;
        let mut below: Vec<String> = Vec::new();
        while end < self.rows.len() && self.rows[end].depth > depth
            invariant
                k < end <= self.rows.len(),
                *self == m,
                depth == m.rows@[k as int].depth,
                forall|j: int| k < j < end ==> (#[trigger] m.rows@[j]).depth > depth,
                below@ == expanded_below(m.rows@, m.expanded_paths@, k as int, end as int),
            decreases self.rows.len() - end,
        {
            if contains_path(&self.expanded_paths, self.rows[end].path.as_str()) {
                below.push(self.rows[end].path.clone());
            }
            end += 1;
        }
        proof {
            lemma_subtree_end(m.rows@, depth, k + 1, end as int);
        }
        let deep = depth_ordered(&below);
        let mut r = copy_row(&self.rows[k]);
        r.expanded = false;
        self.rows.set(k, r);
        let mut tail = self.rows.split_off(end);
        self.rows.truncate(k + 1);
        self.rows.append(&mut tail);
        self.ignored_cache = ignored;
        let ghost rows1 = m.rows@.subrange(0, k as int) + seq![set_expanded(m.rows@[k as int], false)] + m.rows@.subrange(end as int, m.rows@.len() as int);
        assert(self.rows@ =~= rows1);
        let ghost m1 = *self;
        let ghost st1 = if depth == u32::MAX {
            (rows1, m.expanded_paths@)
        } else {
            expand_state((rows1, m.expanded_paths@), m.git_status_map@, ignored@, m.hidden_visible, fs@, k as int)
        };
        if depth < u32::MAX {
            self.expand_at_no_change(k, fs);
            assert(expanded_rows(m1, k as int, fs@) =~= expand_state(
                (m1.rows@, m1.expanded_paths@),
                m1.git_status_map@,
                m1.ignored_cache@,
                m1.hidden_visible,
                fs@,
                k as int,
            ).0);
        }
        assert((self.rows@, self.expanded_paths@) == st1);
        self.force_expand_all(&deep, fs);
        true
    }
}


// ---------------------------------------------------------------------------
// Events of the file watcher
// ---------------------------------------------------------------------------

/// What a batch of changed paths asks for: the directories to refresh, in
/// order, and whether the git status needs computing again.
#[derive(Clone, Debug, PartialEq, Eq)]
pub struct WatcherPlan {
    pub refresh: Vec<String>,
    pub refresh_git: bool,
}

/// Above this many directories to refresh, the root is refreshed instead.
pub const MAX_PARENT_REFRESHES: usize = 5;

pub open spec fn in_seqs(v: Seq<Seq<char>>, p: Seq<char>) -> bool {
    exists|i: int| 0 <= i < v.len() && path_eq(#[trigger] v[i], p)
}

/// The changed paths that the ignore rules do not match, among the first `n`.
pub open spec fn unignored(paths: Seq<String>, ignored: Seq<String>, n: int) -> Seq<Seq<char>>
    decreases n,
{
    if n <= 0 {
        Seq::empty()
    } else {
        let prev = unignored(paths, ignored, n - 1);
        if in_paths(ignored, paths[n - 1]@) {
            prev
        } else {
            prev.push(paths[n - 1]@)
        }
    }
}

/// The parent directories of the first `n` paths, each once, in order.
pub open spec fn parents_of(paths: Seq<Seq<char>>, n: int) -> Seq<Seq<char>>
    decreases n,
{
    if n <= 0 {
        Seq::empty()
    } else {
        let prev = parents_of(paths, n - 1);
        match parent(paths[n - 1]) {
            Some(q) => if in_seqs(prev, q) {
                prev
            } else {
                prev.push(q)
            },
            None => prev,
        }
    }
}

pub open spec fn git_component() -> Seq<char> {
    seq!['.', 'g', 'i', 't']
}

/// Some path has a `.git` component.
pub open spec fn touches_git(paths: Seq<Seq<char>>) -> bool {
    exists|i: int, j: int| 0 <= i < paths.len() && 0 <= j < components(paths[i]).len() && #[trigger] components(paths[i])[j] == git_component()
}

/// The parents among the first `n` that the tree shows: the root or an expanded path.
pub open spec fn visible_of(ps: Seq<Seq<char>>, root: Seq<char>, exp: Seq<String>, n: int) -> Seq<Seq<char>>
    decreases n,
{
    if n <= 0 {
        Seq::empty()
    } else {
        let prev = visible_of(ps, root, exp, n - 1);
        if path_eq(ps[n - 1], root) || in_paths(exp, ps[n - 1]) {
            prev.push(ps[n - 1])
        } else {
            prev
        }
    }
}

pub open spec fn plan_spec(m: TreeModel, paths: Seq<String>) -> (Seq<Seq<char>>, bool) {
    let kept = unignored(paths, m.ignored_cache@, paths.len() as int);
    if kept.len() == 0 {
        (Seq::empty(), false)
    } else {
        let ps = parents_of(kept, kept.len() as int);
        let vis = visible_of(ps, m.root@, m.expanded_paths@, ps.len() as int);
        (if vis.len() > MAX_PARENT_REFRESHES {
            seq![m.root@]
        } else {
            vis
        }, touches_git(kept))
    }
}

pub open spec fn string_views(v: Seq<String>) -> Seq<Seq<char>> {
    v.map_values(|s: String| s@)
}

fn has_git_component(p: &str) -> (res: bool)
    ensures
        res == exists|j: int| 0 <= j < components(p@).len() && #[trigger] components(p@)[j] == git_component(),
{
    let c = path_components(p);
    let mut g: Vec<char> = Vec::new();
    g.push('.');
    g.push('g');
    g.push('i');
    g.push('t');
    assert(g@ =~= git_component());
    let mut j: usize = 0;
    while j < c.len()
        invariant
            j <= c.len(),
            views(c@) == components(p@),
            g@ == git_component(),
            forall|k: int| 0 <= k < j ==> #[trigger] components(p@)[k] != git_component(),
        decreases c.len() - j,
    {
        assert(components(p@)[j as int] == c@[j as int]@);
        if crate::text::seq_eq(&c[j], &g) {
            return true;
        }
        j += 1;
    }
    false
}

fn contains_seq_path(v: &Vec<String>, p: &str) -> (res: bool)
    ensures
        res == in_seqs(string_views(v@), p@),
{
    let r = contains_path(v, p);
    proof {
        if r {
            let i = choose|i: int| 0 <= i < v@.len() && path_eq(#[trigger] v@[i]@, p@);
            assert(string_views(v@)[i] == v@[i]@);
        }
        if in_seqs(string_views(v@), p@) {
            let i = choose|i: int| 0 <= i < string_views(v@).len() && path_eq(#[trigger] string_views(v@)[i], p@);
            assert(string_views(v@)[i] == v@[i]@);
        }
    }
    r
}

impl TreeModel {
    /// Decides what a batch of changed paths refreshes. Paths that the ignore
    /// rules match are dropped; the rest name their parent directories, of
    /// which only the root and expanded ones are refreshed (the root alone
    /// when there are more than `MAX_PARENT_REFRESHES`); a path inside `.git`
    /// asks for a new git status.
    pub fn watcher_plan(&self, paths: Vec<String>) -> (plan: WatcherPlan)
        ensures
            (string_views(plan.refresh@), plan.refresh_git) == plan_spec(*self, paths@),
    {
        let mut kept: Vec<String> = Vec::new();
        let mut i: usize = 0;
        while i < paths.len()
            invariant
                i <= paths.len(),
                string_views(kept@) == unignored(paths@, self.ignored_cache@, i as int),
            decreases paths.len() - i,
        {
            if !contains_path(&self.ignored_cache, paths[i].as_str()) {
                kept.push(paths[i].clone());
            }
            assert(string_views(kept@) =~= unignored(paths@, self.ignored_cache@, i + 1));
            i += 1;
        }
        if kept.len() == 0 {
            let empty: Vec<String> = Vec::new();
            assert(string_views(empty@) =~= Seq::<Seq<char>>::empty());
            return WatcherPlan { refresh: empty, refresh_git: false };
        }
        let ghost kv = string_views(kept@);
        let mut parents: Vec<String> = Vec::new();
        let mut git = false;
        let mut k: usize = 0;
        while k < kept.len()
            invariant
                k <= kept.len(),
                kv == string_views(kept@),
                string_views(parents@) == parents_of(kv, k as int),
                git == exists|a: int, j: int| 0 <= a < k && 0 <= j < components(kv[a]).len() && #[trigger] components(kv[a])[j] == git_component(),
            decreases kept.len() - k,
        {
            assert(kv[k as int] == kept@[k as int]@);
            match parent_of(kept[k].as_str()) {
                Some(q) => {
                    if !contains_seq_path(&parents, q.as_str()) {
                        parents.push(q);
                    }
                },
                None => {},
            }
            assert(string_views(parents@) =~= parents_of(kv, k + 1));
            let here = has_git_component(kept[k].as_str());
            proof {
                if here {
                    let j = choose|j: int| 0 <= j < components(kv[k as int]).len() && #[trigger] components(kv[k as int])[j] == git_component();
                    assert(components(kv[k as int])[j] == git_component());
                }
                if exists|a: int, j: int| 0 <= a < k + 1 && 0 <= j < components(kv[a]).len() && #[trigger] components(kv[a])[j] == git_component() {
                    let (a, j) = choose|a: int, j: int| 0 <= a < k + 1 && 0 <= j < components(kv[a]).len() && #[trigger] components(kv[a])[j] == git_component();
                    if a == k {
                        assert(components(kv[k as int])[j] == git_component());
                    }
                }
            }
            git = git || here;
            k += 1;
        }
        let ghost pv = string_views(parents@);
        let mut visible: Vec<String> = Vec::new();
        let mut v: usize = 0;
        while v < parents.len()
            invariant
                v <= parents.len(),
                pv == string_views(parents@),
                string_views(visible@) == visible_of(pv, self.root@, self.expanded_paths@, v as int),
            decreases parents.len() - v,
        {
            assert(pv[v as int] == parents@[v as int]@);
            if paths_equal(parents[v].as_str(), self.root.as_str()) || contains_path(&self.expanded_paths, parents[v].as_str()) {
                visible.push(parents[v].clone());
            }
            assert(string_views(visible@) =~= visible_of(pv, self.root@, self.expanded_paths@, v + 1));
            v += 1;
        }
        if visible.len() > MAX_PARENT_REFRESHES {
            let mut only_root: Vec<String> = Vec::new();
            only_root.push(self.root.clone());
            assert(string_views(only_root@) =~= seq![self.root@]);
            WatcherPlan { refresh: only_root, refresh_git: git }
        } else {
            WatcherPlan { refresh: visible, refresh_git: git }
        }
    }

    /// "Collapse all", or, when nothing is expanded, "restore": collapsing
    /// hands back the expanded paths to keep; restoring expands `saved` again,
    /// and does nothing without it.
    pub fn collapse_all_or_restore(&mut self, saved: Option<Vec<String>>, fs: &Vec<FsListing>, ignored: Vec<String>) -> (to_keep: Option<Vec<String>>)
        ensures
            old(self).expanded_paths@.len() == 0 ==> to_keep is None && (match saved {
                None => same_model(*final(self), *old(self)),
                Some(s) => final(self).expanded_paths@ == s@ && final(self).ignored_cache@ == ignored@
                    && final(self).rows@ == children_spec(s@, old(self).git_status_map@, ignored@, old(self).hidden_visible, fs@, old(self).root@, 0, None),
            }),
            old(self).expanded_paths@.len() > 0 ==> (to_keep matches Some(k) && k@ == old(self).expanded_paths@
                && final(self).expanded_paths@.len() == 0 && final(self).ignored_cache@ == ignored@
                && final(self).rows@ == children_spec(Seq::empty(), old(self).git_status_map@, ignored@, old(self).hidden_visible, fs@, old(self).root@, 0, None)),
            final(self).root == old(self).root,
            final(self).hidden_visible == old(self).hidden_visible,
            final(self).git_status_map@ == old(self).git_status_map@,
    {
        if self.expanded_paths.len() == 0 {
            match saved {
                None => None,
                Some(s) => {
                    self.expanded_paths = s;
                    self.rebuild_visible(fs, ignored);
                    None
                },
            }
        } else {
            let mut current: Vec<String> = Vec::new();
            std::mem::swap(&mut current, &mut self.expanded_paths);
            self.rebuild_visible(fs, ignored);
            Some(current)
        }
    }
}


// ---------------------------------------------------------------------------
// Showing a workspace
// ---------------------------------------------------------------------------

/// The expanded paths once the first `n` of `paths` are added.
pub open spec fn with_paths(exp: Seq<String>, paths: Seq<String>, n: int) -> Seq<String>
    decreases n,
{
    if n <= 0 {
        exp
    } else {
        with_path(with_paths(exp, paths, n - 1), paths[n - 1])
    }
}

/// Expanding the row of `path`, when it is a collapsed directory.
pub open spec fn seed_step(
    st: (Seq<Row>, Seq<String>),
    map: Seq<(String, GitStatus)>,
    ignored: Seq<String>,
    hv: bool,
    fs: Seq<FsListing>,
    path: Seq<char>,
) -> (Seq<Row>, Seq<String>) {
    match first_row(st.0, path) {
        Some(k) => if !st.0[k].expanded && st.0[k].kind == Kind::Dir && st.0[k].depth < u32::MAX {
            expand_state(st, map, ignored, hv, fs, k)
        } else {
            st
        },
        None => st,
    }
}

pub open spec fn seed_all(
    st: (Seq<Row>, Seq<String>),
    paths: Seq<String>,
    map: Seq<(String, GitStatus)>,
    ignored: Seq<String>,
    hv: bool,
    fs: Seq<FsListing>,
    n: int,
) -> (Seq<Row>, Seq<String>)
    decreases n,
{
    if n <= 0 {
        st
    } else {
        seed_step(seed_all(st, paths, map, ignored, hv, fs, n - 1), map, ignored, hv, fs, paths[n - 1]@)
    }
}

impl TreeModel {
    /// Opens a workspace with `paths` expanded: they join the expanded paths,
    /// the root is listed, and each of them whose row is a collapsed directory
    /// is expanded, in order.
    pub fn seed_expansion(&mut self, paths: &Vec<String>, fs: &Vec<FsListing>, ignored: Vec<String>)
        ensures
            ({
                let exp = with_paths(old(self).expanded_paths@, paths@, paths@.len() as int);
                let rows0 = children_spec(exp, old(self).git_status_map@, ignored@, old(self).hidden_visible, fs@, old(self).root@, 0, None);
                (final(self).rows@, final(self).expanded_paths@) == seed_all((rows0, exp), paths@, old(self).git_status_map@, ignored@, old(self).hidden_visible, fs@, paths@.len() as int)
            }),
            final(self).ignored_cache@ == ignored@,
            final(self).root == old(self).root,
            final(self).hidden_visible == old(self).hidden_visible,
            final(self).git_status_map@ == old(self).git_status_map@,
    {
        let ghost m = *self;
        let mut i: usize = 0;
        while i < paths.len()
            invariant
                i <= paths.len(),
                same_settings(*self, m),
                self.rows@ == m.rows@,
                self.expanded_paths@ == with_paths(m.expanded_paths@, paths@, i as int),
            decreases paths.len() - i,
        {
            insert_path(&mut self.expanded_paths, paths[i].clone());
            i += 1;
        }
        self.rebuild_visible(fs, ignored);
        let ghost m1 = *self;
        let mut j: usize = 0;
        while j < paths.len()
            invariant
                j <= paths.len(),
                same_settings(*self, m1),
                (self.rows@, self.expanded_paths@) == seed_all((m1.rows@, m1.expanded_paths@), paths@, m1.git_status_map@, m1.ignored_cache@, m1.hidden_visible, fs@, j as int),
            decreases paths.len() - j,
        {
            match self.find_row(paths[j].as_str()) {
                Some(idx) => {
                    if !self.rows[idx].expanded && self.rows[idx].kind == Kind::Dir && self.rows[idx].depth < u32::MAX {
                        let ghost before = *self;
                        self.toggle_expand(idx, fs);
                        assert(expanded_rows(before, idx as int, fs@) =~= expand_state(
                            (before.rows@, before.expanded_paths@),
                            before.git_status_map@,
                            before.ignored_cache@,
                            before.hidden_visible,
                            fs@,
                            idx as int,
                        ).0);
                    }
                },
                None => {},
            }
            j += 1;
        }
    }
}

} // verus!
