//! Rows of the file tree and the checks made on them.
use vstd::prelude::*;

use crate::paths::{
    components, file_name, file_name_of, join, path_join, path_starts_with, starts_with_path,
};

verus! {

#[derive(Clone, Copy, Debug, PartialEq, Eq, Structural)]
pub enum Kind {
    Dir,
    File,
    Symlink,
}

#[derive(Clone, Copy, Debug, PartialEq, Eq, Structural)]
pub enum GitStatus {
    Clean,
    Modified,
    Added,
    Deleted,
    Untracked,
    Conflict,
    Ignored,
}

impl Default for GitStatus {
    fn default() -> (res: Self)
        ensures
            res == GitStatus::Clean,
    {
        GitStatus::Clean
    }
}

pub open spec fn priority_of(s: GitStatus) -> u8 {
    match s {
        GitStatus::Conflict => 6,
        GitStatus::Modified => 5,
        GitStatus::Added => 4,
        GitStatus::Deleted => 3,
        GitStatus::Untracked => 2,
        GitStatus::Ignored => 1,
        GitStatus::Clean => 0,
    }
}

impl GitStatus {
    /// How strongly a status shows on a directory that holds it.
    pub fn priority(self) -> (res: u8)
        ensures
            res == priority_of(self),
    {
        match self {
            GitStatus::Conflict => 6,
            GitStatus::Modified => 5,
            GitStatus::Added => 4,
            GitStatus::Deleted => 3,
            GitStatus::Untracked => 2,
            GitStatus::Ignored => 1,
            GitStatus::Clean => 0,
        }
    }
}

/// Distinct statuses have distinct priorities.
pub proof fn priority_is_injective(a: GitStatus, b: GitStatus)
    ensures
        priority_of(a) == priority_of(b) ==> a == b,
{
}

#[derive(Clone, Debug, PartialEq, Eq)]
pub struct Row {
    pub path: String,
    pub depth: u32,
    pub kind: Kind,
    pub expanded: bool,
    pub git_status: GitStatus,
    pub parent_idx: Option<usize>,
    pub ignored: bool,
}

// ---------------------------------------------------------------------------
// Workspace boundary
// ---------------------------------------------------------------------------

/// The path that `is_within_root` compares with the root: the canonical form
/// of `path` when it has one, else its canonical parent joined with its
/// file name (empty when it has none); no such path when neither exists.
pub open spec fn resolved_path(
    path: Seq<char>,
    canon: Option<Seq<char>>,
    canon_parent: Option<Seq<char>>,
) -> Option<Seq<char>> {
    match canon {
        Some(c) => Some(c),
        None => match canon_parent {
            Some(cp) => Some(
                path_join(
                    cp,
                    match file_name(path) {
                        Some(n) => n,
                        None => Seq::empty(),
                    },
                ),
            ),
            None => None,
        },
    }
}

/// Whether `path` lies inside `root`, given what canonicalizing `path`
/// (`canon`) and its parent (`canon_parent`) gave. `canon_parent` is `None`
/// when `path` has no parent or the parent cannot be canonicalized.
pub fn is_within_root(
    path: &str,
    root: &str,
    canon: Option<String>,
    canon_parent: Option<String>,
) -> (res: bool)
    ensures
        res == match resolved_path(
            path@,
            match canon {
                Some(c) => Some(c@),
                None => None,
            },
            match canon_parent {
                Some(c) => Some(c@),
                None => None,
            },
        ) {
            Some(r) => path_starts_with(r, root@),
            None => false,
        },
{
    let resolved: String = match canon {
        Some(c) => c,
        None => match canon_parent {
            Some(cp) => {
                let name = match file_name_of(path) {
                    Some(n) => crate::text::string_of(&n),
                    None => String::new(),
                };
                join(&cp, &name)
            },
            None => return false,
        },
    };
    starts_with_path(&resolved, root)
}

// ---------------------------------------------------------------------------
// Panel width
// ---------------------------------------------------------------------------

/// Characters in the file name of `path` (0 when it has none).
pub open spec fn name_chars(path: Seq<char>) -> int {
    match file_name(path) {
        Some(n) => n.len() as int,
        None => 0,
    }
}

pub open spec fn row_text_width(path: Seq<char>, depth: u32) -> int {
    depth * 16 + name_chars(path) * 9
}

/// Widest row text among the first `n` rows (0 when there are none).
pub open spec fn max_text_width(rows: Seq<Row>, n: int) -> int
    decreases n,
{
    if n <= 0 {
        0
    } else {
        let w = row_text_width(rows[n - 1].path@, rows[n - 1].depth);
        let m = max_text_width(rows, n - 1);
        if w > m {
            w
        } else {
            m
        }
    }
}

pub open spec fn clamp(v: int, lo: int, hi: int) -> int {
    if v < lo {
        lo
    } else if v > hi {
        hi
    } else {
        v
    }
}

/// The width the panel asks for: the widest row plus chevron, icon, git
/// marker, padding and breathing room, kept between 260 and 600.
pub open spec fn desired_width_spec(rows: Seq<Row>) -> int {
    clamp(max_text_width(rows, rows.len() as int) + 20 + 24 + 24 + 40 + 24, 260, 600)
}

/// Rows whose widths stay within `i32`.
pub open spec fn rows_fit_i32(rows: Seq<Row>) -> bool {
    forall|i: int|
        0 <= i < rows.len() ==> {
            &&& rows[i].depth <= i32::MAX
            &&& name_chars(rows[i].path@) <= i32::MAX
            &&& 0 <= #[trigger] row_text_width(rows[i].path@, rows[i].depth) <= i32::MAX - 132
        }
}

pub fn compute_desired_width(rows: &Vec<Row>) -> (res: i32)
    requires
        rows_fit_i32(rows@),
    ensures
        res == desired_width_spec(rows@),
{
    let mut max_text: i32 = 0;
    let mut i: usize = 0;
    while i < rows.len()
        invariant
            0 <= i <= rows.len(),
            rows_fit_i32(rows@),
            max_text == max_text_width(rows@, i as int),
            0 <= max_text <= i32::MAX - 132,
        decreases rows.len() - i,
    {
        let chars: i32 = match file_name_of(&rows[i].path) {
            Some(n) => n.len() as i32,
            None => 0,
        };
        assert(0 <= row_text_width(rows@[i as int].path@, rows@[i as int].depth) <= i32::MAX
            - 132);
        let depth = rows[i].depth as i32;
        let w = depth * 16 + chars * 9;
        if w > max_text {
            max_text = w;
        }
        i += 1;
    }
    let total = max_text + 20 + 24 + 24 + 40 + 24;
    if total < 260 {
        260
    } else if total > 600 {
        600
    } else {
        total
    }
}

/// Whether the widths of `rows` stay within `i32`.
pub fn rows_fit(rows: &Vec<Row>) -> (res: bool)
    ensures
        res == rows_fit_i32(rows@),
{
    let mut i: usize = 0;
    while i < rows.len()
        invariant
            0 <= i <= rows.len(),
            forall|j: int|
                #![trigger rows@[j]]
                0 <= j < i ==> {
                    &&& rows@[j].depth <= i32::MAX
                    &&& name_chars(rows@[j].path@) <= i32::MAX
                    &&& 0 <= row_text_width(rows@[j].path@, rows@[j].depth) <= i32::MAX - 132
                },
        decreases rows.len() - i,
    {
        let n: usize = match file_name_of(&rows[i].path) {
            Some(v) => v.len(),
            None => 0,
        };
        let depth = rows[i].depth;
        let ghost w = row_text_width(rows@[i as int].path@, rows@[i as int].depth);
        assert(name_chars(rows@[i as int].path@) == n);
        if depth > 0x7fff_ffff || n > 0x7fff_ffff {
            return false;
        }
        let width: u64 = (depth as u64) * 16 + (n as u64) * 9;
        assert(width == w);
        if width > 0x7fff_ff7b {
            return false;
        }
        assert(rows@[i as int].depth <= i32::MAX);
        assert(name_chars(rows@[i as int].path@) <= i32::MAX);
        assert(0 <= row_text_width(rows@[i as int].path@, rows@[i as int].depth) <= i32::MAX - 132);
        i += 1;
    }
    assert forall|j: int| 0 <= j < rows@.len() implies {
        &&& rows@[j].depth <= i32::MAX
        &&& name_chars(rows@[j].path@) <= i32::MAX
        &&& 0 <= #[trigger] row_text_width(rows@[j].path@, rows@[j].depth) <= i32::MAX - 132
    } by {
        assert(rows@[j] == rows@[j]);
    }
    true
}

/// Index of the first row whose path equals `path`.
pub fn find_row(rows: &Vec<Row>, path: &str) -> (res: Option<usize>)
    ensures
        match res {
            Some(i) => i < rows.len() && crate::paths::path_eq(rows@[i as int].path@, path@)
                && forall|j: int|
                0 <= j < i ==> !crate::paths::path_eq(#[trigger] rows@[j].path@, path@),
            None => forall|j: int|
                0 <= j < rows.len() ==> !crate::paths::path_eq(#[trigger] rows@[j].path@, path@),
        },
{
    let mut i: usize = 0;
    while i < rows.len()
        invariant
            0 <= i <= rows.len(),
            forall|j: int| 0 <= j < i ==> !crate::paths::path_eq(#[trigger] rows@[j].path@, path@),
        decreases rows.len() - i,
    {
        if crate::paths::paths_equal(&rows[i].path, path) {
            return Some(i);
        }
        i += 1;
    }
    None
}


// ---------------------------------------------------------------------------
// Numbers and markers that the list view stores for a row
// ---------------------------------------------------------------------------

pub open spec fn kind_id_spec(k: Kind) -> i32 {
    match k {
        Kind::Dir => 0,
        Kind::File => 1,
        Kind::Symlink => 2,
    }
}

pub open spec fn git_id_spec(g: GitStatus) -> i32 {
    match g {
        GitStatus::Clean => 0,
        GitStatus::Modified => 1,
        GitStatus::Added => 2,
        GitStatus::Deleted => 3,
        GitStatus::Untracked => 4,
        GitStatus::Conflict => 5,
        GitStatus::Ignored => 6,
    }
}

pub open spec fn git_of_id_spec(id: i32) -> GitStatus {
    if id == 1 {
        GitStatus::Modified
    } else if id == 2 {
        GitStatus::Added
    } else if id == 3 {
        GitStatus::Deleted
    } else if id == 4 {
        GitStatus::Untracked
    } else if id == 5 {
        GitStatus::Conflict
    } else if id == 6 {
        GitStatus::Ignored
    } else {
        GitStatus::Clean
    }
}

pub fn kind_to_id(k: Kind) -> (res: i32)
    ensures
        res == kind_id_spec(k),
{
    match k {
        Kind::Dir => 0,
        Kind::File => 1,
        Kind::Symlink => 2,
    }
}

pub fn git_to_id(g: GitStatus) -> (res: i32)
    ensures
        res == git_id_spec(g),
{
    match g {
        GitStatus::Clean => 0,
        GitStatus::Modified => 1,
        GitStatus::Added => 2,
        GitStatus::Deleted => 3,
        GitStatus::Untracked => 4,
        GitStatus::Conflict => 5,
        GitStatus::Ignored => 6,
    }
}

/// The status stored as `id`; unknown numbers read as clean.
pub fn id_to_git(id: i32) -> (res: GitStatus)
    ensures
        res == git_of_id_spec(id),
{
    match id {
        1 => GitStatus::Modified,
        2 => GitStatus::Added,
        3 => GitStatus::Deleted,
        4 => GitStatus::Untracked,
        5 => GitStatus::Conflict,
        6 => GitStatus::Ignored,
        _ => GitStatus::Clean,
    }
}

/// Law: a status read back from the number stored for it is the same status.
pub proof fn git_id_round_trip(g: GitStatus)
    ensures
        git_of_id_spec(git_id_spec(g)) == g,
{
}

/// The letter and style class that mark a git status.
pub open spec fn git_marker_for_spec(s: GitStatus) -> (&'static str, Option<&'static str>) {
    match s {
        GitStatus::Modified => ("M", Some("limux-fp-git-m")),
        GitStatus::Added => ("A", Some("limux-fp-git-a")),
        GitStatus::Deleted => ("D", Some("limux-fp-git-d")),
        GitStatus::Untracked => ("?", Some("limux-fp-git-u")),
        GitStatus::Conflict => ("!", Some("limux-fp-git-c")),
        GitStatus::Ignored | GitStatus::Clean => ("", None::<&'static str>),
    }
}

/// The letter shown beside a row and its style class; clean and ignored
/// rows show none.
pub fn git_marker_for(s: GitStatus) -> (res: (&'static str, Option<&'static str>))
    ensures
        res == git_marker_for_spec(s),
{
    match s {
        GitStatus::Modified => ("M", Some("limux-fp-git-m")),
        GitStatus::Added => ("A", Some("limux-fp-git-a")),
        GitStatus::Deleted => ("D", Some("limux-fp-git-d")),
        GitStatus::Untracked => ("?", Some("limux-fp-git-u")),
        GitStatus::Conflict => ("!", Some("limux-fp-git-c")),
        GitStatus::Ignored | GitStatus::Clean => ("", None),
    }
}

} // verus!
