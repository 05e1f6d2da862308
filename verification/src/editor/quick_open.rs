//! Ranking of workspace files for the quick-open popover.
use vstd::prelude::*;

use crate::order::{is_ranking, key_views, ranked, sort_order};
use crate::text::{ascii_lower, chars_of, lower_ascii, trim, trim_range};

verus! {

/// Most entries the popover lists.
pub const MAX_RESULTS: usize = 50;

/// Most files that one walk of the workspace indexes.
pub const MAX_INDEXED_FILES: usize = 5000;

/// A file of the workspace. `mtime` is its modification time in nanoseconds
/// since the Unix epoch.
#[derive(Clone, Debug)]
pub struct FileEntry {
    pub path: String,
    pub basename: String,
    pub rel_display: String,
    pub mtime: i128,
}

// ---------------------------------------------------------------------------
// Fuzzy matching
// ---------------------------------------------------------------------------

pub open spec fn is_boundary_char(c: char) -> bool {
    c == '/' || c == '_' || c == '-' || c == '.' || c == ' '
}

/// First index at or after `from` that holds `c`.
pub open spec fn first_from(h: Seq<char>, from: int, c: char) -> Option<int>
    decreases h.len() - from,
{
    if from < 0 || from >= h.len() {
        None
    } else if h[from] == c {
        Some(from)
    } else {
        first_from(h, from + 1, c)
    }
}

/// Where the greedy left-to-right match puts the `k`-th character of `n` in `h`.
pub open spec fn match_pos(n: Seq<char>, h: Seq<char>, k: int) -> Option<int>
    decreases k,
{
    if k < 0 {
        None
    } else if k == 0 {
        first_from(h, 0, n[0])
    } else {
        match match_pos(n, h, k - 1) {
            Some(p) => first_from(h, p + 1, n[k]),
            None => None,
        }
    }
}

/// Points for a match at `p`: one, five more right after the previous match,
/// eight more after a boundary character or at the start, four more at the start.
pub open spec fn gain(h: Seq<char>, p: int, prev: Option<int>) -> int {
    1 + (if prev == Some(p - 1) {
        5int
    } else {
        0
    }) + (if p == 0 || is_boundary_char(h[p - 1]) {
        8int
    } else {
        0
    }) + (if p == 0 {
        4int
    } else {
        0
    })
}

/// Points earned by the first `k` matched characters.
pub open spec fn points(n: Seq<char>, h: Seq<char>, k: int) -> int
    decreases k,
{
    if k <= 0 {
        0
    } else {
        points(n, h, k - 1) + gain(h, match_pos(n, h, k - 1)->0, match_pos(n, h, k - 2))
    }
}

/// The score of `needle` against `haystack`: `None` unless every character of
/// the needle matches, in order.
pub open spec fn fuzzy_spec(n: Seq<char>, h: Seq<char>) -> Option<int> {
    if n.len() == 0 {
        Some(0)
    } else if n.len() > h.len() {
        None
    } else {
        match match_pos(n, h, n.len() - 1) {
            Some(_) => Some(points(n, h, n.len() as int)),
            None => None,
        }
    }
}

proof fn lemma_first_from_found(h: Seq<char>, from: int, c: char, i: int)
    requires
        0 <= from <= i < h.len(),
        h[i] == c,
        forall|j: int| from <= j < i ==> h[j] != c,
    ensures
        first_from(h, from, c) == Some(i),
    decreases i - from,
{
    if from < i {
        lemma_first_from_found(h, from + 1, c, i);
    }
}

proof fn lemma_first_from_none(h: Seq<char>, from: int, c: char)
    requires
        0 <= from <= h.len(),
        forall|j: int| from <= j < h.len() ==> h[j] != c,
    ensures
        first_from(h, from, c) is None,
    decreases h.len() - from,
{
    if from < h.len() {
        lemma_first_from_none(h, from + 1, c);
    }
}

proof fn lemma_first_from_range(h: Seq<char>, from: int, c: char)
    requires
        0 <= from,
    ensures
        first_from(h, from, c) matches Some(p) ==> from <= p < h.len(),
    decreases h.len() - from,
{
    if from < h.len() && h[from] != c {
        lemma_first_from_range(h, from + 1, c);
    }
}

proof fn lemma_match_pos_none(n: Seq<char>, h: Seq<char>, k: int, m: int)
    requires
        0 <= k <= m,
        match_pos(n, h, k) is None,
    ensures
        match_pos(n, h, m) is None,
    decreases m - k,
{
    if k < m {
        lemma_match_pos_none(n, h, k + 1, m);
    }
}

proof fn lemma_match_pos_range(n: Seq<char>, h: Seq<char>, k: int)
    requires
        0 <= k,
    ensures
        match_pos(n, h, k) matches Some(p) ==> 0 <= p < h.len(),
    decreases k,
{
    if k == 0 {
        lemma_first_from_range(h, 0, n[0]);
    } else {
        lemma_match_pos_range(n, h, k - 1);
        if let Some(p) = match_pos(n, h, k - 1) {
            lemma_first_from_range(h, p + 1, n[k]);
        }
    }
}

/// Scores `needle` against `haystack`: consecutive matches, matches after a
/// boundary character and a match at the start earn more.
pub fn fuzzy_score(needle: &str, haystack: &str) -> (res: Option<i32>)
    requires
        needle@.len() <= 153_391_688,
    ensures
        match fuzzy_spec(needle@, haystack@) {
            Some(s) => res == Some(s as i32),
            None => res is None,
        },
{
    fuzzy_score_chars(&chars_of(needle), &chars_of(haystack))
}

fn fuzzy_score_chars(n: &Vec<char>, h: &Vec<char>) -> (res: Option<i32>)
    requires
        n@.len() <= 153_391_688,
    ensures
        match fuzzy_spec(n@, h@) {
            Some(s) => res == Some(s as i32),
            None => res is None,
        },
        res matches Some(x) ==> fuzzy_spec(n@, h@) == Some(x as int),
{
    if n.len() == 0 {
        return Some(0);
    }
    if n.len() > h.len() {
        return None;
    }
    let mut score: i32 = 0;
    let mut ni: usize = 0;
    let mut prev_match: Option<usize> = None;
    let mut prev_boundary = true;
    let mut hi: usize = 0;
    while hi < h.len() && ni < n.len()
        invariant
            0 < n.len() <= 153_391_688,
            hi <= h.len(),
            ni <= n.len(),
            ni <= hi,
            0 <= score <= 14 * ni + 4,
            score == points(n@, h@, ni as int),
            prev_boundary == (hi == 0 || is_boundary_char(h@[hi - 1])),
            ni == 0 ==> prev_match is None,
            ni > 0 ==> (prev_match matches Some(p) && match_pos(n@, h@, ni - 1) == Some(p as int) && p
                < hi),
            ni < n.len() ==> forall|j: int|
                (match prev_match {
                    Some(p) => p + 1,
                    None => 0,
                }) <= j < hi ==> h@[j] != n@[ni as int],
        decreases h.len() - hi,
    {
        let nc = n[ni];
        let hc = h[hi];
        let boundary_here = prev_boundary;
        let is_boundary = hc == '/' || hc == '_' || hc == '-' || hc == '.' || hc == ' ';
        if hc == nc {
            let mut g: i32 = 1;
            match prev_match {
                Some(p) => {
                    if hi == p + 1 {
                        g += 5;
                    }
                },
                None => {},
            }
            if boundary_here {
                g += 8;
            }
            if hi == 0 {
                g += 4;
            }
            proof {
                let start = match prev_match {
                    Some(p) => p + 1,
                    None => 0,
                };
                lemma_first_from_found(h@, start as int, n@[ni as int], hi as int);
                assert(match_pos(n@, h@, ni as int) == Some(hi as int));
                if ni > 0 {
                    assert(match_pos(n@, h@, ni - 1) == Some(prev_match->0 as int));
                }
                assert(g == gain(h@, hi as int, match_pos(n@, h@, ni - 1)));
            }
            score = score + g;
            prev_match = Some(hi);
            ni = ni + 1;
        }
        prev_boundary = is_boundary;
        hi = hi + 1;
    }
    if ni == n.len() {
        Some(score)
    } else {
        proof {
            let start = match prev_match {
                Some(p) => p + 1,
                None => 0,
            };
            lemma_first_from_none(h@, start as int, n@[ni as int]);
            assert(match_pos(n@, h@, ni as int) is None);
            lemma_match_pos_none(n@, h@, ni as int, n@.len() - 1);
        }
        None
    }
}


// ---------------------------------------------------------------------------
// Ranking
// ---------------------------------------------------------------------------

pub open spec fn clamp_i32(x: int) -> int {
    if x > i32::MAX {
        i32::MAX as int
    } else if x < i32::MIN {
        i32::MIN as int
    } else {
        x
    }
}

/// The score of one file: twice the basename score plus the path score, each
/// counted where it matches, saturating at the bounds of `i32`.
pub open spec fn entry_score(needle: Seq<char>, e: FileEntry) -> Option<int> {
    let b = fuzzy_spec(needle, ascii_lower(e.basename@));
    let r = fuzzy_spec(needle, ascii_lower(e.rel_display@));
    match (b, r) {
        (Some(b), Some(r)) => Some(clamp_i32(clamp_i32(b * 2) + r)),
        (Some(b), None) => Some(clamp_i32(b * 2)),
        (None, Some(r)) => Some(r),
        (None, None) => None,
    }
}

/// The files among the first `k` that match, as (score, position).
pub open spec fn scored_upto(files: Seq<FileEntry>, needle: Seq<char>, k: int) -> Seq<(int, int)>
    decreases k,
{
    if k <= 0 {
        Seq::empty()
    } else {
        let prev = scored_upto(files, needle, k - 1);
        match entry_score(needle, files[k - 1]) {
            Some(s) => prev.push((s, k - 1)),
            None => prev,
        }
    }
}

pub open spec fn scored(files: Seq<FileEntry>, needle: Seq<char>) -> Seq<(int, int)> {
    scored_upto(files, needle, files.len() as int)
}

pub open spec fn score_keys(files: Seq<FileEntry>, sc: Seq<(int, int)>) -> Seq<(int, Seq<char>)> {
    sc.map_values(|x: (int, int)| (x.0, files[x.1].basename@))
}

pub open spec fn recency_keys(files: Seq<FileEntry>) -> Seq<(int, Seq<char>)> {
    files.map_values(|e: FileEntry| (e.mtime as int, Seq::<char>::empty()))
}

pub open spec fn min_results(n: int) -> int {
    if n < MAX_RESULTS {
        n
    } else {
        MAX_RESULTS as int
    }
}

/// What `rank` lists: with a blank query the most recently modified files
/// first; else the files that match the query, best score first, ties by
/// basename; at most `MAX_RESULTS` of them.
pub open spec fn rank_spec(files: Seq<FileEntry>, query: Seq<char>, res: Seq<FileEntry>) -> bool {
    let t = trim(query);
    if t.len() == 0 {
        let order = ranked(recency_keys(files));
        res.len() == min_results(files.len() as int) && forall|i: int|
            0 <= i < res.len() ==> res[i] == files[order[i] as int]
    } else {
        let sc = scored(files, ascii_lower(t));
        let order = ranked(score_keys(files, sc));
        res.len() == min_results(sc.len() as int) && forall|i: int|
            0 <= i < res.len() ==> res[i] == files[sc[order[i] as int].1]
    }
}

fn copy_entry(e: &FileEntry) -> (res: FileEntry)
    ensures
        res == *e,
{
    FileEntry {
        path: e.path.clone(),
        basename: e.basename.clone(),
        rel_display: e.rel_display.clone(),
        mtime: e.mtime,
    }
}

fn clamp_add(a: i32, b: i32) -> (res: i32)
    ensures
        res == clamp_i32(a + b),
{
    let s: i64 = a as i64 + b as i64;
    if s > i32::MAX as i64 {
        i32::MAX
    } else if s < i32::MIN as i64 {
        i32::MIN
    } else {
        s as i32
    }
}

/// Orders `files` for the quick-open list.
pub fn rank(files: &Vec<FileEntry>, query: &str) -> (res: Vec<FileEntry>)
    requires
        query@.len() <= 153_391_688,
    ensures
        rank_spec(files@, query@, res@),
{
    let q = chars_of(query);
    let (a, b) = trim_range(&q, 0, q.len());
    assert(q@.subrange(0, q@.len() as int) =~= q@);
    let mut keys: Vec<(i128, Vec<char>)> = Vec::new();
    let mut picks: Vec<usize> = Vec::new();
    if a == b {
        let mut i: usize = 0;
        while i < files.len()
            invariant
                i <= files.len(),
                keys.len() == i,
                forall|j: int| 0 <= j < i ==> #[trigger] key_views(keys@)[j] == recency_keys(files@)[j],
            decreases files.len() - i,
        {
            let ghost old_keys = keys@;
            keys.push((files[i].mtime, Vec::new()));
            proof {
                assert(key_views(keys@)[i as int] == (files@[i as int].mtime as int, Seq::<char>::empty()));
                assert forall|j: int| 0 <= j < i + 1 implies #[trigger] key_views(keys@)[j] == recency_keys(files@)[j] by {
                    if j < i {
                        assert(keys@[j] == old_keys[j]);
                        assert(key_views(old_keys)[j] == recency_keys(files@)[j]);
                    }
                }
            }
            i += 1;
        }
        assert(key_views(keys@) =~= recency_keys(files@));
        let order = sort_order(&keys);
        let mut out: Vec<FileEntry> = Vec::new();
        let n = if order.len() < MAX_RESULTS {
            order.len()
        } else {
            MAX_RESULTS
        };
        let mut r: usize = 0;
        while r < n
            invariant
                n <= order.len(),
                order.len() == files.len(),
                forall|j: int| 0 <= j < order.len() ==> order@[j] < files.len(),
                out.len() == r,
                r <= n,
                forall|j: int| 0 <= j < r ==> out@[j] == files@[order@[j] as int],
            decreases n - r,
        {
            out.push(copy_entry(&files[order[r]]));
            r += 1;
        }
        return out;
    }
    let needle = lower_ascii(&crate::text::sub_vec(&q, a, b));
    let ghost nd = ascii_lower(trim(query@));
    assert(needle@ == nd);
    let mut i: usize = 0;
    let mut scores: Vec<(i32, usize)> = Vec::new();
    while i < files.len()
        invariant
            i <= files.len(),
            needle@ == nd,
            nd.len() <= 153_391_688,
            keys.len() == scores.len(),
            scores.len() == scored_upto(files@, nd, i as int).len(),
            forall|j: int| 0 <= j < scores.len() ==> (#[trigger] scores@[j]).0 as int == scored_upto(files@, nd, i as int)[j].0
                && scores@[j].1 as int == scored_upto(files@, nd, i as int)[j].1,
            forall|j: int| 0 <= j < scores.len() ==> scored_upto(files@, nd, i as int)[j].1 < i,
            forall|j: int| 0 <= j < keys.len() ==> #[trigger] key_views(keys@)[j] == score_keys(files@, scored_upto(files@, nd, i as int))[j],
        decreases files.len() - i,
    {
        let ghost prev = scored_upto(files@, nd, i as int);
        let e = &files[i];
        let base_lower = lower_ascii(&chars_of(e.basename.as_str()));
        let rel_lower = lower_ascii(&chars_of(e.rel_display.as_str()));
        let bs = fuzzy_score_chars(&needle, &base_lower);
        let rs = fuzzy_score_chars(&needle, &rel_lower);
        let combined: Option<i32> = match (bs, rs) {
            (Some(x), Some(y)) => Some(clamp_add(clamp_add(x, x), y)),
            (Some(x), None) => Some(clamp_add(x, x)),
            (None, Some(y)) => Some(y),
            (None, None) => None,
        };
        assert(combined matches Some(c) ==> entry_score(nd, files@[i as int]) == Some(c as int));
        assert(combined is None ==> entry_score(nd, files@[i as int]) is None);
        match combined {
            Some(c) => {
                let ghost old_keys = keys@;
                scores.push((c, i));
                keys.push((c as i128, chars_of(e.basename.as_str())));
                proof {
                    let now = scored_upto(files@, nd, i + 1);
                    assert(now == prev.push((c as int, i as int)));
                    assert forall|j: int| 0 <= j < keys.len() implies #[trigger] key_views(keys@)[j] == score_keys(files@, now)[j] by {
                        if j < keys.len() - 1 {
                            assert(keys@[j] == old_keys[j]);
                            assert(key_views(old_keys)[j] == score_keys(files@, prev)[j]);
                        }
                    }
                }
            },
            None => {},
        }
        i += 1;
    }
    let ghost sc = scored(files@, nd);
    assert(key_views(keys@) =~= score_keys(files@, sc));
    let order = sort_order(&keys);
    let mut out: Vec<FileEntry> = Vec::new();
    let n = if order.len() < MAX_RESULTS {
        order.len()
    } else {
        MAX_RESULTS
    };
    let mut r: usize = 0;
    while r < n
        invariant
            n <= order.len(),
            order.len() == scores.len(),
            scores.len() == sc.len(),
            forall|j: int| 0 <= j < order.len() ==> order@[j] < scores.len(),
            forall|j: int| 0 <= j < scores.len() ==> (#[trigger] scores@[j]).1 as int == sc[j].1,
            forall|j: int| 0 <= j < scores.len() ==> sc[j].1 < files.len(),
            out.len() == r,
            r <= n,
            forall|j: int| 0 <= j < r ==> out@[j] == files@[sc[order@[j] as int].1],
        decreases n - r,
    {
        let idx = scores[order[r]].1;
        out.push(copy_entry(&files[idx]));
        r += 1;
    }
    out
}


/// The row selected after moving the selection by `delta` in a list of `len`
/// rows, wrapping round at either end; `None` for an empty list.
pub fn moved_selection(cur: usize, len: usize, delta: i32) -> (res: Option<usize>)
    requires
        cur <= i32::MAX,
        len <= i32::MAX,
        i32::MIN <= cur + delta <= i32::MAX,
    ensures
        len == 0 ==> res is None,
        len > 0 ==> res == Some(
            (if cur + delta < 0 {
                len - 1
            } else if cur + delta >= len {
                0
            } else {
                cur + delta
            }) as usize,
        ),
{
    if len == 0 {
        return None;
    }
    let c: i32 = cur as i32;
    let next: i32 = c + delta;
    if next < 0 {
        Some(len - 1)
    } else if next as usize >= len {
        Some(0)
    } else {
        Some(next as usize)
    }
}

// ---------------------------------------------------------------------------
// Every match is listed
// ---------------------------------------------------------------------------

/// `n` occurs in `h` as a subsequence: its characters in order, not
/// necessarily next to each other.
pub open spec fn is_subsequence(n: Seq<char>, h: Seq<char>) -> bool {
    exists|f: Seq<int>| #[trigger] places(n, h, f)
}

/// `f` places each character of `n` in `h`, at increasing positions.
pub open spec fn places(n: Seq<char>, h: Seq<char>, f: Seq<int>) -> bool {
    &&& f.len() == n.len()
    &&& forall|i: int| 0 <= i < n.len() ==> 0 <= #[trigger] f[i] < h.len() && h[f[i]] == n[i]
    &&& forall|i: int, j: int| 0 <= i < j < n.len() ==> #[trigger] f[i] < #[trigger] f[j]
}

/// A file matches the needle: through its basename or its relative path.
pub open spec fn file_matches(needle: Seq<char>, e: FileEntry) -> bool {
    is_subsequence(needle, ascii_lower(e.basename@)) || is_subsequence(needle, ascii_lower(e.rel_display@))
}

/// How many of the first `m` files match.
pub open spec fn matching_count(files: Seq<FileEntry>, needle: Seq<char>, m: int) -> nat
    decreases m,
{
    if m <= 0 {
        0
    } else {
        matching_count(files, needle, m - 1) + if file_matches(needle, files[m - 1]) {
            1nat
        } else {
            0nat
        }
    }
}

proof fn lemma_first_from_at_most(h: Seq<char>, from: int, c: char, i: int)
    requires
        0 <= from <= i < h.len(),
        h[i] == c,
    ensures
        first_from(h, from, c) matches Some(q) && from <= q <= i && h[q] == c,
    decreases i - from,
{
    if h[from] != c {
        lemma_first_from_at_most(h, from + 1, c, i);
    }
}

proof fn lemma_first_from_hit(h: Seq<char>, from: int, c: char)
    requires
        0 <= from,
    ensures
        first_from(h, from, c) matches Some(q) ==> from <= q < h.len() && h[q] == c,
    decreases h.len() - from,
{
    if from < h.len() && h[from] != c {
        lemma_first_from_hit(h, from + 1, c);
    }
}

/// The greedy match never falls behind a placement.
proof fn lemma_greedy_keeps_up(n: Seq<char>, h: Seq<char>, f: Seq<int>, k: int)
    requires
        places(n, h, f),
        0 <= k < n.len(),
    ensures
        match_pos(n, h, k) matches Some(p) && p <= f[k],
    decreases k,
{
    if k == 0 {
        assert(0 <= f[0] < h.len() && h[f[0]] == n[0]);
        lemma_first_from_at_most(h, 0, n[0], f[0]);
    } else {
        lemma_greedy_keeps_up(n, h, f, k - 1);
        let p = match_pos(n, h, k - 1)->0;
        lemma_match_pos_range(n, h, k - 1);
        assert(f[k - 1] < f[k]);
        assert(0 <= f[k] < h.len() && h[f[k]] == n[k]);
        lemma_first_from_at_most(h, p + 1, n[k], f[k]);
    }
}

/// The greedy match is a placement.
proof fn lemma_greedy_places(n: Seq<char>, h: Seq<char>, k: int)
    requires
        0 <= k < n.len(),
        match_pos(n, h, k) is Some,
    ensures
        forall|i: int| 0 <= i <= k ==> ((#[trigger] match_pos(n, h, i)) matches Some(p) && 0 <= p < h.len() && h[p] == n[i]),
        forall|i: int, j: int| 0 <= i < j <= k ==> match_pos(n, h, i)->0 < match_pos(n, h, j)->0,
    decreases k,
{
    if k == 0 {
        lemma_first_from_hit(h, 0, n[0]);
    } else {
        assert(match_pos(n, h, k - 1) is Some);
        lemma_greedy_places(n, h, k - 1);
        let p = match_pos(n, h, k - 1)->0;
        lemma_first_from_hit(h, p + 1, n[k]);
        assert forall|i: int, j: int| 0 <= i < j <= k implies match_pos(n, h, i)->0 < match_pos(n, h, j)->0 by {
            if j == k && i < k - 1 {
                assert(match_pos(n, h, i)->0 < match_pos(n, h, k - 1)->0);
            }
        }
    }
}

proof fn lemma_places_fit(n: Seq<char>, h: Seq<char>, f: Seq<int>, i: int)
    requires
        places(n, h, f),
        0 <= i < n.len(),
    ensures
        f[i] >= i,
    decreases i,
{
    if i > 0 {
        lemma_places_fit(n, h, f, i - 1);
        assert(f[i - 1] < f[i]);
    }
}

/// A needle matches (gets a score) exactly where it is a subsequence.
proof fn lemma_fuzzy_is_subsequence(n: Seq<char>, h: Seq<char>)
    ensures
        (fuzzy_spec(n, h) is Some) == is_subsequence(n, h),
{
    if n.len() == 0 {
        assert(places(n, h, Seq::<int>::empty()));
    } else if is_subsequence(n, h) {
        let f = choose|f: Seq<int>| #[trigger] places(n, h, f);
        lemma_places_fit(n, h, f, n.len() - 1);
        lemma_greedy_keeps_up(n, h, f, n.len() - 1);
    } else if fuzzy_spec(n, h) is Some {
        lemma_greedy_places(n, h, n.len() - 1);
        let f = Seq::new(n.len(), |i: int| match_pos(n, h, i)->0);
        assert(places(n, h, f));
    }
}

proof fn lemma_entry_score_matches(needle: Seq<char>, e: FileEntry)
    ensures
        (entry_score(needle, e) is Some) == file_matches(needle, e),
{
    lemma_fuzzy_is_subsequence(needle, ascii_lower(e.basename@));
    lemma_fuzzy_is_subsequence(needle, ascii_lower(e.rel_display@));
}

proof fn lemma_scored_upto(files: Seq<FileEntry>, needle: Seq<char>, m: int, k: int)
    requires
        0 <= k < m <= files.len(),
        file_matches(needle, files[k]),
    ensures
        exists|q: int| 0 <= q < scored_upto(files, needle, m).len() && (#[trigger] scored_upto(files, needle, m)[q]).1 == k,
    decreases m,
{
    lemma_entry_score_matches(needle, files[m - 1]);
    if k < m - 1 {
        lemma_scored_upto(files, needle, m - 1, k);
        let q = choose|q: int| 0 <= q < scored_upto(files, needle, m - 1).len() && (#[trigger] scored_upto(files, needle, m - 1)[q]).1 == k;
        assert(scored_upto(files, needle, m)[q] == scored_upto(files, needle, m - 1)[q]);
    } else {
        let l = scored_upto(files, needle, m - 1).len() as int;
        assert(scored_upto(files, needle, m)[l].1 == k);
    }
}

proof fn lemma_scored_count(files: Seq<FileEntry>, needle: Seq<char>, m: int)
    requires
        0 <= m <= files.len(),
    ensures
        scored_upto(files, needle, m).len() == matching_count(files, needle, m),
    decreases m,
{
    if m > 0 {
        lemma_scored_count(files, needle, m - 1);
        lemma_entry_score_matches(needle, files[m - 1]);
    }
}

/// Law: every file that matches the query is listed, as long as no more
/// files match than the list holds. A file matches when the trimmed,
/// lower-cased query occurs, in order, in its lower-cased basename or
/// relative path; with a blank query every file matches.
pub proof fn rank_lists_every_match(files: Seq<FileEntry>, query: Seq<char>, res: Seq<FileEntry>, k: int)
    requires
        rank_spec(files, query, res),
        files.len() <= usize::MAX,
        0 <= k < files.len(),
        trim(query).len() == 0 ==> files.len() <= MAX_RESULTS,
        trim(query).len() > 0 ==> file_matches(ascii_lower(trim(query)), files[k])
            && matching_count(files, ascii_lower(trim(query)), files.len() as int) <= MAX_RESULTS,
    ensures
        exists|i: int| 0 <= i < res.len() && res[i] == files[k],
{
    let t = trim(query);
    if t.len() == 0 {
        let keys = recency_keys(files);
        crate::order::lemma_ranking_exists(keys);
        crate::order::lemma_ranking_covers(keys, ranked(keys), k);
        let j = choose|j: int| 0 <= j < ranked(keys).len() && ranked(keys)[j] == k;
        assert(res[j] == files[k]);
    } else {
        let nd = ascii_lower(t);
        let sc = scored(files, nd);
        lemma_scored_count(files, nd, files.len() as int);
        lemma_scored_upto(files, nd, files.len() as int, k);
        let q = choose|q: int| 0 <= q < sc.len() && (#[trigger] sc[q]).1 == k;
        let keys = score_keys(files, sc);
        crate::order::lemma_ranking_exists(keys);
        crate::order::lemma_ranking_covers(keys, ranked(keys), q);
        let j = choose|j: int| 0 <= j < ranked(keys).len() && ranked(keys)[j] == q;
        assert(res[j] == files[k]);
    }
}

proof fn lemma_scored_entries(files: Seq<FileEntry>, needle: Seq<char>, m: int)
    requires
        0 <= m <= files.len(),
    ensures
        forall|q: int| 0 <= q < scored_upto(files, needle, m).len() ==> {
            let x = #[trigger] scored_upto(files, needle, m)[q];
            0 <= x.1 < m && entry_score(needle, files[x.1]) == Some(x.0)
        },
    decreases m,
{
    if m > 0 {
        lemma_scored_entries(files, needle, m - 1);
        let prev = scored_upto(files, needle, m - 1);
        assert forall|q: int| 0 <= q < scored_upto(files, needle, m).len() implies {
            let x = #[trigger] scored_upto(files, needle, m)[q];
            0 <= x.1 < m && entry_score(needle, files[x.1]) == Some(x.0)
        } by {
            if q < prev.len() {
                assert(scored_upto(files, needle, m)[q] == prev[q]);
            }
        }
    }
}

/// Law: the list is in order: with a blank query the most recently modified
/// file first; else the best score first.
pub proof fn rank_lists_in_order(files: Seq<FileEntry>, query: Seq<char>, res: Seq<FileEntry>, i: int, j: int)
    requires
        rank_spec(files, query, res),
        files.len() <= usize::MAX,
        0 <= i < j < res.len(),
    ensures
        trim(query).len() == 0 ==> res[i].mtime >= res[j].mtime,
        trim(query).len() > 0 ==> (entry_score(ascii_lower(trim(query)), res[i]) matches Some(a)
            && entry_score(ascii_lower(trim(query)), res[j]) matches Some(b) && a >= b),
{
    let t = trim(query);
    if t.len() == 0 {
        let keys = recency_keys(files);
        crate::order::lemma_ranking_exists(keys);
        let o = ranked(keys);
        assert(crate::order::key_lt(keys, o[i] as int, o[j] as int));
    } else {
        let nd = ascii_lower(t);
        let sc = scored(files, nd);
        lemma_scored_entries(files, nd, files.len() as int);
        let keys = score_keys(files, sc);
        assert(sc.len() <= usize::MAX) by {
            lemma_scored_count(files, nd, files.len() as int);
            lemma_matching_count_bound(files, nd, files.len() as int);
        }
        crate::order::lemma_ranking_exists(keys);
        let o = ranked(keys);
        assert(crate::order::key_lt(keys, o[i] as int, o[j] as int));
        let xi = sc[o[i] as int];
        let xj = sc[o[j] as int];
        assert(res[i] == files[xi.1]);
        assert(res[j] == files[xj.1]);
    }
}

proof fn lemma_matching_count_bound(files: Seq<FileEntry>, needle: Seq<char>, m: int)
    requires
        0 <= m,
    ensures
        matching_count(files, needle, m) <= m,
    decreases m,
{
    if m > 0 {
        lemma_matching_count_bound(files, needle, m - 1);
    }
}

} // verus!
