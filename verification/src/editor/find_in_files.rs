//! Reading the matches that `rg --vimgrep` prints.
use vstd::prelude::*;

use crate::paths::{path_eq, paths_equal};
use crate::text::{byte_len, chars_of, char_width, string_of, trim, trim_range, find_char, first_index_of, lemma_first_index_of, parse_unsigned, parse_unsigned_chars, string_of_range, sub_vec};

verus! {

/// Shortest query that is searched for.
pub const MIN_QUERY_LEN: usize = 2;

/// Most matches that one search collects.
pub const MAX_RESULTS: usize = 500;

/// One match: the file, the line and column (both counted from one) and the
/// text of the line.
#[derive(Clone, Debug, PartialEq, Eq)]
pub struct Hit {
    pub path: String,
    pub line: usize,
    pub col: usize,
    pub snippet: String,
}

/// The first `:` at or after `from` in `s`.
pub open spec fn colon_from(s: Seq<char>, from: int) -> Option<int> {
    match first_index_of(s.subrange(from, s.len() as int), ':') {
        Some(i) => Some(from + i),
        None => None,
    }
}

/// A line `path:line:col:text`, split at its first three colons.
pub open spec fn vimgrep_spec(s: Seq<char>) -> Option<(Seq<char>, nat, nat, Seq<char>)> {
    match colon_from(s, 0) {
        None => None,
        Some(a) => match colon_from(s, a + 1) {
            None => None,
            Some(b) => match colon_from(s, b + 1) {
                None => None,
                Some(c) => {
                    let path = s.subrange(0, a);
                    let line = parse_unsigned(s.subrange(a + 1, b), usize::MAX as nat);
                    let col = parse_unsigned(s.subrange(b + 1, c), usize::MAX as nat);
                    if path.len() == 0 || line is None || col is None {
                        None
                    } else {
                        Some((path, line->0, col->0, s.subrange(c + 1, s.len() as int)))
                    }
                },
            },
        },
    }
}

fn colon_at_or_after(v: &Vec<char>, from: usize) -> (res: Option<usize>)
    requires
        from <= v.len(),
    ensures
        match colon_from(v@, from as int) {
            Some(i) => res == Some(i as usize) && from <= i < v.len(),
            None => res is None,
        },
{
    proof {
        lemma_first_index_of(v@.subrange(from as int, v@.len() as int), ':');
    }
    find_char(v, from, ':')
}

/// Reads one line of `rg --vimgrep` output.
pub fn parse_vimgrep_line(line: &str) -> (res: Option<Hit>)
    ensures
        match vimgrep_spec(line@) {
            Some((p, l, c, t)) => res matches Some(h) && h.path@ == p && h.line == l && h.col == c
                && h.snippet@ == t,
            None => res is None,
        },
{
    let v = chars_of(line);
    let a = match colon_at_or_after(&v, 0) {
        Some(i) => i,
        None => {
            return None;
        },
    };
    let b = match colon_at_or_after(&v, a + 1) {
        Some(i) => i,
        None => {
            return None;
        },
    };
    let c = match colon_at_or_after(&v, b + 1) {
        Some(i) => i,
        None => {
            return None;
        },
    };
    if a == 0 {
        return None;
    }
    let line_no = match parse_unsigned_chars(&sub_vec(&v, a + 1, b), usize::MAX as u64) {
        Some(n) => n as usize,
        None => {
            return None;
        },
    };
    let col_no = match parse_unsigned_chars(&sub_vec(&v, b + 1, c), usize::MAX as u64) {
        Some(n) => n as usize,
        None => {
            return None;
        },
    };
    Some(
        Hit {
            path: string_of_range(&v, 0, a),
            line: line_no,
            col: col_no,
            snippet: string_of_range(&v, c + 1, v.len()),
        },
    )
}

/// Adds the match that `line` holds, if any, to `hits`, and says whether to
/// read on: reading stops once `MAX_RESULTS` matches are collected.
pub fn push_hit(hits: &mut Vec<Hit>, line: &str) -> (more: bool)
    requires
        old(hits).len() < MAX_RESULTS,
    ensures
        match vimgrep_spec(line@) {
            Some((p, l, c, t)) => final(hits).len() == old(hits).len() + 1
                && final(hits)@.subrange(0, old(hits).len() as int) == old(hits)@
                && final(hits)@.last().path@ == p && final(hits)@.last().line == l
                && final(hits)@.last().col == c && final(hits)@.last().snippet@ == t,
            None => final(hits)@ == old(hits)@,
        },
        more == (final(hits).len() < MAX_RESULTS),
{
    match parse_vimgrep_line(line) {
        Some(h) => {
            hits.push(h);
            assert(hits@.subrange(0, hits.len() - 1) =~= old(hits)@);
        },
        None => {},
    }
    hits.len() < MAX_RESULTS
}


/// Largest file `rg` reads.
pub const RG_MAX_FILESIZE: &'static str = "10M";

/// Longest line `rg` prints.
pub const RG_MAX_COLUMNS: &'static str = "500";

proof fn lemma_byte_len_at_least_len(s: Seq<char>)
    ensures
        byte_len(s) >= s.len(),
    decreases s.len(),
{
    if s.len() > 0 {
        lemma_byte_len_at_least_len(s.drop_last());
    }
}

/// The text searched for: the query without surrounding white space, when
/// it takes at least `MIN_QUERY_LEN` bytes.
pub fn search_query(query: &str) -> (res: Option<String>)
    ensures
        byte_len(trim(query@)) < MIN_QUERY_LEN ==> res is None,
        byte_len(trim(query@)) >= MIN_QUERY_LEN ==> (res matches Some(t) && t@ == trim(query@)),
{
    let q = chars_of(query);
    let (a, b) = trim_range(&q, 0, q.len());
    assert(q@.subrange(0, q@.len() as int) =~= q@);
    let t = sub_vec(&q, a, b);
    proof {
        lemma_byte_len_at_least_len(t@);
        if t@.len() == 1 {
            assert(t@.drop_last() =~= Seq::<char>::empty());
            assert(byte_len(Seq::<char>::empty()) == 0);
            assert(byte_len(t@.drop_last()) == 0);
            assert(t@.last() == t@[0]);
            assert(byte_len(t@) == char_width(t@[0]));
        }
    }
    if t.len() == 0 || (t.len() == 1 && (t[0] as u32) < 0x80) {
        return None;
    }
    Some(string_of(&t))
}

/// The command line of the search: `rg` printing matches as `vimgrep` does,
/// without colour, headings or messages, matching case only when the query
/// has capitals, looking into hidden files, with the line and file size
/// limits, for `query` under `root`.
pub open spec fn ripgrep_args_spec(query: Seq<char>, root: Seq<char>) -> Seq<Seq<char>> {
    seq![
        "--vimgrep"@,
        "--color"@,
        "never"@,
        "--no-heading"@,
        "--no-messages"@,
        "--smart-case"@,
        "--hidden"@,
        "--max-columns"@,
        RG_MAX_COLUMNS@,
        "--max-filesize"@,
        RG_MAX_FILESIZE@,
        "-e"@,
        query,
        root,
    ]
}

pub fn ripgrep_args(query: &str, root: &str) -> (res: Vec<String>)
    ensures
        res@.map_values(|a: String| a@) == ripgrep_args_spec(query@, root@),
{
    let parts: [&str; 12] = [
        "--vimgrep",
        "--color",
        "never",
        "--no-heading",
        "--no-messages",
        "--smart-case",
        "--hidden",
        "--max-columns",
        RG_MAX_COLUMNS,
        "--max-filesize",
        RG_MAX_FILESIZE,
        "-e",
    ];
    let mut out: Vec<String> = Vec::new();
    let mut i: usize = 0;
    while i < 12
        invariant
            i <= 12,
            out@.len() == i,
            forall|j: int| 0 <= j < i ==> (#[trigger] out@[j])@ == parts@[j]@,
        decreases 12 - i,
    {
        out.push(string_of(&chars_of(parts[i])));
        i += 1;
    }
    out.push(string_of(&chars_of(query)));
    out.push(string_of(&chars_of(root)));
    assert(out@.map_values(|a: String| a@) =~= ripgrep_args_spec(query@, root@));
    out
}

/// The match at `i` is in a file that no earlier match is in (files compared
/// as paths).
pub open spec fn first_in_file(hits: Seq<Hit>, i: int) -> bool {
    forall|j: int| 0 <= j < i ==> !path_eq(hits[j].path@, hits[i].path@)
}

/// How many files the first `n` matches are in.
pub open spec fn files_among(hits: Seq<Hit>, n: int) -> nat
    decreases n,
{
    if n <= 0 {
        0
    } else {
        files_among(hits, n - 1) + if first_in_file(hits, n - 1) {
            1nat
        } else {
            0nat
        }
    }
}

proof fn lemma_files_among_bound(hits: Seq<Hit>, n: int)
    requires
        0 <= n,
    ensures
        files_among(hits, n) <= n,
    decreases n,
{
    if n > 0 {
        lemma_files_among_bound(hits, n - 1);
    }
}

/// The summary above the matches: none where there are none (the panel then
/// says that nothing matched), else how many matches in how many files.
pub fn results_summary(hits: &Vec<Hit>) -> (res: Option<String>)
    ensures
        hits.len() == 0 ==> res is None,
        hits.len() > 0 ==> (res matches Some(t) && t@ == crate::editor::strings::fif_results_spec(
            hits.len() as nat,
            files_among(hits@, hits.len() as int),
        )),
{
    if hits.len() == 0 {
        return None;
    }
    let mut files: usize = 0;
    let mut i: usize = 0;
    while i < hits.len()
        invariant
            i <= hits.len(),
            files == files_among(hits@, i as int),
        decreases hits.len() - i,
    {
        let mut j: usize = 0;
        let mut seen = false;
        while j < i
            invariant
                j <= i < hits.len(),
                seen == exists|k: int| 0 <= k < j && path_eq(hits@[k].path@, hits@[i as int].path@),
            decreases i - j,
        {
            if paths_equal(hits[j].path.as_str(), hits[i].path.as_str()) {
                seen = true;
            }
            j += 1;
        }
        proof {
            lemma_files_among_bound(hits@, i as int);
            if !seen {
                assert(first_in_file(hits@, i as int));
            } else {
                let k = choose|k: int| 0 <= k < i && path_eq(hits@[k].path@, hits@[i as int].path@);
                assert(!first_in_file(hits@, i as int));
            }
        }
        if !seen {
            files += 1;
        }
        i += 1;
    }
    Some(crate::editor::strings::fif_results_label(hits.len(), files))
}

} // verus!
