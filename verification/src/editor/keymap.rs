//! Text transforms of the editor's key bindings: save clean-up, word bounds,
//! comment prefixes, and moving, copying and deleting lines.
use vstd::prelude::*;

use crate::paths::{clone_strings, views_of_strings};
use crate::text::{
    byte_len, byte_offsets, chars_of, ends_with, find_char, first_index_of, in_list, is_word_char,
    one_of, push_range, skip_ws, string_of, trim_end, trim_end_len, trim_end_range, word_char, ws_prefix_len,
    lemma_ws_prefix_len_unique,
};

verus! {

/// What saving does to the text.
#[derive(Copy, Clone, Debug, PartialEq, Eq, Structural)]
pub struct SaveTransform {
    pub strip_trailing_whitespace: bool,
    pub ensure_final_newline: bool,
}

impl Default for SaveTransform {
    fn default() -> (res: Self)
        ensures
            !res.strip_trailing_whitespace && !res.ensure_final_newline,
    {
        SaveTransform { strip_trailing_whitespace: false, ensure_final_newline: false }
    }
}

/// Every line of `s` with its trailing white space removed; the line breaks stay.
pub open spec fn strip_lines(s: Seq<char>) -> Seq<char>
    decreases s.len(),
{
    match first_index_of(s, '\n') {
        None => trim_end(s),
        Some(i) => {
            if 0 <= i < s.len() {
                trim_end(s.subrange(0, i)) + seq!['\n'] + strip_lines(
                    s.subrange(i + 1, s.len() as int),
                )
            } else {
                s
            }
        },
    }
}

/// What `strip_trailing_ws` gives: the lines stripped, and a final line break
/// kept when the text had one.
pub open spec fn strip_trailing_ws_spec(s: Seq<char>) -> Seq<char> {
    let out = strip_lines(s);
    if ends_with(s, seq!['\n']) && !ends_with(out, seq!['\n']) {
        out.push('\n')
    } else {
        out
    }
}

pub proof fn lemma_ends_with_char(s: Seq<char>, c: char)
    ensures
        ends_with(s, seq![c]) == (s.len() > 0 && s.last() == c),
{
    if s.len() > 0 {
        if s.last() == c {
            assert(s.subrange(s.len() - 1, s.len() as int) =~= seq![c]);
        } else {
            assert(s.subrange(s.len() - 1, s.len() as int)[0] != c);
        }
    }
}

pub fn strip_trailing_ws(text: &str) -> (res: String)
    ensures
        res@ == strip_trailing_ws_spec(text@),
{
    let v = chars_of(text);
    let mut out: Vec<char> = Vec::new();
    let mut seg: usize = 0;
    proof {
        assert(v@.subrange(0, v@.len() as int) =~= v@);
    }
    loop
        invariant_except_break
            seg <= v.len(),
            out@ + strip_lines(v@.subrange(seg as int, v@.len() as int)) == strip_lines(v@),
        ensures
            out@ == strip_lines(v@),
        decreases v.len() - seg,
    {
        let ghost rest = v@.subrange(seg as int, v@.len() as int);
        match find_char(&v, seg, '\n') {
            None => {
                let e = trim_end_range(&v, seg, v.len());
                push_range(&mut out, &v, seg, e);
                proof {
                    assert(strip_lines(rest) == trim_end(rest));
                    assert(trim_end(rest) =~= v@.subrange(seg as int, e as int));
                    assert(out@ =~= strip_lines(v@));
                }
                break ;
            },
            Some(nl) => {
                let e = trim_end_range(&v, seg, nl);
                let ghost before = out@;
                push_range(&mut out, &v, seg, e);
                out.push('\n');
                proof {
                    let k = nl - seg;
                    crate::text::lemma_first_index_of(rest, '\n');
                    assert(rest.subrange(0, k) =~= v@.subrange(seg as int, nl as int));
                    assert(rest.subrange(k + 1, rest.len() as int) =~= v@.subrange(
                        nl + 1,
                        v@.len() as int,
                    ));
                    assert(trim_end(v@.subrange(seg as int, nl as int)) =~= v@.subrange(
                        seg as int,
                        e as int,
                    ));
                    assert(out@ =~= before + trim_end(rest.subrange(0, k)) + seq!['\n']);
                }
                seg = nl + 1;
            },
        }
    }
    let had_nl = v.len() > 0 && v[v.len() - 1] == '\n';
    let out_nl = out.len() > 0 && out[out.len() - 1] == '\n';
    proof {
        lemma_ends_with_char(v@, '\n');
        lemma_ends_with_char(out@, '\n');
    }
    if had_nl && !out_nl {
        out.push('\n');
    }
    string_of(&out)
}

proof fn lemma_trim_end_idempotent(s: Seq<char>)
    ensures
        trim_end(trim_end(s)) == trim_end(s),
{
    let t = trim_end(s);
    crate::text::lemma_trim_end_len(s);
    let k = trim_end_len(s) as int;
    crate::text::lemma_trim_end_len_unique(t, k);
    assert(t.subrange(0, k) =~= t);
}

/// A line without a break is stripped to its trimmed self, which has no break either.
proof fn lemma_strip_one_line(a: Seq<char>)
    requires
        forall|j: int| 0 <= j < a.len() ==> a[j] != '\n',
    ensures
        strip_lines(a) == trim_end(a),
        forall|j: int| 0 <= j < trim_end(a).len() ==> trim_end(a)[j] != '\n',
        strip_lines(trim_end(a)) == trim_end(a),
{
    crate::text::lemma_trim_end_len(a);
    crate::text::lemma_first_index_of_unique(a, '\n', a.len() as int);
    let t = trim_end(a);
    assert forall|j: int| 0 <= j < t.len() implies t[j] != '\n' by {
        assert(t[j] == a[j]);
    }
    crate::text::lemma_first_index_of_unique(t, '\n', t.len() as int);
    lemma_trim_end_idempotent(a);
}

proof fn lemma_strip_lines_concat(a: Seq<char>, b: Seq<char>)
    ensures
        strip_lines(a + seq!['\n'] + b) == strip_lines(a) + seq!['\n'] + strip_lines(b),
    decreases a.len(),
{
    let s = a + seq!['\n'] + b;
    crate::text::lemma_first_index_of(a, '\n');
    match first_index_of(a, '\n') {
        None => {
            assert(s[a.len() as int] == '\n');
            crate::text::lemma_first_index_of_unique(s, '\n', a.len() as int);
            assert(s.subrange(0, a.len() as int) =~= a);
            assert(s.subrange(a.len() as int + 1, s.len() as int) =~= b);
            lemma_strip_one_line(a);
        },
        Some(i) => {
            crate::text::lemma_first_index_of_unique(s, '\n', i);
            let r = a.subrange(i + 1, a.len() as int);
            assert(s.subrange(0, i) =~= a.subrange(0, i));
            assert(s.subrange(i + 1, s.len() as int) =~= r + seq!['\n'] + b);
            lemma_strip_lines_concat(r, b);
            assert(strip_lines(s) =~= strip_lines(a) + seq!['\n'] + strip_lines(b));
        },
    }
}

proof fn lemma_strip_lines_idempotent(s: Seq<char>)
    ensures
        strip_lines(strip_lines(s)) == strip_lines(s),
    decreases s.len(),
{
    crate::text::lemma_first_index_of(s, '\n');
    match first_index_of(s, '\n') {
        None => {
            lemma_strip_one_line(s);
        },
        Some(i) => {
            let a = s.subrange(0, i);
            let r = s.subrange(i + 1, s.len() as int);
            assert forall|j: int| 0 <= j < a.len() implies a[j] != '\n' by {
                assert(a[j] == s[j]);
            }
            lemma_strip_one_line(a);
            lemma_strip_lines_idempotent(r);
            lemma_strip_lines_concat(trim_end(a), strip_lines(r));
        },
    }
}

proof fn lemma_strip_lines_keeps_final_break(s: Seq<char>)
    requires
        s.len() > 0,
        s.last() == '\n',
    ensures
        strip_lines(s).len() > 0,
        strip_lines(s).last() == '\n',
    decreases s.len(),
{
    crate::text::lemma_first_index_of(s, '\n');
    match first_index_of(s, '\n') {
        None => {
            assert(s[s.len() - 1] == '\n');
        },
        Some(i) => {
            let r = s.subrange(i + 1, s.len() as int);
            if r.len() == 0 {
                assert(first_index_of(r, '\n') is None);
                assert(trim_end_len(r) == 0);
                assert(strip_lines(r) =~= Seq::<char>::empty());
            } else {
                assert(r.last() == s.last());
                lemma_strip_lines_keeps_final_break(r);
            }
        },
    }
}

/// Stripping on save never needs to add the final break back: `strip_lines`
/// keeps it.
proof fn lemma_strip_trailing_ws_is_strip_lines(s: Seq<char>)
    ensures
        strip_trailing_ws_spec(s) == strip_lines(s),
{
    lemma_ends_with_char(s, '\n');
    lemma_ends_with_char(strip_lines(s), '\n');
    if s.len() > 0 && s.last() == '\n' {
        lemma_strip_lines_keeps_final_break(s);
    }
}

/// Saving twice writes what saving once wrote.
pub proof fn save_transform_is_idempotent(text: Seq<char>, t: SaveTransform)
    ensures
        save_transform_spec(save_transform_spec(text, t), t) == save_transform_spec(text, t),
{
    let u = if t.strip_trailing_whitespace {
        strip_trailing_ws_spec(text)
    } else {
        text
    };
    let v = save_transform_spec(text, t);
    lemma_ends_with_char(u, '\n');
    lemma_ends_with_char(v, '\n');
    if t.strip_trailing_whitespace {
        lemma_strip_trailing_ws_is_strip_lines(text);
        lemma_strip_trailing_ws_is_strip_lines(v);
        lemma_strip_lines_idempotent(text);
        if v != u {
            assert(v =~= u + seq!['\n'] + Seq::<char>::empty());
            lemma_strip_lines_concat(u, Seq::<char>::empty());
            assert(first_index_of(Seq::<char>::empty(), '\n') is None);
            assert(trim_end_len(Seq::<char>::empty()) == 0);
            assert(strip_lines(Seq::<char>::empty()) =~= Seq::<char>::empty());
            assert(strip_lines(v) =~= v);
        }
        lemma_ends_with_char(strip_trailing_ws_spec(v), '\n');
    }
}

/// The text written on save.
pub open spec fn save_transform_spec(text: Seq<char>, t: SaveTransform) -> Seq<char> {
    let s = if t.strip_trailing_whitespace {
        strip_trailing_ws_spec(text)
    } else {
        text
    };
    if t.ensure_final_newline && s.len() > 0 && !ends_with(s, seq!['\n']) {
        s.push('\n')
    } else {
        s
    }
}

pub fn apply_save_transform(text: String, transform: SaveTransform) -> (res: String)
    ensures
        res@ == save_transform_spec(text@, transform),
{
    let mut t = if transform.strip_trailing_whitespace {
        strip_trailing_ws(text.as_str())
    } else {
        text
    };
    let v = chars_of(t.as_str());
    proof {
        lemma_ends_with_char(v@, '\n');
    }
    if transform.ensure_final_newline && v.len() > 0 && v[v.len() - 1] != '\n' {
        crate::text::push_char(&mut t, '\n');
    }
    t
}

// ---------------------------------------------------------------------------
// Word under the cursor
// ---------------------------------------------------------------------------

/// Start of the run of word characters that ends just after `a`.
pub open spec fn run_start(c: Seq<char>, a: int) -> int
    decreases a,
{
    if a > 0 && a <= c.len() && is_word_char(c[a - 1]) {
        run_start(c, a - 1)
    } else {
        a
    }
}

/// End of the run of word characters that starts at `e`.
pub open spec fn run_end(c: Seq<char>, e: int) -> int
    decreases c.len() - e,
{
    if 0 <= e < c.len() && is_word_char(c[e]) {
        run_end(c, e + 1)
    } else {
        e
    }
}

/// Byte offset at which the `k`-th character starts.
pub open spec fn byte_at(c: Seq<char>, k: int) -> nat {
    byte_len(c.subrange(0, k))
}

/// The character that starts exactly at byte `off`, if one does.
pub open spec fn char_at_byte(c: Seq<char>, off: int) -> Option<int> {
    if exists|k: int| 0 <= k < c.len() && byte_at(c, k) == off {
        Some(choose|k: int| 0 <= k < c.len() && byte_at(c, k) == off)
    } else {
        None
    }
}

/// Byte range of the word at byte offset `offset` of `c`: the run of word
/// characters under or just before it; an empty range where there is none.
pub open spec fn word_bounds_spec(c: Seq<char>, offset: nat) -> (nat, nat) {
    let total = byte_len(c);
    let safe = if offset < total {
        offset
    } else {
        total
    };
    let here = char_at_byte(c, safe as int);
    let here_word = match here {
        Some(k) => is_word_char(c[k]),
        None => false,
    };
    let prev_word = match here {
        Some(k) => k > 0 && is_word_char(c[k - 1]),
        None => c.len() > 0 && is_word_char(c[c.len() - 1]),
    };
    if !here_word && !prev_word {
        (safe, safe)
    } else {
        let anchor = if here_word {
            here->0
        } else {
            match here {
                Some(k) => k - 1,
                None => c.len() - 1,
            }
        };
        (byte_at(c, run_start(c, anchor)), byte_at(c, run_end(c, anchor)))
    }
}

proof fn lemma_byte_at_strict(c: Seq<char>, i: int, j: int)
    requires
        0 <= i < j <= c.len(),
    ensures
        byte_at(c, i) < byte_at(c, j),
    decreases j - i,
{
    assert(c.subrange(0, j).drop_last() =~= c.subrange(0, j - 1));
    if i < j - 1 {
        lemma_byte_at_strict(c, i, j - 1);
    }
}

pub proof fn lemma_run_start(c: Seq<char>, a: int)
    requires
        0 <= a <= c.len(),
    ensures
        0 <= run_start(c, a) <= a,
    decreases a,
{
    if a > 0 && is_word_char(c[a - 1]) {
        lemma_run_start(c, a - 1);
    }
}

pub proof fn lemma_run_end(c: Seq<char>, e: int)
    requires
        0 <= e <= c.len(),
    ensures
        e <= run_end(c, e) <= c.len(),
    decreases c.len() - e,
{
    if e < c.len() && is_word_char(c[e]) {
        lemma_run_end(c, e + 1);
    }
}

/// The byte range of the word at a byte offset of `text`, as a cursor
/// without selection selects it.
pub fn word_bounds_at_offset(text: &str, offset: usize) -> (res: (usize, usize))
    requires
        4 * text@.len() <= usize::MAX,
    ensures
        res.0 == word_bounds_spec(text@, offset as nat).0,
        res.1 == word_bounds_spec(text@, offset as nat).1,
{
    let c = chars_of(text);
    let offs = crate::text::byte_offsets(&c);
    let n = c.len();
    let total = offs[n];
    assert(c@.subrange(0, n as int) =~= c@);
    let safe = if offset < total {
        offset
    } else {
        total
    };
    // the character that starts at `safe`, if any
    let mut here: Option<usize> = None;
    let mut k: usize = 0;
    while k < n
        invariant
            0 <= k <= n,
            n == c.len(),
            offs.len() == n + 1,
            forall|j: int| 0 <= j <= n ==> offs@[j] == byte_at(c@, j),
            here is None ==> forall|j: int| 0 <= j < k ==> byte_at(c@, j) != safe,
            here matches Some(h) ==> h < n && byte_at(c@, h as int) == safe,
        decreases n - k,
    {
        if here.is_none() && offs[k] == safe {
            here = Some(k);
        }
        k += 1;
    }
    proof {
        match here {
            Some(h) => {
                assert(exists|j: int| 0 <= j < c@.len() && byte_at(c@, j) == safe);
                let w = choose|j: int| 0 <= j < c@.len() && byte_at(c@, j) == safe;
                if w < h {
                    lemma_byte_at_strict(c@, w, h as int);
                }
                if h < w {
                    lemma_byte_at_strict(c@, h as int, w);
                }
                assert(char_at_byte(c@, safe as int) == Some(h as int));
            },
            None => {
                assert(char_at_byte(c@, safe as int) is None);
            },
        }
    }
    let here_word = match here {
        Some(h) => word_char(c[h]),
        None => false,
    };
    let prev_word = match here {
        Some(h) => h > 0 && word_char(c[h - 1]),
        None => n > 0 && word_char(c[n - 1]),
    };
    if !here_word && !prev_word {
        return (safe, safe);
    }
    let anchor: usize = if here_word {
        match here {
            Some(h) => h,
            None => 0,
        }
    } else {
        match here {
            Some(h) => h - 1,
            None => n - 1,
        }
    };
    let mut s = anchor;
    proof {
        lemma_run_start(c@, anchor as int);
    }
    while s > 0 && word_char(c[s - 1])
        invariant
            s <= anchor < n,
            n == c.len(),
            run_start(c@, s as int) == run_start(c@, anchor as int),
        decreases s,
    {
        s -= 1;
    }
    let mut e = anchor;
    while e < n && word_char(c[e])
        invariant
            anchor <= e <= n,
            n == c.len(),
            run_end(c@, e as int) == run_end(c@, anchor as int),
        decreases n - e,
    {
        e += 1;
    }
    let end_byte = if e < n {
        offs[e]
    } else {
        total
    };
    (offs[s], end_byte)
}

// ---------------------------------------------------------------------------
// Comments
// ---------------------------------------------------------------------------

/// The line-comment prefix of a language.
pub open spec fn comment_prefix_spec(lang: Seq<char>) -> Option<&'static str> {
    if in_list(lang, seq!["rust", "typescript", "javascript", "c", "cpp", "chdr", "go", "css", "lua"]) {
        Some("// ")
    } else if in_list(lang, seq!["python", "python3", "sh", "yaml", "toml", "ruby"]) {
        Some("# ")
    } else {
        None
    }
}

pub fn comment_prefix_for(lang_id: &str) -> (res: Option<&'static str>)
    ensures
        res == comment_prefix_spec(lang_id@),
{
    let l = chars_of(lang_id);
    let slash: [&str; 9] = ["rust", "typescript", "javascript", "c", "cpp", "chdr", "go", "css", "lua"];
    assert(slash@ == seq!["rust", "typescript", "javascript", "c", "cpp", "chdr", "go", "css", "lua"]);
    let hash: [&str; 6] = ["python", "python3", "sh", "yaml", "toml", "ruby"];
    assert(hash@ == seq!["python", "python3", "sh", "yaml", "toml", "ruby"]);
    if one_of(&l, &slash) {
        Some("// ")
    } else if one_of(&l, &hash) {
        Some("# ")
    } else {
        None
    }
}


// ---------------------------------------------------------------------------
// Character and byte offsets
// ---------------------------------------------------------------------------

/// Byte offset of character `k` of `c`; the byte length of `c` from its end on.
pub open spec fn byte_offset_of(c: Seq<char>, k: int) -> nat {
    if k < c.len() {
        byte_at(c, k)
    } else {
        byte_len(c)
    }
}

/// How many characters of `c` start before byte `off`.
pub open spec fn chars_before(c: Seq<char>, off: int) -> nat
    decreases c.len(),
{
    if c.len() == 0 {
        0
    } else if byte_len(c.drop_last()) < off {
        c.len()
    } else {
        chars_before(c.drop_last(), off)
    }
}

proof fn lemma_byte_at_step(c: Seq<char>, k: int)
    requires
        0 <= k < c.len(),
    ensures
        byte_at(c, k + 1) == byte_at(c, k) + crate::text::char_width(c[k]),
{
    assert(c.subrange(0, k + 1).drop_last() =~= c.subrange(0, k));
}

proof fn lemma_byte_at_increasing(c: Seq<char>, j: int, k: int)
    requires
        0 <= j < k <= c.len(),
    ensures
        byte_at(c, j) < byte_at(c, k),
    decreases k - j,
{
    lemma_byte_at_step(c, k - 1);
    if j < k - 1 {
        lemma_byte_at_increasing(c, j, k - 1);
    }
}

proof fn lemma_chars_before(c: Seq<char>, off: int, k: int)
    requires
        0 <= k <= c.len(),
        forall|j: int| 0 <= j < k ==> byte_at(c, j) < off,
        k < c.len() ==> byte_at(c, k) >= off,
    ensures
        chars_before(c, off) == k,
    decreases c.len(),
{
    if c.len() > 0 {
        let d = c.drop_last();
        let n = c.len() - 1;
        assert(c.subrange(0, n) =~= d);
        assert(byte_at(c, n) == byte_len(d));
        if k == c.len() {
        } else {
            if k < n {
                lemma_byte_at_increasing(c, k, n);
            }
            assert forall|j: int| 0 <= j <= n implies byte_at(d, j) == byte_at(c, j) by {
                assert(d.subrange(0, j) =~= c.subrange(0, j));
            }
            lemma_chars_before(d, off, k);
        }
    }
}

/// Converting a character offset to a byte offset and back gives the
/// character offset again (offsets past the end come back as the length).
pub proof fn char_offset_undoes_byte_offset(c: Seq<char>, k: int)
    requires
        0 <= k,
    ensures
        chars_before(c, byte_offset_of(c, k) as int) == if k < c.len() {
            k
        } else {
            c.len() as int
        },
{
    let m = if k < c.len() {
        k
    } else {
        c.len() as int
    };
    assert(c.subrange(0, c.len() as int) =~= c);
    assert(byte_offset_of(c, k) == byte_at(c, m));
    assert forall|j: int| 0 <= j < m implies byte_at(c, j) < byte_at(c, m) by {
        lemma_byte_at_increasing(c, j, m);
    }
    lemma_chars_before(c, byte_at(c, m) as int, m);
}

/// The byte offset of character `char_offset` of `text` (its length past the end).
pub fn byte_offset_from_char_offset(text: &str, char_offset: usize) -> (res: usize)
    requires
        4 * text@.len() <= usize::MAX,
    ensures
        res == byte_offset_of(text@, char_offset as int),
{
    let c = chars_of(text);
    let offs = byte_offsets(&c);
    assert(c@.subrange(0, c@.len() as int) =~= c@);
    if char_offset < c.len() {
        offs[char_offset]
    } else {
        offs[c.len()]
    }
}

/// The index of the first character of `text` that starts at or after byte
/// `byte_offset` (the number of characters when none does).
pub fn char_offset_from_byte_offset(text: &str, byte_offset: usize) -> (res: usize)
    requires
        4 * text@.len() <= usize::MAX,
    ensures
        res <= text@.len(),
        res < text@.len() ==> byte_at(text@, res as int) >= byte_offset,
        forall|k: int| 0 <= k < res ==> byte_at(text@, k) < byte_offset,
        res == chars_before(text@, byte_offset as int),
{
    let c = chars_of(text);
    let offs = byte_offsets(&c);
    let mut k: usize = 0;
    while k < c.len() && offs[k] < byte_offset
        invariant
            k <= c.len(),
            offs.len() == c.len() + 1,
            forall|j: int| 0 <= j <= c.len() ==> offs@[j] == byte_len(#[trigger] c@.subrange(0, j)),
            forall|j: int| 0 <= j < k ==> byte_at(c@, j) < byte_offset,
        decreases c.len() - k,
    {
        k += 1;
    }
    proof {
        lemma_chars_before(c@, byte_offset as int, k as int);
    }
    k
}

// ---------------------------------------------------------------------------
// Toggling line comments
// ---------------------------------------------------------------------------

/// The line, after its leading white space, starts with `needle`. On the last
/// line of the buffer the needle must also leave a character after it.
pub open spec fn line_starts_with_spec(line: Seq<char>, needle: Seq<char>, last: bool) -> bool {
    let k = ws_prefix_len(line) as int;
    let n = needle.len() as int;
    if n == 0 {
        true
    } else if last {
        k + n < line.len() && line.subrange(k, k + n) == needle
    } else {
        k + n <= line.len() && line.subrange(k, k + n) == needle
    }
}

/// The prefix inserted after the line's leading white space.
pub open spec fn commented(line: Seq<char>, prefix: Seq<char>) -> Seq<char> {
    let k = ws_prefix_len(line) as int;
    line.subrange(0, k) + prefix + line.subrange(k, line.len() as int)
}

/// The comment marker removed after the leading white space, with one space
/// after it where the prefix ends with one; lines without it stay.
pub open spec fn uncommented(line: Seq<char>, prefix: Seq<char>, trimmed: Seq<char>, last: bool) -> Seq<char> {
    let k = ws_prefix_len(line) as int;
    let n = trimmed.len() as int;
    if !line_starts_with_spec(line, trimmed, last) {
        line
    } else {
        let e = if k + n < line.len() && line[k + n] == ' ' && ends_with(prefix, seq![' ']) {
            k + n + 1
        } else {
            k + n
        };
        line.subrange(0, k) + line.subrange(e, line.len() as int)
    }
}

pub open spec fn is_last(lines: Seq<Seq<char>>, i: int, last_is_end: bool) -> bool {
    last_is_end && i == lines.len() - 1
}

/// Every line starts with the trimmed prefix.
pub open spec fn all_commented(lines: Seq<Seq<char>>, trimmed: Seq<char>, last_is_end: bool) -> bool {
    forall|i: int| 0 <= i < lines.len() ==> line_starts_with_spec(#[trigger] lines[i], trimmed, is_last(lines, i, last_is_end))
}

/// The lines once the comment is toggled: uncommented where all of them are
/// commented, else commented.
pub open spec fn toggled_spec(lines: Seq<Seq<char>>, prefix: Seq<char>, last_is_end: bool) -> Seq<Seq<char>> {
    let trimmed = trim_end(prefix);
    let all = all_commented(lines, trimmed, last_is_end);
    Seq::new(lines.len(), |i: int| if all {
        uncommented(lines[i], prefix, trimmed, is_last(lines, i, last_is_end))
    } else {
        commented(lines[i], prefix)
    })
}

proof fn lemma_comment_then_uncomment(line: Seq<char>, p: Seq<char>, last: bool)
    requires
        p.len() >= 2,
        p.last() == ' ',
        !crate::text::is_ws(p[0]),
        trim_end(p) == p.drop_last(),
    ensures
        line_starts_with_spec(commented(line, p), trim_end(p), last),
        uncommented(commented(line, p), p, trim_end(p), last) == line,
{
    let k = ws_prefix_len(line) as int;
    let c = commented(line, p);
    let n = p.len() - 1;
    crate::text::lemma_ws_prefix_len(line);
    assert forall|i: int| 0 <= i < k implies crate::text::is_ws(#[trigger] c[i]) by {
        assert(c[i] == line[i]);
    }
    assert(c[k] == p[0]);
    lemma_ws_prefix_len_unique(c, k);
    assert(c.subrange(k, k + n) =~= p.drop_last());
    assert(c[k + n] == ' ');
    lemma_ends_with_char(p, ' ');
    assert(c.subrange(0, k) + c.subrange(k + n + 1, c.len() as int) =~= line);
}

/// Toggling the comment twice gives the lines back where the first toggle
/// commented them, that is where not every line was commented already.
pub proof fn toggle_twice_restores(lines: Seq<Seq<char>>, lang: Seq<char>, last_is_end: bool)
    requires
        comment_prefix_spec(lang) is Some,
        !all_commented(lines, trim_end(comment_prefix_spec(lang)->0@), last_is_end),
    ensures
        toggled_spec(
            toggled_spec(lines, comment_prefix_spec(lang)->0@, last_is_end),
            comment_prefix_spec(lang)->0@,
            last_is_end,
        ) == lines,
{
    let p = comment_prefix_spec(lang)->0@;
    reveal_strlit("// ");
    reveal_strlit("# ");
    assert(p.len() >= 2 && p.last() == ' ' && !crate::text::is_ws(p[0]));
    crate::text::lemma_trim_end_len_unique(p, p.len() - 1);
    assert(trim_end(p) =~= p.drop_last());
    let t = toggled_spec(lines, p, last_is_end);
    assert forall|i: int| 0 <= i < t.len() implies line_starts_with_spec(
        #[trigger] t[i],
        trim_end(p),
        is_last(t, i, last_is_end),
    ) by {
        lemma_comment_then_uncomment(lines[i], p, is_last(lines, i, last_is_end));
    }
    assert forall|i: int| 0 <= i < t.len() implies uncommented(
        #[trigger] t[i],
        p,
        trim_end(p),
        is_last(t, i, last_is_end),
    ) == lines[i] by {
        lemma_comment_then_uncomment(lines[i], p, is_last(lines, i, last_is_end));
    }
    assert(toggled_spec(t, p, last_is_end) =~= lines);
}

fn line_starts(line: &Vec<char>, needle: &Vec<char>, last: bool) -> (res: bool)
    ensures
        res == line_starts_with_spec(line@, needle@, last),
{
    let k = skip_ws(line, 0);
    proof {
        assert(line@.subrange(0, line@.len() as int) =~= line@);
        lemma_ws_prefix_len_unique(line@, k as int);
    }
    let n = needle.len();
    if n == 0 {
        return true;
    }
    if n > line.len() - k {
        return false;
    }
    if last && k + n == line.len() {
        return false;
    }
    crate::text::matches_at(line, k, needle)
}

fn toggle_one(line: &Vec<char>, prefix: &Vec<char>, trimmed: &Vec<char>, last: bool, all: bool) -> (res: Vec<char>)
    ensures
        res@ == if all {
            uncommented(line@, prefix@, trimmed@, last)
        } else {
            commented(line@, prefix@)
        },
{
    let k = skip_ws(line, 0);
    proof {
        lemma_ws_prefix_len_unique(line@, k as int);
    }
    let mut out: Vec<char> = Vec::new();
    if !all {
        push_range(&mut out, line, 0, k);
        push_range(&mut out, prefix, 0, prefix.len());
        push_range(&mut out, line, k, line.len());
        assert(prefix@.subrange(0, prefix@.len() as int) =~= prefix@);
        assert(out@ =~= commented(line@, prefix@));
        return out;
    }
    if !line_starts(line, trimmed, last) {
        push_range(&mut out, line, 0, line.len());
        assert(out@ =~= line@);
        return out;
    }
    let n = trimmed.len();
    let ends_space = prefix.len() > 0 && prefix[prefix.len() - 1] == ' ';
    proof {
        crate::text::lemma_starts_with_chars(prefix@.subrange(prefix@.len() - 1, prefix@.len() as int), seq![' ']);
        if prefix@.len() > 0 {
            assert(prefix@.subrange(prefix@.len() - 1, prefix@.len() as int)[0] == prefix@[prefix@.len() - 1]);
            assert(ends_with(prefix@, seq![' ']) == (prefix@.subrange(prefix@.len() - 1, prefix@.len() as int) == seq![' ']));
        }
    }
    let e = if k + n < line.len() && line[k + n] == ' ' && ends_space {
        k + n + 1
    } else {
        k + n
    };
    proof {
        if prefix@.len() > 0 {
            assert(ends_space == (prefix@.subrange(prefix@.len() - 1, prefix@.len() as int) =~= seq![' ']));
        }
    }
    push_range(&mut out, line, 0, k);
    push_range(&mut out, line, e, line.len());
    assert(out@ =~= uncommented(line@, prefix@, trimmed@, last));
    out
}

/// Toggles the line comment of the selected `lines` of a buffer of language
/// `lang_id` (`None` where the language has no line comments).
/// `last_is_end` says whether the last of them is the last line of the buffer.
pub fn toggle_comment_lines(lines: &Vec<String>, last_is_end: bool, lang_id: &str) -> (res: Option<Vec<String>>)
    ensures
        match comment_prefix_spec(lang_id@) {
            None => res is None,
            Some(p) => res matches Some(out) && views_of_strings(out@) == toggled_spec(
                views_of_strings(lines@),
                p@,
                last_is_end,
            ),
        },
{
    let prefix_str = match comment_prefix_for(lang_id) {
        Some(p) => p,
        None => {
            return None;
        },
    };
    let prefix = chars_of(prefix_str);
    let te = trim_end_range(&prefix, 0, prefix.len());
    assert(prefix@.subrange(0, prefix@.len() as int) =~= prefix@);
    let trimmed = crate::text::sub_vec(&prefix, 0, te);
    let mut all = true;
    let mut i: usize = 0;
    while i < lines.len()
        invariant
            i <= lines.len(),
            trimmed@ == trim_end(prefix@),
            all == forall|j: int| 0 <= j < i ==> line_starts_with_spec(#[trigger] views_of_strings(lines@)[j], trimmed@, is_last(views_of_strings(lines@), j, last_is_end)),
        decreases lines.len() - i,
    {
        let last = last_is_end && i == lines.len() - 1;
        let here = line_starts(&chars_of(lines[i].as_str()), &trimmed, last);
        assert(views_of_strings(lines@)[i as int] == lines@[i as int]@);
        all = all && here;
        i += 1;
    }
    let mut out: Vec<String> = Vec::new();
    let mut j: usize = 0;
    while j < lines.len()
        invariant
            j <= lines.len(),
            trimmed@ == trim_end(prefix@),
            all == all_commented(views_of_strings(lines@), trimmed@, last_is_end),
            out.len() == j,
            forall|q: int| 0 <= q < j ==> (#[trigger] out@[q])@ == toggled_spec(views_of_strings(lines@), prefix@, last_is_end)[q],
        decreases lines.len() - j,
    {
        let last = last_is_end && j == lines.len() - 1;
        let t = toggle_one(&chars_of(lines[j].as_str()), &prefix, &trimmed, last, all);
        out.push(string_of(&t));
        j += 1;
    }
    assert(views_of_strings(out@) =~= toggled_spec(views_of_strings(lines@), prefix@, last_is_end));
    Some(out)
}


/// A key as the editor's bindings tell keys apart.
#[derive(Clone, Copy, Debug, PartialEq, Eq, Structural)]
pub enum Key {
    Up,
    Down,
    F3,
    /// A key that types this character (an upper-case letter when Shift
    /// is held).
    Char(char),
    Other,
}

/// What a key binding of the editor does.
#[derive(Clone, Copy, Debug, PartialEq, Eq, Structural)]
pub enum EditorAction {
    MoveLineUp,
    MoveLineDown,
    Save,
    Find,
    FindReplace,
    FindNext,
    GotoLine,
    ToggleComment,
    DuplicateLine,
    SelectNextOccurrence,
    DeleteLine,
    CloseTab,
}

/// The editor's key bindings: Alt+Up and Alt+Down move the line; with
/// Control, S saves, F finds, H finds and replaces, F3 finds the next match,
/// G goes to a line, `/` toggles the comment, Shift+D duplicates the line, D
/// selects the next occurrence, Shift+K deletes the line and W closes the
/// tab. Other keys (Control+L among them, which belongs to the browser tabs)
/// are left to the view.
pub open spec fn key_action_spec(key: Key, ctrl: bool, alt: bool, shift: bool) -> Option<EditorAction> {
    if alt && !ctrl {
        match key {
            Key::Up => Some(EditorAction::MoveLineUp),
            Key::Down => Some(EditorAction::MoveLineDown),
            _ => None,
        }
    } else if !ctrl {
        None
    } else {
        match key {
            Key::Char('s') => Some(EditorAction::Save),
            Key::Char('f') => Some(EditorAction::Find),
            Key::Char('h') => Some(EditorAction::FindReplace),
            Key::F3 => Some(EditorAction::FindNext),
            Key::Char('g') => Some(EditorAction::GotoLine),
            Key::Char('/') => Some(EditorAction::ToggleComment),
            Key::Char('D') => if shift {
                Some(EditorAction::DuplicateLine)
            } else {
                None
            },
            Key::Char('d') => Some(EditorAction::SelectNextOccurrence),
            Key::Char('K') => if shift {
                Some(EditorAction::DeleteLine)
            } else {
                None
            },
            Key::Char('w') => Some(EditorAction::CloseTab),
            _ => None,
        }
    }
}

/// Law: Control+F opens the find bar and Control+H the find-and-replace bar,
/// whatever else is held; and the bindings are one to one: two key presses
/// that give the same action are presses of the same key.
pub proof fn find_keys_are_bound_once(key: Key, ctrl: bool, alt: bool, shift: bool, key2: Key, ctrl2: bool, alt2: bool, shift2: bool)
    ensures
        key_action_spec(Key::Char('f'), true, alt, shift) == Some(EditorAction::Find),
        key_action_spec(Key::Char('h'), true, alt, shift) == Some(EditorAction::FindReplace),
        key_action_spec(key, ctrl, alt, shift) == Some(EditorAction::Find) ==> key == Key::Char('f') && ctrl,
        key_action_spec(key, ctrl, alt, shift) == Some(EditorAction::FindReplace) ==> key == Key::Char('h') && ctrl,
        key_action_spec(key, ctrl, alt, shift) is Some && key_action_spec(key, ctrl, alt, shift)
            == key_action_spec(key2, ctrl2, alt2, shift2) ==> key == key2,
{
}

/// Law: the editor's key bindings. With Alt alone, Up and Down move the line;
/// with Control: S saves, F finds, H finds and replaces, F3 finds the next
/// match, G goes to a line, `/` toggles the comment, D selects the next
/// occurrence, W closes the tab, and with Shift also held, D duplicates and
/// K deletes the line. Without Control or Alt no key is bound.
pub proof fn editor_key_bindings(alt: bool, shift: bool, key: Key)
    ensures
        key_action_spec(Key::Up, false, true, shift) == Some(EditorAction::MoveLineUp),
        key_action_spec(Key::Down, false, true, shift) == Some(EditorAction::MoveLineDown),
        key_action_spec(Key::Char('s'), true, alt, shift) == Some(EditorAction::Save),
        key_action_spec(Key::Char('f'), true, alt, shift) == Some(EditorAction::Find),
        key_action_spec(Key::Char('h'), true, alt, shift) == Some(EditorAction::FindReplace),
        key_action_spec(Key::F3, true, alt, shift) == Some(EditorAction::FindNext),
        key_action_spec(Key::Char('g'), true, alt, shift) == Some(EditorAction::GotoLine),
        key_action_spec(Key::Char('/'), true, alt, shift) == Some(EditorAction::ToggleComment),
        key_action_spec(Key::Char('d'), true, alt, shift) == Some(EditorAction::SelectNextOccurrence),
        key_action_spec(Key::Char('w'), true, alt, shift) == Some(EditorAction::CloseTab),
        key_action_spec(Key::Char('D'), true, alt, true) == Some(EditorAction::DuplicateLine),
        key_action_spec(Key::Char('K'), true, alt, true) == Some(EditorAction::DeleteLine),
        key_action_spec(Key::Char('D'), true, alt, false) is None,
        key_action_spec(Key::Char('K'), true, alt, false) is None,
        key_action_spec(key, false, false, shift) is None,
{
}

pub fn key_action(key: Key, ctrl: bool, alt: bool, shift: bool) -> (res: Option<EditorAction>)
    ensures
        res == key_action_spec(key, ctrl, alt, shift),
{
    if alt && !ctrl {
        return match key {
            Key::Up => Some(EditorAction::MoveLineUp),
            Key::Down => Some(EditorAction::MoveLineDown),
            _ => None,
        };
    }
    if !ctrl {
        return None;
    }
    match key {
        Key::Char('s') => Some(EditorAction::Save),
        Key::Char('f') => Some(EditorAction::Find),
        Key::Char('h') => Some(EditorAction::FindReplace),
        Key::F3 => Some(EditorAction::FindNext),
        Key::Char('g') => Some(EditorAction::GotoLine),
        Key::Char('/') => Some(EditorAction::ToggleComment),
        Key::Char('D') if shift => Some(EditorAction::DuplicateLine),
        Key::Char('d') => Some(EditorAction::SelectNextOccurrence),
        Key::Char('K') if shift => Some(EditorAction::DeleteLine),
        Key::Char('w') => Some(EditorAction::CloseTab),
        _ => None,
    }
}

/// What saving a tab does.
#[derive(Debug)]
pub enum SaveStep {
    /// The tab has no file yet: the user picks one.
    AskForPath,
    /// The file lies outside the workspace: nothing is written.
    OutsideWorkspace,
    /// This text is written to the tab's file.
    Write(String),
}

/// Saving the tab whose file is `path` (empty for a new tab) and whose text
/// is `text`. `within_root` says whether the file lies inside the workspace
/// (see `is_within_root`), none when there is no workspace.
pub fn save_step(path: &str, within_root: Option<bool>, text: String, transform: SaveTransform) -> (res: SaveStep)
    ensures
        path@.len() == 0 ==> res is AskForPath,
        path@.len() > 0 && within_root == Some(false) ==> res is OutsideWorkspace,
        path@.len() > 0 && within_root != Some(false) ==> (res matches SaveStep::Write(t) && t@ == save_transform_spec(text@, transform)),
{
    if chars_of(path).len() == 0 {
        return SaveStep::AskForPath;
    }
    if within_root == Some(false) {
        return SaveStep::OutsideWorkspace;
    }
    SaveStep::Write(apply_save_transform(text, transform))
}

// ---------------------------------------------------------------------------
// Moving, copying and deleting lines
// ---------------------------------------------------------------------------

/// `lines` with lines `i` and `i + 1` exchanged.
pub open spec fn swapped(lines: Seq<Seq<char>>, i: int) -> Seq<Seq<char>> {
    lines.update(i, lines[i + 1]).update(i + 1, lines[i])
}

fn swap_at(lines: &Vec<String>, i: usize) -> (res: Vec<String>)
    requires
        i + 1 < lines.len(),
    ensures
        views_of_strings(res@) == swapped(views_of_strings(lines@), i as int),
{
    let mut out = clone_strings(lines.as_slice());
    assert(out@.len() == lines@.len()) by {
        assert(views_of_strings(out@).len() == out@.len());
        assert(views_of_strings(lines@).len() == lines@.len());
    }
    let a = lines[i].clone();
    let b = lines[i + 1].clone();
    out.set(i, b);
    out.set(i + 1, a);
    assert(views_of_strings(out@) =~= swapped(views_of_strings(lines@), i as int));
    out
}

/// Moves line `line` of `lines` up by one: the lines and the line the cursor
/// goes to; nothing for the first line or one past the end.
pub fn move_line_up(lines: &Vec<String>, line: usize) -> (res: Option<(Vec<String>, usize)>)
    ensures
        line == 0 || line >= lines@.len() ==> res is None,
        0 < line < lines@.len() ==> (res matches Some(r) && views_of_strings(r.0@) == swapped(
            views_of_strings(lines@),
            line - 1,
        ) && r.1 == line - 1),
{
    if line == 0 || line >= lines.len() {
        return None;
    }
    Some((swap_at(lines, line - 1), line - 1))
}

/// Moves line `line` of `lines` down by one: the lines and the line the
/// cursor goes to; nothing for the last line or one past the end.
pub fn move_line_down(lines: &Vec<String>, line: usize) -> (res: Option<(Vec<String>, usize)>)
    ensures
        line + 1 >= lines@.len() ==> res is None,
        line + 1 < lines@.len() ==> (res matches Some(r) && views_of_strings(r.0@) == swapped(
            views_of_strings(lines@),
            line as int,
        ) && r.1 == line + 1),
{
    if line >= lines.len() || line + 1 >= lines.len() {
        return None;
    }
    Some((swap_at(lines, line), line + 1))
}

/// Law: moving a line up and then down again gives the lines back.
pub proof fn move_down_undoes_move_up(lines: Seq<Seq<char>>, i: int)
    requires
        0 < i < lines.len(),
    ensures
        swapped(swapped(lines, i - 1), i - 1) == lines,
{
    assert(swapped(swapped(lines, i - 1), i - 1) =~= lines);
}

/// `lines` with a copy of line `line` put after it (unchanged past the end).
pub fn duplicate_line(lines: &Vec<String>, line: usize) -> (res: Vec<String>)
    ensures
        line < lines@.len() ==> views_of_strings(res@) == views_of_strings(lines@).insert(
            line + 1,
            lines@[line as int]@,
        ),
        line >= lines@.len() ==> views_of_strings(res@) == views_of_strings(lines@),
{
    let mut out = clone_strings(lines.as_slice());
    assert(out@.len() == lines@.len()) by {
        assert(views_of_strings(out@).len() == out@.len());
        assert(views_of_strings(lines@).len() == lines@.len());
    }
    if line < lines.len() {
        let copy = lines[line].clone();
        let ghost before = out@;
        out.insert(line + 1, copy);
        assert(views_of_strings(out@) =~= views_of_strings(lines@).insert(line + 1, lines@[line as int]@));
    }
    out
}

/// What deleting line `line` of `lines` leaves. A line with a line after it
/// goes together with its line break; the last line is emptied, or, when it
/// is empty already, goes with the line break before it. Nothing changes
/// for the only line when it is empty, or past the end.
pub open spec fn deleted_spec(lines: Seq<Seq<char>>, line: int) -> Seq<Seq<char>> {
    if line < 0 || line >= lines.len() {
        lines
    } else if line + 1 < lines.len() {
        lines.remove(line)
    } else if lines[line].len() > 0 {
        lines.update(line, Seq::empty())
    } else if line > 0 {
        lines.remove(line)
    } else {
        lines
    }
}

/// Deletes line `line` of `lines`, as `deleted_spec` says.
pub fn delete_line(lines: &Vec<String>, line: usize) -> (res: Vec<String>)
    ensures
        views_of_strings(res@) == deleted_spec(views_of_strings(lines@), line as int),
{
    let mut out = clone_strings(lines.as_slice());
    assert(out@.len() == lines@.len()) by {
        assert(views_of_strings(out@).len() == out@.len());
        assert(views_of_strings(lines@).len() == lines@.len());
    }
    let ghost v = views_of_strings(lines@);
    if line >= lines.len() {
        return out;
    }
    if line + 1 < lines.len() {
        out.remove(line);
        assert(views_of_strings(out@) =~= v.remove(line as int));
    } else if chars_of(lines[line].as_str()).len() > 0 {
        out.set(line, String::new());
        assert(views_of_strings(out@) =~= v.update(line as int, Seq::empty()));
    } else if line > 0 {
        out.remove(line);
        assert(views_of_strings(out@) =~= v.remove(line as int));
    }
    out
}

} // verus!
