//! Which line heads the block that encloses the top of the view.
use vstd::prelude::*;

use crate::text::{
    chars_of, first_index_of, find_char, lemma_first_index_of, is_lit, is_word_char, strip_prefix, strip_prefix_vec,
    sub_vec, trim_start, trim_start_vec, word_char,
};

verus! {

/// The languages whose headers are recognised.
#[derive(Clone, Copy, PartialEq, Eq, Debug, Structural)]
pub enum LangKind {
    Rust,
    Typescript,
    Python,
    Markdown,
    Go,
    Unsupported,
}

pub open spec fn lang_kind_spec(id: Seq<char>) -> LangKind {
    if id == "rust"@ {
        LangKind::Rust
    } else if id == "typescript"@ || id == "javascript"@ {
        LangKind::Typescript
    } else if id == "python"@ || id == "python3"@ {
        LangKind::Python
    } else if id == "markdown"@ {
        LangKind::Markdown
    } else if id == "go"@ {
        LangKind::Go
    } else {
        LangKind::Unsupported
    }
}

impl LangKind {
    pub fn from_id(id: &str) -> (res: LangKind)
        ensures
            res == lang_kind_spec(id@),
    {
        let v = chars_of(id);
        if is_lit(&v, "rust") {
            LangKind::Rust
        } else if is_lit(&v, "typescript") || is_lit(&v, "javascript") {
            LangKind::Typescript
        } else if is_lit(&v, "python") || is_lit(&v, "python3") {
            LangKind::Python
        } else if is_lit(&v, "markdown") {
            LangKind::Markdown
        } else if is_lit(&v, "go") {
            LangKind::Go
        } else {
            LangKind::Unsupported
        }
    }
}

/// `rest` begins with the word `kw`: what follows is not a word character.
pub open spec fn starts_with_kw(rest: Seq<char>, kw: Seq<char>) -> bool {
    match strip_prefix(rest, kw) {
        Some(after) => after.len() == 0 || !is_word_char(after[0]),
        None => false,
    }
}

/// Drops `p` and the white space after it, where `s` begins with `p`.
pub open spec fn skip_word(s: Seq<char>, p: Seq<char>) -> Seq<char> {
    match strip_prefix(s, p) {
        Some(x) => trim_start(x),
        None => s,
    }
}

/// What follows `pub` or `pub(..)`, where `s` begins with `pub`.
pub open spec fn after_pub(s: Seq<char>) -> Seq<char> {
    match strip_prefix(s, "pub"@) {
        Some(stripped) => {
            let after = trim_start(stripped);
            match strip_prefix(after, "("@) {
                Some(ap) => match first_index_of(ap, ')') {
                    Some(i) => trim_start(ap.subrange(i + 1, ap.len() as int)),
                    None => trim_start(after),
                },
                None => after,
            }
        },
        None => s,
    }
}

/// A Rust item header without its visibility and qualifiers.
pub open spec fn strip_visibility_spec(s: Seq<char>) -> Seq<char> {
    skip_word(skip_word(skip_word(after_pub(s), "async "@), "unsafe "@), "default "@)
}

pub open spec fn rust_header_spec(t: Seq<char>) -> bool {
    let r = strip_visibility_spec(t);
    ||| starts_with_kw(r, "fn"@)
    ||| starts_with_kw(r, "struct"@)
    ||| starts_with_kw(r, "enum"@)
    ||| starts_with_kw(r, "trait"@)
    ||| starts_with_kw(r, "impl"@)
    ||| starts_with_kw(r, "mod"@)
}

pub open spec fn ts_header_spec(t: Seq<char>) -> bool {
    let r = skip_word(skip_word(skip_word(t, "export "@), "default "@), "async "@);
    ||| starts_with_kw(r, "function"@)
    ||| starts_with_kw(r, "class"@)
    ||| starts_with_kw(r, "interface"@)
    ||| starts_with_kw(r, "type"@)
    ||| starts_with_kw(r, "enum"@)
    ||| starts_with_kw(r, "namespace"@)
}

pub open spec fn python_header_spec(t: Seq<char>) -> bool {
    starts_with_kw(t, "def"@) || starts_with_kw(t, "class"@) || starts_with_kw(t, "async def"@)
}

pub open spec fn go_header_spec(t: Seq<char>) -> bool {
    starts_with_kw(t, "func"@) || starts_with_kw(t, "type"@)
}

/// Length of the leading run of `#`.
pub open spec fn hash_run(s: Seq<char>) -> nat
    decreases s.len(),
{
    if s.len() > 0 && s[0] == '#' {
        1 + hash_run(s.drop_first())
    } else {
        0
    }
}

/// One to six `#` and then a space.
pub open spec fn markdown_header_spec(t: Seq<char>) -> bool {
    let h = hash_run(t);
    1 <= h <= 6 && h < t.len() && t[h as int] == ' '
}

pub open spec fn header_spec(text: Seq<char>, kind: LangKind) -> bool {
    let t = trim_start(text);
    if t.len() == 0 {
        false
    } else {
        match kind {
            LangKind::Rust => rust_header_spec(t),
            LangKind::Typescript => ts_header_spec(t),
            LangKind::Python => python_header_spec(t),
            LangKind::Markdown => markdown_header_spec(t),
            LangKind::Go => go_header_spec(t),
            LangKind::Unsupported => false,
        }
    }
}

proof fn lemma_strip_prefix_concat(p: Seq<char>, q: Seq<char>)
    ensures
        strip_prefix(p + q, p) == Some(q),
{
    assert((p + q).subrange(0, p.len() as int) =~= p);
    assert((p + q).subrange(p.len() as int, (p + q).len() as int) =~= q);
}

proof fn lemma_no_prefix(s: Seq<char>, p: Seq<char>)
    requires
        p.len() > 0,
        s.len() > 0,
        s[0] != p[0],
    ensures
        strip_prefix(s, p) is None,
{
    if p.len() <= s.len() {
        assert(s.subrange(0, p.len() as int)[0] != p[0]);
    }
}

/// Trimming white space that comes before a character that is not white space.
proof fn lemma_trim_lead(lead: Seq<char>, body: Seq<char>)
    requires
        forall|i: int| 0 <= i < lead.len() ==> crate::text::is_ws(#[trigger] lead[i]),
        body.len() > 0,
        !crate::text::is_ws(body[0]),
    ensures
        trim_start(lead + body) == body,
{
    let s = lead + body;
    assert forall|i: int| 0 <= i < lead.len() implies crate::text::is_ws(#[trigger] s[i]) by {
        assert(s[i] == lead[i]);
    }
    assert(s[lead.len() as int] == body[0]);
    crate::text::lemma_ws_prefix_len_unique(s, lead.len() as int);
    assert(s.subrange(lead.len() as int, s.len() as int) =~= body);
}

/// The keywords that open a Rust item that the sticky header shows.
pub open spec fn rust_item_keyword(kw: Seq<char>) -> bool {
    kw == "fn"@ || kw == "struct"@ || kw == "enum"@ || kw == "trait"@ || kw == "impl"@ || kw == "mod"@
}

/// Law: in Rust, a line that (after white space, and optionally `pub `)
/// begins with `fn`, `struct`, `enum`, `trait`, `impl` or `mod` as a whole
/// word is a header line.
pub proof fn rust_items_are_headers(lead: Seq<char>, public: bool, kw: Seq<char>, tail: Seq<char>)
    requires
        forall|i: int| 0 <= i < lead.len() ==> crate::text::is_ws(#[trigger] lead[i]),
        rust_item_keyword(kw),
        tail.len() == 0 || !is_word_char(tail[0]),
    ensures
        header_spec(
            lead + (if public {
                "pub "@
            } else {
                Seq::<char>::empty()
            }) + kw + tail,
            LangKind::Rust,
        ),
{
    reveal_strlit("fn");
    reveal_strlit("struct");
    reveal_strlit("enum");
    reveal_strlit("trait");
    reveal_strlit("impl");
    reveal_strlit("mod");
    reveal_strlit("pub");
    reveal_strlit("pub ");
    reveal_strlit("(");
    reveal_strlit("async ");
    reveal_strlit("unsafe ");
    reveal_strlit("default ");
    let item = kw + tail;
    assert(item[0] == kw[0]);
    let vis = if public {
        "pub "@
    } else {
        Seq::<char>::empty()
    };
    let body = vis + item;
    let line = lead + vis + kw + tail;
    assert(line =~= lead + body);
    assert(body[0] == if public { 'p' } else { kw[0] });
    lemma_trim_lead(lead, body);
    let t = trim_start(line);
    assert(t == body);
    if public {
        assert(body =~= "pub"@ + (seq![' '] + item));
        lemma_strip_prefix_concat("pub"@, seq![' '] + item);
        lemma_trim_lead(seq![' '], item);
        lemma_no_prefix(item, "("@);
        assert(after_pub(t) == item);
    } else {
        lemma_no_prefix(item, "pub"@);
        assert(after_pub(t) == item);
    }
    lemma_no_prefix(item, "async "@);
    lemma_no_prefix(item, "unsafe "@);
    lemma_no_prefix(item, "default "@);
    assert(strip_visibility_spec(t) == item);
    lemma_strip_prefix_concat(kw, tail);
    assert(starts_with_kw(item, kw));
}

/// Law: a Python line that (after white space) begins with the word `def` or
/// `class`, and a Go line that begins with the word `func` or `type`, is a
/// header line.
pub proof fn python_and_go_items_are_headers(lead: Seq<char>, go: bool, kw: Seq<char>, tail: Seq<char>)
    requires
        forall|i: int| 0 <= i < lead.len() ==> crate::text::is_ws(#[trigger] lead[i]),
        go ==> kw == "func"@ || kw == "type"@,
        !go ==> kw == "def"@ || kw == "class"@,
        tail.len() == 0 || !is_word_char(tail[0]),
    ensures
        header_spec(lead + kw + tail, if go {
            LangKind::Go
        } else {
            LangKind::Python
        }),
{
    reveal_strlit("func");
    reveal_strlit("type");
    reveal_strlit("def");
    reveal_strlit("class");
    let item = kw + tail;
    assert(item[0] == kw[0]);
    assert(lead + kw + tail =~= lead + item);
    lemma_trim_lead(lead, item);
    lemma_strip_prefix_concat(kw, tail);
    assert(starts_with_kw(item, kw));
}

/// Law: a Markdown line that (after white space) is one to six `#` and a
/// space is a header line; seven or more `#` are not.
pub proof fn markdown_headings_are_headers(lead: Seq<char>, hashes: nat, tail: Seq<char>)
    requires
        forall|i: int| 0 <= i < lead.len() ==> crate::text::is_ws(#[trigger] lead[i]),
        hashes >= 1,
    ensures
        header_spec(lead + Seq::new(hashes, |i: int| '#') + seq![' '] + tail, LangKind::Markdown)
            == (hashes <= 6),
{
    let h = Seq::new(hashes, |i: int| '#');
    let item = h + seq![' '] + tail;
    assert(item[0] == '#');
    assert(lead + h + seq![' '] + tail =~= lead + item);
    lemma_trim_lead(lead, item);
    lemma_hash_run(item, hashes as int);
    assert(item[hashes as int] == ' ');
}

proof fn lemma_hash_run(s: Seq<char>, k: int)
    requires
        0 <= k < s.len(),
        forall|i: int| 0 <= i < k ==> s[i] == '#',
        s[k] != '#',
    ensures
        hash_run(s) == k,
    decreases k,
{
    if k > 0 {
        assert forall|i: int| 0 <= i < k - 1 implies s.drop_first()[i] == '#' by {
            assert(s.drop_first()[i] == s[i + 1]);
        }
        assert(s.drop_first()[k - 1] == s[k]);
        lemma_hash_run(s.drop_first(), k - 1);
    }
}

fn starts_with_keyword(rest: &Vec<char>, keyword: &str) -> (res: bool)
    ensures
        res == starts_with_kw(rest@, keyword@),
{
    match strip_prefix_vec(rest, keyword) {
        Some(after) => after.len() == 0 || !word_char(after[0]),
        None => false,
    }
}

fn skip_word_vec(s: Vec<char>, p: &str) -> (res: Vec<char>)
    ensures
        res@ == skip_word(s@, p@),
{
    match strip_prefix_vec(&s, p) {
        Some(x) => trim_start_vec(&x),
        None => s,
    }
}

fn after_pub_vec(s: Vec<char>) -> (res: Vec<char>)
    ensures
        res@ == after_pub(s@),
{
    match strip_prefix_vec(&s, "pub") {
        Some(stripped) => {
            let after = trim_start_vec(&stripped);
            match strip_prefix_vec(&after, "(") {
                Some(ap) => match {
                    proof {
                        lemma_first_index_of(ap@, ')');
                        assert(ap@.subrange(0, ap@.len() as int) =~= ap@);
                    }
                    find_char(&ap, 0, ')')
                } {
                    Some(i) => {
                        assert(ap@.subrange(0, ap@.len() as int) =~= ap@);
                        assert(first_index_of(ap@, ')') == Some(i as int));
                        let tail = sub_vec(&ap, i + 1, ap.len());
                        trim_start_vec(&tail)
                    },
                    None => {
                        assert(ap@.subrange(0, ap@.len() as int) =~= ap@);
                        assert(first_index_of(ap@, ')') is None);
                        trim_start_vec(&after)
                    },
                },
                None => after,
            }
        },
        None => s,
    }
}

fn is_rust_header(t: &Vec<char>) -> (res: bool)
    ensures
        res == rust_header_spec(t@),
{
    let c = sub_vec(t, 0, t.len());
    assert(c@ =~= t@);
    let r = skip_word_vec(skip_word_vec(skip_word_vec(after_pub_vec(c), "async "), "unsafe "), "default ");
    starts_with_keyword(&r, "fn") || starts_with_keyword(&r, "struct") || starts_with_keyword(&r, "enum")
        || starts_with_keyword(&r, "trait") || starts_with_keyword(&r, "impl")
        || starts_with_keyword(&r, "mod")
}

fn is_ts_header(t: &Vec<char>) -> (res: bool)
    ensures
        res == ts_header_spec(t@),
{
    let c = sub_vec(t, 0, t.len());
    assert(c@ =~= t@);
    let r = skip_word_vec(skip_word_vec(skip_word_vec(c, "export "), "default "), "async ");
    starts_with_keyword(&r, "function") || starts_with_keyword(&r, "class")
        || starts_with_keyword(&r, "interface") || starts_with_keyword(&r, "type")
        || starts_with_keyword(&r, "enum") || starts_with_keyword(&r, "namespace")
}

proof fn lemma_hash_run_unique(s: Seq<char>, k: int)
    requires
        0 <= k <= s.len(),
        forall|i: int| 0 <= i < k ==> #[trigger] s[i] == '#',
        k < s.len() ==> s[k] != '#',
    ensures
        hash_run(s) == k,
    decreases s.len(),
{
    if k > 0 {
        assert(s[0] == '#');
        assert forall|i: int| 0 <= i < k - 1 implies #[trigger] s.drop_first()[i] == '#' by {
            assert(s.drop_first()[i] == s[i + 1]);
        }
        if k - 1 < s.drop_first().len() {
            assert(s.drop_first()[k - 1] == s[k]);
        }
        lemma_hash_run_unique(s.drop_first(), k - 1);
    }
}

fn is_markdown_header(t: &Vec<char>) -> (res: bool)
    ensures
        res == markdown_header_spec(t@),
{
    let mut h: usize = 0;
    while h < t.len() && t[h] == '#'
        invariant
            h <= t.len(),
            forall|i: int| 0 <= i < h ==> #[trigger] t@[i] == '#',
        decreases t.len() - h,
    {
        h += 1;
    }
    proof {
        lemma_hash_run_unique(t@, h as int);
    }
    1 <= h && h <= 6 && h < t.len() && t[h] == ' '
}

/// Does `text` open a block (a function, type or section) in a language of `kind`?
pub fn is_header_line(text: &str, kind: LangKind) -> (res: bool)
    ensures
        res == header_spec(text@, kind),
{
    let v = chars_of(text);
    let t = trim_start_vec(&v);
    if t.len() == 0 {
        return false;
    }
    match kind {
        LangKind::Rust => is_rust_header(&t),
        LangKind::Typescript => is_ts_header(&t),
        LangKind::Python => starts_with_keyword(&t, "def") || starts_with_keyword(&t, "class")
            || starts_with_keyword(&t, "async def"),
        LangKind::Markdown => is_markdown_header(&t),
        LangKind::Go => starts_with_keyword(&t, "func") || starts_with_keyword(&t, "type"),
        LangKind::Unsupported => false,
    }
}

/// The last header line at or above `from_line`, where `lines[i]` is the text of line `i`.
pub open spec fn enclosing_header_spec(lines: Seq<Seq<char>>, from_line: int, kind: LangKind) -> Option<int>
    decreases from_line + 1,
{
    if kind == LangKind::Unsupported || from_line < 0 {
        None
    } else if header_spec(lines[from_line], kind) {
        Some(from_line)
    } else {
        enclosing_header_spec(lines, from_line - 1, kind)
    }
}

pub open spec fn line_views(lines: Seq<String>) -> Seq<Seq<char>> {
    lines.map_values(|l: String| l@)
}

/// The header that encloses `from_line`: the nearest header line at or above it.
pub fn find_enclosing_header(lines: &Vec<String>, from_line: i32, kind: LangKind) -> (res: Option<i32>)
    requires
        from_line < lines.len(),
    ensures
        match enclosing_header_spec(line_views(lines@), from_line as int, kind) {
            Some(h) => res == Some(h as i32),
            None => res is None,
        },
{
    if kind == LangKind::Unsupported {
        return None;
    }
    let mut line = from_line;
    while line >= 0
        invariant
            line <= from_line < lines.len(),
            kind != LangKind::Unsupported,
            enclosing_header_spec(line_views(lines@), from_line as int, kind)
                == enclosing_header_spec(line_views(lines@), line as int, kind),
        decreases line + 1,
    {
        let idx = line as usize;
        assert(line_views(lines@)[line as int] == lines@[line as int]@);
        if is_header_line(lines[idx].as_str(), kind) {
            return Some(line);
        }
        line -= 1;
    }
    None
}

/// `s` without the line breaks (`\r`, `\n`) at its end.
pub open spec fn without_line_break(s: Seq<char>) -> Seq<char>
    decreases s.len(),
{
    if s.len() > 0 && (s.last() == '\r' || s.last() == '\n') {
        without_line_break(s.drop_last())
    } else {
        s
    }
}

/// What the sticky header shows once the view has scrolled or the text changed.
#[derive(Clone, Debug, PartialEq, Eq)]
pub enum StickyLabel {
    /// Hidden; no header is remembered (-1).
    Hidden,
    /// The header already shown stays, and stays remembered.
    Unchanged,
    /// Header line `.0` is shown with the text `.1`, and remembered.
    Header(i32, String),
}

/// The header that the sticky label is about: the enclosing header of the
/// top visible line, where the label is enabled and the language has headers,
/// and where that header is not the top line itself.
pub open spec fn sticky_target(
    enabled: bool,
    lines: Seq<Seq<char>>,
    visible_line: int,
    kind: LangKind,
) -> Option<int> {
    if !enabled || kind == LangKind::Unsupported {
        None
    } else {
        match enclosing_header_spec(lines, visible_line, kind) {
            Some(h) => if h != visible_line {
                Some(h)
            } else {
                None
            },
            None => None,
        }
    }
}

/// The sticky label for the view whose top line is `visible_line`, the label
/// having last shown header line `last_header` (-1 for none).
pub fn sticky_label(
    enabled: bool,
    lines: &Vec<String>,
    visible_line: i32,
    kind: LangKind,
    last_header: i32,
) -> (res: StickyLabel)
    requires
        visible_line < lines.len(),
    ensures
        match sticky_target(enabled, line_views(lines@), visible_line as int, kind) {
            None => res == StickyLabel::Hidden,
            Some(h) => if h == last_header {
                res == StickyLabel::Unchanged
            } else {
                res matches StickyLabel::Header(l, t) && l == h && t@ == without_line_break(
                    lines@[h]@,
                )
            },
        },
{
    if !enabled || kind == LangKind::Unsupported {
        return StickyLabel::Hidden;
    }
    proof {
        lemma_enclosing_header_in_range(line_views(lines@), visible_line as int, kind);
    }
    match find_enclosing_header(lines, visible_line, kind) {
        Some(h) => {
            if h == visible_line {
                return StickyLabel::Hidden;
            }
            if h == last_header {
                return StickyLabel::Unchanged;
            }
            let v = chars_of(lines[h as usize].as_str());
            let mut e: usize = v.len();
            assert(v@.subrange(0, v@.len() as int) =~= v@);
            while e > 0 && (v[e - 1] == '\r' || v[e - 1] == '\n')
                invariant
                    e <= v.len(),
                    without_line_break(v@) == without_line_break(v@.subrange(0, e as int)),
                decreases e,
            {
                assert(v@.subrange(0, e as int).drop_last() =~= v@.subrange(0, e - 1));
                e -= 1;
            }
            StickyLabel::Header(h, crate::text::string_of_range(&v, 0, e))
        },
        None => StickyLabel::Hidden,
    }
}

proof fn lemma_enclosing_header_in_range(lines: Seq<Seq<char>>, from_line: int, kind: LangKind)
    ensures
        match enclosing_header_spec(lines, from_line, kind) {
            Some(h) => 0 <= h <= from_line,
            None => true,
        },
    decreases from_line + 1,
{
    if !(kind == LangKind::Unsupported || from_line < 0) && !header_spec(lines[from_line], kind) {
        lemma_enclosing_header_in_range(lines, from_line - 1, kind);
    }
}

} // verus!
