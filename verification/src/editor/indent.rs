//! What pressing Enter continues: comment prefixes and list markers.
use vstd::prelude::*;

use crate::text::{
    all_digits, chars_of, digits_value, in_list, is_ascii_digit, is_lit, lemma_starts_with_chars,
    one_of, parse_unsigned, parse_unsigned_chars, push_dec, push_range, push_str, dec, starts_with, string_of, sub_vec, trim,
    trim_range, trim_start, trim_start_range, unsigned_body, ws_prefix_len,
};

verus! {

/// What Enter does at the end of a line.
#[derive(Debug, PartialEq, Eq)]
pub enum ContinueAction {
    NoAction,
    ContinuePrefix { indent: String, prefix: String },
    ContinueAutoIncrement { indent: String, n: u32, suffix: String },
    ExitList,
}

/// An action as plain values: a tag (0 none, 1 prefix, 2 numbered, 3 exit),
/// the indent, the prefix or suffix, and the number.
pub type ActionView = (u8, Seq<char>, Seq<char>, nat);

pub open spec fn none_action() -> ActionView {
    (0, Seq::empty(), Seq::empty(), 0)
}

pub open spec fn exit_action() -> ActionView {
    (3, Seq::empty(), Seq::empty(), 0)
}

pub open spec fn prefix_action(indent: Seq<char>, prefix: Seq<char>) -> ActionView {
    (1, indent, prefix, 0)
}

pub open spec fn numbered_action(indent: Seq<char>, n: nat, suffix: Seq<char>) -> ActionView {
    (2, indent, suffix, n)
}

impl ContinueAction {
    pub open spec fn view(&self) -> ActionView {
        match self {
            ContinueAction::NoAction => none_action(),
            ContinueAction::ContinuePrefix { indent, prefix } => prefix_action(indent@, prefix@),
            ContinueAction::ContinueAutoIncrement { indent, n, suffix } => numbered_action(
                indent@,
                *n as nat,
                suffix@,
            ),
            ContinueAction::ExitList => exit_action(),
        }
    }
}

pub open spec fn is_indent_char(c: char) -> bool {
    c == ' ' || c == '\t'
}

/// Length of the leading run of spaces and tabs.
pub open spec fn indent_len(s: Seq<char>) -> nat
    decreases s.len(),
{
    if s.len() > 0 && is_indent_char(s[0]) {
        1 + indent_len(s.drop_first())
    } else {
        0
    }
}

pub open spec fn line_comment_langs() -> Seq<&'static str> {
    seq!["rust", "c", "cpp", "chdr", "typescript", "javascript", "go", "css", "lua", "java"]
}

pub open spec fn hash_comment_langs() -> Seq<&'static str> {
    seq!["python", "python3", "sh", "yaml", "toml", "ruby", "conf"]
}

pub open spec fn block_comment_langs() -> Seq<&'static str> {
    seq!["rust", "c", "cpp", "chdr", "typescript", "javascript", "java"]
}

/// Continuing a comment that begins `rest` with `marker`.
pub open spec fn simple_prefix_spec(indent: Seq<char>, rest: Seq<char>, marker: Seq<char>) -> ActionView {
    let after = rest.subrange(marker.len() as int, rest.len() as int);
    let trailing = starts_with(after, seq![' ']);
    let body = if trailing {
        after.drop_first()
    } else {
        after
    };
    if trim(body).len() == 0 {
        exit_action()
    } else {
        prefix_action(
            indent,
            if trailing {
                marker.push(' ')
            } else {
                marker
            },
        )
    }
}

pub open spec fn line_comment_spec(indent: Seq<char>, rest: Seq<char>, lang: Seq<char>) -> Option<
    ActionView,
> {
    if in_list(lang, line_comment_langs()) && starts_with(rest, seq!['/', '/']) {
        Some(simple_prefix_spec(indent, rest, seq!['/', '/']))
    } else if in_list(lang, hash_comment_langs()) && starts_with(rest, seq!['#']) {
        Some(simple_prefix_spec(indent, rest, seq!['#']))
    } else {
        None
    }
}

pub open spec fn block_comment_spec(indent: Seq<char>, rest: Seq<char>) -> Option<ActionView> {
    let doc_after = rest.subrange(3, rest.len() as int);
    let star_after = rest.subrange(1, rest.len() as int);
    if starts_with(rest, seq!['/', '*', '*']) && (trim(doc_after).len() == 0 || starts_with(
        doc_after,
        seq![' '],
    )) {
        Some(prefix_action(indent.push(' '), seq!['*', ' ']))
    } else if starts_with(rest, seq!['*']) {
        if starts_with(star_after, seq!['*']) {
            None
        } else {
            let trailing = starts_with(star_after, seq![' ']);
            let body = if trailing {
                star_after.drop_first()
            } else {
                star_after
            };
            if trim(body).len() == 0 {
                Some(exit_action())
            } else {
                Some(
                    prefix_action(
                        indent,
                        if trailing {
                            seq!['*', ' ']
                        } else {
                            seq!['*']
                        },
                    ),
                )
            }
        }
    } else {
        None
    }
}

/// Length of the leading run of ASCII digits.
pub open spec fn digit_len(s: Seq<char>) -> nat
    decreases s.len(),
{
    if s.len() > 0 && is_ascii_digit(s[0]) {
        1 + digit_len(s.drop_first())
    } else {
        0
    }
}

pub open spec fn numbered_spec(indent: Seq<char>, rest: Seq<char>) -> Option<ActionView> {
    let d = digit_len(rest) as int;
    let digits = rest.subrange(0, d);
    let after_digits = rest.subrange(d, rest.len() as int);
    if d == 0 || after_digits.len() == 0 {
        None
    } else {
        let sc = after_digits[0];
        let after_suffix = after_digits.drop_first();
        if sc != '.' && sc != ')' {
            None
        } else if !starts_with(after_suffix, seq![' ']) && after_suffix.len() > 0 {
            None
        } else if digits_value(digits) > u32::MAX {
            None
        } else if trim_start(after_suffix).len() == 0 {
            Some(exit_action())
        } else {
            Some(numbered_action(indent, digits_value(digits), seq![sc, ' ']))
        }
    }
}

pub open spec fn markdown_spec(indent: Seq<char>, rest: Seq<char>) -> Option<ActionView> {
    match numbered_spec(indent, rest) {
        Some(a) => Some(a),
        None => {
            if rest.len() > 0 && (rest[0] == '-' || rest[0] == '*' || rest[0] == '+') {
                let after = rest.drop_first();
                let trailing = starts_with(after, seq![' ']);
                let body = if trailing {
                    trim_start(after)
                } else {
                    after
                };
                if !trailing && after.len() > 0 {
                    None
                } else if trim(body).len() == 0 {
                    Some(exit_action())
                } else {
                    Some(prefix_action(indent, seq![rest[0], ' ']))
                }
            } else {
                None
            }
        },
    }
}

/// What Enter continues after `line` in a buffer of language `lang`.
pub open spec fn analyze_spec(line: Seq<char>, lang: Seq<char>) -> ActionView {
    let k = indent_len(line) as int;
    let indent = line.subrange(0, k);
    let rest = line.subrange(k, line.len() as int);
    if lang == "markdown"@ {
        match markdown_spec(indent, rest) {
            Some(a) => a,
            None => none_action(),
        }
    } else if in_list(lang, block_comment_langs()) && block_comment_spec(indent, rest) is Some {
        block_comment_spec(indent, rest)->0
    } else if line_comment_spec(indent, rest, lang) is Some {
        line_comment_spec(indent, rest, lang)->0
    } else if lang.len() == 0 && line_comment_spec(indent, rest, "rust"@) is Some {
        line_comment_spec(indent, rest, "rust"@)->0
    } else if lang.len() == 0 && line_comment_spec(indent, rest, "python"@) is Some {
        line_comment_spec(indent, rest, "python"@)->0
    } else {
        none_action()
    }
}


/// `s` holds a character that is not white space.
pub open spec fn has_text(s: Seq<char>) -> bool {
    exists|i: int| 0 <= i < s.len() && !crate::text::is_ws(#[trigger] s[i])
}

proof fn lemma_has_text_trims(s: Seq<char>)
    requires
        has_text(s),
    ensures
        has_text(trim_start(s)),
        trim(s).len() > 0,
{
    let i = choose|i: int| 0 <= i < s.len() && !crate::text::is_ws(#[trigger] s[i]);
    crate::text::lemma_ws_prefix_len(s);
    let w = ws_prefix_len(s) as int;
    assert(w <= i);
    let t = trim_start(s);
    assert(t[i - w] == s[i]);
    assert(!crate::text::is_ws(t[i - w]));
    crate::text::lemma_trim_end_len(t);
    assert(crate::text::trim_end_len(t) > i - w);
}

/// Law: in Markdown, a bullet line (spaces and tabs, a `-`, `*` or `+`, a
/// space, then some text) continues with the same indent and the same
/// marker followed by a space.
pub proof fn markdown_bullets_continue(indent: Seq<char>, marker: char, text: Seq<char>)
    requires
        forall|i: int| 0 <= i < indent.len() ==> indent[i] == ' ' || indent[i] == '\t',
        marker == '-' || marker == '*' || marker == '+',
        has_text(text),
    ensures
        analyze_spec(indent + seq![marker, ' '] + text, "markdown"@) == prefix_action(indent, seq![marker, ' ']),
{
    let line = indent + seq![marker, ' '] + text;
    let k = indent.len() as int;
    assert forall|i: int| 0 <= i < k implies is_indent_char(#[trigger] line[i]) by {
        assert(line[i] == indent[i]);
    }
    assert(line[k] == marker);
    lemma_indent_len_unique(line, k);
    let rest = line.subrange(k, line.len() as int);
    assert(line.subrange(0, k) =~= indent);
    assert(rest =~= seq![marker, ' '] + text);
    assert(rest[0] == marker);
    assert(!is_ascii_digit(rest[0]));
    assert(digit_len(rest) == 0);
    let after = rest.drop_first();
    assert(after =~= seq![' '] + text);
    lemma_starts_with_chars(after, seq![' ']);
    assert(starts_with(after, seq![' ']));
    let j = choose|j: int| 0 <= j < text.len() && !crate::text::is_ws(#[trigger] text[j]);
    assert(after[j + 1] == text[j]);
    assert(has_text(after));
    lemma_has_text_trims(after);
    lemma_has_text_trims(trim_start(after));
}

proof fn lemma_split_indent(indent: Seq<char>, rest: Seq<char>)
    requires
        forall|i: int| 0 <= i < indent.len() ==> indent[i] == ' ' || indent[i] == '\t',
        rest.len() > 0,
        !is_indent_char(rest[0]),
    ensures
        indent_len(indent + rest) == indent.len(),
        (indent + rest).subrange(0, indent.len() as int) == indent,
        (indent + rest).subrange(indent.len() as int, (indent + rest).len() as int) == rest,
{
    let line = indent + rest;
    let k = indent.len() as int;
    assert forall|i: int| 0 <= i < k implies is_indent_char(#[trigger] line[i]) by {
        assert(line[i] == indent[i]);
    }
    assert(line[k] == rest[0]);
    lemma_indent_len_unique(line, k);
    assert(line.subrange(0, k) =~= indent);
    assert(line.subrange(k, line.len() as int) =~= rest);
}

/// Law: in Markdown, a bullet with nothing after it but white space ends
/// the list.
pub proof fn markdown_empty_bullet_exits(indent: Seq<char>, marker: char, blank: Seq<char>)
    requires
        forall|i: int| 0 <= i < indent.len() ==> indent[i] == ' ' || indent[i] == '\t',
        marker == '-' || marker == '*' || marker == '+',
        !has_text(blank),
    ensures
        analyze_spec(indent + seq![marker, ' '] + blank, "markdown"@) == exit_action(),
{
    let rest = seq![marker, ' '] + blank;
    assert(indent + seq![marker, ' '] + blank =~= indent + rest);
    lemma_split_indent(indent, rest);
    assert(digit_len(rest) == 0);
    let after = rest.drop_first();
    assert(after =~= seq![' '] + blank);
    lemma_starts_with_chars(after, seq![' ']);
    crate::text::lemma_ws_prefix_len(after);
    assert forall|i: int| 0 <= i < after.len() implies crate::text::is_ws(#[trigger] after[i]) by {
        if i > 0 {
            assert(after[i] == blank[i - 1]);
        }
    }
    crate::text::lemma_ws_prefix_len_unique(after, after.len() as int);
    assert(trim_start(after).len() == 0);
    assert(trim_start(trim_start(after)).len() == 0);
}

/// Law: in Markdown, a numbered item (digits, `.` or `)`, a space, then some
/// text) continues with the same indent, the number one up and the same
/// suffix.
pub proof fn markdown_numbers_continue(indent: Seq<char>, digits: Seq<char>, sep: char, text: Seq<char>)
    requires
        forall|i: int| 0 <= i < indent.len() ==> indent[i] == ' ' || indent[i] == '\t',
        digits.len() > 0,
        all_digits(digits),
        digits_value(digits) <= u32::MAX,
        sep == '.' || sep == ')',
        has_text(text),
    ensures
        analyze_spec(indent + digits + seq![sep, ' '] + text, "markdown"@)
            == numbered_action(indent, digits_value(digits), seq![sep, ' ']),
{
    let rest = digits + seq![sep, ' '] + text;
    assert(indent + digits + seq![sep, ' '] + text =~= indent + rest);
    assert(rest[0] == digits[0]);
    lemma_split_indent(indent, rest);
    let d = digits.len() as int;
    assert forall|i: int| 0 <= i < d implies is_ascii_digit(#[trigger] rest[i]) by {
        assert(rest[i] == digits[i]);
    }
    assert(rest[d] == sep);
    lemma_digit_len_unique(rest, d);
    assert(rest.subrange(0, d) =~= digits);
    let after_digits = rest.subrange(d, rest.len() as int);
    assert(after_digits =~= seq![sep, ' '] + text);
    let after_suffix = after_digits.drop_first();
    assert(after_suffix =~= seq![' '] + text);
    lemma_starts_with_chars(after_suffix, seq![' ']);
    let j = choose|j: int| 0 <= j < text.len() && !crate::text::is_ws(#[trigger] text[j]);
    assert(after_suffix[j + 1] == text[j]);
    lemma_has_text_trims(after_suffix);
}

/// Law: a `// ` comment in Rust (and a `# ` comment in Python) with some text
/// continues with the same indent and the same marker and space.
pub proof fn line_comments_continue(indent: Seq<char>, python: bool, text: Seq<char>)
    requires
        forall|i: int| 0 <= i < indent.len() ==> indent[i] == ' ' || indent[i] == '\t',
        has_text(text),
    ensures
        python ==> analyze_spec(indent + seq!['#', ' '] + text, "python"@) == prefix_action(indent, seq!['#', ' ']),
        !python ==> analyze_spec(indent + seq!['/', '/', ' '] + text, "rust"@) == prefix_action(
            indent,
            seq!['/', '/', ' '],
        ),
{
    reveal_strlit("python");
    reveal_strlit("rust");
    reveal_strlit("markdown");
    let marker = if python {
        seq!['#']
    } else {
        seq!['/', '/']
    };
    let rest = marker + seq![' '] + text;
    assert(indent + marker.push(' ') + text =~= indent + rest);
    lemma_split_indent(indent, rest);
    lemma_starts_with_chars(rest, marker);
    assert(starts_with(rest, marker));
    let after = rest.subrange(marker.len() as int, rest.len() as int);
    assert(after =~= seq![' '] + text);
    lemma_starts_with_chars(after, seq![' ']);
    assert(after.drop_first() =~= text);
    let j = choose|j: int| 0 <= j < text.len() && !crate::text::is_ws(#[trigger] text[j]);
    lemma_has_text_trims(text);
    assert(marker.push(' ') =~= if python { seq!['#', ' '] } else { seq!['/', '/', ' '] });
    if python {
        assert(hash_comment_langs()[0]@ == "python"@);
        assert(in_list("python"@, hash_comment_langs()));
        assert(!in_list("python"@, block_comment_langs())) by {
            assert forall|i: int| 0 <= i < block_comment_langs().len() implies block_comment_langs()[i]@ != "python"@ by {
                reveal_strlit("c");
                reveal_strlit("cpp");
                reveal_strlit("chdr");
                reveal_strlit("typescript");
                reveal_strlit("javascript");
                reveal_strlit("java");
                assert(block_comment_langs()[i]@.len() != 6 || block_comment_langs()[i]@[0] != 'p');
            }
        }
        if in_list("python"@, line_comment_langs()) {
            let i = choose|i: int| 0 <= i < line_comment_langs().len() && line_comment_langs()[i]@ == "python"@;
            reveal_strlit("c");
            reveal_strlit("cpp");
            reveal_strlit("chdr");
            reveal_strlit("typescript");
            reveal_strlit("javascript");
            reveal_strlit("go");
            reveal_strlit("css");
            reveal_strlit("lua");
            reveal_strlit("java");
            assert(line_comment_langs()[i]@.len() != 6 || line_comment_langs()[i]@[0] != 'p');
        }
    } else {
        assert(line_comment_langs()[0]@ == "rust"@);
        assert(in_list("rust"@, line_comment_langs()));
        assert(block_comment_langs()[0]@ == "rust"@);
        assert(in_list("rust"@, block_comment_langs()));
        assert(block_comment_spec(indent, rest) is None) by {
            lemma_starts_with_chars(rest, seq!['/', '*', '*']);
            lemma_starts_with_chars(rest, seq!['*']);
        }
    }
}

pub open spec fn view_opt(o: Option<ContinueAction>) -> Option<ActionView> {
    match o {
        Some(a) => Some(a@),
        None => None,
    }
}

proof fn lemma_indent_len_unique(s: Seq<char>, k: int)
    requires
        0 <= k <= s.len(),
        forall|i: int| 0 <= i < k ==> is_indent_char(#[trigger] s[i]),
        k < s.len() ==> !is_indent_char(s[k]),
    ensures
        indent_len(s) == k,
    decreases s.len(),
{
    if k > 0 {
        assert(is_indent_char(s[0]));
        assert forall|i: int| 0 <= i < k - 1 implies is_indent_char(#[trigger] s.drop_first()[i]) by {
            assert(s.drop_first()[i] == s[i + 1]);
        }
        if k - 1 < s.drop_first().len() {
            assert(s.drop_first()[k - 1] == s[k]);
        }
        lemma_indent_len_unique(s.drop_first(), k - 1);
    }
}

proof fn lemma_digit_len_unique(s: Seq<char>, k: int)
    requires
        0 <= k <= s.len(),
        forall|i: int| 0 <= i < k ==> is_ascii_digit(#[trigger] s[i]),
        k < s.len() ==> !is_ascii_digit(s[k]),
    ensures
        digit_len(s) == k,
    decreases s.len(),
{
    if k > 0 {
        assert(is_ascii_digit(s[0]));
        assert forall|i: int| 0 <= i < k - 1 implies is_ascii_digit(#[trigger] s.drop_first()[i]) by {
            assert(s.drop_first()[i] == s[i + 1]);
        }
        if k - 1 < s.drop_first().len() {
            assert(s.drop_first()[k - 1] == s[k]);
        }
        lemma_digit_len_unique(s.drop_first(), k - 1);
    }
}

fn pair_string(a: char, b: char) -> (res: String)
    ensures
        res@ == seq![a, b],
{
    let mut v: Vec<char> = Vec::new();
    v.push(a);
    v.push(b);
    assert(v@ =~= seq![a, b]);
    string_of(&v)
}

/// Does `v[at..]` begin with `c`?
fn char_at_is(v: &Vec<char>, at: usize, c: char) -> (res: bool)
    requires
        at <= v.len(),
    ensures
        res == starts_with(v@.subrange(at as int, v@.len() as int), seq![c]),
        res == (at < v.len() && v@[at as int] == c),
{
    proof {
        lemma_starts_with_chars(v@.subrange(at as int, v@.len() as int), seq![c]);
        if at < v.len() {
            assert(v@.subrange(at as int, v@.len() as int)[0] == v@[at as int]);
        }
    }
    at < v.len() && v[at] == c
}

fn simple_prefix(indent: &Vec<char>, rest: &Vec<char>, marker: &Vec<char>) -> (res: ContinueAction)
    requires
        starts_with(rest@, marker@),
    ensures
        res@ == simple_prefix_spec(indent@, rest@, marker@),
{
    let ml = marker.len();
    let trailing = char_at_is(rest, ml, ' ');
    let start = if trailing {
        ml + 1
    } else {
        ml
    };
    let ghost after = rest@.subrange(ml as int, rest@.len() as int);
    let ghost body = if trailing {
        after.drop_first()
    } else {
        after
    };
    assert(body =~= rest@.subrange(start as int, rest@.len() as int));
    let (a, b) = trim_range(rest, start, rest.len());
    if a == b {
        return ContinueAction::ExitList;
    }
    let mut p: Vec<char> = Vec::new();
    push_range(&mut p, marker, 0, ml);
    assert(p@ =~= marker@);
    if trailing {
        p.push(' ');
    }
    ContinueAction::ContinuePrefix { indent: string_of(indent), prefix: string_of(&p) }
}

fn line_comment(indent: &Vec<char>, rest: &Vec<char>, lang: &Vec<char>) -> (res: Option<
    ContinueAction,
>)
    ensures
        view_opt(res) == line_comment_spec(indent@, rest@, lang@),
{
    let slash: [&str; 10] = [
        "rust",
        "c",
        "cpp",
        "chdr",
        "typescript",
        "javascript",
        "go",
        "css",
        "lua",
        "java",
    ];
    assert(slash@ == line_comment_langs());
    let hash: [&str; 7] = ["python", "python3", "sh", "yaml", "toml", "ruby", "conf"];
    assert(hash@ == hash_comment_langs());
    proof {
        lemma_starts_with_chars(rest@, seq!['/', '/']);
        lemma_starts_with_chars(rest@, seq!['#']);
    }
    if one_of(lang, &slash) && rest.len() >= 2 && rest[0] == '/' && rest[1] == '/' {
        let mut m: Vec<char> = Vec::new();
        m.push('/');
        m.push('/');
        assert(m@ =~= seq!['/', '/']);
        return Some(simple_prefix(indent, rest, &m));
    }
    if one_of(lang, &hash) && rest.len() >= 1 && rest[0] == '#' {
        let mut m: Vec<char> = Vec::new();
        m.push('#');
        assert(m@ =~= seq!['#']);
        return Some(simple_prefix(indent, rest, &m));
    }
    None
}

fn block_comment(indent: &Vec<char>, rest: &Vec<char>) -> (res: Option<ContinueAction>)
    ensures
        view_opt(res) == block_comment_spec(indent@, rest@),
{
    proof {
        lemma_starts_with_chars(rest@, seq!['/', '*', '*']);
        lemma_starts_with_chars(rest@, seq!['*']);
    }
    if rest.len() >= 3 && rest[0] == '/' && rest[1] == '*' && rest[2] == '*' {
        let (a, b) = trim_range(rest, 3, rest.len());
        if a == b || char_at_is(rest, 3, ' ') {
            let mut ind: Vec<char> = Vec::new();
            push_range(&mut ind, indent, 0, indent.len());
            ind.push(' ');
            assert(ind@ =~= indent@.push(' '));
            return Some(
                ContinueAction::ContinuePrefix {
                    indent: string_of(&ind),
                    prefix: pair_string('*', ' '),
                },
            );
        }
    }
    if rest.len() >= 1 && rest[0] == '*' {
        if char_at_is(rest, 1, '*') {
            return None;
        }
        let trailing = char_at_is(rest, 1, ' ');
        let start: usize = if trailing {
            2
        } else {
            1
        };
        let ghost after = rest@.subrange(1, rest@.len() as int);
        let ghost body = if trailing {
            after.drop_first()
        } else {
            after
        };
        assert(body =~= rest@.subrange(start as int, rest@.len() as int));
        let (a, b) = trim_range(rest, start, rest.len());
        if a == b {
            return Some(ContinueAction::ExitList);
        }
        let prefix = if trailing {
            pair_string('*', ' ')
        } else {
            let mut v: Vec<char> = Vec::new();
            v.push('*');
            assert(v@ =~= seq!['*']);
            string_of(&v)
        };
        return Some(ContinueAction::ContinuePrefix { indent: string_of(indent), prefix });
    }
    None
}

fn numbered(indent: &Vec<char>, rest: &Vec<char>) -> (res: Option<ContinueAction>)
    ensures
        view_opt(res) == numbered_spec(indent@, rest@),
{
    let mut d: usize = 0;
    while d < rest.len() && '0' <= rest[d] && rest[d] <= '9'
        invariant
            d <= rest.len(),
            forall|i: int| 0 <= i < d ==> is_ascii_digit(#[trigger] rest@[i]),
        decreases rest.len() - d,
    {
        d += 1;
    }
    proof {
        lemma_digit_len_unique(rest@, d as int);
    }
    if d == 0 || d == rest.len() {
        return None;
    }
    let ghost after_digits = rest@.subrange(d as int, rest@.len() as int);
    assert(after_digits[0] == rest@[d as int]);
    let sc = rest[d];
    if sc != '.' && sc != ')' {
        return None;
    }
    let ghost after_suffix = after_digits.drop_first();
    assert(after_suffix =~= rest@.subrange(d + 1, rest@.len() as int));
    if !char_at_is(rest, d + 1, ' ') && d + 1 < rest.len() {
        return None;
    }
    let digits = sub_vec(rest, 0, d);
    proof {
        assert(all_digits(digits@));
        assert(digits@.len() > 0 && digits@[0] != '+');
        assert(unsigned_body(digits@) == digits@);
    }
    let n = match parse_unsigned_chars(&digits, 0xffff_ffffu64) {
        Some(n) => n,
        None => {
            return None;
        },
    };
    let s = trim_start_range(rest, d + 1, rest.len());
    if s == rest.len() {
        return Some(ContinueAction::ExitList);
    }
    let small: u32 = n as u32;
    Some(
        ContinueAction::ContinueAutoIncrement {
            indent: string_of(indent),
            n: small,
            suffix: pair_string(sc, ' '),
        },
    )
}

fn markdown(indent: &Vec<char>, rest: &Vec<char>) -> (res: Option<ContinueAction>)
    ensures
        view_opt(res) == markdown_spec(indent@, rest@),
{
    match numbered(indent, rest) {
        Some(a) => {
            return Some(a);
        },
        None => {},
    }
    if rest.len() > 0 && (rest[0] == '-' || rest[0] == '*' || rest[0] == '+') {
        let marker = rest[0];
        let trailing = char_at_is(rest, 1, ' ');
        let ghost after = rest@.drop_first();
        assert(after =~= rest@.subrange(1, rest@.len() as int));
        if !trailing && rest.len() > 1 {
            return None;
        }
        let start = trim_start_range(rest, 1, rest.len());
        let ghost body = if trailing {
            trim_start(after)
        } else {
            after
        };
        let from: usize = if trailing {
            start
        } else {
            1
        };
        assert(body =~= rest@.subrange(from as int, rest@.len() as int));
        let (a, b) = trim_range(rest, from, rest.len());
        if a == b {
            return Some(ContinueAction::ExitList);
        }
        return Some(
            ContinueAction::ContinuePrefix { indent: string_of(indent), prefix: pair_string(marker, ' ') },
        );
    }
    None
}

/// What pressing Enter after `line_text` continues, in a buffer whose language
/// is `lang_id` (empty when none is known).
pub fn analyze_line(line_text: &str, lang_id: &str) -> (res: ContinueAction)
    ensures
        res@ == analyze_spec(line_text@, lang_id@),
{
    let v = chars_of(line_text);
    let lang = chars_of(lang_id);
    let mut k: usize = 0;
    while k < v.len() && (v[k] == ' ' || v[k] == '\t')
        invariant
            k <= v.len(),
            forall|i: int| 0 <= i < k ==> is_indent_char(#[trigger] v@[i]),
        decreases v.len() - k,
    {
        k += 1;
    }
    proof {
        lemma_indent_len_unique(v@, k as int);
    }
    let indent = sub_vec(&v, 0, k);
    let rest = sub_vec(&v, k, v.len());
    if is_lit(&lang, "markdown") {
        return match markdown(&indent, &rest) {
            Some(a) => a,
            None => ContinueAction::NoAction,
        };
    }
    let block: [&str; 7] = ["rust", "c", "cpp", "chdr", "typescript", "javascript", "java"];
    assert(block@ == block_comment_langs());
    if one_of(&lang, &block) {
        match block_comment(&indent, &rest) {
            Some(a) => {
                return a;
            },
            None => {},
        }
    }
    match line_comment(&indent, &rest, &lang) {
        Some(a) => {
            return a;
        },
        None => {},
    }
    if lang.len() == 0 {
        let rust = chars_of("rust");
        match line_comment(&indent, &rest, &rust) {
            Some(a) => {
                return a;
            },
            None => {},
        }
        let python = chars_of("python");
        match line_comment(&indent, &rest, &python) {
            Some(a) => {
                return a;
            },
            None => {},
        }
    }
    ContinueAction::NoAction
}


/// Whether a key press is a bare Enter: the Return or keypad Enter key with
/// no Control, Alt, Shift or Meta held.
pub fn is_plain_enter(is_enter_key: bool, ctrl: bool, alt: bool, shift: bool, meta: bool) -> (res: bool)
    ensures
        res == (is_enter_key && !ctrl && !alt && !shift && !meta),
{
    if ctrl || alt || shift || meta {
        return false;
    }
    is_enter_key
}

/// The edit Enter makes: whether the current line is cleared first, and the
/// text put at the cursor.
#[derive(Debug, PartialEq, Eq)]
pub struct EnterEdit {
    pub clear_line: bool,
    pub insert: String,
}

/// The edit for `action`: none where nothing is continued; a line break and
/// the indent with the prefix; a line break and the indent with the next
/// number (kept at the largest `u32`) and its suffix; or, leaving a list,
/// the line cleared and a line break.
pub fn enter_edit(action: &ContinueAction) -> (res: Option<EnterEdit>)
    ensures
        match action {
            ContinueAction::NoAction => res is None,
            ContinueAction::ContinuePrefix { indent, prefix } => res matches Some(e) && !e.clear_line
                && e.insert@ == seq!['\n'] + indent@ + prefix@,
            ContinueAction::ContinueAutoIncrement { indent, n, suffix } => res matches Some(e)
                && !e.clear_line && e.insert@ == seq!['\n'] + indent@ + dec(
                (if *n == u32::MAX {
                    u32::MAX as nat
                } else {
                    (*n + 1) as nat
                }),
            ) + suffix@,
            ContinueAction::ExitList => res matches Some(e) && e.clear_line && e.insert@ == seq!['\n'],
        },
{
    match action {
        ContinueAction::NoAction => None,
        ContinueAction::ContinuePrefix { indent, prefix } => {
            let mut v: Vec<char> = Vec::new();
            v.push('\n');
            push_str(&mut v, indent.as_str());
            push_str(&mut v, prefix.as_str());
            assert(v@ =~= seq!['\n'] + indent@ + prefix@);
            Some(EnterEdit { clear_line: false, insert: string_of(&v) })
        },
        ContinueAction::ContinueAutoIncrement { indent, n, suffix } => {
            let next: u32 = if *n == u32::MAX {
                u32::MAX
            } else {
                *n + 1
            };
            let mut v: Vec<char> = Vec::new();
            v.push('\n');
            push_str(&mut v, indent.as_str());
            push_dec(&mut v, next as u64);
            push_str(&mut v, suffix.as_str());
            assert(v@ =~= seq!['\n'] + indent@ + dec(next as nat) + suffix@);
            Some(EnterEdit { clear_line: false, insert: string_of(&v) })
        },
        ContinueAction::ExitList => {
            let mut v: Vec<char> = Vec::new();
            v.push('\n');
            assert(v@ =~= seq!['\n']);
            Some(EnterEdit { clear_line: true, insert: string_of(&v) })
        },
    }
}

} // verus!
