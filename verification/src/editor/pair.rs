//! Bracket and quote pairing.
use vstd::prelude::*;

use crate::text::{chars_of, in_list, is_word_char, one_of, word_char};

verus! {

pub open spec fn markup_langs() -> Seq<&'static str> {
    seq!["html", "xml", "markdown", "css"]
}

/// The closing character of an opening one, whatever the language.
pub open spec fn close_spec(open: char) -> Option<char> {
    if open == '(' {
        Some(')')
    } else if open == '[' {
        Some(']')
    } else if open == '{' {
        Some('}')
    } else if open == '"' {
        Some('"')
    } else if open == '\'' {
        Some('\'')
    } else if open == '`' {
        Some('`')
    } else if open == '<' {
        Some('>')
    } else {
        None
    }
}

/// The character typed after `open` in a buffer of language `lang`: angle
/// brackets pair only in markup languages.
pub open spec fn pair_spec(open: char, lang: Seq<char>) -> Option<char> {
    if open == '<' && !in_list(lang, markup_langs()) {
        None
    } else {
        close_spec(open)
    }
}

pub open spec fn is_close_spec(c: char) -> bool {
    c == ')' || c == ']' || c == '}' || c == '"' || c == '\'' || c == '`' || c == '>'
}

pub open spec fn is_open_spec(c: char) -> bool {
    c == '(' || c == '[' || c == '{' || c == '"' || c == '\'' || c == '`' || c == '<'
}

pub fn is_markup_lang(lang_id: &str) -> (res: bool)
    ensures
        res == in_list(lang_id@, markup_langs()),
{
    let l = chars_of(lang_id);
    let list: [&str; 4] = ["html", "xml", "markdown", "css"];
    assert(list@ == markup_langs());
    one_of(&l, &list)
}

pub fn close_for(open: char) -> (res: Option<char>)
    ensures
        res == close_spec(open),
{
    match open {
        '(' => Some(')'),
        '[' => Some(']'),
        '{' => Some('}'),
        '"' => Some('"'),
        '\'' => Some('\''),
        '`' => Some('`'),
        '<' => Some('>'),
        _ => None,
    }
}

pub fn pair_for(open: char, lang_id: &str) -> (res: Option<char>)
    ensures
        res == pair_spec(open, lang_id@),
{
    if open == '<' && !is_markup_lang(lang_id) {
        None
    } else {
        close_for(open)
    }
}

pub fn is_close_char(c: char) -> (res: bool)
    ensures
        res == is_close_spec(c),
{
    c == ')' || c == ']' || c == '}' || c == '"' || c == '\'' || c == '`' || c == '>'
}

pub fn is_open_char(c: char) -> (res: bool)
    ensures
        res == is_open_spec(c),
{
    c == '(' || c == '[' || c == '{' || c == '"' || c == '\'' || c == '`' || c == '<'
}

/// A quote is closed automatically unless it follows a word character.
pub fn should_autoclose_quote_at(prev: Option<char>) -> (res: bool)
    ensures
        res == !(prev matches Some(c) && is_word_char(c)),
{
    match prev {
        Some(c) => !word_char(c),
        None => true,
    }
}

/// A third `"` in a row opens a triple-quoted string and is not paired.
pub fn is_triple_quote_trigger(prev_two: (Option<char>, Option<char>), open: char) -> (res: bool)
    ensures
        res == (open == '"' && prev_two.0 == Some('"') && prev_two.1 == Some('"')),
{
    open == '"' && (match prev_two.0 {
        Some(c) => c == '"',
        None => false,
    }) && (match prev_two.1 {
        Some(c) => c == '"',
        None => false,
    })
}

/// What typing an opening character does.
#[derive(Debug, PartialEq, Eq, Clone, Copy)]
pub enum OpenStep {
    /// The key is handled as usual.
    Proceed,
    /// The selection is wrapped in `open` and `close` and stays selected.
    WrapSelection { open: char, close: char },
    /// The cursor steps over the quote that already follows it.
    StepOver,
    /// `open` and `close` are inserted and the cursor lands between them.
    InsertPair { open: char, close: char },
}

pub open spec fn is_quote(c: char) -> bool {
    c == '"' || c == '\'' || c == '`'
}

pub open spec fn open_step_spec(
    ch: char,
    lang: Seq<char>,
    has_selection: bool,
    prev: Option<char>,
    prev_two: (Option<char>, Option<char>),
    next: char,
    can_step: bool,
) -> OpenStep {
    match pair_spec(ch, lang) {
        None => OpenStep::Proceed,
        Some(close) => {
            if has_selection {
                OpenStep::WrapSelection { open: ch, close }
            } else if ch == '\'' && (prev matches Some(c) && is_word_char(c)) {
                OpenStep::Proceed
            } else if ch == '"' && prev_two.0 == Some('"') && prev_two.1 == Some('"') {
                OpenStep::Proceed
            } else if is_quote(ch) && next == ch && can_step {
                OpenStep::StepOver
            } else {
                OpenStep::InsertPair { open: ch, close }
            }
        },
    }
}

/// Decides what typing `ch` does, from the state of the buffer round the
/// cursor: whether text is selected, the one and two characters before the
/// cursor, the character after it, and whether the cursor can move past that
/// character.
pub fn open_step(
    ch: char,
    lang_id: &str,
    has_selection: bool,
    prev: Option<char>,
    prev_two: (Option<char>, Option<char>),
    next: char,
    can_step: bool,
) -> (res: OpenStep)
    ensures
        res == open_step_spec(ch, lang_id@, has_selection, prev, prev_two, next, can_step),
{
    let close = match pair_for(ch, lang_id) {
        Some(c) => c,
        None => {
            return OpenStep::Proceed;
        },
    };
    if has_selection {
        return OpenStep::WrapSelection { open: ch, close };
    }
    if ch == '\'' && !should_autoclose_quote_at(prev) {
        return OpenStep::Proceed;
    }
    if ch == '"' && is_triple_quote_trigger(prev_two, ch) {
        return OpenStep::Proceed;
    }
    if (ch == '"' || ch == '\'' || ch == '`') && next == ch && can_step {
        return OpenStep::StepOver;
    }
    OpenStep::InsertPair { open: ch, close }
}

/// Typing a closing character just before the same character steps over it
/// instead. `next` is the character after the cursor; `can_step` says
/// whether the cursor can move past it.
pub fn skips_close(has_selection: bool, ch: char, next: char, can_step: bool) -> (res: bool)
    ensures
        res == (is_close_spec(ch) && !has_selection && next == ch && can_step),
{
    is_close_char(ch) && !has_selection && next == ch && can_step
}

/// Backspace between an opening character and its closing one deletes both.
/// `prev` and `next` are the characters round the cursor; `can_step` says
/// whether the cursor can move past `next`.
pub fn backspace_deletes_pair(has_selection: bool, prev: Option<char>, next: char, can_step: bool) -> (res: bool)
    ensures
        res == (!has_selection && can_step && (prev matches Some(p) && close_spec(p) == Some(next))),
{
    if has_selection {
        return false;
    }
    let p = match prev {
        Some(c) => c,
        None => {
            return false;
        },
    };
    let close = match close_for(p) {
        Some(c) => c,
        None => {
            return false;
        },
    };
    next == close && can_step
}

} // verus!
