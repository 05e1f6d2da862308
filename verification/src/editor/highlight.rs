//! The word under the cursor, which the editor highlights elsewhere in the buffer.
use vstd::prelude::*;

use crate::editor::keymap::{lemma_run_end, lemma_run_start, run_end, run_start};
use crate::text::{chars_of, string_of_range, word_char};

verus! {

/// Shortest word that is highlighted.
pub const MIN_WORD_LEN: usize = 2;

/// A character that belongs to a word: alphanumeric or `_`.
pub fn is_word_char(c: char) -> (res: bool)
    ensures
        res == crate::text::is_word_char(c),
{
    word_char(c)
}

/// The word that surrounds a cursor at character `cursor` of `text`, when no
/// text is selected and the word is at least `MIN_WORD_LEN` characters long.
pub open spec fn current_word_spec(text: Seq<char>, cursor: int, has_selection: bool) -> Option<Seq<char>> {
    let s = run_start(text, cursor);
    let e = run_end(text, cursor);
    if has_selection || e - s < MIN_WORD_LEN {
        None
    } else {
        Some(text.subrange(s, e))
    }
}

pub fn current_word_at(text: &str, cursor: usize, has_selection: bool) -> (res: Option<String>)
    requires
        cursor <= text@.len(),
    ensures
        match current_word_spec(text@, cursor as int, has_selection) {
            Some(w) => res matches Some(r) && r@ == w,
            None => res is None,
        },
{
    if has_selection {
        return None;
    }
    let c = chars_of(text);
    proof {
        lemma_run_start(c@, cursor as int);
        lemma_run_end(c@, cursor as int);
    }
    let mut s = cursor;
    while s > 0 && word_char(c[s - 1])
        invariant
            s <= cursor <= c.len(),
            run_start(c@, s as int) == run_start(c@, cursor as int),
        decreases s,
    {
        s -= 1;
    }
    let mut e = cursor;
    while e < c.len() && word_char(c[e])
        invariant
            cursor <= e <= c.len(),
            run_end(c@, e as int) == run_end(c@, cursor as int),
        decreases c.len() - e,
    {
        e += 1;
    }
    if e - s < MIN_WORD_LEN {
        return None;
    }
    Some(string_of_range(&c, s, e))
}

} // verus!
