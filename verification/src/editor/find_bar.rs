//! Decisions of the find and replace bar: smart case, the query it fills in
//! from the selection, what Enter and Escape do in its entries, and which
//! match count it shows.
use vstd::prelude::*;

use crate::text::{char_is_uppercase, chars_of, find_char, is_uppercase, string_of_range};

verus! {

/// At most this many characters of the selection become the query.
pub const AUTOFILL_MAX: usize = 100;

/// The query taken from the selected text: none where nothing or more than
/// one line is selected, else its first `AUTOFILL_MAX` characters.
pub open spec fn autofill_spec(selected: Seq<char>) -> Option<Seq<char>> {
    if selected.len() == 0 || selected.contains('\n') {
        None
    } else if selected.len() <= AUTOFILL_MAX {
        Some(selected)
    } else {
        Some(selected.take(AUTOFILL_MAX as int))
    }
}

pub fn autofill_text(selected: &str) -> (res: Option<String>)
    ensures
        match autofill_spec(selected@) {
            None => res is None,
            Some(q) => res matches Some(r) && r@ == q,
        },
{
    let v = chars_of(selected);
    if v.len() == 0 {
        return None;
    }
    let nl = find_char(&v, 0, '\n');
    proof {
        assert(v@.subrange(0, v@.len() as int) =~= v@);
        crate::text::lemma_first_index_of(v@, '\n');
    }
    match nl {
        Some(_) => {
            return None;
        },
        None => {},
    }
    proof {
        assert(!v@.contains('\n'));
    }
    let n = if v.len() <= AUTOFILL_MAX {
        v.len()
    } else {
        AUTOFILL_MAX
    };
    let out = string_of_range(&v, 0, n);
    proof {
        if v.len() <= AUTOFILL_MAX {
            assert(v@.subrange(0, n as int) =~= v@);
        }
    }
    Some(out)
}

/// The query holds an upper-case character.
pub open spec fn has_upper(query: Seq<char>) -> bool {
    exists|i: int| 0 <= i < query.len() && is_uppercase(#[trigger] query[i])
}

/// Whether searching is case-sensitive once the query is edited: smart case
/// (case-sensitive exactly when the query holds an upper-case character)
/// until the user sets the case toggle by hand (`manual`), then as it is set
/// (`current`).
pub fn case_sensitive_after_edit(manual: bool, current: bool, query: &str) -> (res: bool)
    ensures
        res == if manual {
            current
        } else {
            has_upper(query@)
        },
{
    if manual {
        return current;
    }
    let v = chars_of(query);
    let mut i: usize = 0;
    while i < v.len()
        invariant
            i <= v.len(),
            !manual,
            v@ == query@,
            forall|j: int| 0 <= j < i ==> !is_uppercase(#[trigger] v@[j]),
        decreases v.len() - i,
    {
        let up = char_is_uppercase(v[i]);
        assert(up == is_uppercase(v@[i as int]));
        if up {
            assert(is_uppercase(query@[i as int]));
            return true;
        }
        i += 1;
    }
    false
}

/// A key as the find bar's entries tell keys apart.
#[derive(Clone, Copy, Debug, PartialEq, Eq, Structural)]
pub enum FindKey {
    Enter,
    Escape,
    Other,
}

/// What a key in one of the find bar's entries does.
#[derive(Clone, Copy, Debug, PartialEq, Eq, Structural)]
pub enum FindBarAction {
    FindNext,
    FindPrevious,
    ReplaceOne,
    ReplaceAll,
    Close,
}

/// In the query entry: Ctrl+Alt+Enter replaces every match, Enter goes to the
/// next match (Shift+Enter to the previous one), Escape closes the bar; other
/// keys are left to the entry.
pub fn find_entry_key(key: FindKey, ctrl: bool, alt: bool, shift: bool) -> (res: Option<FindBarAction>)
    ensures
        res == match key {
            FindKey::Enter => Some(
                if ctrl && alt {
                    FindBarAction::ReplaceAll
                } else if shift {
                    FindBarAction::FindPrevious
                } else {
                    FindBarAction::FindNext
                },
            ),
            FindKey::Escape => Some(FindBarAction::Close),
            FindKey::Other => None,
        },
{
    match key {
        FindKey::Enter => {
            if ctrl && alt {
                Some(FindBarAction::ReplaceAll)
            } else if shift {
                Some(FindBarAction::FindPrevious)
            } else {
                Some(FindBarAction::FindNext)
            }
        },
        FindKey::Escape => Some(FindBarAction::Close),
        FindKey::Other => None,
    }
}

/// In the replacement entry: Ctrl+Alt+Enter replaces every match, Enter the
/// current one, Escape closes the bar; other keys are left to the entry.
pub fn replace_entry_key(key: FindKey, ctrl: bool, alt: bool) -> (res: Option<FindBarAction>)
    ensures
        res == match key {
            FindKey::Enter => Some(
                if ctrl && alt {
                    FindBarAction::ReplaceAll
                } else {
                    FindBarAction::ReplaceOne
                },
            ),
            FindKey::Escape => Some(FindBarAction::Close),
            FindKey::Other => None,
        },
{
    match key {
        FindKey::Enter => {
            if ctrl && alt {
                Some(FindBarAction::ReplaceAll)
            } else {
                Some(FindBarAction::ReplaceOne)
            }
        },
        FindKey::Escape => Some(FindBarAction::Close),
        FindKey::Other => None,
    }
}

/// What the match counter shows.
#[derive(Clone, Copy, Debug, PartialEq, Eq, Structural)]
pub enum MatchCount {
    /// Nothing: there is no query.
    Blank,
    /// The query matches nowhere.
    NoMatches,
    /// The selection is match `.0` of `.1`.
    At(u32, u32),
    /// `.0` matches, none of them selected.
    Pending(u32),
}

/// The counter for `total` matches of the query (`query_is_empty` where there
/// is none), the selection being match `position` (counted from 1; 0 or less
/// where it is not a match).
pub fn match_count(total: i32, query_is_empty: bool, position: i32) -> (res: MatchCount)
    ensures
        res == if total <= 0 {
            if query_is_empty {
                MatchCount::Blank
            } else {
                MatchCount::NoMatches
            }
        } else if position > 0 {
            MatchCount::At(position as u32, total as u32)
        } else {
            MatchCount::Pending(total as u32)
        },
{
    if total <= 0 {
        if query_is_empty {
            MatchCount::Blank
        } else {
            MatchCount::NoMatches
        }
    } else if position > 0 {
        MatchCount::At(position as u32, total as u32)
    } else {
        MatchCount::Pending(total as u32)
    }
}

} // verus!
