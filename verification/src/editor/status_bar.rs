//! Texts of the editor's status bar.
use vstd::prelude::*;

use crate::text::{dec, dec_int, push_dec, push_dec_i64, push_str, string_of};

verus! {

pub const STATUS_LINE_PREFIX: &'static str = "Ln ";

pub const STATUS_COL_PREFIX: &'static str = "Col ";

pub const STATUS_SPACES: &'static str = "Spaces:";

pub const STATUS_TAB_WIDTH: &'static str = "Tab Width:";

pub const STATUS_ENCODING_UTF8: &'static str = "UTF-8";

pub const STATUS_EOL_LF: &'static str = "LF";

pub const STATUS_LANG_PLAIN_TEXT: &'static str = "Plain Text";

pub const STATUS_WRAP_ON: &'static str = "Wrap: On";

pub const STATUS_WRAP_OFF: &'static str = "Wrap: Off";

/// The label of the wrap toggle.
pub fn wrap_label_text(wrap_lines: bool) -> (res: &'static str)
    ensures
        res == if wrap_lines {
            STATUS_WRAP_ON
        } else {
            STATUS_WRAP_OFF
        },
{
    if wrap_lines {
        STATUS_WRAP_ON
    } else {
        STATUS_WRAP_OFF
    }
}

/// `"Spaces: {tab_width}"` where the tab key inserts spaces, else
/// `"Tab Width: {tab_width}"`.
pub fn indent_label_text(insert_spaces: bool, tab_width: u32) -> (res: String)
    ensures
        res@ == (if insert_spaces {
            STATUS_SPACES@
        } else {
            STATUS_TAB_WIDTH@
        }) + " "@ + dec(tab_width as nat),
{
    let mut v: Vec<char> = Vec::new();
    if insert_spaces {
        push_str(&mut v, STATUS_SPACES);
    } else {
        push_str(&mut v, STATUS_TAB_WIDTH);
    }
    push_str(&mut v, " ");
    push_dec(&mut v, tab_width as u64);
    string_of(&v)
}

/// `"Ln {line + 1}, Col {column + 1}"` for the cursor at line `line` and
/// column `column`, both counted from 0.
pub fn line_col_text(line: i32, column: i32) -> (res: String)
    requires
        line < i32::MAX,
        column < i32::MAX,
    ensures
        res@ == STATUS_LINE_PREFIX@ + dec_int(line + 1) + ", "@ + STATUS_COL_PREFIX@ + dec_int(
            column + 1,
        ),
{
    let mut v: Vec<char> = Vec::new();
    push_str(&mut v, STATUS_LINE_PREFIX);
    push_dec_i64(&mut v, line as i64 + 1);
    push_str(&mut v, ", ");
    push_str(&mut v, STATUS_COL_PREFIX);
    push_dec_i64(&mut v, column as i64 + 1);
    string_of(&v)
}

/// The name of the buffer's language, or `"Plain Text"` where it has none.
pub fn language_label(name: Option<&str>) -> (res: String)
    ensures
        res@ == match name {
            Some(n) => n@,
            None => STATUS_LANG_PLAIN_TEXT@,
        },
{
    let mut v: Vec<char> = Vec::new();
    match name {
        Some(n) => push_str(&mut v, n),
        None => push_str(&mut v, STATUS_LANG_PLAIN_TEXT),
    }
    string_of(&v)
}

} // verus!
