//! How `.editorconfig` properties override the editor's settings.
use vstd::prelude::*;

use crate::editor::keymap::SaveTransform;
use crate::editor::settings::ViewConfig;
use crate::text::{
    ascii_lower, chars_of, lower_ascii, parse_unsigned, parse_unsigned_chars, seq_eq, str_eq, to_lowercase,
    lowercase,
};

verus! {

/// `str::eq_ignore_ascii_case`.
pub open spec fn eq_ignore_ascii_case(a: Seq<char>, b: Seq<char>) -> bool {
    ascii_lower(a) == ascii_lower(b)
}

fn eq_ignore_case(a: &str, b: &str) -> (res: bool)
    ensures
        res == eq_ignore_ascii_case(a@, b@),
{
    let la = lower_ascii(&chars_of(a));
    let lb = lower_ascii(&chars_of(b));
    seq_eq(&la, &lb)
}

/// A width read from a property: a `u32`, clamped to 1..=16.
pub open spec fn width_spec(val: Seq<char>) -> Option<u32> {
    match parse_unsigned(val, u32::MAX as nat) {
        Some(n) => Some(
            if n < 1 {
                1u32
            } else if n > 16 {
                16u32
            } else {
                n as u32
            },
        ),
        None => None,
    }
}

fn width_of(val: &str) -> (res: Option<u32>)
    ensures
        res == width_spec(val@),
{
    match parse_unsigned_chars(&chars_of(val), 0xffff_ffffu64) {
        Some(n) => {
            let w: u32 = if n < 1 {
                1
            } else if n > 16 {
                16
            } else {
                n as u32
            };
            Some(w)
        },
        None => None,
    }
}

pub open spec fn opt_views(o: Option<String>) -> Option<Seq<char>> {
    match o {
        Some(s) => Some(s@),
        None => None,
    }
}

/// The tab width once `indent_size` (`size`) and `tab_width` (`tab`) are
/// read: the width `tab_width` gives, else the one `indent_size` gives, else
/// `old`.
pub open spec fn tab_width_after(old: u32, size: Option<Seq<char>>, tab: Option<Seq<char>>) -> u32 {
    match (tab, size) {
        (Some(t), _) if width_spec(t) is Some => width_spec(t)->0,
        (_, Some(z)) if width_spec(z) is Some => width_spec(z)->0,
        _ => old,
    }
}

/// `indent_style`, `indent_size` and `tab_width`, where the file's properties
/// set them, override the view: spaces for `space` in any case, and a width
/// for a number (the later property wins).
pub fn apply_view_overrides(
    cfg: &mut ViewConfig,
    indent_style: Option<String>,
    indent_size: Option<String>,
    tab_width: Option<String>,
)
    ensures
        final(cfg).insert_spaces == match indent_style {
            Some(v) => eq_ignore_ascii_case(v@, "space"@),
            None => old(cfg).insert_spaces,
        },
        final(cfg).tab_width == tab_width_after(old(cfg).tab_width, opt_views(indent_size), opt_views(tab_width)),
        final(cfg).theme_id == old(cfg).theme_id,
        final(cfg).font_family == old(cfg).font_family,
        final(cfg).font_size == old(cfg).font_size,
        final(cfg).show_line_numbers == old(cfg).show_line_numbers,
        final(cfg).show_whitespace == old(cfg).show_whitespace,
        final(cfg).wrap_lines == old(cfg).wrap_lines,
        final(cfg).auto_indent == old(cfg).auto_indent,
        final(cfg).highlight_current_line == old(cfg).highlight_current_line,
        final(cfg).highlight_matching_brackets == old(cfg).highlight_matching_brackets,
        final(cfg).show_indent_guides == old(cfg).show_indent_guides,
        final(cfg).highlight_word_at_cursor == old(cfg).highlight_word_at_cursor,
        final(cfg).show_sticky_scroll == old(cfg).show_sticky_scroll,
{
    match indent_style {
        Some(v) => {
            cfg.insert_spaces = eq_ignore_case(v.as_str(), "space");
        },
        None => {},
    }
    match indent_size {
        Some(v) => match width_of(v.as_str()) {
            Some(w) => {
                cfg.tab_width = w;
            },
            None => {},
        },
        None => {},
    }
    match tab_width {
        Some(v) => match width_of(v.as_str()) {
            Some(w) => {
                cfg.tab_width = w;
            },
            None => {},
        },
        None => {},
    }
}

/// `trim_trailing_whitespace` and `insert_final_newline`, where set, override
/// the save transform: on for `true` in any case, off for anything else.
pub fn apply_save_overrides(
    transform: &mut SaveTransform,
    trim_trailing_whitespace: Option<String>,
    insert_final_newline: Option<String>,
)
    ensures
        final(transform).strip_trailing_whitespace == match trim_trailing_whitespace {
            Some(v) => eq_ignore_ascii_case(v@, "true"@),
            None => old(transform).strip_trailing_whitespace,
        },
        final(transform).ensure_final_newline == match insert_final_newline {
            Some(v) => eq_ignore_ascii_case(v@, "true"@),
            None => old(transform).ensure_final_newline,
        },
{
    match trim_trailing_whitespace {
        Some(v) => {
            transform.strip_trailing_whitespace = eq_ignore_case(v.as_str(), "true");
        },
        None => {},
    }
    match insert_final_newline {
        Some(v) => {
            transform.ensure_final_newline = eq_ignore_case(v.as_str(), "true");
        },
        None => {},
    }
}

// ---------------------------------------------------------------------------
// Fallback values (`ec4rs::Properties::use_fallbacks`)
// ---------------------------------------------------------------------------

/// A raw property value: `""` where the property is not set.
pub open spec fn raw(o: Option<Seq<char>>) -> Seq<char> {
    match o {
        Some(v) => v,
        None => Seq::empty(),
    }
}

/// A raw value back as a property: none where it is empty.
pub open spec fn set_or_none(v: Seq<char>) -> Option<Seq<char>> {
    if v.len() == 0 {
        None
    } else {
        Some(v)
    }
}

/// The fallbacks of the EditorConfig standard for the raw values of
/// `indent_style`, `indent_size` and `tab_width`, giving the new
/// `(indent_size, tab_width)`:
/// - `indent_size = tab` (in any case) takes the value of `tab_width`, or
///   `tab` where that is not set; another `indent_size` is copied to an unset
///   `tab_width`;
/// - with no `indent_size`, a `tab_width` other than `unset` (in any ASCII
///   case) is copied to it;
/// - `indent_style = tab` (in any case) sets an `indent_size` still unset to `tab`.
pub open spec fn fallbacks_spec(style: Seq<char>, size: Seq<char>, tab: Seq<char>) -> (Seq<char>, Seq<char>) {
    let (size1, tab1) = if size.len() > 0 {
        if lowercase(size) == "tab"@ {
            (if tab.len() > 0 {
                tab
            } else {
                "tab"@
            }, tab)
        } else {
            (size, if tab.len() == 0 {
                size
            } else {
                tab
            })
        }
    } else if tab.len() > 0 && !eq_ignore_ascii_case(tab, "unset"@) {
        (tab, tab)
    } else {
        (size, tab)
    };
    let size2 = if style.len() > 0 && lowercase(style) == "tab"@ && size1.len() == 0 {
        "tab"@
    } else {
        size1
    };
    (size2, tab1)
}

fn lowers_to_tab(v: &str) -> (res: bool)
    ensures
        res == (lowercase(v@) == "tab"@),
{
    let l = to_lowercase(v);
    str_eq(l.as_str(), "tab")
}

fn raw_of(o: Option<String>) -> (res: String)
    ensures
        res@ == raw(opt_views(o)),
{
    match o {
        Some(v) => v,
        None => String::new(),
    }
}

fn set_or_none_of(v: String) -> (res: Option<String>)
    ensures
        opt_views(res) == set_or_none(v@),
{
    if v.as_str().is_empty() {
        None
    } else {
        Some(v)
    }
}

/// `indent_size` and `tab_width` once the fallbacks are applied (see
/// `fallbacks_spec`); unset values come back as none.
pub fn with_fallbacks(
    indent_style: &Option<String>,
    indent_size: Option<String>,
    tab_width: Option<String>,
) -> (res: (Option<String>, Option<String>))
    ensures
        opt_views(res.0) == set_or_none(
            fallbacks_spec(raw(opt_views(*indent_style)), raw(opt_views(indent_size)), raw(opt_views(tab_width))).0,
        ),
        opt_views(res.1) == set_or_none(
            fallbacks_spec(raw(opt_views(*indent_style)), raw(opt_views(indent_size)), raw(opt_views(tab_width))).1,
        ),
{
    let size = raw_of(indent_size);
    let tab = raw_of(tab_width);
    let (size1, tab1) = if !size.as_str().is_empty() {
        if lowers_to_tab(size.as_str()) {
            let t = tab.clone();
            if t.as_str().is_empty() {
                (String::from_str("tab"), tab)
            } else {
                (t, tab)
            }
        } else {
            if tab.as_str().is_empty() {
                let z = size.clone();
                (size, z)
            } else {
                (size, tab)
            }
        }
    } else if !tab.as_str().is_empty() && !eq_ignore_case(tab.as_str(), "unset") {
        let t = tab.clone();
        (t, tab)
    } else {
        (size, tab)
    };
    let style_tabs = match indent_style {
        Some(v) => !v.as_str().is_empty() && lowers_to_tab(v.as_str()),
        None => false,
    };
    let size2 = if style_tabs && size1.as_str().is_empty() {
        String::from_str("tab")
    } else {
        size1
    };
    proof {
        reveal_strlit("tab");
    }
    (set_or_none_of(size2), set_or_none_of(tab1))
}

/// The view once the raw `.editorconfig` properties of its file are read:
/// the fallbacks applied (`with_fallbacks`), then the overrides
/// (`apply_view_overrides`).
pub fn apply_editorconfig_view(
    cfg: &mut ViewConfig,
    indent_style: Option<String>,
    indent_size: Option<String>,
    tab_width: Option<String>,
)
    ensures
        final(cfg).insert_spaces == match indent_style {
            Some(v) => eq_ignore_ascii_case(v@, "space"@),
            None => old(cfg).insert_spaces,
        },
        final(cfg).tab_width == tab_width_after(
            old(cfg).tab_width,
            set_or_none(fallbacks_spec(raw(opt_views(indent_style)), raw(opt_views(indent_size)), raw(opt_views(tab_width))).0),
            set_or_none(fallbacks_spec(raw(opt_views(indent_style)), raw(opt_views(indent_size)), raw(opt_views(tab_width))).1),
        ),
        final(cfg).theme_id == old(cfg).theme_id,
        final(cfg).font_family == old(cfg).font_family,
        final(cfg).font_size == old(cfg).font_size,
        final(cfg).show_line_numbers == old(cfg).show_line_numbers,
        final(cfg).show_whitespace == old(cfg).show_whitespace,
        final(cfg).wrap_lines == old(cfg).wrap_lines,
        final(cfg).auto_indent == old(cfg).auto_indent,
        final(cfg).highlight_current_line == old(cfg).highlight_current_line,
        final(cfg).highlight_matching_brackets == old(cfg).highlight_matching_brackets,
        final(cfg).show_indent_guides == old(cfg).show_indent_guides,
        final(cfg).highlight_word_at_cursor == old(cfg).highlight_word_at_cursor,
        final(cfg).show_sticky_scroll == old(cfg).show_sticky_scroll,
{
    let (size, tab) = with_fallbacks(&indent_style, indent_size, tab_width);
    apply_view_overrides(cfg, indent_style, size, tab);
}

} // verus!
