//! What the editor settings panel shows and what its controls change: which
//! theme rows are visible, which theme each list selects, and the settings
//! that a choice of theme or font gives.
use vstd::prelude::*;

use crate::editor::settings::{EditorSettings, ThemeMode};

verus! {

/// The three theme choices of the panel.
#[derive(Clone, Copy, Debug, PartialEq, Eq, Structural)]
pub enum ThemeSlot {
    /// The theme used when the mode is manual.
    Manual,
    /// The theme used when the system prefers dark.
    Dark,
    /// The theme used when the system prefers light.
    Light,
}

/// The theme rows shown for a mode: the manual theme alone, or the dark and
/// light themes.
pub fn theme_slot_visible(mode: ThemeMode, slot: ThemeSlot) -> (res: bool)
    ensures
        res == match slot {
            ThemeSlot::Manual => mode == ThemeMode::Manual,
            _ => mode == ThemeMode::System,
        },
{
    match slot {
        ThemeSlot::Manual => mode == ThemeMode::Manual,
        _ => mode == ThemeMode::System,
    }
}

/// Position of the first entry (`(id, label)`) whose id is `id`; 0 where none is.
pub open spec fn theme_position_spec(entries: Seq<(String, String)>, id: Seq<char>) -> int {
    if exists|i: int| 0 <= i < entries.len() && entries[i].0@ == id {
        choose|i: int|
            0 <= i < entries.len() && entries[i].0@ == id && forall|j: int|
                0 <= j < i ==> entries[j].0@ != id
    } else {
        0
    }
}

/// The row of the theme list selected for `id`.
pub fn theme_position(entries: &Vec<(String, String)>, id: &str) -> (res: u32)
    requires
        entries.len() <= u32::MAX,
    ensures
        res == theme_position_spec(entries@, id@),
{
    let mut i: usize = 0;
    while i < entries.len()
        invariant
            i <= entries.len() <= u32::MAX,
            forall|j: int| 0 <= j < i ==> entries@[j].0@ != id@,
        decreases entries.len() - i,
    {
        if crate::text::str_eq(entries[i].0.as_str(), id) {
            assert(exists|k: int| 0 <= k < entries@.len() && entries@[k].0@ == id@);
            let ghost c = choose|k: int|
                0 <= k < entries@.len() && entries@[k].0@ == id@ && forall|j: int|
                    0 <= j < k ==> entries@[j].0@ != id@;
            assert(0 <= i < entries@.len() && entries@[i as int].0@ == id@ && forall|j: int|
                0 <= j < i ==> entries@[j].0@ != id@);
            assert(c == i) by {
                if c < i {
                    assert(entries@[c].0@ != id@);
                } else if c > i {
                    assert(entries@[i as int].0@ != id@);
                }
            }
            return i as u32;
        }
        i += 1;
    }
    0
}

/// `s` with the theme of `slot` set to `id`.
pub open spec fn with_slot_theme(s: EditorSettings, slot: ThemeSlot, id: String) -> EditorSettings {
    match slot {
        ThemeSlot::Manual => EditorSettings { theme_id: id, ..s },
        ThemeSlot::Dark => EditorSettings { theme_id_dark: id, ..s },
        ThemeSlot::Light => EditorSettings { theme_id_light: id, ..s },
    }
}

/// The settings once entry `index` of the theme list of `slot` is picked:
/// that entry's id in the slot, the rest as `current`; none where there is
/// no such entry.
pub fn choose_theme(current: EditorSettings, slot: ThemeSlot, entries: &Vec<(String, String)>, index: usize) -> (res: Option<EditorSettings>)
    ensures
        res == if index < entries.len() {
            Some(with_slot_theme(current, slot, entries@[index as int].0))
        } else {
            None::<EditorSettings>
        },
{
    if index >= entries.len() {
        return None;
    }
    let id = entries[index].0.clone();
    let next = match slot {
        ThemeSlot::Manual => EditorSettings { theme_id: id, ..current },
        ThemeSlot::Dark => EditorSettings { theme_id_dark: id, ..current },
        ThemeSlot::Light => EditorSettings { theme_id_light: id, ..current },
    };
    Some(next)
}

/// Font sizes from the font dialog come in 1024ths of a point.
pub const PANGO_SCALE: i32 = 1024;

/// The smallest font size the panel sets, in points.
pub const MIN_FONT_POINTS: i32 = 8;

/// The size in points for a dialog size: whole points, at least `MIN_FONT_POINTS`.
pub open spec fn font_points(pango_size: i32) -> i32 {
    if pango_size < MIN_FONT_POINTS * PANGO_SCALE {
        MIN_FONT_POINTS
    } else {
        (pango_size / PANGO_SCALE) as i32
    }
}

/// The settings once a font is picked: its family where it names one (else
/// the family stays), and its size in points; the rest as `current`.
pub fn choose_font(current: EditorSettings, family: String, pango_size: i32) -> (res: EditorSettings)
    ensures
        res == (EditorSettings {
            font_family: if family@.len() == 0 {
                current.font_family
            } else {
                family
            },
            font_size: font_points(pango_size),
            ..current
        }),
{
    let size = if pango_size < MIN_FONT_POINTS * PANGO_SCALE {
        MIN_FONT_POINTS
    } else {
        pango_size / PANGO_SCALE
    };
    if family.as_str().is_empty() {
        EditorSettings { font_size: size, ..current }
    } else {
        EditorSettings { font_family: family, font_size: size, ..current }
    }
}

} // verus!
