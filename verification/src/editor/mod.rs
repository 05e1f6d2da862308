pub mod buffer;
pub mod closed_tabs;
pub mod command_palette;
pub mod editorconfig;
pub mod find_bar;
pub mod find_in_files;
pub mod highlight;
pub mod indent;
pub mod keymap;
pub mod langs;
pub mod pair;
pub mod quick_open;
pub mod recent_files;
pub mod settings;
pub mod settings_panel;
pub mod snippets;
pub mod status_bar;
pub mod sticky_scroll;
pub mod strings;
pub mod swap;
pub mod tab_state;
pub mod view;
pub mod themes;
pub mod vim;
pub mod watcher;

use vstd::prelude::*;

use crate::paths::{extension, extension_of};
use crate::text::{ascii_lower, in_list, lower_ascii, one_of};

verus! {

/// How a file opens: as text, or in the image viewer.
#[derive(Clone, Copy, Debug, PartialEq, Eq)]
pub enum FileKind {
    Editable,
    Image,
}

pub open spec fn image_extensions() -> Seq<&'static str> {
    seq!["png", "jpg", "jpeg", "webp", "gif", "svg", "bmp"]
}

/// Images are known by their extension, in any ASCII case.
pub open spec fn classify_spec(path: Seq<char>) -> FileKind {
    match extension(path) {
        Some(e) if in_list(ascii_lower(e), image_extensions()) => FileKind::Image,
        _ => FileKind::Editable,
    }
}

pub fn classify_file(path: &str) -> (res: FileKind)
    ensures
        res == classify_spec(path@),
{
    match extension_of(path) {
        Some(e) => {
            let low = lower_ascii(&e);
            let list: [&str; 7] = ["png", "jpg", "jpeg", "webp", "gif", "svg", "bmp"];
            assert(list@ == image_extensions());
            if one_of(&low, &list) {
                FileKind::Image
            } else {
                FileKind::Editable
            }
        },
        None => FileKind::Editable,
    }
}

} // verus!
