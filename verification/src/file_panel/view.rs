//! How a row of the file panel looks.
use vstd::prelude::*;

use crate::file_panel::model::{git_marker_for, git_marker_for_spec, GitStatus, Kind};
use crate::text::{dec, push_dec, push_str, string_of};

verus! {

/// What the widgets of one row show.
#[derive(Debug, PartialEq, Eq)]
pub struct RowLook {
    /// Width of the indentation, in pixels.
    pub indent_width: i32,
    /// The style class of the depth (deeper rows share the deepest one).
    pub depth_class: String,
    /// The chevron of a directory row, none for any other row.
    pub chevron: Option<&'static str>,
    pub icon: &'static str,
    /// The git status letter and its style class.
    pub marker: &'static str,
    pub marker_class: Option<&'static str>,
}

pub open spec fn depth_class_spec(depth: u32) -> Seq<char> {
    "limux-fp-depth-"@ + dec(if depth < 8 {
        depth as nat
    } else {
        8
    })
}

/// The look of a row at `depth`, of `kind`, expanded or not, with the git
/// status `git`: indented by 16 pixels a level, a chevron pointing down or
/// right and a folder icon for a directory, a plain file icon otherwise, and
/// the git marker.
pub fn row_look(depth: u32, kind: Kind, expanded: bool, git: GitStatus) -> (res: RowLook)
    requires
        depth * 16 <= i32::MAX,
    ensures
        res.indent_width == depth * 16,
        res.depth_class@ == depth_class_spec(depth),
        kind == Kind::Dir ==> res.chevron == Some(if expanded {
            "pan-down-symbolic"
        } else {
            "pan-end-symbolic"
        }) && res.icon == "folder-symbolic",
        kind != Kind::Dir ==> res.chevron is None && res.icon == "text-x-generic-symbolic",
        (res.marker, res.marker_class) == git_marker_for_spec(git),
{
    let mut class: Vec<char> = Vec::new();
    push_str(&mut class, "limux-fp-depth-");
    let shown: u32 = if depth < 8 {
        depth
    } else {
        8
    };
    push_dec(&mut class, shown as u64);
    let (chevron, icon) = if kind == Kind::Dir {
        (Some(if expanded {
            "pan-down-symbolic"
        } else {
            "pan-end-symbolic"
        }), "folder-symbolic")
    } else {
        (None, "text-x-generic-symbolic")
    };
    let (marker, marker_class) = git_marker_for(git);
    RowLook {
        indent_width: (depth * 16) as i32,
        depth_class: string_of(&class),
        chevron,
        icon,
        marker,
        marker_class,
    }
}

} // verus!
