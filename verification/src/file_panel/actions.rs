//! The file panel's actions: their names and what each one does.
use vstd::prelude::*;

use crate::file_panel::clipboard::ClipMode;
use crate::text::{chars_of, is_lit};

verus! {

pub const SORT_MODE_FOLDERS_FIRST: &'static str = "folders_first";

pub const SORT_MODE_NAME_ASC: &'static str = "name_asc";

pub const SORT_MODE_NAME_DESC: &'static str = "name_desc";

pub const SORT_MODE_MODIFIED_DESC: &'static str = "modified_desc";

pub const SORT_MODE_SIZE_DESC: &'static str = "size_desc";

pub open spec fn sort_action_spec(target: Seq<char>) -> Option<Seq<char>> {
    if target == SORT_MODE_FOLDERS_FIRST@ {
        Some("fp-sort-folders-first"@)
    } else if target == SORT_MODE_NAME_ASC@ {
        Some("fp-sort-name-asc"@)
    } else if target == SORT_MODE_NAME_DESC@ {
        Some("fp-sort-name-desc"@)
    } else if target == SORT_MODE_MODIFIED_DESC@ {
        Some("fp-sort-modified-desc"@)
    } else if target == SORT_MODE_SIZE_DESC@ {
        Some("fp-sort-size-desc"@)
    } else {
        None
    }
}

/// The action that a sort-mode target dispatches.
pub fn sort_action_name_for(target: &str) -> (res: Option<&'static str>)
    ensures
        match sort_action_spec(target@) {
            Some(n) => res is Some && res->0@ == n,
            None => res is None,
        },
{
    let t = chars_of(target);
    if is_lit(&t, SORT_MODE_FOLDERS_FIRST) {
        Some("fp-sort-folders-first")
    } else if is_lit(&t, SORT_MODE_NAME_ASC) {
        Some("fp-sort-name-asc")
    } else if is_lit(&t, SORT_MODE_NAME_DESC) {
        Some("fp-sort-name-desc")
    } else if is_lit(&t, SORT_MODE_MODIFIED_DESC) {
        Some("fp-sort-modified-desc")
    } else if is_lit(&t, SORT_MODE_SIZE_DESC) {
        Some("fp-sort-size-desc")
    } else {
        None
    }
}


/// The names of the panel's window actions, in the order they are added.
pub open spec fn action_names_spec() -> Seq<&'static str> {
    seq![
        "fp-new-file",
        "fp-new-folder",
        "fp-rename",
        "fp-delete",
        "fp-delete-permanent",
        "fp-duplicate",
        "fp-cut",
        "fp-copy",
        "fp-paste",
        "fp-reveal-in-fm",
        "fp-open-in-terminal",
        "fp-copy-path",
        "fp-copy-relative-path",
        "fp-collapse-all",
        "fp-expand-all",
        "fp-toggle-hidden",
        "fp-refresh",
        "fp-open-in-new-pane",
    ]
}

pub fn action_names() -> (res: Vec<&'static str>)
    ensures
        res@ == action_names_spec(),
{
    let v = vec![
        "fp-new-file",
        "fp-new-folder",
        "fp-rename",
        "fp-delete",
        "fp-delete-permanent",
        "fp-duplicate",
        "fp-cut",
        "fp-copy",
        "fp-paste",
        "fp-reveal-in-fm",
        "fp-open-in-terminal",
        "fp-copy-path",
        "fp-copy-relative-path",
        "fp-collapse-all",
        "fp-expand-all",
        "fp-toggle-hidden",
        "fp-refresh",
        "fp-open-in-new-pane",
    ];
    assert(v@ =~= action_names_spec());
    v
}

/// What an action of the panel does.
#[derive(Clone, Copy, Debug, PartialEq, Eq, Structural)]
pub enum PanelAction {
    NewFile,
    NewFolder,
    Rename,
    /// Into the trash, or for good.
    Delete { permanent: bool },
    Duplicate,
    Clip(ClipMode),
    Paste,
    RevealInFileManager,
    CollapseAllOrRestore,
    ToggleHidden,
    Refresh,
}

/// The work an action's name asks for; none for the names that do nothing
/// yet (open in terminal, copy path, copy relative path, expand all, open in
/// a new pane) and for unknown names.
pub open spec fn action_spec(name: Seq<char>) -> Option<PanelAction> {
    if name == "fp-new-file"@ {
        Some(PanelAction::NewFile)
    } else if name == "fp-new-folder"@ {
        Some(PanelAction::NewFolder)
    } else if name == "fp-rename"@ {
        Some(PanelAction::Rename)
    } else if name == "fp-delete"@ {
        Some(PanelAction::Delete { permanent: false })
    } else if name == "fp-delete-permanent"@ {
        Some(PanelAction::Delete { permanent: true })
    } else if name == "fp-duplicate"@ {
        Some(PanelAction::Duplicate)
    } else if name == "fp-cut"@ {
        Some(PanelAction::Clip(ClipMode::Cut))
    } else if name == "fp-copy"@ {
        Some(PanelAction::Clip(ClipMode::Copy))
    } else if name == "fp-paste"@ {
        Some(PanelAction::Paste)
    } else if name == "fp-reveal-in-fm"@ {
        Some(PanelAction::RevealInFileManager)
    } else if name == "fp-collapse-all"@ {
        Some(PanelAction::CollapseAllOrRestore)
    } else if name == "fp-toggle-hidden"@ {
        Some(PanelAction::ToggleHidden)
    } else if name == "fp-refresh"@ {
        Some(PanelAction::Refresh)
    } else {
        None
    }
}

pub fn action_for_name(name: &str) -> (res: Option<PanelAction>)
    ensures
        res == action_spec(name@),
{
    let n = chars_of(name);
    if is_lit(&n, "fp-new-file") {
        Some(PanelAction::NewFile)
    } else if is_lit(&n, "fp-new-folder") {
        Some(PanelAction::NewFolder)
    } else if is_lit(&n, "fp-rename") {
        Some(PanelAction::Rename)
    } else if is_lit(&n, "fp-delete") {
        Some(PanelAction::Delete { permanent: false })
    } else if is_lit(&n, "fp-delete-permanent") {
        Some(PanelAction::Delete { permanent: true })
    } else if is_lit(&n, "fp-duplicate") {
        Some(PanelAction::Duplicate)
    } else if is_lit(&n, "fp-cut") {
        Some(PanelAction::Clip(ClipMode::Cut))
    } else if is_lit(&n, "fp-copy") {
        Some(PanelAction::Clip(ClipMode::Copy))
    } else if is_lit(&n, "fp-paste") {
        Some(PanelAction::Paste)
    } else if is_lit(&n, "fp-reveal-in-fm") {
        Some(PanelAction::RevealInFileManager)
    } else if is_lit(&n, "fp-collapse-all") {
        Some(PanelAction::CollapseAllOrRestore)
    } else if is_lit(&n, "fp-toggle-hidden") {
        Some(PanelAction::ToggleHidden)
    } else if is_lit(&n, "fp-refresh") {
        Some(PanelAction::Refresh)
    } else {
        None
    }
}

} // verus!
