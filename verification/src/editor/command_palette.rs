//! The command palette: its commands and how a query filters them.
use vstd::prelude::*;

use crate::text::{ascii_lower, chars_of, contains_seq, lower_ascii, sub_vec, trim, trim_range, vec_contains};

verus! {

/// Most commands the palette lists.
pub const MAX_RESULTS: usize = 60;

pub const CMD_NEW_WORKSPACE: &'static str = "Workspace: New";
pub const CMD_CLOSE_WORKSPACE: &'static str = "Workspace: Close";
pub const CMD_NEXT_WORKSPACE: &'static str = "Workspace: Next";
pub const CMD_PREV_WORKSPACE: &'static str = "Workspace: Previous";
pub const CMD_SPLIT_RIGHT: &'static str = "Pane: Split Right";
pub const CMD_SPLIT_DOWN: &'static str = "Pane: Split Down";
pub const CMD_CLOSE_FOCUSED_PANE: &'static str = "Pane: Close Focused";
pub const CMD_FOCUS_LEFT: &'static str = "Pane: Focus Left";
pub const CMD_FOCUS_RIGHT: &'static str = "Pane: Focus Right";
pub const CMD_FOCUS_UP: &'static str = "Pane: Focus Up";
pub const CMD_FOCUS_DOWN: &'static str = "Pane: Focus Down";
pub const CMD_CYCLE_TAB_NEXT: &'static str = "Tab: Next";
pub const CMD_CYCLE_TAB_PREV: &'static str = "Tab: Previous";
pub const CMD_TOGGLE_SIDEBAR: &'static str = "View: Toggle Sidebar";
pub const CMD_TOGGLE_FILE_PANEL: &'static str = "View: Toggle File Panel";
pub const CMD_TOGGLE_TOP_BAR: &'static str = "View: Toggle Top Bar";
pub const CMD_TOGGLE_FULLSCREEN: &'static str = "View: Toggle Fullscreen";
pub const CMD_EDITOR_TOGGLE_CURRENT_PANE: &'static str = "Editor: Open in Focused Pane";
pub const CMD_EDITOR_QUICK_OPEN: &'static str = "Editor: Quick Open File";
pub const CMD_EDITOR_SAVE: &'static str = "Editor: Save";
pub const CMD_EDITOR_FIND: &'static str = "Editor: Find";
pub const CMD_EDITOR_REPLACE: &'static str = "Editor: Replace";
pub const CMD_EDITOR_FIND_NEXT: &'static str = "Editor: Find Next";
pub const CMD_EDITOR_GOTO_LINE: &'static str = "Editor: Go to Line";
pub const CMD_EDITOR_TOGGLE_COMMENT: &'static str = "Editor: Toggle Line Comment";
pub const CMD_EDITOR_DUPLICATE_LINE: &'static str = "Editor: Duplicate Line";
pub const CMD_EDITOR_DELETE_LINE: &'static str = "Editor: Delete Line";
pub const CMD_EDITOR_MOVE_LINE_UP: &'static str = "Editor: Move Line Up";
pub const CMD_EDITOR_MOVE_LINE_DOWN: &'static str = "Editor: Move Line Down";
pub const CMD_EDITOR_SELECT_NEXT_OCCURRENCE: &'static str = "Editor: Select Next Occurrence";
pub const CMD_EDITOR_TOGGLE_WRAP: &'static str = "Editor: Toggle Word Wrap";
pub const CMD_PANE_TOGGLE_PIN: &'static str = "Pane: Toggle Pin Tab";
pub const CMD_EDITOR_REOPEN_CLOSED: &'static str = "Editor: Reopen Closed Tab";
pub const CMD_NEW_TERMINAL: &'static str = "Terminal: New";
pub const CMD_NEW_TERMINAL_IN_PANE: &'static str = "Terminal: New in Focused Pane";
pub const CMD_OPEN_BROWSER_IN_SPLIT: &'static str = "Browser: Open in Split";
pub const CMD_QUIT_APP: &'static str = "Application: Quit";

/// A command: what the palette shows, the action it activates and its shortcut.
#[derive(Clone, Copy, Debug, PartialEq, Eq)]
pub struct CommandEntry {
    pub label: &'static str,
    pub action_name: &'static str,
    pub accel: Option<&'static str>,
}

/// Every command, in the order the palette lists them.
pub open spec fn command_table() -> Seq<CommandEntry> {
    seq![
        CommandEntry { label: CMD_NEW_WORKSPACE, action_name: "win.new-workspace", accel: Some("Ctrl+Shift+N") },
        CommandEntry { label: CMD_CLOSE_WORKSPACE, action_name: "win.close-workspace", accel: Some("Ctrl+Shift+W") },
        CommandEntry { label: CMD_NEXT_WORKSPACE, action_name: "win.next-workspace", accel: None },
        CommandEntry { label: CMD_PREV_WORKSPACE, action_name: "win.prev-workspace", accel: None },
        CommandEntry { label: CMD_SPLIT_RIGHT, action_name: "win.split-right", accel: None },
        CommandEntry { label: CMD_SPLIT_DOWN, action_name: "win.split-down", accel: None },
        CommandEntry { label: CMD_CLOSE_FOCUSED_PANE, action_name: "win.close-focused-pane", accel: None },
        CommandEntry { label: CMD_FOCUS_LEFT, action_name: "win.focus-left", accel: None },
        CommandEntry { label: CMD_FOCUS_RIGHT, action_name: "win.focus-right", accel: None },
        CommandEntry { label: CMD_FOCUS_UP, action_name: "win.focus-up", accel: None },
        CommandEntry { label: CMD_FOCUS_DOWN, action_name: "win.focus-down", accel: None },
        CommandEntry { label: CMD_CYCLE_TAB_NEXT, action_name: "win.cycle-tab-next", accel: None },
        CommandEntry { label: CMD_CYCLE_TAB_PREV, action_name: "win.cycle-tab-prev", accel: None },
        CommandEntry { label: CMD_TOGGLE_SIDEBAR, action_name: "win.toggle-sidebar", accel: Some("Ctrl+M") },
        CommandEntry { label: CMD_TOGGLE_FILE_PANEL, action_name: "win.toggle-file-panel", accel: Some("Ctrl+B") },
        CommandEntry { label: CMD_TOGGLE_TOP_BAR, action_name: "win.toggle-top-bar", accel: Some("Ctrl+Shift+M") },
        CommandEntry { label: CMD_TOGGLE_FULLSCREEN, action_name: "win.toggle-fullscreen", accel: None },
        CommandEntry { label: CMD_EDITOR_TOGGLE_CURRENT_PANE, action_name: "win.editor-toggle-current-pane", accel: Some("Ctrl+Shift+E") },
        CommandEntry { label: CMD_EDITOR_QUICK_OPEN, action_name: "win.editor-quick-open", accel: Some("Ctrl+P") },
        CommandEntry { label: CMD_EDITOR_SAVE, action_name: "win.editor-save-active", accel: Some("Ctrl+S") },
        CommandEntry { label: CMD_EDITOR_FIND, action_name: "win.editor-find", accel: Some("Ctrl+F") },
        CommandEntry { label: CMD_EDITOR_REPLACE, action_name: "win.editor-replace", accel: Some("Ctrl+H") },
        CommandEntry { label: CMD_EDITOR_FIND_NEXT, action_name: "win.editor-find-next", accel: Some("F3") },
        CommandEntry { label: CMD_EDITOR_GOTO_LINE, action_name: "win.editor-goto-line", accel: Some("Ctrl+G") },
        CommandEntry { label: CMD_EDITOR_TOGGLE_COMMENT, action_name: "win.editor-toggle-comment", accel: Some("Ctrl+/") },
        CommandEntry { label: CMD_EDITOR_DUPLICATE_LINE, action_name: "win.editor-duplicate-line", accel: Some("Ctrl+Shift+D") },
        CommandEntry { label: CMD_EDITOR_DELETE_LINE, action_name: "win.editor-delete-line", accel: Some("Ctrl+Shift+K") },
        CommandEntry { label: CMD_EDITOR_MOVE_LINE_UP, action_name: "win.editor-move-line-up", accel: Some("Alt+Up") },
        CommandEntry { label: CMD_EDITOR_MOVE_LINE_DOWN, action_name: "win.editor-move-line-down", accel: Some("Alt+Down") },
        CommandEntry { label: CMD_EDITOR_SELECT_NEXT_OCCURRENCE, action_name: "win.editor-select-next-occurrence", accel: Some("Ctrl+D") },
        CommandEntry { label: CMD_EDITOR_TOGGLE_WRAP, action_name: "win.editor-toggle-wrap", accel: None },
        CommandEntry { label: CMD_PANE_TOGGLE_PIN, action_name: "win.pane-toggle-pin-tab", accel: Some("Ctrl+Alt+P") },
        CommandEntry { label: CMD_EDITOR_REOPEN_CLOSED, action_name: "win.editor-reopen-closed-tab", accel: Some("Ctrl+Alt+T") },
        CommandEntry { label: CMD_NEW_TERMINAL, action_name: "win.new-terminal", accel: None },
        CommandEntry { label: CMD_NEW_TERMINAL_IN_PANE, action_name: "win.new-terminal-in-focused-pane", accel: None },
        CommandEntry { label: CMD_OPEN_BROWSER_IN_SPLIT, action_name: "win.open-browser-in-split", accel: None },
        CommandEntry { label: CMD_QUIT_APP, action_name: "app.quit", accel: Some("Ctrl+Q") },
    ]
}

/// Every command, in the order the palette lists them.
pub fn commands() -> (res: Vec<CommandEntry>)
    ensures
        res@ == command_table(),
{
    let v = vec![
        CommandEntry { label: CMD_NEW_WORKSPACE, action_name: "win.new-workspace", accel: Some("Ctrl+Shift+N") },
        CommandEntry { label: CMD_CLOSE_WORKSPACE, action_name: "win.close-workspace", accel: Some("Ctrl+Shift+W") },
        CommandEntry { label: CMD_NEXT_WORKSPACE, action_name: "win.next-workspace", accel: None },
        CommandEntry { label: CMD_PREV_WORKSPACE, action_name: "win.prev-workspace", accel: None },
        CommandEntry { label: CMD_SPLIT_RIGHT, action_name: "win.split-right", accel: None },
        CommandEntry { label: CMD_SPLIT_DOWN, action_name: "win.split-down", accel: None },
        CommandEntry { label: CMD_CLOSE_FOCUSED_PANE, action_name: "win.close-focused-pane", accel: None },
        CommandEntry { label: CMD_FOCUS_LEFT, action_name: "win.focus-left", accel: None },
        CommandEntry { label: CMD_FOCUS_RIGHT, action_name: "win.focus-right", accel: None },
        CommandEntry { label: CMD_FOCUS_UP, action_name: "win.focus-up", accel: None },
        CommandEntry { label: CMD_FOCUS_DOWN, action_name: "win.focus-down", accel: None },
        CommandEntry { label: CMD_CYCLE_TAB_NEXT, action_name: "win.cycle-tab-next", accel: None },
        CommandEntry { label: CMD_CYCLE_TAB_PREV, action_name: "win.cycle-tab-prev", accel: None },
        CommandEntry { label: CMD_TOGGLE_SIDEBAR, action_name: "win.toggle-sidebar", accel: Some("Ctrl+M") },
        CommandEntry { label: CMD_TOGGLE_FILE_PANEL, action_name: "win.toggle-file-panel", accel: Some("Ctrl+B") },
        CommandEntry { label: CMD_TOGGLE_TOP_BAR, action_name: "win.toggle-top-bar", accel: Some("Ctrl+Shift+M") },
        CommandEntry { label: CMD_TOGGLE_FULLSCREEN, action_name: "win.toggle-fullscreen", accel: None },
        CommandEntry { label: CMD_EDITOR_TOGGLE_CURRENT_PANE, action_name: "win.editor-toggle-current-pane", accel: Some("Ctrl+Shift+E") },
        CommandEntry { label: CMD_EDITOR_QUICK_OPEN, action_name: "win.editor-quick-open", accel: Some("Ctrl+P") },
        CommandEntry { label: CMD_EDITOR_SAVE, action_name: "win.editor-save-active", accel: Some("Ctrl+S") },
        CommandEntry { label: CMD_EDITOR_FIND, action_name: "win.editor-find", accel: Some("Ctrl+F") },
        CommandEntry { label: CMD_EDITOR_REPLACE, action_name: "win.editor-replace", accel: Some("Ctrl+H") },
        CommandEntry { label: CMD_EDITOR_FIND_NEXT, action_name: "win.editor-find-next", accel: Some("F3") },
        CommandEntry { label: CMD_EDITOR_GOTO_LINE, action_name: "win.editor-goto-line", accel: Some("Ctrl+G") },
        CommandEntry { label: CMD_EDITOR_TOGGLE_COMMENT, action_name: "win.editor-toggle-comment", accel: Some("Ctrl+/") },
        CommandEntry { label: CMD_EDITOR_DUPLICATE_LINE, action_name: "win.editor-duplicate-line", accel: Some("Ctrl+Shift+D") },
        CommandEntry { label: CMD_EDITOR_DELETE_LINE, action_name: "win.editor-delete-line", accel: Some("Ctrl+Shift+K") },
        CommandEntry { label: CMD_EDITOR_MOVE_LINE_UP, action_name: "win.editor-move-line-up", accel: Some("Alt+Up") },
        CommandEntry { label: CMD_EDITOR_MOVE_LINE_DOWN, action_name: "win.editor-move-line-down", accel: Some("Alt+Down") },
        CommandEntry { label: CMD_EDITOR_SELECT_NEXT_OCCURRENCE, action_name: "win.editor-select-next-occurrence", accel: Some("Ctrl+D") },
        CommandEntry { label: CMD_EDITOR_TOGGLE_WRAP, action_name: "win.editor-toggle-wrap", accel: None },
        CommandEntry { label: CMD_PANE_TOGGLE_PIN, action_name: "win.pane-toggle-pin-tab", accel: Some("Ctrl+Alt+P") },
        CommandEntry { label: CMD_EDITOR_REOPEN_CLOSED, action_name: "win.editor-reopen-closed-tab", accel: Some("Ctrl+Alt+T") },
        CommandEntry { label: CMD_NEW_TERMINAL, action_name: "win.new-terminal", accel: None },
        CommandEntry { label: CMD_NEW_TERMINAL_IN_PANE, action_name: "win.new-terminal-in-focused-pane", accel: None },
        CommandEntry { label: CMD_OPEN_BROWSER_IN_SPLIT, action_name: "win.open-browser-in-split", accel: None },
        CommandEntry { label: CMD_QUIT_APP, action_name: "app.quit", accel: Some("Ctrl+Q") },
    ];
    assert(v@ =~= command_table());
    v
}

/// The commands among the first `k` whose label, in ASCII lower case, holds `needle`.
pub open spec fn matching_upto(needle: Seq<char>, k: int) -> Seq<CommandEntry>
    decreases k,
{
    if k <= 0 {
        Seq::empty()
    } else {
        let prev = matching_upto(needle, k - 1);
        if contains_seq(ascii_lower(command_table()[k - 1].label@), needle) {
            prev.push(command_table()[k - 1])
        } else {
            prev
        }
    }
}

pub open spec fn first_results(s: Seq<CommandEntry>) -> Seq<CommandEntry> {
    if s.len() <= MAX_RESULTS {
        s
    } else {
        s.subrange(0, MAX_RESULTS as int)
    }
}

/// What the palette lists for `query`: every command for a blank query, else
/// those whose label holds the trimmed query, ignoring ASCII case.
pub open spec fn filter_spec(query: Seq<char>) -> Seq<CommandEntry> {
    let t = trim(query);
    if t.len() == 0 {
        first_results(command_table())
    } else {
        first_results(matching_upto(ascii_lower(t), command_table().len() as int))
    }
}

pub fn filter_commands(query: &str) -> (res: Vec<CommandEntry>)
    ensures
        res@ == filter_spec(query@),
{
    let all = commands();
    let q = chars_of(query);
    let (a, b) = trim_range(&q, 0, q.len());
    assert(q@.subrange(0, q@.len() as int) =~= q@);
    let mut out: Vec<CommandEntry> = Vec::new();
    if a == b {
        let n = if all.len() < MAX_RESULTS {
            all.len()
        } else {
            MAX_RESULTS
        };
        let mut i: usize = 0;
        while i < n
            invariant
                all@ == command_table(),
                n <= all.len(),
                n == first_results(command_table()).len(),
                i <= n,
                out@ == command_table().subrange(0, i as int),
            decreases n - i,
        {
            out.push(all[i]);
            assert(command_table().subrange(0, i + 1) =~= command_table().subrange(0, i as int).push(command_table()[i as int]));
            i += 1;
        }
        assert(out@ =~= first_results(command_table()));
        return out;
    }
    let needle = lower_ascii(&sub_vec(&q, a, b));
    let mut i: usize = 0;
    while i < all.len()
        invariant
            all@ == command_table(),
            i <= all.len(),
            out@ == matching_upto(needle@, i as int),
        decreases all.len() - i,
    {
        let label = lower_ascii(&chars_of(all[i].label));
        if vec_contains(&label, &needle) {
            out.push(all[i]);
        }
        i += 1;
    }
    if out.len() > MAX_RESULTS {
        out.truncate(MAX_RESULTS);
    }
    out
}

} // verus!
