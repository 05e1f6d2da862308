use lyrux_core::editor::closed_tabs::{clear, pop, push, ClosedTab, ClosedTabs, MAX_CLOSED_TABS};
use lyrux_core::editor::editorconfig::{apply_save_overrides, apply_view_overrides};
use lyrux_core::editor::highlight::{current_word_at, is_word_char};
use lyrux_core::editor::buffer::FileEtag;
use lyrux_core::editor::watcher::{disk_change, DiskChange};
use lyrux_core::editor::keymap::{
    key_action, save_step, EditorAction, Key, SaveStep,
    delete_line, duplicate_line, move_line_down, move_line_up,
    apply_save_transform, byte_offset_from_char_offset, char_offset_from_byte_offset, comment_prefix_for,
    strip_trailing_ws, toggle_comment_lines, word_bounds_at_offset, SaveTransform,
};
use lyrux_core::editor::recent_files::{RecentFiles, MAX_RECENT_FILES};
use lyrux_core::editor::settings::EditorSettings;
use lyrux_core::editor::sticky_scroll::{find_enclosing_header, is_header_line, sticky_label, LangKind, StickyLabel};
use lyrux_core::editor::tab_state::{compute_dirty, DirtyTracker};
use lyrux_core::editor::vim::{parse_command, VimCommand};
use lyrux_core::editor::{classify_file, FileKind};

fn entry(path: &str, offset: i32) -> ClosedTab {
    ClosedTab { path: path.to_string(), cursor_offset: offset }
}

#[test]
fn pop_returns_lifo_order() {
    let mut tabs = ClosedTabs::new();
    clear(&mut tabs);
    push(&mut tabs, entry("/a/one.rs", 0));
    push(&mut tabs, entry("/a/two.rs", 5));
    assert_eq!(pop(&mut tabs).map(|t| t.path), Some("/a/two.rs".to_string()));
    assert_eq!(pop(&mut tabs).map(|t| t.path), Some("/a/one.rs".to_string()));
    assert!(pop(&mut tabs).is_none());
}

#[test]
fn push_dedupes_existing_path() {
    let mut tabs = ClosedTabs::new();
    push(&mut tabs, entry("/a/one.rs", 0));
    push(&mut tabs, entry("/a/two.rs", 0));
    push(&mut tabs, entry("/a/one.rs", 10));
    let first = pop(&mut tabs).expect("entry");
    assert_eq!(first.path, "/a/one.rs");
    assert_eq!(first.cursor_offset, 10);
    let second = pop(&mut tabs).expect("entry");
    assert_eq!(second.path, "/a/two.rs");
}

#[test]
fn push_caps_at_max() {
    let mut tabs = ClosedTabs::new();
    for i in 0..(MAX_CLOSED_TABS + 5) {
        push(&mut tabs, entry(&format!("/a/{i}.rs"), 0));
    }
    let mut count = 0;
    while pop(&mut tabs).is_some() {
        count += 1;
    }
    assert_eq!(count, MAX_CLOSED_TABS);
}

#[test]
fn push_moves_existing_to_front_and_dedupes() {
    let mut recent = RecentFiles::default();
    recent.push("/a/one.rs".to_string());
    recent.push("/a/two.rs".to_string());
    recent.push("/a/one.rs".to_string());
    assert_eq!(recent.entries.len(), 2);
    assert_eq!(recent.entries[0], "/a/one.rs");
    assert_eq!(recent.entries[1], "/a/two.rs");
}

#[test]
fn push_caps_at_max_limit() {
    let mut recent = RecentFiles::default();
    for i in 0..(MAX_RECENT_FILES + 10) {
        recent.push(format!("/a/file{i}.rs"));
    }
    assert_eq!(recent.entries.len(), MAX_RECENT_FILES);
}

#[test]
fn top_returns_first_n_entries() {
    let mut recent = RecentFiles::default();
    for i in 0..5 {
        recent.push(format!("/a/file{i}.rs"));
    }
    let top = recent.top(3);
    assert_eq!(top.len(), 3);
    assert_eq!(top[0], "/a/file4.rs");
    assert_eq!(recent.top(10).len(), 5);
}

#[test]
fn word_bounds_inside_word() {
    assert_eq!(word_bounds_at_offset("foo bar baz", 5), (4, 7));
}

#[test]
fn word_bounds_at_word_start() {
    assert_eq!(word_bounds_at_offset("foo bar", 4), (4, 7));
}

#[test]
fn word_bounds_at_word_end_returns_word() {
    assert_eq!(word_bounds_at_offset("foo bar", 3), (0, 3));
}

#[test]
fn word_bounds_in_whitespace() {
    assert_eq!(word_bounds_at_offset("a  b", 2), (2, 2));
}

#[test]
fn word_bounds_with_underscore() {
    assert_eq!(word_bounds_at_offset("snake_case x", 3), (0, 10));
}

#[test]
fn word_bounds_alphanumeric() {
    assert_eq!(word_bounds_at_offset("abc123 x", 4), (0, 6));
}

#[test]
fn word_bounds_empty_string() {
    assert_eq!(word_bounds_at_offset("", 0), (0, 0));
}

#[test]
fn word_bounds_offset_past_end_after_word() {
    assert_eq!(word_bounds_at_offset("foo", 3), (0, 3));
}

#[test]
fn word_bounds_offset_past_end_after_space() {
    assert_eq!(word_bounds_at_offset("foo ", 4), (4, 4));
}

#[test]
fn strip_trailing_ws_basic() {
    assert_eq!(strip_trailing_ws("hello \nworld  \n"), "hello\nworld\n");
}

#[test]
fn strip_trailing_ws_single_word() {
    assert_eq!(strip_trailing_ws("x"), "x");
}

#[test]
fn strip_trailing_ws_empty() {
    assert_eq!(strip_trailing_ws(""), "");
}

#[test]
fn strip_trailing_ws_only_newlines() {
    assert_eq!(strip_trailing_ws("\n\n"), "\n\n");
}

#[test]
fn strip_trailing_ws_no_newline() {
    assert_eq!(strip_trailing_ws("hello"), "hello");
}

#[test]
fn apply_save_transform_adds_final_newline() {
    let t = SaveTransform { strip_trailing_whitespace: false, ensure_final_newline: true };
    assert_eq!(apply_save_transform("hello".to_string(), t), "hello\n");
}

#[test]
fn apply_save_transform_skips_final_newline_on_empty() {
    let t = SaveTransform { strip_trailing_whitespace: false, ensure_final_newline: true };
    assert_eq!(apply_save_transform(String::new(), t), "");
}

#[test]
fn apply_save_transform_both() {
    let t = SaveTransform { strip_trailing_whitespace: true, ensure_final_newline: true };
    assert_eq!(apply_save_transform("foo  \nbar".to_string(), t), "foo\nbar\n");
}

#[test]
fn apply_save_transform_disabled() {
    let t = SaveTransform::default();
    assert_eq!(apply_save_transform("foo  \nbar".to_string(), t), "foo  \nbar");
}

#[test]
fn rust_header_simple_fn() {
    assert!(is_header_line("fn main() {", LangKind::Rust));
}

#[test]
fn rust_header_pub_fn() {
    assert!(is_header_line("pub fn foo() {", LangKind::Rust));
}

#[test]
fn rust_header_pub_crate_fn() {
    assert!(is_header_line("pub(crate) fn foo() {", LangKind::Rust));
}

#[test]
fn rust_header_indented_impl() {
    assert!(is_header_line("    impl Bar for Foo {", LangKind::Rust));
}

#[test]
fn rust_header_async_fn() {
    assert!(is_header_line("pub async fn foo() {", LangKind::Rust));
}

#[test]
fn rust_header_not_function_body() {
    assert!(!is_header_line("    let x = 5;", LangKind::Rust));
}

#[test]
fn rust_header_not_fnord_identifier() {
    assert!(!is_header_line("fnord();", LangKind::Rust));
}

#[test]
fn ts_header_function() {
    assert!(is_header_line("export async function foo() {", LangKind::Typescript));
}

#[test]
fn ts_header_class() {
    assert!(is_header_line("class Foo {", LangKind::Typescript));
}

#[test]
fn ts_header_interface() {
    assert!(is_header_line("export interface Bar {", LangKind::Typescript));
}

#[test]
fn ts_header_not_arrow_assign() {
    assert!(!is_header_line("const x = () => 5;", LangKind::Typescript));
}

#[test]
fn python_header_def() {
    assert!(is_header_line("def foo():", LangKind::Python));
}

#[test]
fn python_header_indented_class() {
    assert!(is_header_line("    class Inner:", LangKind::Python));
}

#[test]
fn python_header_not_call() {
    assert!(!is_header_line("foo(bar)", LangKind::Python));
}

#[test]
fn markdown_header_h1() {
    assert!(is_header_line("# Title", LangKind::Markdown));
}

#[test]
fn markdown_header_h3() {
    assert!(is_header_line("### Sub", LangKind::Markdown));
}

#[test]
fn markdown_header_too_many_hashes() {
    assert!(!is_header_line("####### Bad", LangKind::Markdown));
}

#[test]
fn markdown_header_no_space() {
    assert!(!is_header_line("#hashtag", LangKind::Markdown));
}

#[test]
fn go_header_func() {
    assert!(is_header_line("func main() {", LangKind::Go));
}

#[test]
fn go_header_type() {
    assert!(is_header_line("type Foo struct {", LangKind::Go));
}

#[test]
fn unsupported_lang_no_header() {
    assert!(!is_header_line("fn main() {", LangKind::Unsupported));
}

#[test]
fn rust_header_after_visibility_and_qualifiers() {
    assert!(is_header_line("pub(in crate::a)   unsafe fn x()", LangKind::Rust));
    assert!(is_header_line("pub(crate", LangKind::Rust) == false);
    assert!(is_header_line("default fn f()", LangKind::Rust));
    assert!(!is_header_line("   ", LangKind::Rust));
}

#[test]
fn lang_kind_from_id() {
    assert_eq!(LangKind::from_id("rust"), LangKind::Rust);
    assert_eq!(LangKind::from_id("javascript"), LangKind::Typescript);
    assert_eq!(LangKind::from_id("python3"), LangKind::Python);
    assert_eq!(LangKind::from_id("markdown"), LangKind::Markdown);
    assert_eq!(LangKind::from_id("go"), LangKind::Go);
    assert_eq!(LangKind::from_id("c"), LangKind::Unsupported);
}

#[test]
fn enclosing_header_is_nearest_above() {
    let lines: Vec<String> = vec!["fn a() {\n", "  let x = 1;\n", "}\n", "fn b() {\n", "  x();\n"]
        .into_iter()
        .map(String::from)
        .collect();
    assert_eq!(find_enclosing_header(&lines, 4, LangKind::Rust), Some(3));
    assert_eq!(find_enclosing_header(&lines, 2, LangKind::Rust), Some(0));
    assert_eq!(find_enclosing_header(&lines, 0, LangKind::Rust), Some(0));
    assert_eq!(find_enclosing_header(&lines, -1, LangKind::Rust), None);
    assert_eq!(find_enclosing_header(&lines, 4, LangKind::Unsupported), None);
}

#[test]
fn word_char_classification() {
    assert!(is_word_char('a'));
    assert!(is_word_char('Z'));
    assert!(is_word_char('0'));
    assert!(is_word_char('_'));
    assert!(is_word_char('ä'));
    assert!(!is_word_char(' '));
    assert!(!is_word_char('-'));
    assert!(!is_word_char('.'));
    assert!(!is_word_char('('));
    assert!(!is_word_char('\n'));
}

#[test]
fn current_word_needs_two_word_chars_and_no_selection() {
    assert_eq!(current_word_at("let foo_bar = 1;", 6, false), Some("foo_bar".to_string()));
    assert_eq!(current_word_at("let foo_bar = 1;", 6, true), None);
    assert_eq!(current_word_at("a = b", 1, false), None);
    assert_eq!(current_word_at("x  y", 2, false), None);
    assert_eq!(current_word_at("ab", 2, false), Some("ab".to_string()));
}

struct DirtySim {
    saved: String,
    tracker: DirtyTracker,
    emissions: Vec<bool>,
}

impl DirtySim {
    fn new(initial: &str) -> Self {
        DirtySim { saved: initial.to_string(), tracker: DirtyTracker::new(), emissions: Vec::new() }
    }

    fn edit(&mut self, next: &str) {
        if let Some(flag) = self.tracker.on_change(false, next, &self.saved) {
            self.emissions.push(flag);
        }
    }
}

#[test]
fn compute_dirty_string_equality() {
    assert!(!compute_dirty("hello", "hello"));
    assert!(compute_dirty("hello ", "hello"));
    assert!(compute_dirty("", "x"));
    assert!(!compute_dirty("", ""));
}

#[test]
fn type_then_backspace_reverts_dirty() {
    let mut sim = DirtySim::new("hello");
    sim.edit("hello ");
    assert!(sim.tracker.dirty);
    sim.edit("hello");
    assert!(!sim.tracker.dirty);
    assert_eq!(sim.emissions, vec![true, false]);
}

#[test]
fn repeated_typing_emits_dirty_once() {
    let mut sim = DirtySim::new("a");
    sim.edit("ab");
    sim.edit("abc");
    sim.edit("abcd");
    assert_eq!(sim.emissions, vec![true]);
}

#[test]
fn empty_buffer_round_trip() {
    let mut sim = DirtySim::new("");
    sim.edit("x");
    sim.edit("");
    assert!(!sim.tracker.dirty);
    assert_eq!(sim.emissions, vec![true, false]);
}

#[test]
fn suppressed_changes_are_ignored() {
    let mut t = DirtyTracker::new();
    assert_eq!(t.on_change(true, "x", ""), None);
    assert!(!t.dirty);
}

#[test]
fn vim_commands() {
    assert_eq!(parse_command(":w"), VimCommand::Write);
    assert_eq!(parse_command("  ::write "), VimCommand::Write);
    assert_eq!(parse_command("q"), VimCommand::Quit);
    assert_eq!(parse_command(":quit"), VimCommand::Quit);
    assert_eq!(parse_command(":wq!"), VimCommand::WriteQuit);
    assert_eq!(parse_command("x"), VimCommand::WriteQuit);
    assert_eq!(parse_command(":e file"), VimCommand::Unknown);
    assert_eq!(parse_command(""), VimCommand::Unknown);
}

#[test]
fn editorconfig_overrides_view_and_save() {
    let mut cfg = EditorSettings::default().to_view_config();
    let before = cfg.clone();
    apply_view_overrides(&mut cfg, Some("SPACE".to_string()), Some("40".to_string()), None);
    assert!(cfg.insert_spaces);
    assert_eq!(cfg.tab_width, 16);
    assert_eq!(cfg.font_family, before.font_family);
    apply_view_overrides(&mut cfg, Some("tab".to_string()), Some("4".to_string()), Some("0".to_string()));
    assert!(!cfg.insert_spaces);
    assert_eq!(cfg.tab_width, 1);
    apply_view_overrides(&mut cfg, None, Some("x".to_string()), None);
    assert_eq!(cfg.tab_width, 1);

    let mut t = SaveTransform::default();
    apply_save_overrides(&mut t, Some("TRUE".to_string()), Some("no".to_string()));
    assert!(t.strip_trailing_whitespace);
    assert!(!t.ensure_final_newline);
}

#[test]
fn images_open_in_the_viewer() {
    assert_eq!(classify_file("/a/b/pic.PNG"), FileKind::Image);
    assert_eq!(classify_file("/a/b/pic.svg"), FileKind::Image);
    assert_eq!(classify_file("/a/b/main.rs"), FileKind::Editable);
    assert_eq!(classify_file("/a/b/.png"), FileKind::Editable);
    assert_eq!(classify_file("/a/b/Makefile"), FileKind::Editable);
}

#[test]
fn byte_offsets_of_chars_count_utf8_widths() {
    let text = "aé€b";
    assert_eq!(byte_offset_from_char_offset(text, 0), 0);
    assert_eq!(byte_offset_from_char_offset(text, 1), 1);
    assert_eq!(byte_offset_from_char_offset(text, 2), 3);
    assert_eq!(byte_offset_from_char_offset(text, 3), 6);
    assert_eq!(byte_offset_from_char_offset(text, 4), 7);
    assert_eq!(byte_offset_from_char_offset(text, 99), 7);
}

#[test]
fn char_offsets_of_bytes_round_up_to_a_char_start() {
    let text = "aé€b";
    assert_eq!(char_offset_from_byte_offset(text, 0), 0);
    assert_eq!(char_offset_from_byte_offset(text, 1), 1);
    assert_eq!(char_offset_from_byte_offset(text, 2), 2);
    assert_eq!(char_offset_from_byte_offset(text, 3), 2);
    assert_eq!(char_offset_from_byte_offset(text, 6), 3);
    assert_eq!(char_offset_from_byte_offset(text, 7), 4);
    assert_eq!(char_offset_from_byte_offset(text, 50), 4);
}

#[test]
fn char_to_byte_and_back_round_trips() {
    let text = "aé€b";
    for k in 0..6 {
        let b = byte_offset_from_char_offset(text, k);
        assert_eq!(char_offset_from_byte_offset(text, b), k.min(4));
    }
}

#[test]
fn comment_prefixes_by_language() {
    assert_eq!(comment_prefix_for("rust"), Some("// "));
    assert_eq!(comment_prefix_for("python"), Some("# "));
    assert_eq!(comment_prefix_for("markdown"), None);
}

fn strings(v: &[&str]) -> Vec<String> {
    v.iter().map(|s| s.to_string()).collect()
}

#[test]
fn toggle_comment_adds_prefix_after_indentation() {
    let out = toggle_comment_lines(&strings(&["fn a() {", "    x();"]), false, "rust").unwrap();
    assert_eq!(out, strings(&["// fn a() {", "    // x();"]));
}

#[test]
fn toggle_comment_removes_when_all_commented() {
    let out = toggle_comment_lines(&strings(&["// a", "  //b"]), false, "rust").unwrap();
    assert_eq!(out, strings(&["a", "  b"]));
}

#[test]
fn toggle_comment_comments_all_when_one_is_plain() {
    let out = toggle_comment_lines(&strings(&["# a", "b"]), false, "python").unwrap();
    assert_eq!(out, strings(&["# # a", "# b"]));
}

#[test]
fn toggle_comment_marker_at_buffer_end_does_not_count() {
    let out = toggle_comment_lines(&strings(&["//"]), true, "rust").unwrap();
    assert_eq!(out, strings(&["// //"]));
    let out = toggle_comment_lines(&strings(&["//"]), false, "rust").unwrap();
    assert_eq!(out, strings(&[""]));
}

#[test]
fn toggling_comments_twice_restores_uncommented_lines() {
    let cases: [(&[&str], bool, &str); 4] = [
        (&["fn a() {", "    x();", "}"], false, "rust"),
        (&["# a", "b", ""], true, "python"),
        (&["  \t", "//"], true, "c"),
        (&["x"], true, "lua"),
    ];
    for (lines, last_is_end, lang) in cases {
        let lines = strings(lines);
        let once = toggle_comment_lines(&lines, last_is_end, lang).unwrap();
        let twice = toggle_comment_lines(&once, last_is_end, lang).unwrap();
        assert_eq!(twice, lines);
    }
}

#[test]
fn toggle_comment_without_prefix_is_none() {
    assert_eq!(toggle_comment_lines(&strings(&["x"]), false, "markdown"), None);
}

#[test]
fn moving_a_line_up_swaps_it_with_the_one_above() {
    let lines = strings(&["a", "b", "c"]);
    assert_eq!(move_line_up(&lines, 0), None);
    assert_eq!(move_line_up(&lines, 2), Some((strings(&["a", "c", "b"]), 1)));
    assert_eq!(move_line_up(&lines, 3), None);
}

#[test]
fn moving_a_line_down_swaps_it_with_the_one_below() {
    let lines = strings(&["a", "b", "c"]);
    assert_eq!(move_line_down(&lines, 0), Some((strings(&["b", "a", "c"]), 1)));
    assert_eq!(move_line_down(&lines, 2), None);
}

#[test]
fn moving_up_then_down_restores_the_lines() {
    let lines = strings(&["one", "two", "three"]);
    let (up, at) = move_line_up(&lines, 1).unwrap();
    let (back, _) = move_line_down(&up, at).unwrap();
    assert_eq!(back, lines);
}

#[test]
fn duplicating_a_line_inserts_a_copy_below() {
    let lines = strings(&["a", "b"]);
    assert_eq!(duplicate_line(&lines, 0), strings(&["a", "a", "b"]));
    assert_eq!(duplicate_line(&lines, 5), lines);
}

#[test]
fn deleting_lines() {
    let lines = strings(&["a", "b", "c"]);
    assert_eq!(delete_line(&lines, 1), strings(&["a", "c"]));
    assert_eq!(delete_line(&lines, 2), strings(&["a", "b", ""]));
    assert_eq!(delete_line(&strings(&["a", ""]), 1), strings(&["a"]));
    assert_eq!(delete_line(&strings(&[""]), 0), strings(&[""]));
    assert_eq!(delete_line(&lines, 9), lines);
}

#[test]
fn display_labels_prefer_bundled_then_scheme_name() {
    assert_eq!(lyrux_core::editor::themes::display_label("one-dark", Some("x")), "One Dark");
    assert_eq!(lyrux_core::editor::themes::display_label("classic", Some("Classic")), "Classic");
    assert_eq!(lyrux_core::editor::themes::display_label("classic", Some("")), "classic");
    assert_eq!(lyrux_core::editor::themes::display_label("classic", None), "classic");
}

#[test]
fn dynamic_schemes_are_sorted_by_lowercase_label() {
    let schemes = vec![
        ("tokyo-night".to_string(), None),
        ("b-scheme".to_string(), Some("beta".to_string())),
        ("a-scheme".to_string(), Some("Alpha".to_string())),
        ("z".to_string(), Some("Beta".to_string())),
    ];
    let out = lyrux_core::editor::themes::available_dynamic(&schemes);
    let ids: Vec<&str> = out.iter().map(|(i, _)| i.as_str()).collect();
    assert_eq!(ids, vec!["a-scheme", "b-scheme", "z", "tokyo-night"]);
    assert_eq!(out[3].1, "Tokyo Night");
}

#[test]
fn disk_changes_reload_clean_text_and_warn_about_edited_text() {
    let a = FileEtag { mtime: 1, size: 10 };
    let b = FileEtag { mtime: 2, size: 10 };
    assert_eq!(disk_change(false, Some(b), Some(a), false), DiskChange::Ignore);
    assert_eq!(disk_change(true, Some(a), Some(a), true), DiskChange::Ignore);
    assert_eq!(disk_change(true, Some(b), Some(a), false), DiskChange::Reload);
    assert_eq!(disk_change(true, Some(b), Some(a), true), DiskChange::ChangedBanner);
    assert_eq!(disk_change(true, None, Some(a), false), DiskChange::DeletedBanner);
    assert_eq!(disk_change(true, None, None, true), DiskChange::Ignore);
    assert_eq!(disk_change(true, Some(a), None, false), DiskChange::Reload);
}

#[test]
fn saving_asks_for_a_path_refuses_outside_files_and_writes_the_rest() {
    let t = SaveTransform { strip_trailing_whitespace: true, ensure_final_newline: true };
    assert!(matches!(save_step("", None, "x".to_string(), t), SaveStep::AskForPath));
    assert!(matches!(save_step("/w/a.rs", Some(false), "x".to_string(), t), SaveStep::OutsideWorkspace));
    match save_step("/w/a.rs", Some(true), "x  ".to_string(), t) {
        SaveStep::Write(text) => assert_eq!(text, "x\n"),
        other => panic!("unexpected {other:?}"),
    }
    match save_step("/tmp/a.rs", None, "y".to_string(), t) {
        SaveStep::Write(text) => assert_eq!(text, "y\n"),
        other => panic!("unexpected {other:?}"),
    }
}

#[test]
fn key_bindings_map_to_editor_actions() {
    assert_eq!(key_action(Key::Up, false, true, false), Some(EditorAction::MoveLineUp));
    assert_eq!(key_action(Key::Down, false, true, false), Some(EditorAction::MoveLineDown));
    assert_eq!(key_action(Key::Char('s'), false, true, false), None);
    assert_eq!(key_action(Key::Char('s'), false, false, false), None);
    assert_eq!(key_action(Key::Char('s'), true, false, false), Some(EditorAction::Save));
    assert_eq!(key_action(Key::F3, true, false, false), Some(EditorAction::FindNext));
    assert_eq!(key_action(Key::Char('g'), true, false, false), Some(EditorAction::GotoLine));
    assert_eq!(key_action(Key::Char('l'), true, false, false), None);
    assert_eq!(key_action(Key::Char('D'), true, false, true), Some(EditorAction::DuplicateLine));
    assert_eq!(key_action(Key::Char('D'), true, false, false), None);
    assert_eq!(key_action(Key::Char('d'), true, false, false), Some(EditorAction::SelectNextOccurrence));
    assert_eq!(key_action(Key::Char('K'), true, false, true), Some(EditorAction::DeleteLine));
    assert_eq!(key_action(Key::Char('w'), true, true, false), Some(EditorAction::CloseTab));
    assert_eq!(key_action(Key::Other, true, false, false), None);
}

#[test]
fn wrap_label_follows_the_setting() {
    assert_eq!(lyrux_core::editor::status_bar::wrap_label_text(true), lyrux_core::editor::status_bar::STATUS_WRAP_ON);
    assert_eq!(lyrux_core::editor::status_bar::wrap_label_text(false), lyrux_core::editor::status_bar::STATUS_WRAP_OFF);
}

#[test]
fn setting_defaults() {
    assert!(lyrux_core::editor::settings::default_true());
    assert!(!lyrux_core::editor::settings::default_wrap_lines());
}

#[test]
fn saving_twice_writes_what_saving_once_wrote() {
    let texts = ["fn main() {  \n\tx();\t\n}  ", "a \n \n  ", "", "no change\n", "tail  \n\n"];
    for strip in [false, true] {
        for newline in [false, true] {
            let t = SaveTransform { strip_trailing_whitespace: strip, ensure_final_newline: newline };
            for text in texts {
                let once = apply_save_transform(text.to_string(), t);
                let twice = apply_save_transform(once.clone(), t);
                assert_eq!(once, twice);
            }
        }
    }
    let t = SaveTransform { strip_trailing_whitespace: true, ensure_final_newline: true };
    assert_eq!(apply_save_transform("a \n \n  ".to_string(), t), "a\n\n");
}

#[test]
fn sticky_label_shows_the_enclosing_header_once() {
    let lines = strings(&["use x;", "fn main() {\r", "    let a = 1;", "    a", "}"]);
    assert_eq!(
        sticky_label(true, &lines, 3, LangKind::Rust, -1),
        StickyLabel::Header(1, "fn main() {".to_string())
    );
    assert_eq!(sticky_label(true, &lines, 3, LangKind::Rust, 1), StickyLabel::Unchanged);
}

#[test]
fn sticky_label_hides_without_a_header_above() {
    let lines = strings(&["use x;", "fn main() {", "    a", "}"]);
    assert_eq!(sticky_label(true, &lines, 1, LangKind::Rust, 1), StickyLabel::Hidden);
    assert_eq!(sticky_label(true, &lines, 0, LangKind::Rust, -1), StickyLabel::Hidden);
    assert_eq!(sticky_label(false, &lines, 2, LangKind::Rust, -1), StickyLabel::Hidden);
    assert_eq!(sticky_label(true, &lines, 2, LangKind::Unsupported, -1), StickyLabel::Hidden);
}
