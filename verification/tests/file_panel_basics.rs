use lyrux_core::file_panel::view::row_look;
use lyrux_core::file_panel::model::{git_to_id, id_to_git};
use lyrux_core::file_panel::model::kind_to_id;
use lyrux_core::file_panel::model::git_marker_for;
use lyrux_core::file_panel::clipboard::{ClipMode, Clipboard};
use lyrux_core::file_panel::config::{paths_to_strings, strings_to_paths};
use lyrux_core::file_panel::icons::{drag_icon_name, icon_for_extension, GENERIC_FILE_ICON};
use lyrux_core::file_panel::model::{compute_desired_width, find_row, GitStatus, Kind, Row};
use lyrux_core::file_panel::strings::{human_size, relative_time, split_basename_ext};

#[test]
fn rust_files_get_script_icon() {
    assert_eq!(icon_for_extension("rs"), "text-x-script-symbolic");
}

#[test]
fn images_get_image_icon() {
    assert_eq!(icon_for_extension("png"), "image-x-generic-symbolic");
}

#[test]
fn case_insensitive() {
    assert_eq!(icon_for_extension("PNG"), "image-x-generic-symbolic");
}

#[test]
fn unknown_falls_back_to_generic() {
    assert_eq!(icon_for_extension("xyz"), "text-x-generic-symbolic");
}

#[test]
fn html_uses_symbolic_icon() {
    assert_eq!(icon_for_extension("html"), "text-html-symbolic");
}

#[test]
fn json_falls_back_to_generic_symbolic() {
    assert_eq!(icon_for_extension("json"), "text-x-generic-symbolic");
}

#[test]
fn css_uses_symbolic_icon() {
    assert_eq!(icon_for_extension("css"), "text-x-generic-symbolic");
}

#[test]
fn generic_constant_matches_fallback() {
    assert_eq!(GENERIC_FILE_ICON, "text-x-generic-symbolic");
    assert_eq!(icon_for_extension("xyz"), GENERIC_FILE_ICON);
}

#[test]
fn split_keeps_full_for_no_ext() {
    let (sel, _) = split_basename_ext("README");
    assert_eq!(sel, "README".len());
}

#[test]
fn split_excludes_extension() {
    let (sel, _) = split_basename_ext("main.rs");
    assert_eq!(sel, 4);
}

#[test]
fn split_keeps_full_for_hidden() {
    let (sel, _) = split_basename_ext(".gitignore");
    assert_eq!(sel, ".gitignore".len());
}

#[test]
fn split_counts_bytes_of_multibyte_names() {
    assert_eq!(split_basename_ext("é.txt"), (2, 6));
}

#[test]
fn human_size_bytes_under_kb() {
    assert_eq!(human_size(0), "0B");
    assert_eq!(human_size(512), "512B");
}

#[test]
fn human_size_kb_rounds() {
    assert_eq!(human_size(1024), "1K");
    assert_eq!(human_size(2048), "2K");
}

#[test]
fn human_size_mb_with_one_decimal() {
    assert_eq!(human_size(1024 * 1024), "1.0M");
}

#[test]
fn human_size_gb_with_one_decimal() {
    assert_eq!(human_size(1024_u64.pow(3)), "1.0G");
}

#[test]
fn human_size_rounds_like_float_formatting() {
    assert_eq!(human_size(1536), "2K");
    assert_eq!(human_size(2560), "2K");
    assert_eq!(human_size(1024 * 1024 + 1024 * 1024 / 2), "1.5M");
    assert_eq!(human_size(1024_u64.pow(4)), "1.0T");
}

#[test]
fn relative_time_now_under_60_sec() {
    assert_eq!(relative_time(100, 110), "now");
}

#[test]
fn relative_time_minutes() {
    assert_eq!(relative_time(1, 301), "5m");
}

#[test]
fn relative_time_hours() {
    assert_eq!(relative_time(1, 1 + 3600 * 5), "5h");
}

#[test]
fn relative_time_days() {
    assert_eq!(relative_time(1, 1 + 86_400 * 3), "3d");
}

#[test]
fn relative_time_empty_for_zero_mtime() {
    assert_eq!(relative_time(0, 1000), "");
}

#[test]
fn relative_time_saturates_on_extreme_clock() {
    assert_eq!(relative_time(1, i64::MIN), "now");
    assert_eq!(relative_time(1, 1 + 86_400 * 400), "400d");
}

#[test]
fn new_clipboard_empty() {
    let c = Clipboard::default();
    assert!(c.is_empty());
}

#[test]
fn copy_then_paste_keeps_state_until_explicit_clear() {
    let mut c = Clipboard::default();
    c.set(vec!["/tmp/a".to_string()], ClipMode::Copy);
    assert!(!c.is_empty());
    assert_eq!(c.mode(), Some(ClipMode::Copy));
    let _ = c.take_for_paste();
    assert!(!c.is_empty(), "copy survives paste");
}

#[test]
fn cut_then_paste_clears_state() {
    let mut c = Clipboard::default();
    c.set(vec!["/tmp/a".to_string()], ClipMode::Cut);
    let _ = c.take_for_paste();
    assert!(c.is_empty(), "cut clears after paste");
}

#[test]
fn explicit_clear_resets() {
    let mut c = Clipboard::default();
    c.set(vec!["/tmp/a".to_string()], ClipMode::Copy);
    c.clear();
    assert!(c.is_empty());
    assert_eq!(c.mode(), None);
}

#[test]
fn paste_hands_out_the_paths_and_mode() {
    let mut c = Clipboard::new();
    c.set(vec!["/tmp/a".to_string(), "/tmp/b".to_string()], ClipMode::Cut);
    let (paths, mode) = c.take_for_paste();
    assert_eq!(paths, vec!["/tmp/a".to_string(), "/tmp/b".to_string()]);
    assert_eq!(mode, Some(ClipMode::Cut));
    assert!(c.paths().is_empty());
}

#[test]
fn roundtrip_paths() {
    let p = vec!["/tmp/a".to_string(), "/tmp/b".to_string()];
    let s = paths_to_strings(&p);
    assert_eq!(strings_to_paths(&s), p);
}

#[test]
fn git_status_priority_ordering() {
    assert!(GitStatus::Conflict.priority() > GitStatus::Modified.priority());
    assert!(GitStatus::Modified.priority() > GitStatus::Added.priority());
    assert!(GitStatus::Ignored.priority() > GitStatus::Clean.priority());
}

#[test]
fn kind_default_not_required() {
    assert_eq!(Kind::Dir, Kind::Dir);
}

#[test]
fn git_status_default_is_clean() {
    assert_eq!(GitStatus::default(), GitStatus::Clean);
}

fn row(path: &str) -> Row {
    Row {
        path: path.to_string(),
        depth: 0,
        kind: Kind::File,
        expanded: false,
        git_status: GitStatus::Clean,
        parent_idx: None,
        ignored: false,
    }
}

#[test]
fn compute_desired_width_empty_model_returns_min() {
    let rows: Vec<Row> = Vec::new();
    assert_eq!(compute_desired_width(&rows), 260);
}

#[test]
fn compute_desired_width_clamps_at_max() {
    let long = "a".repeat(200);
    let rows = vec![row(&format!("/tmp/{long}"))];
    assert_eq!(compute_desired_width(&rows), 600);
}

#[test]
fn find_row_compares_paths_by_components() {
    let rows = vec![row("/tmp/a"), row("/tmp/b")];
    assert_eq!(find_row(&rows, "/tmp/b"), Some(1));
    assert_eq!(find_row(&rows, "/tmp//b/"), Some(1));
    assert_eq!(find_row(&rows, "/tmp/c"), None);
}

#[test]
fn module_loads() {
    let _ = ();
}

#[test]
fn git_ids_round_trip() {
    for g in [
        GitStatus::Clean,
        GitStatus::Modified,
        GitStatus::Added,
        GitStatus::Deleted,
        GitStatus::Untracked,
        GitStatus::Ignored,
        GitStatus::Conflict,
    ] {
        assert_eq!(id_to_git(git_to_id(g)), g);
    }
    assert_eq!(id_to_git(-5), GitStatus::Clean);
}

#[test]
fn kind_ids_differ() {
    assert_ne!(kind_to_id(Kind::Dir), kind_to_id(Kind::File));
}

#[test]
fn git_markers_name_the_status() {
    assert_eq!(git_marker_for(GitStatus::Modified), ("M", Some("limux-fp-git-m")));
    assert_eq!(git_marker_for(GitStatus::Untracked).0, "?");
    assert_eq!(git_marker_for(GitStatus::Clean).1, None);
}

#[test]
fn dragged_rows_show_folder_or_extension_icons() {
    assert_eq!(drag_icon_name(Kind::Dir, "src"), "folder-symbolic");
    assert_eq!(drag_icon_name(Kind::File, "main.rs"), "text-x-script-symbolic");
    assert_eq!(drag_icon_name(Kind::File, "archive.tar.gz"), icon_for_extension("gz"));
    assert_eq!(drag_icon_name(Kind::File, "README"), GENERIC_FILE_ICON);
    assert_eq!(drag_icon_name(Kind::File, "trailing."), GENERIC_FILE_ICON);
}

#[test]
fn sort_targets_name_their_actions() {
    assert_eq!(lyrux_core::file_panel::actions::sort_action_name_for("name_asc"), Some("fp-sort-name-asc"));
    assert_eq!(lyrux_core::file_panel::actions::sort_action_name_for("size_desc"), Some("fp-sort-size-desc"));
    assert_eq!(lyrux_core::file_panel::actions::sort_action_name_for("bogus"), None);
}

#[test]
fn rows_fit_checks_widths_against_i32() {
    assert!(lyrux_core::file_panel::model::rows_fit(&vec![row("/tmp/a.txt")]));
    let mut deep = row("/tmp/a.txt");
    deep.depth = u32::MAX;
    assert!(!lyrux_core::file_panel::model::rows_fit(&vec![deep]));
}

#[test]
fn row_looks_follow_kind_depth_and_status() {
    let dir = row_look(2, Kind::Dir, true, GitStatus::Modified);
    assert_eq!(dir.indent_width, 32);
    assert_eq!(dir.depth_class, "limux-fp-depth-2");
    assert_eq!(dir.chevron, Some("pan-down-symbolic"));
    assert_eq!(dir.icon, "folder-symbolic");
    assert_eq!((dir.marker, dir.marker_class), ("M", Some("limux-fp-git-m")));
    let file = row_look(12, Kind::File, false, GitStatus::Clean);
    assert_eq!(file.depth_class, "limux-fp-depth-8");
    assert_eq!(file.chevron, None);
    assert_eq!(file.icon, "text-x-generic-symbolic");
    assert_eq!(file.marker, "");
}
