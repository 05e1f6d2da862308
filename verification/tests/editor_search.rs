use lyrux_core::editor::command_palette::{commands, filter_commands, MAX_RESULTS as PALETTE_MAX};
use lyrux_core::editor::find_in_files::{
    results_summary,
    parse_vimgrep_line, push_hit, ripgrep_args, search_query, Hit, MAX_RESULTS as FIF_MAX,
};
use lyrux_core::editor::quick_open::{fuzzy_score, moved_selection, rank, FileEntry, MAX_RESULTS};

#[test]
fn fuzzy_subsequence_match() {
    assert!(fuzzy_score("abc", "axbxc").is_some());
    assert!(fuzzy_score("abc", "cba").is_none());
    assert!(fuzzy_score("foo", "foobar").is_some());
}

#[test]
fn fuzzy_consecutive_beats_scattered() {
    let dense = fuzzy_score("ab", "ab").unwrap();
    let sparse = fuzzy_score("ab", "axxxxb").unwrap();
    assert!(dense > sparse);
}

#[test]
fn fuzzy_boundary_bonus() {
    let boundary = fuzzy_score("m", "main.rs").unwrap();
    let mid = fuzzy_score("m", "name.rs").unwrap();
    assert!(boundary > mid);
}

#[test]
fn fuzzy_exact_scores() {
    assert_eq!(fuzzy_score("", "anything"), Some(0));
    assert_eq!(fuzzy_score("ab", "ab"), Some(13 + 6));
    assert_eq!(fuzzy_score("ab", "axxxxb"), Some(13 + 1));
    assert_eq!(fuzzy_score("r", "src/r.rs"), Some(1));
    assert_eq!(fuzzy_score("x", "a_x"), Some(9));
    assert_eq!(fuzzy_score("abc", "ab"), None);
}

fn entry(path: &str, basename: &str, rel: &str, mtime: i128) -> FileEntry {
    FileEntry {
        path: path.to_string(),
        basename: basename.to_string(),
        rel_display: rel.to_string(),
        mtime,
    }
}

#[test]
fn rank_empty_query_returns_recency_order() {
    let now: i128 = 1_700_000_000_000_000_000;
    let older = now - 60_000_000_000;
    let files = vec![
        entry("/a/old.rs", "old.rs", "old.rs", older),
        entry("/a/new.rs", "new.rs", "new.rs", now),
    ];
    let ranked = rank(&files, "");
    assert_eq!(ranked[0].basename, "new.rs");
    assert_eq!(ranked[1].basename, "old.rs");
}

#[test]
fn rank_basename_beats_path_match() {
    let now: i128 = 1_700_000_000_000_000_000;
    let files = vec![
        entry("/a/main.rs", "main.rs", "src/main.rs", now),
        entry("/a/main/lib.rs", "lib.rs", "main/lib.rs", now),
    ];
    let ranked = rank(&files, "main");
    assert_eq!(ranked[0].basename, "main.rs");
}

#[test]
fn rank_respects_max_results() {
    let now: i128 = 1_700_000_000_000_000_000;
    let files: Vec<FileEntry> = (0..120)
        .map(|i| {
            entry(
                &format!("/a/file{i}.rs"),
                &format!("file{i}.rs"),
                &format!("file{i}.rs"),
                now,
            )
        })
        .collect();
    let ranked = rank(&files, "file");
    assert_eq!(ranked.len(), MAX_RESULTS);
}

#[test]
fn rank_ties_break_by_basename_then_position() {
    let files = vec![
        entry("/b/b.rs", "b.rs", "b.rs", 5),
        entry("/a/a.rs", "a.rs", "a.rs", 5),
        entry("/c/a.rs", "a.rs", "a.rs", 5),
    ];
    let ranked = rank(&files, "rs");
    assert_eq!(ranked[0].path, "/a/a.rs");
    assert_eq!(ranked[1].path, "/c/a.rs");
    assert_eq!(ranked[2].path, "/b/b.rs");
    let recent = rank(&files, "  ");
    assert_eq!(recent[0].path, "/b/b.rs");
    assert_eq!(recent[2].path, "/c/a.rs");
}

#[test]
fn rank_query_is_ascii_case_insensitive_and_filters() {
    let files = vec![entry("/a/Main.rs", "Main.rs", "Main.rs", 1), entry("/a/x.rs", "x.rs", "x.rs", 2)];
    let ranked = rank(&files, " MAIN ");
    assert_eq!(ranked.len(), 1);
    assert_eq!(ranked[0].basename, "Main.rs");
}

#[test]
fn selection_wraps_round() {
    assert_eq!(moved_selection(0, 3, -1), Some(2));
    assert_eq!(moved_selection(2, 3, 1), Some(0));
    assert_eq!(moved_selection(1, 3, 1), Some(2));
    assert_eq!(moved_selection(0, 0, 1), None);
}

#[test]
fn parses_basic_vimgrep_line() {
    let hit = parse_vimgrep_line("/tmp/foo.rs:12:5:    let x = 1;").unwrap();
    assert_eq!(hit.path, "/tmp/foo.rs");
    assert_eq!(hit.line, 12);
    assert_eq!(hit.col, 5);
    assert_eq!(hit.snippet, "    let x = 1;");
}

#[test]
fn parses_line_with_colons_in_content() {
    let hit = parse_vimgrep_line("/tmp/foo.rs:3:9:    let x: u32 = 1;").unwrap();
    assert_eq!(hit.line, 3);
    assert_eq!(hit.col, 9);
    assert_eq!(hit.snippet, "    let x: u32 = 1;");
}

#[test]
fn rejects_malformed_line() {
    assert!(parse_vimgrep_line("not a real line").is_none());
    assert!(parse_vimgrep_line("/tmp/f.rs:nope:5:x").is_none());
    assert!(parse_vimgrep_line(":1:1:body").is_none());
}

#[test]
fn rejects_missing_fields() {
    assert!(parse_vimgrep_line("/tmp/f.rs:1:2").is_none());
    assert!(parse_vimgrep_line("/tmp/f.rs:1").is_none());
}

#[test]
fn vimgrep_accepts_plus_sign_and_empty_text() {
    let hit = parse_vimgrep_line("a:+7:1:").unwrap();
    assert_eq!(hit, Hit { path: "a".to_string(), line: 7, col: 1, snippet: String::new() });
}

#[test]
fn collecting_hits_stops_at_the_limit() {
    let mut hits: Vec<Hit> = Vec::new();
    assert!(push_hit(&mut hits, "a:1:1:x"));
    assert!(push_hit(&mut hits, "garbage"));
    assert_eq!(hits.len(), 1);
    for _ in 1..FIF_MAX - 1 {
        assert!(push_hit(&mut hits, "a:1:1:x"));
    }
    assert!(!push_hit(&mut hits, "b:2:2:y"));
    assert_eq!(hits.len(), FIF_MAX);
    assert_eq!(hits[FIF_MAX - 1].path, "b");
}

#[test]
fn empty_query_returns_all_commands() {
    let result = filter_commands("");
    assert_eq!(result.len(), commands().len());
}

#[test]
fn substring_filter_matches_case_insensitive() {
    let result = filter_commands("WORKSPACE");
    assert!(result.iter().any(|c| c.label.contains("Workspace")));
    assert!(!result.is_empty());
}

#[test]
fn unmatched_query_returns_empty() {
    let result = filter_commands("zzzzzzzzz-no-such-command");
    assert!(result.is_empty());
}

#[test]
fn every_command_label_non_empty() {
    for cmd in commands() {
        assert!(!cmd.label.is_empty(), "label must be non-empty");
        assert!(!cmd.action_name.is_empty(), "action_name must be non-empty");
        assert!(
            cmd.action_name.starts_with("win.") || cmd.action_name.starts_with("app."),
            "action_name `{}` must be win.* or app.*",
            cmd.action_name
        );
    }
}

#[test]
fn palette_filter_keeps_table_order() {
    let result = filter_commands("  pane: focus ");
    let labels: Vec<&str> = result.iter().map(|c| c.label).collect();
    assert_eq!(
        labels,
        vec!["Pane: Focus Left", "Pane: Focus Right", "Pane: Focus Up", "Pane: Focus Down"]
    );
    assert!(commands().len() <= PALETTE_MAX);
}

#[test]
fn search_queries_are_trimmed_and_need_two_bytes() {
    assert_eq!(search_query("  a "), None);
    assert_eq!(search_query("   "), None);
    assert_eq!(search_query(" ab "), Some("ab".to_string()));
    assert_eq!(search_query("é"), Some("é".to_string()));
}

#[test]
fn ripgrep_command_line() {
    let args = ripgrep_args("needle", "/w");
    assert_eq!(
        args,
        vec![
            "--vimgrep", "--color", "never", "--no-heading", "--no-messages", "--smart-case", "--hidden",
            "--max-columns", "500", "--max-filesize", "10M", "-e", "needle", "/w",
        ]
    );
}

#[test]
fn find_in_files_summary_counts_matches_and_files() {
    assert_eq!(lyrux_core::editor::strings::fif_results_label(12, 3), "12 matches in 3 files");
}

fn hit(path: &str, line: usize) -> Hit {
    Hit { path: path.to_string(), line, col: 1, snippet: String::new() }
}

#[test]
fn results_summary_counts_matches_and_files() {
    assert_eq!(results_summary(&Vec::new()), None);
    let hits = vec![hit("/r/a.rs", 1), hit("/r/b.rs", 2), hit("/r//a.rs", 9), hit("/r/a.rs", 4)];
    assert_eq!(results_summary(&hits), Some("4 matches in 2 files".to_string()));
    assert_eq!(results_summary(&hits[..1].to_vec()), Some("1 matches in 1 files".to_string()));
}
