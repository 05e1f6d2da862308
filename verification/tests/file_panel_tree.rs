use lyrux_core::file_panel::git::GitRefresh;
use lyrux_core::file_panel::model::{is_within_root, GitStatus, Kind};
use lyrux_core::file_panel::tree::{DirEntry, FsListing, ListChange, TreeModel, WatcherPlan};
use lyrux_core::file_panel::watcher::{gather_batch, MAX_PATHS_PER_TICK};

const ROOT: &str = "/w";

fn parent(p: &str) -> &str {
    &p[..p.rfind('/').unwrap()]
}

fn name(p: &str) -> &str {
    &p[p.rfind('/').unwrap() + 1..]
}

/// A disk holding `entries` under `/w`, as directory listings.
fn disk(entries: &[(&str, Kind)]) -> Vec<FsListing> {
    let mut dirs: Vec<String> = vec![ROOT.to_string()];
    for (p, k) in entries {
        if *k == Kind::Dir {
            dirs.push(p.to_string());
        }
    }
    dirs.iter()
        .map(|d| FsListing {
            dir: d.clone(),
            entries: entries
                .iter()
                .filter(|(p, _)| parent(p) == d)
                .map(|(p, k)| DirEntry { path: p.to_string(), name: name(p).to_string(), kind: *k })
                .collect(),
        })
        .collect()
}

fn model() -> TreeModel {
    TreeModel::new(ROOT.to_string())
}

fn names(m: &TreeModel) -> Vec<String> {
    m.rows.iter().map(|r| name(&r.path).to_string()).collect()
}

#[test]
fn new_model_is_empty() {
    let m = TreeModel::new("/tmp".to_string());
    assert_eq!(m.root, "/tmp");
    assert!(m.rows.is_empty());
    assert!(m.expanded_paths.is_empty());
    assert!(!m.hidden_visible);
    assert!(m.git_status_map.is_empty());
}

#[test]
fn rebuild_visible_lists_root_children_dirs_first() {
    let fs = disk(&[
        ("/w/src", Kind::Dir),
        ("/w/docs", Kind::Dir),
        ("/w/Cargo.toml", Kind::File),
        ("/w/README.md", Kind::File),
    ]);
    let mut m = model();
    m.rebuild_visible(&fs, Vec::new());
    assert_eq!(names(&m), vec!["docs", "src", "Cargo.toml", "README.md"]);
}

#[test]
fn rebuild_visible_uses_case_insensitive_sort() {
    let fs = disk(&[("/w/Apple.md", Kind::File), ("/w/banana.md", Kind::File), ("/w/Cherry.md", Kind::File)]);
    let mut m = model();
    m.rebuild_visible(&fs, Vec::new());
    assert_eq!(names(&m), vec!["Apple.md", "banana.md", "Cherry.md"]);
}

#[test]
fn rebuild_visible_marks_dirs_kind() {
    let fs = disk(&[("/w/src", Kind::Dir), ("/w/main.rs", Kind::File)]);
    let mut m = model();
    m.rebuild_visible(&fs, Vec::new());
    assert_eq!(m.rows[0].kind, Kind::Dir);
    assert_eq!(m.rows[1].kind, Kind::File);
}

#[test]
fn toggle_expand_inserts_children_after_parent() {
    let fs = disk(&[("/w/src", Kind::Dir), ("/w/src/main.rs", Kind::File), ("/w/src/lib.rs", Kind::File)]);
    let mut m = model();
    m.rebuild_visible(&fs, Vec::new());
    let src_idx = m.find_row("/w/src").unwrap();
    let change = m.toggle_expand(src_idx, &fs).unwrap();
    assert!(m.rows[src_idx].expanded);
    assert_eq!(m.rows.len(), 3);
    assert_eq!(m.rows[src_idx + 1].depth, 1);
    assert_eq!(m.rows[src_idx + 1].parent_idx, Some(src_idx));
    let ListChange::Replace { at, removed, rows } = change;
    assert_eq!((at, removed, rows.len()), (0, 1, 3));
}

#[test]
fn toggle_expand_twice_collapses_subtree() {
    let fs = disk(&[("/w/a", Kind::Dir), ("/w/a/b", Kind::Dir), ("/w/a/b/c.txt", Kind::File)]);
    let mut m = model();
    m.rebuild_visible(&fs, Vec::new());
    let a_idx = m.find_row("/w/a").unwrap();
    m.toggle_expand(a_idx, &fs);
    let b_idx = m.find_row("/w/a/b").unwrap();
    m.toggle_expand(b_idx, &fs);
    assert_eq!(m.rows.len(), 3);
    let change = m.toggle_expand(a_idx, &fs).unwrap();
    assert_eq!(m.rows.len(), 1);
    assert!(!m.rows[0].expanded);
    let ListChange::Replace { at, removed, rows } = change;
    assert_eq!((at, removed, rows.len()), (0, 3, 1));
    assert!(m.expanded_paths.is_empty());
}

#[test]
fn toggle_expand_on_file_is_noop() {
    let fs = disk(&[("/w/x.txt", Kind::File)]);
    let mut m = model();
    m.rebuild_visible(&fs, Vec::new());
    assert!(m.toggle_expand(0, &fs).is_none());
    assert!(m.toggle_expand(7, &fs).is_none());
    assert_eq!(m.rows.len(), 1);
    assert!(!m.rows[0].expanded);
}

#[test]
fn collapse_right_after_expand_restores_rows() {
    let fs = disk(&[("/w/a", Kind::Dir), ("/w/a/x", Kind::File), ("/w/b", Kind::File)]);
    let mut m = model();
    m.rebuild_visible(&fs, Vec::new());
    let before = m.rows.clone();
    m.toggle_expand(0, &fs);
    assert_eq!(m.rows.len(), 3);
    m.toggle_expand(0, &fs);
    assert_eq!(m.rows, before);
}

#[test]
fn hidden_files_filtered_by_default() {
    let fs = disk(&[("/w/.env", Kind::File), ("/w/visible.txt", Kind::File)]);
    let mut m = model();
    m.rebuild_visible(&fs, Vec::new());
    assert_eq!(m.rows.len(), 1);
    assert_eq!(name(&m.rows[0].path), "visible.txt");
}

#[test]
fn hidden_files_shown_when_toggled() {
    let fs = disk(&[("/w/.env", Kind::File), ("/w/visible.txt", Kind::File)]);
    let mut m = model();
    m.set_hidden_visible(true);
    m.rebuild_visible(&fs, Vec::new());
    assert_eq!(m.rows.len(), 2);
}

#[test]
fn toggling_hidden_after_rebuild_requires_rebuild() {
    let fs = disk(&[("/w/.env", Kind::File)]);
    let mut m = model();
    m.rebuild_visible(&fs, Vec::new());
    assert_eq!(m.rows.len(), 0);
    m.set_hidden_visible(true);
    assert_eq!(m.rows.len(), 0);
    m.rebuild_visible(&fs, Vec::new());
    assert_eq!(m.rows.len(), 1);
}

#[test]
fn git_status_applied_to_files_on_rebuild() {
    let fs = disk(&[("/w/main.rs", Kind::File)]);
    let mut m = model();
    m.set_git_status_map(vec![("/w/main.rs".to_string(), GitStatus::Modified)]);
    m.rebuild_visible(&fs, Vec::new());
    assert_eq!(m.rows[0].git_status, GitStatus::Modified);
}

#[test]
fn git_status_rolls_up_to_parent_dir_with_highest_priority() {
    let fs = disk(&[("/w/src", Kind::Dir), ("/w/src/a.rs", Kind::File), ("/w/src/b.rs", Kind::File)]);
    let mut m = model();
    m.set_git_status_map(vec![
        ("/w/src/a.rs".to_string(), GitStatus::Untracked),
        ("/w/src/b.rs".to_string(), GitStatus::Modified),
    ]);
    m.rebuild_visible(&fs, Vec::new());
    let src_row = m.rows.iter().find(|r| r.path == "/w/src").unwrap();
    assert_eq!(src_row.git_status, GitStatus::Modified);
}

#[test]
fn a_later_git_record_for_a_path_overrides_an_earlier_one() {
    let fs = disk(&[("/w/src", Kind::Dir), ("/w/src/a.rs", Kind::File), ("/w/b.rs", Kind::File)]);
    let mut m = model();
    m.set_git_status_map(vec![
        ("/w/src/a.rs".to_string(), GitStatus::Conflict),
        ("/w/b.rs".to_string(), GitStatus::Modified),
        ("/w/src//a.rs".to_string(), GitStatus::Untracked),
        ("/w/b.rs".to_string(), GitStatus::Added),
    ]);
    m.rebuild_visible(&fs, Vec::new());
    let src_row = m.rows.iter().find(|r| r.path == "/w/src").unwrap();
    assert_eq!(src_row.git_status, GitStatus::Untracked);
    let b_row = m.rows.iter().find(|r| r.path == "/w/b.rs").unwrap();
    assert_eq!(b_row.git_status, GitStatus::Added);
}

#[test]
fn find_row_returns_index_for_existing_path() {
    let fs = disk(&[("/w/main.rs", Kind::File)]);
    let mut m = model();
    m.rebuild_visible(&fs, Vec::new());
    assert_eq!(m.find_row("/w/main.rs"), Some(0));
}

#[test]
fn find_row_returns_none_for_missing_path() {
    let fs = disk(&[]);
    let mut m = model();
    m.rebuild_visible(&fs, Vec::new());
    assert_eq!(m.find_row("/w/nope.rs"), None);
}

#[test]
fn refresh_subtree_picks_up_new_file_in_expanded_dir() {
    let fs = disk(&[("/w/src", Kind::Dir)]);
    let mut m = model();
    m.rebuild_visible(&fs, Vec::new());
    let src_idx = m.find_row("/w/src").unwrap();
    m.toggle_expand(src_idx, &fs);
    assert_eq!(m.rows.len(), 1);
    let fs = disk(&[("/w/src", Kind::Dir), ("/w/src/new.rs", Kind::File)]);
    assert!(m.refresh_subtree("/w/src", &fs, Vec::new()));
    assert_eq!(m.rows.len(), 2);
}

#[test]
fn refresh_subtree_root_preserves_depth2_expansion() {
    let fs = disk(&[
        ("/w/tests", Kind::Dir),
        ("/w/tests/sub", Kind::Dir),
        ("/w/tests/sub/a.txt", Kind::File),
        ("/w/tests/sub/b.txt", Kind::File),
    ]);
    let mut m = model();
    m.rebuild_visible(&fs, Vec::new());
    let tests_idx = m.find_row("/w/tests").unwrap();
    m.toggle_expand(tests_idx, &fs);
    let sub_idx = m.find_row("/w/tests/sub").unwrap();
    m.toggle_expand(sub_idx, &fs);
    assert_eq!(m.rows.len(), 4, "expect root/tests + tests/sub + 2 files");
    let fs = disk(&[
        ("/w/tests", Kind::Dir),
        ("/w/tests/sub", Kind::Dir),
        ("/w/tests/sub/a.txt", Kind::File),
        ("/w/tests/sub/b.txt", Kind::File),
        ("/w/top.txt", Kind::File),
    ]);
    assert!(m.refresh_subtree(ROOT, &fs, Vec::new()));
    assert_eq!(m.rows.len(), 5, "refresh_subtree(root) must preserve depth-2 expansion");
    assert!(m.find_row("/w/tests/sub/a.txt").is_some());
    assert!(m.find_row("/w/tests/sub/b.txt").is_some());
}

#[test]
fn refresh_subtree_parent_preserves_descendant_expansion() {
    let fs = disk(&[("/w/src", Kind::Dir), ("/w/src/inner", Kind::Dir), ("/w/src/inner/x.rs", Kind::File)]);
    let mut m = model();
    m.rebuild_visible(&fs, Vec::new());
    let src_idx = m.find_row("/w/src").unwrap();
    m.toggle_expand(src_idx, &fs);
    let inner_idx = m.find_row("/w/src/inner").unwrap();
    m.toggle_expand(inner_idx, &fs);
    assert_eq!(m.rows.len(), 3);
    m.refresh_subtree("/w/src", &fs, Vec::new());
    assert_eq!(m.rows.len(), 3, "refresh_subtree(parent) must preserve grandchildren");
    assert!(m.find_row("/w/src/inner/x.rs").is_some());
}

#[test]
fn refresh_subtree_root_does_not_reexpand_collapsed_path() {
    let fs = disk(&[("/w/tests", Kind::Dir), ("/w/tests/sub", Kind::Dir), ("/w/tests/sub/a.txt", Kind::File)]);
    let mut m = model();
    m.rebuild_visible(&fs, Vec::new());
    let tests_idx = m.find_row("/w/tests").unwrap();
    m.toggle_expand(tests_idx, &fs);
    let sub_idx = m.find_row("/w/tests/sub").unwrap();
    m.toggle_expand(sub_idx, &fs);
    assert_eq!(m.rows.len(), 3);
    let sub_idx = m.find_row("/w/tests/sub").unwrap();
    m.toggle_expand(sub_idx, &fs);
    assert_eq!(m.rows.len(), 2);
    assert!(!m.expanded_paths.iter().any(|p| p == "/w/tests/sub"));
    m.refresh_subtree(ROOT, &fs, Vec::new());
    assert_eq!(m.rows.len(), 2, "collapsed sub must stay collapsed after refresh_subtree(root)");
    assert!(!m.expanded_paths.iter().any(|p| p == "/w/tests/sub"));
    let sub_row = m.find_row("/w/tests/sub").unwrap();
    assert!(!m.rows[sub_row].expanded, "collapsed sub row must not be re-expanded");
}

#[test]
fn refresh_subtree_parent_does_not_reexpand_collapsed_child() {
    let fs = disk(&[("/w/src", Kind::Dir), ("/w/src/inner", Kind::Dir), ("/w/src/inner/x.rs", Kind::File)]);
    let mut m = model();
    m.rebuild_visible(&fs, Vec::new());
    let src_idx = m.find_row("/w/src").unwrap();
    m.toggle_expand(src_idx, &fs);
    let inner_idx = m.find_row("/w/src/inner").unwrap();
    m.toggle_expand(inner_idx, &fs);
    assert_eq!(m.rows.len(), 3);
    let inner_idx = m.find_row("/w/src/inner").unwrap();
    m.toggle_expand(inner_idx, &fs);
    assert_eq!(m.rows.len(), 2);
    m.refresh_subtree("/w/src", &fs, Vec::new());
    assert_eq!(m.rows.len(), 2, "collapsed inner must stay collapsed after refresh_subtree(parent)");
    assert!(!m.expanded_paths.iter().any(|p| p == "/w/src/inner"));
}

#[test]
fn refresh_subtree_root_is_noop_when_fs_unchanged() {
    let fs = disk(&[("/w/src", Kind::Dir), ("/w/src/main.rs", Kind::File)]);
    let mut m = model();
    m.rebuild_visible(&fs, Vec::new());
    let src_idx = m.find_row("/w/src").unwrap();
    m.toggle_expand(src_idx, &fs);
    let rows_before = m.rows.clone();
    let changed = m.refresh_subtree(ROOT, &fs, Vec::new());
    assert!(!changed, "refresh_subtree(root) must report no-change when fs unchanged");
    assert_eq!(m.rows, rows_before, "rows must be untouched");
}

#[test]
fn refresh_of_collapsed_or_unknown_dir_changes_nothing() {
    let fs = disk(&[("/w/src", Kind::Dir), ("/w/src/main.rs", Kind::File)]);
    let mut m = model();
    m.rebuild_visible(&fs, Vec::new());
    assert!(!m.refresh_subtree("/w/src", &fs, Vec::new()));
    assert!(!m.refresh_subtree("/w/elsewhere", &fs, Vec::new()));
    assert_eq!(m.rows.len(), 1);
}

#[test]
fn row_in_gitignored_dir_has_ignored_flag() {
    let fs = disk(&[("/w/foo.log", Kind::File), ("/w/bar.txt", Kind::File)]);
    let mut m = model();
    m.rebuild_visible(&fs, vec!["/w/foo.log".to_string()]);
    let foo = m.rows.iter().find(|r| r.path == "/w/foo.log").unwrap();
    let bar = m.rows.iter().find(|r| r.path == "/w/bar.txt").unwrap();
    assert!(foo.ignored, "foo.log must be marked ignored");
    assert!(!bar.ignored, "bar.txt must not be marked ignored");
}

#[test]
fn boundary_check_blocks_escape_via_parent_dir() {
    let root = "/tmp/ws";
    let bad = "/tmp/ws/../escape.txt";
    assert!(!is_within_root(bad, root, None, Some("/tmp".to_string())));
}

#[test]
fn boundary_check_allows_paths_inside_root() {
    let root = "/tmp/ws";
    let good = "/tmp/ws/inside.txt";
    assert!(is_within_root(good, root, None, Some("/tmp/ws".to_string())));
    assert!(is_within_root(good, root, Some("/tmp/ws/inside.txt".to_string()), None));
}

#[test]
fn watcher_plan_refreshes_visible_parents() {
    let fs = disk(&[("/w/src", Kind::Dir), ("/w/src/a.rs", Kind::File), ("/w/docs", Kind::Dir)]);
    let mut m = model();
    m.rebuild_visible(&fs, vec!["/w/target".to_string()]);
    m.toggle_expand(m.find_row("/w/src").unwrap(), &fs);
    let plan = m.watcher_plan(vec![
        "/w/src/a.rs".to_string(),
        "/w/src/b.rs".to_string(),
        "/w/docs/x.md".to_string(),
        "/w/top.txt".to_string(),
        "/w/target".to_string(),
    ]);
    assert_eq!(plan, WatcherPlan { refresh: vec!["/w/src".to_string(), "/w".to_string()], refresh_git: false });
    let plan = m.watcher_plan(vec!["/w/.git/index".to_string()]);
    assert_eq!(plan, WatcherPlan { refresh: Vec::new(), refresh_git: true });
    let plan = m.watcher_plan(vec!["/w/target".to_string()]);
    assert_eq!(plan, WatcherPlan { refresh: Vec::new(), refresh_git: false });
}

#[test]
fn watcher_plan_falls_back_to_root_for_many_parents() {
    let mut m = model();
    let mut paths = Vec::new();
    for i in 0..6 {
        m.expanded_paths.push(format!("/w/d{i}"));
        paths.push(format!("/w/d{i}/f"));
    }
    let plan = m.watcher_plan(paths);
    assert_eq!(plan.refresh, vec!["/w".to_string()]);
}

#[test]
fn collapse_all_then_restore() {
    let fs = disk(&[("/w/a", Kind::Dir), ("/w/a/x", Kind::File)]);
    let mut m = model();
    m.rebuild_visible(&fs, Vec::new());
    m.toggle_expand(0, &fs);
    let kept = m.collapse_all_or_restore(None, &fs, Vec::new());
    assert_eq!(kept, Some(vec!["/w/a".to_string()]));
    assert_eq!(m.rows.len(), 1);
    assert!(m.collapse_all_or_restore(None, &fs, Vec::new()).is_none());
    assert_eq!(m.rows.len(), 1);
    assert!(m.collapse_all_or_restore(kept, &fs, Vec::new()).is_none());
    assert_eq!(m.expanded_paths, vec!["/w/a".to_string()]);
    assert!(m.rows[0].expanded);
}

#[test]
fn seeding_expands_collapsed_directories() {
    let fs = disk(&[("/w/a", Kind::Dir), ("/w/a/b", Kind::Dir), ("/w/a/b/c", Kind::File)]);
    let mut m = model();
    m.seed_expansion(&vec!["/w/a/b".to_string()], &fs, Vec::new());
    assert_eq!(m.rows.len(), 1);
    assert_eq!(m.expanded_paths, vec!["/w/a/b".to_string()]);
}

#[test]
fn watcher_drain_dispatches_in_batches_of_at_most_10k() {
    assert_eq!(MAX_PATHS_PER_TICK, 10_000);
}

#[test]
fn gathering_hands_out_full_batches() {
    let mut merged = vec!["a".to_string()];
    assert!(gather_batch(&mut merged, vec!["b".to_string()]).is_none());
    assert_eq!(merged.len(), 2);
    let big: Vec<String> = (0..MAX_PATHS_PER_TICK).map(|i| i.to_string()).collect();
    let batch = gather_batch(&mut merged, big).unwrap();
    assert_eq!(batch.len(), MAX_PATHS_PER_TICK + 2);
    assert_eq!(batch[0], "a");
    assert!(merged.is_empty());
}

#[test]
fn git_refresh_runs_one_at_a_time() {
    let mut g = GitRefresh::new();
    assert!(g.request());
    assert!(!g.request());
    assert!(g.finished());
    assert!(g.request());
    assert!(!g.finished());
    g.abandoned();
    assert!(!g.in_flight);
}

#[test]
fn a_freshly_built_tree_is_unchanged_by_a_root_refresh() {
    let fs = disk(&[("/w/b", Kind::Dir), ("/w/A.txt", Kind::File), ("/w/c.rs", Kind::File)]);
    let mut m = model();
    m.rebuild_visible(&fs, Vec::new());
    let rows_before = m.rows.clone();
    assert!(!m.refresh_subtree(ROOT, &fs, Vec::new()));
    assert_eq!(m.rows, rows_before);
}
