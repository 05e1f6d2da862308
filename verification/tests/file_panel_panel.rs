use lyrux_core::file_panel::model::{GitStatus, Kind};
use lyrux_core::file_panel::actions::{action_for_name, action_names, PanelAction};
use lyrux_core::file_panel::clipboard::ClipMode;
use lyrux_core::file_panel::panel::{target_parent, untitled_name, PanelState};
use lyrux_core::file_panel::tree::{DirEntry, FsListing, ListChange};

fn parent(p: &str) -> &str {
    &p[..p.rfind('/').unwrap()]
}

fn name(p: &str) -> &str {
    &p[p.rfind('/').unwrap() + 1..]
}

/// A disk holding `entries` under the directories `roots`, as listings.
fn disk(roots: &[&str], entries: &[(&str, Kind)]) -> Vec<FsListing> {
    let mut dirs: Vec<String> = roots.iter().map(|r| r.to_string()).collect();
    for (p, k) in entries {
        if *k == Kind::Dir {
            dirs.push(p.to_string());
        }
    }
    dirs.iter()
        .map(|d| FsListing {
            dir: d.clone(),
            entries: entries
                .iter()
                .filter(|(p, _)| parent(p) == d)
                .map(|(p, k)| DirEntry { path: p.to_string(), name: name(p).to_string(), kind: *k })
                .collect(),
        })
        .collect()
}

fn two_workspaces() -> Vec<FsListing> {
    disk(
        &["/a", "/b"],
        &[
            ("/a/sub", Kind::Dir),
            ("/a/sub/inner.txt", Kind::File),
            ("/a/ina.txt", Kind::File),
            ("/b/inb.txt", Kind::File),
        ],
    )
}

fn snapshot<'a>(p: &'a PanelState, id: &str) -> Option<&'a Vec<String>> {
    p.snapshots.iter().find(|(k, _)| k == id).map(|(_, v)| v)
}

fn cached(p: &PanelState, id: &str) -> bool {
    p.cache.iter().any(|w| w.id == id)
}

fn row_names(p: &PanelState, id: &str) -> Vec<String> {
    let w = p.cache.iter().find(|w| w.id == id).unwrap();
    w.model.rows.iter().map(|r| name(&r.path).to_string()).collect()
}

#[test]
fn hibernate_workspace_saves_expanded_paths_to_snapshot() {
    let fs = two_workspaces();
    let mut p = PanelState::new();
    p.show_workspace("A".into(), "/a".into(), &vec!["/a/sub".to_string()], &fs, Vec::new());
    p.hibernate_workspace("A");
    let snap = snapshot(&p, "A").expect("snapshot present");
    assert!(snap.contains(&"/a/sub".to_string()), "snapshot should contain expanded path");
}

#[test]
fn hibernate_workspace_drops_cache_entry() {
    let fs = two_workspaces();
    let mut p = PanelState::new();
    p.show_workspace("A".into(), "/a".into(), &Vec::new(), &fs, Vec::new());
    assert!(cached(&p, "A"));
    p.hibernate_workspace("A");
    assert!(!cached(&p, "A"));
}

#[test]
fn show_workspace_hibernates_previously_active() {
    let fs = two_workspaces();
    let mut p = PanelState::new();
    p.show_workspace("A".into(), "/a".into(), &vec!["/a/sub".to_string()], &fs, Vec::new());
    let out = p.show_workspace("B".into(), "/b".into(), &Vec::new(), &fs, Vec::new());
    assert!(!cached(&p, "A"), "A should be hibernated");
    assert!(cached(&p, "B"), "B should be active");
    assert_eq!(out.hibernated, vec!["A".to_string()]);
    let snap_a = snapshot(&p, "A").expect("A snapshot present");
    assert!(snap_a.contains(&"/a/sub".to_string()), "A's expanded path should survive in snapshot");
}

#[test]
fn show_workspace_restores_expansion_from_snapshot() {
    let fs = two_workspaces();
    let mut p = PanelState::new();
    p.show_workspace("A".into(), "/a".into(), &vec!["/a/sub".to_string()], &fs, Vec::new());
    p.show_workspace("B".into(), "/b".into(), &Vec::new(), &fs, Vec::new());
    let out = p.show_workspace("A".into(), "/a".into(), &Vec::new(), &fs, Vec::new());
    assert!(out.built);
    let w = p.cache.iter().find(|w| w.id == "A").expect("A re-cached");
    assert!(w.model.expanded_paths.contains(&"/a/sub".to_string()), "expansion should be restored from snapshot");
    // Listing the root marks the saved directory expanded; its children come
    // with the next refresh of the tree.
    assert_eq!(row_names(&p, "A"), vec!["sub", "ina.txt"]);
    assert!(w.model.rows[0].expanded);
}

#[test]
fn switch_workspace_swaps_root() {
    let fs = two_workspaces();
    let mut p = PanelState::new();
    p.show_workspace("A".into(), "/a".into(), &Vec::new(), &fs, Vec::new());
    assert_eq!(p.current_root(), Some("/a".to_string()));
    p.show_workspace("B".into(), "/b".into(), &Vec::new(), &fs, Vec::new());
    assert_eq!(p.current_root(), Some("/b".to_string()));
    assert_eq!(row_names(&p, "B"), vec!["inb.txt"]);
}

#[test]
fn toggle_visible_flips_state() {
    let mut p = PanelState::new();
    p.set_visible(false);
    assert!(!p.is_visible());
    p.toggle_visible();
    assert!(p.is_visible());
}

#[test]
fn showing_the_active_workspace_again_changes_nothing() {
    let fs = two_workspaces();
    let mut p = PanelState::new();
    let first = p.show_workspace("A".into(), "/a".into(), &Vec::new(), &fs, Vec::new());
    assert!(first.shown && first.built && first.start_git);
    let again = p.show_workspace("A".into(), "/a".into(), &Vec::new(), &fs, Vec::new());
    assert!(!again.shown && !again.built && !again.start_git);
    assert_eq!(p.cache.len(), 1);
}

#[test]
fn forget_workspace_clears_everything_about_it() {
    let fs = two_workspaces();
    let mut p = PanelState::new();
    p.show_workspace("A".into(), "/a".into(), &vec!["/a/sub".to_string()], &fs, Vec::new());
    p.show_workspace("B".into(), "/b".into(), &Vec::new(), &fs, Vec::new());
    p.forget_workspace("A");
    assert!(snapshot(&p, "A").is_none());
    p.forget_workspace("B");
    assert!(p.active.is_none());
    assert!(p.cache.is_empty());
    assert_eq!(p.current_root(), None);
}

#[test]
fn git_runs_are_coalesced_per_workspace() {
    let fs = two_workspaces();
    let mut p = PanelState::new();
    let out = p.show_workspace("A".into(), "/a".into(), &Vec::new(), &fs, Vec::new());
    assert!(out.start_git);
    assert!(!p.refresh_git_for("A"));
    let map = vec![("/a/ina.txt".to_string(), GitStatus::Modified)];
    let applied = p.apply_git_result("A", map.clone(), &fs, Vec::new());
    assert!(!applied.redraw, "the disk did not change, so the rows stay");
    assert!(applied.start_git, "the request made during the run starts one more");
    assert_eq!(p.cache[0].model.git_status_map, map);
    let fs2 = disk(&["/a"], &[("/a/sub", Kind::Dir), ("/a/ina.txt", Kind::File), ("/a/n.txt", Kind::File)]);
    let applied = p.apply_git_result("A", map, &fs2, Vec::new());
    assert!(applied.redraw);
    assert!(!applied.start_git);
    let row = p.cache[0].model.rows.iter().find(|r| r.path == "/a/ina.txt").unwrap();
    assert_eq!(row.git_status, GitStatus::Modified);
    assert!(p.refresh_git_for("A"));
    p.git_abandoned("A");
    assert!(p.refresh_git_for("A"));
    assert!(!p.refresh_git_for("missing"));
}

#[test]
fn watcher_event_refreshes_the_active_workspace_only() {
    let fs = two_workspaces();
    let mut p = PanelState::new();
    p.show_workspace("A".into(), "/a".into(), &Vec::new(), &fs, Vec::new());
    p.git_abandoned("A");
    let fs2 = disk(
        &["/a", "/b"],
        &[("/a/sub", Kind::Dir), ("/a/ina.txt", Kind::File), ("/a/new.txt", Kind::File)],
    );
    let other = p.on_watcher_event("B", vec!["/b/inb.txt".to_string()], &fs2, &Vec::new());
    assert!(!other.redraw && !other.start_git);
    let out = p.on_watcher_event("A", vec!["/a/new.txt".to_string()], &fs2, &Vec::new());
    assert!(out.redraw);
    assert!(!out.start_git);
    assert_eq!(row_names(&p, "A"), vec!["sub", "ina.txt", "new.txt"]);
    let git = p.on_watcher_event("A", vec!["/a/.git/index".to_string()], &fs2, &Vec::new());
    assert!(git.start_git);
}

#[test]
fn toggle_expand_path_and_collapse_all_then_restore() {
    let fs = two_workspaces();
    let mut p = PanelState::new();
    p.show_workspace("A".into(), "/a".into(), &Vec::new(), &fs, Vec::new());
    assert!(p.toggle_expand_path("/a/sub", &fs).is_some());
    assert_eq!(row_names(&p, "A"), vec!["sub", "inner.txt", "ina.txt"]);
    assert!(p.toggle_expand_path("/a/nothing", &fs).is_none());
    assert!(p.collapse_all_or_restore(&fs, Vec::new()));
    assert_eq!(row_names(&p, "A"), vec!["sub", "ina.txt"]);
    assert_eq!(snapshot(&p, "A"), Some(&vec!["/a/sub".to_string()]));
    assert!(p.collapse_all_or_restore(&fs, Vec::new()));
    assert_eq!(p.cache[0].model.expanded_paths, vec!["/a/sub".to_string()]);
    assert_eq!(row_names(&p, "A"), vec!["sub", "ina.txt"]);
    assert!(p.cache[0].model.rows[0].expanded);
}

#[test]
fn restore_without_snapshot_does_nothing() {
    let fs = two_workspaces();
    let mut p = PanelState::new();
    p.show_workspace("A".into(), "/a".into(), &Vec::new(), &fs, Vec::new());
    assert!(!p.collapse_all_or_restore(&fs, Vec::new()));
}

#[test]
fn toggle_hidden_lists_dot_files() {
    let fs = disk(&["/a"], &[("/a/.env", Kind::File), ("/a/x.txt", Kind::File)]);
    let mut p = PanelState::new();
    p.show_workspace("A".into(), "/a".into(), &Vec::new(), &fs, Vec::new());
    assert_eq!(row_names(&p, "A"), vec!["x.txt"]);
    assert!(p.toggle_hidden(&fs, Vec::new()));
    assert_eq!(row_names(&p, "A"), vec![".env", "x.txt"]);
}

#[test]
fn desired_width_falls_back_without_a_workspace() {
    let fs = two_workspaces();
    let mut p = PanelState::new();
    assert_eq!(p.desired_width(), 200);
    p.show_workspace("A".into(), "/a".into(), &Vec::new(), &fs, Vec::new());
    assert_eq!(p.desired_width(), 260);
}

#[test]
fn new_entries_go_into_the_selected_directory_or_next_to_the_selected_file() {
    assert_eq!(target_parent(None, "/a"), "/a");
    assert_eq!(target_parent(Some(("/a/sub", true)), "/a"), "/a/sub");
    assert_eq!(target_parent(Some(("/a/sub/f.txt", false)), "/a"), "/a/sub");
}

#[test]
fn untitled_names_carry_counter_and_nanoseconds() {
    assert_eq!(untitled_name("untitled.txt", 3, 120), "untitled.txt-3-120");
}

#[test]
fn action_names_map_to_panel_actions() {
    let names = action_names();
    assert_eq!(names.len(), 18);
    assert_eq!(names[0], "fp-new-file");
    assert_eq!(action_for_name("fp-delete"), Some(PanelAction::Delete { permanent: false }));
    assert_eq!(action_for_name("fp-delete-permanent"), Some(PanelAction::Delete { permanent: true }));
    assert_eq!(action_for_name("fp-cut"), Some(PanelAction::Clip(ClipMode::Cut)));
    assert_eq!(action_for_name("fp-collapse-all"), Some(PanelAction::CollapseAllOrRestore));
    assert_eq!(action_for_name("fp-copy-path"), None);
    assert_eq!(action_for_name("nope"), None);
}

#[test]
fn toggle_expand_path_hands_back_the_list_change() {
    let fs = two_workspaces();
    let mut p = PanelState::new();
    p.show_workspace("A".into(), "/a".into(), &Vec::new(), &fs, Vec::new());
    let ListChange::Replace { at, removed, rows } =
        p.toggle_expand_path("/a/sub", &fs).unwrap();
    assert_eq!((at, removed), (0, 1));
    let names: Vec<&str> = rows.iter().map(|r| r.path.as_str()).collect();
    assert_eq!(names, vec!["/a/sub", "/a/sub/inner.txt"]);
    assert!(rows[0].expanded);
    let ListChange::Replace { at, removed, rows } =
        p.toggle_expand_path("/a/sub", &fs).unwrap();
    assert_eq!((at, removed, rows.len()), (0, 2, 1));
    assert!(!rows[0].expanded);
}
