use lyrux_core::file_panel::git::{is_well_formed_output, parse_porcelain_v2};
use lyrux_core::file_panel::model::GitStatus;

/// The status recorded last for `path`, as a map built from the entries would hold it.
fn lookup(entries: &[(String, GitStatus)], path: &str) -> Option<GitStatus> {
    entries.iter().rev().find(|(p, _)| p == path).map(|(_, s)| *s)
}

#[test]
fn parses_untracked() {
    let input = b"? src/new.rs\0";
    let m = parse_porcelain_v2("/proj", input);
    assert_eq!(lookup(&m, "/proj/src/new.rs"), Some(GitStatus::Untracked));
}

#[test]
fn parses_modified_changed_entry() {
    let input = b"1 .M N... 100644 100644 100644 abc def src/main.rs\0";
    let m = parse_porcelain_v2("/proj", input);
    assert_eq!(lookup(&m, "/proj/src/main.rs"), Some(GitStatus::Modified));
}

#[test]
fn parses_added_entry() {
    let input = b"1 A. N... 100644 100644 100644 abc def README.md\0";
    let m = parse_porcelain_v2("/proj", input);
    assert_eq!(lookup(&m, "/proj/README.md"), Some(GitStatus::Added));
}

#[test]
fn parses_ignored() {
    let input = b"! target/\0";
    let m = parse_porcelain_v2("/proj", input);
    assert_eq!(lookup(&m, "/proj/target/"), Some(GitStatus::Ignored));
}

#[test]
fn empty_input_returns_empty_map() {
    let m = parse_porcelain_v2("/proj", b"");
    assert!(m.is_empty());
}

#[test]
fn parses_deleted_entry() {
    let input = b"1 .D N... 100644 100644 000000 abc def gone.rs\0";
    let m = parse_porcelain_v2("/proj", input);
    assert_eq!(m, vec![("/proj/gone.rs".to_string(), GitStatus::Deleted)]);
}

#[test]
fn parses_conflict_entry() {
    let input = b"u UU N... 100644 100644 100644 100644 a b c both.rs\0";
    let m = parse_porcelain_v2("/proj", input);
    assert_eq!(m, vec![("/proj/both.rs".to_string(), GitStatus::Conflict)]);
}

#[test]
fn paths_with_spaces_survive_in_changed_entries() {
    let input = b"1 .M N... 100644 100644 100644 abc def my file.rs\0";
    let m = parse_porcelain_v2("/proj", input);
    assert_eq!(lookup(&m, "/proj/my file.rs"), Some(GitStatus::Modified));
}

#[test]
fn short_and_unknown_entries_are_skipped() {
    let input = b"1 .M N...\0# branch.oid abc\0? a.rs\0";
    let m = parse_porcelain_v2("/proj", input);
    assert_eq!(m, vec![("/proj/a.rs".to_string(), GitStatus::Untracked)]);
}

#[test]
fn several_entries_keep_their_order() {
    let input = b"? b.rs\0! out/\0? a.rs\0";
    let m = parse_porcelain_v2("/proj", input);
    assert_eq!(
        m,
        vec![
            ("/proj/b.rs".to_string(), GitStatus::Untracked),
            ("/proj/out/".to_string(), GitStatus::Ignored),
            ("/proj/a.rs".to_string(), GitStatus::Untracked),
        ]
    );
}

#[test]
fn well_formed_output_check() {
    assert!(is_well_formed_output(b""));
    assert!(is_well_formed_output(b"? a\0"));
    assert!(!is_well_formed_output(b"?\0"));
    assert!(!is_well_formed_output(b"? a\0!"));
}
