use lyrux_core::file_panel::ignore_rules::{walk_step, IgnoreRules, WalkStep};

fn rules() -> IgnoreRules {
    IgnoreRules::new("/w", "*.log\nbuild/\n# a comment\n!keep.log\n/top.txt\n")
}

#[test]
fn walk_step_records_what_the_rules_ignore() {
    let r = rules();
    assert_eq!(walk_step(&r, "/w/a.log", "a.log", false, false), WalkStep::Ignored);
    assert_eq!(walk_step(&r, "/w/sub/x.log", "x.log", false, false), WalkStep::Ignored);
    assert_eq!(walk_step(&r, "/w/build", "build", true, false), WalkStep::Ignored);
    assert_eq!(walk_step(&r, "/w/top.txt", "top.txt", false, false), WalkStep::Ignored);
}

#[test]
fn walk_step_keeps_and_descends_into_the_rest() {
    let r = rules();
    assert_eq!(walk_step(&r, "/w/keep.log", "keep.log", false, false), WalkStep::Keep);
    assert_eq!(walk_step(&r, "/w/build", "build", false, false), WalkStep::Keep);
    assert_eq!(walk_step(&r, "/w/sub/top.txt", "top.txt", false, false), WalkStep::Keep);
    assert_eq!(walk_step(&r, "/w/src", "src", true, false), WalkStep::Descend);
    assert_eq!(walk_step(&r, "/w/main.rs", "main.rs", false, false), WalkStep::Keep);
}

#[test]
fn walk_step_skips_hidden_entries_unless_shown() {
    let r = rules();
    assert_eq!(walk_step(&r, "/w/.git", ".git", true, false), WalkStep::Skip);
    assert_eq!(walk_step(&r, "/w/.git", ".git", true, true), WalkStep::Descend);
    assert_eq!(walk_step(&r, "/w/.x.log", ".x.log", false, true), WalkStep::Ignored);
}

#[test]
fn empty_rules_ignore_nothing() {
    let r = IgnoreRules::new("/w", "");
    assert_eq!(walk_step(&r, "/w/a.log", "a.log", false, false), WalkStep::Keep);
    assert_eq!(walk_step(&r, "/w/dir", "dir", true, false), WalkStep::Descend);
}
