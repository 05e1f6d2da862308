use lyrux_core::file_panel::ops::{
    candidate_name, check_all_within, copy_name_available, duplicate, plan_new_entry, plan_rename,
    split_name, unique_target, OpError,
};

fn s(v: &str) -> String {
    v.to_string()
}

fn names(v: &[&str]) -> Vec<String> {
    v.iter().map(|x| x.to_string()).collect()
}

#[test]
fn new_entry_inside_root_is_planned() {
    let r = plan_new_entry("/r", "/r", "hello.txt", None, Some(s("/r")), false);
    assert_eq!(r.unwrap(), "/r/hello.txt");
}

#[test]
fn new_entry_outside_root_is_refused() {
    let r = plan_new_entry("/r", "/r/..", "hello.txt", None, Some(s("/")), false);
    assert!(matches!(r, Err(OpError::OutOfRoot)));
}

#[test]
fn new_entry_over_existing_is_refused() {
    let r = plan_new_entry("/r", "/r", "x", Some(s("/r/x")), Some(s("/r")), true);
    assert!(matches!(r, Err(OpError::AlreadyExists)));
}

#[test]
fn new_entry_without_any_canonical_form_is_outside() {
    let r = plan_new_entry("/r", "/gone", "x", None, None, false);
    assert!(matches!(r, Err(OpError::OutOfRoot)));
}

#[test]
fn rename_plans_a_sibling() {
    let r = plan_rename("/r", "/r/a", "b", None, Some(s("/r")), false);
    assert_eq!(r.unwrap(), "/r/b");
}

#[test]
fn rename_onto_an_existing_name_is_refused() {
    let r = plan_rename("/r", "/r/a", "b", Some(s("/r/b")), Some(s("/r")), true);
    assert!(matches!(r, Err(OpError::AlreadyExists)));
}

#[test]
fn deleting_outside_the_root_is_refused() {
    let paths = names(&["/r/a", "/r/../escape.txt"]);
    let canons = vec![Some(s("/r/a")), None];
    let parents = vec![Some(s("/r")), Some(s("/"))];
    assert!(matches!(check_all_within("/r", &paths, &canons, &parents), Err(OpError::OutOfRoot)));
    assert!(check_all_within("/r", &paths[..1], &canons[..1], &parents[..1]).is_ok());
}

#[test]
fn names_split_at_the_last_dot_unless_hidden_or_a_directory() {
    assert_eq!(split_name("/r/foo.tar.gz", false), (s("foo.tar"), Some(s("gz"))));
    assert_eq!(split_name("/r/.bashrc", false), (s(".bashrc"), None));
    assert_eq!(split_name("/r/dir.d", true), (s("dir.d"), None));
    assert_eq!(candidate_name("foo", &Some(s("rs")), 12), "foo (12).rs");
    assert_eq!(candidate_name("dir", &None, 1), "dir (1)");
}

#[test]
fn duplicating_a_file_uses_suffix_one() {
    let taken = names(&["foo.rs"]);
    assert!(copy_name_available("/r/foo.rs", false, &taken));
    let r = duplicate("/r", "/r/foo.rs", Some(s("/r/foo.rs")), Some(s("/r")), false, &taken);
    assert_eq!(r.unwrap(), "/r/foo (1).rs");
}

#[test]
fn duplicating_a_directory_uses_suffix_one() {
    let taken = names(&["dir"]);
    let r = duplicate("/r", "/r/dir", Some(s("/r/dir")), Some(s("/r")), true, &taken);
    assert_eq!(r.unwrap(), "/r/dir (1)");
}

#[test]
fn duplicating_skips_taken_suffixes() {
    let taken = names(&["a.txt", "a (1).txt"]);
    let r = duplicate("/r", "/r/a.txt", Some(s("/r/a.txt")), Some(s("/r")), false, &taken);
    assert_eq!(r.unwrap(), "/r/a (2).txt");
}

#[test]
fn duplicating_outside_the_root_is_refused() {
    let taken = names(&["x"]);
    let r = duplicate("/r", "/etc/x", Some(s("/etc/x")), Some(s("/etc")), false, &taken);
    assert!(matches!(r, Err(OpError::OutOfRoot)));
}

#[test]
fn pasting_keeps_the_name_when_free_and_numbers_it_otherwise() {
    assert_eq!(unique_target("/r/dst", "/r/a.txt", false, &Vec::new()), "/r/dst/a.txt");
    let taken = names(&["a.txt"]);
    assert_eq!(unique_target("/r/dst", "/r/a.txt", false, &taken), "/r/dst/a (1).txt");
}
