use lyrux_core::editor::langs::needs_write;
use lyrux_core::editor::langs::with_search_dir;
use lyrux_core::editor::langs::language_id_for_extension;

fn ext_id(ext: &str) -> Option<&'static str> {
    language_id_for_extension(ext)
}

#[test]
fn maps_rust() {
    assert_eq!(ext_id("rs"), Some("rust"));
}

#[test]
fn maps_typescript() {
    assert_eq!(ext_id("ts"), Some("typescript"));
    assert_eq!(ext_id("tsx"), Some("typescript-jsx"));
}

#[test]
fn maps_json() {
    assert_eq!(ext_id("json"), Some("json"));
}

#[test]
fn maps_javascript_family() {
    assert_eq!(ext_id("js"), Some("js"));
    assert_eq!(ext_id("jsx"), Some("js"));
    assert_eq!(ext_id("mjs"), Some("js"));
    assert_eq!(ext_id("cjs"), Some("js"));
}

#[test]
fn maps_python_family() {
    assert_eq!(ext_id("py"), Some("python3"));
    assert_eq!(ext_id("pyi"), Some("python3"));
}

#[test]
fn maps_c_header_separately() {
    assert_eq!(ext_id("c"), Some("c"));
    assert_eq!(ext_id("h"), Some("chdr"));
}

#[test]
fn unknown_returns_none() {
    assert!(ext_id("zzzz").is_none());
}

#[test]
fn lang_ids_are_case_sensitive() {
    assert_eq!(ext_id("RS"), None);
    assert_eq!(ext_id(""), None);
}

#[test]
fn bundled_filenames_unique() {
    let mut names: Vec<&str> = lyrux_core::editor::snippets::bundled_snippet_names();
    names.sort();
    let len_before = names.len();
    names.dedup();
    assert_eq!(len_before, names.len(), "duplicate snippet filename");
}

#[test]
fn bundled_snippet_names_are_snippet_files() {
    let names = lyrux_core::editor::snippets::bundled_snippet_names();
    assert_eq!(names.len(), 16);
    assert!(names.iter().all(|n| n.ends_with(".snippets")));
    assert_eq!(names[0], "c.snippets");
}

#[test]
fn needs_write_only_when_contents_differ() {
    assert!(needs_write(None, "x"));
    assert!(needs_write(Some("y"), "x"));
    assert!(!needs_write(Some("x"), "x"));
}

#[test]
fn search_dir_is_put_first_once() {
    let (paths, changed) = with_search_dir(vec!["/a".to_string()], "/c".to_string());
    assert_eq!(paths, vec!["/c".to_string(), "/a".to_string()]);
    assert!(changed);
    let (paths, changed) = with_search_dir(paths, "/a".to_string());
    assert_eq!(paths, vec!["/c".to_string(), "/a".to_string()]);
    assert!(!changed);
}
