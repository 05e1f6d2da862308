use lyrux_core::editor::editorconfig::{apply_editorconfig_view, with_fallbacks};
use lyrux_core::editor::settings::ViewConfig;

fn s(v: &str) -> Option<String> {
    Some(v.to_string())
}

#[test]
fn indent_size_tab_takes_the_tab_width() {
    assert_eq!(with_fallbacks(&None, s("tab"), s("8")), (s("8"), s("8")));
    assert_eq!(with_fallbacks(&None, s("TAB"), None), (s("tab"), None));
}

#[test]
fn indent_size_is_copied_to_an_unset_tab_width() {
    assert_eq!(with_fallbacks(&None, s("2"), None), (s("2"), s("2")));
    assert_eq!(with_fallbacks(&None, s("2"), s("4")), (s("2"), s("4")));
}

#[test]
fn tab_width_is_copied_to_a_missing_indent_size() {
    assert_eq!(with_fallbacks(&None, None, s("3")), (s("3"), s("3")));
    assert_eq!(with_fallbacks(&None, None, s("UnSet")), (None, s("UnSet")));
    assert_eq!(with_fallbacks(&None, None, None), (None, None));
}

#[test]
fn indent_style_tab_fills_a_missing_indent_size() {
    assert_eq!(with_fallbacks(&s("Tab"), None, None), (s("tab"), None));
    assert_eq!(with_fallbacks(&s("tab"), s("4"), None), (s("4"), s("4")));
    assert_eq!(with_fallbacks(&s("space"), None, None), (None, None));
}

#[test]
fn editorconfig_view_reads_the_fallbacks() {
    let mut cfg = ViewConfig::default();
    cfg.tab_width = 4;
    cfg.insert_spaces = true;
    apply_editorconfig_view(&mut cfg, s("tab"), s("tab"), s("6"));
    assert!(!cfg.insert_spaces);
    assert_eq!(cfg.tab_width, 6);
    let mut cfg = ViewConfig::default();
    cfg.tab_width = 4;
    apply_editorconfig_view(&mut cfg, None, s("2"), None);
    assert_eq!(cfg.tab_width, 2);
}
