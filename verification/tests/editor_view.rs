use lyrux_core::editor::settings::ViewConfig;
use lyrux_core::editor::status_bar::{indent_label_text, language_label, line_col_text};
use lyrux_core::editor::view::editor_css;

fn expected(family: &str, size: i32) -> String {
    format!(
        ".sourceview, .sourceview text {{ font-family: \"{0}\", \"Lilex\", \"JetBrains Mono\", \"JetBrainsMono Nerd Font\", \"Cascadia Mono\", \"Fira Code\", \"Iosevka\", \"DejaVu Sans Mono\", monospace; font-size: {1}pt; padding: 6px 12px; line-height: 1.3; letter-spacing: 0; }} .lyrux-sticky-header {{ font-family: \"{0}\", \"Lilex\", \"JetBrains Mono\", monospace; font-size: {1}pt; padding: 2px 12px; background: alpha(@theme_bg_color, 0.92); color: @theme_fg_color; border-bottom: 1px solid alpha(@theme_fg_color, 0.18); font-weight: 600; }}",
        family, size
    )
}

#[test]
fn editor_css_uses_the_font_of_the_config() {
    let mut cfg = ViewConfig::default();
    cfg.font_family = "Fira Code".to_string();
    cfg.font_size = 13;
    assert_eq!(editor_css(&cfg), expected("Fira Code", 13));
}

#[test]
fn editor_css_takes_quotes_out_of_the_family() {
    let mut cfg = ViewConfig::default();
    cfg.font_family = "My \"Odd\" Font\"".to_string();
    cfg.font_size = -2;
    assert_eq!(editor_css(&cfg), expected("My Odd Font", -2));
}

#[test]
fn status_bar_texts() {
    assert_eq!(indent_label_text(true, 4), "Spaces: 4");
    assert_eq!(indent_label_text(false, 8), "Tab Width: 8");
    assert_eq!(line_col_text(0, 0), "Ln 1, Col 1");
    assert_eq!(line_col_text(41, 9), "Ln 42, Col 10");
    assert_eq!(line_col_text(-1, 2), "Ln 0, Col 3");
    assert_eq!(language_label(Some("Rust")), "Rust");
    assert_eq!(language_label(None), "Plain Text");
}
