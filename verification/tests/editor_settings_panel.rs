use lyrux_core::editor::settings::{EditorSettings, ThemeMode};
use lyrux_core::editor::settings_panel::{
    choose_font, choose_theme, theme_position, theme_slot_visible, ThemeSlot, MIN_FONT_POINTS,
    PANGO_SCALE,
};

fn entries() -> Vec<(String, String)> {
    vec![
        ("lyrux-grey".to_string(), "Lyrux Grey".to_string()),
        ("oblivion".to_string(), "Oblivion".to_string()),
        ("classic".to_string(), "Classic".to_string()),
    ]
}

#[test]
fn theme_rows_follow_the_mode() {
    assert!(theme_slot_visible(ThemeMode::Manual, ThemeSlot::Manual));
    assert!(!theme_slot_visible(ThemeMode::Manual, ThemeSlot::Dark));
    assert!(!theme_slot_visible(ThemeMode::Manual, ThemeSlot::Light));
    assert!(!theme_slot_visible(ThemeMode::System, ThemeSlot::Manual));
    assert!(theme_slot_visible(ThemeMode::System, ThemeSlot::Dark));
    assert!(theme_slot_visible(ThemeMode::System, ThemeSlot::Light));
}

#[test]
fn theme_position_finds_the_id_or_falls_back_to_the_first_row() {
    let e = entries();
    assert_eq!(theme_position(&e, "oblivion"), 1);
    assert_eq!(theme_position(&e, "classic"), 2);
    assert_eq!(theme_position(&e, "missing"), 0);
    assert_eq!(theme_position(&Vec::new(), "classic"), 0);
}

#[test]
fn choosing_a_theme_sets_only_its_slot() {
    let e = entries();
    let base = EditorSettings::default();
    let next = choose_theme(base.clone(), ThemeSlot::Dark, &e, 2).unwrap();
    assert_eq!(next.theme_id_dark, "classic");
    assert_eq!(next.theme_id, base.theme_id);
    assert_eq!(next.theme_id_light, base.theme_id_light);
    assert_eq!(next.font_size, base.font_size);
    let next = choose_theme(base.clone(), ThemeSlot::Manual, &e, 1).unwrap();
    assert_eq!(next.theme_id, "oblivion");
    assert_eq!(choose_theme(base, ThemeSlot::Light, &e, 3), None);
}

#[test]
fn choosing_a_font_sets_family_and_whole_points() {
    let base = EditorSettings::default();
    let next = choose_font(base.clone(), "Fira Code".to_string(), 14 * PANGO_SCALE + 512);
    assert_eq!(next.font_family, "Fira Code");
    assert_eq!(next.font_size, 14);
    let next = choose_font(base.clone(), String::new(), 3 * PANGO_SCALE);
    assert_eq!(next.font_family, base.font_family);
    assert_eq!(next.font_size, MIN_FONT_POINTS);
    assert_eq!(choose_font(base.clone(), "X".to_string(), -5000).font_size, 8);
    assert_eq!(choose_font(base, "X".to_string(), 8 * 1024).font_size, 8);
}
