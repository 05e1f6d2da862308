use lyrux_core::editor::find_bar::{
    autofill_text, case_sensitive_after_edit, find_entry_key, match_count, replace_entry_key,
    FindBarAction, FindKey, MatchCount, AUTOFILL_MAX,
};

#[test]
fn autofill_takes_a_one_line_selection() {
    assert_eq!(autofill_text("needle"), Some("needle".to_string()));
    assert_eq!(autofill_text("été"), Some("été".to_string()));
}

#[test]
fn autofill_skips_empty_and_multi_line_selections() {
    assert_eq!(autofill_text(""), None);
    assert_eq!(autofill_text("a\nb"), None);
    assert_eq!(autofill_text("\n"), None);
}

#[test]
fn autofill_truncates_to_the_limit() {
    let long: String = std::iter::repeat('é').take(AUTOFILL_MAX + 7).collect();
    let got = autofill_text(&long).unwrap();
    assert_eq!(got.chars().count(), AUTOFILL_MAX);
    assert_eq!(AUTOFILL_MAX, 100);
}

#[test]
fn smart_case_follows_upper_case_letters() {
    assert!(!case_sensitive_after_edit(false, true, "needle"));
    assert!(case_sensitive_after_edit(false, false, "Needle"));
    assert!(case_sensitive_after_edit(false, false, "straße Ä"));
    assert!(!case_sensitive_after_edit(false, true, "123 _-"));
}

#[test]
fn a_manual_case_toggle_wins_over_smart_case() {
    assert!(case_sensitive_after_edit(true, true, "needle"));
    assert!(!case_sensitive_after_edit(true, false, "Needle"));
}

#[test]
fn enter_and_escape_in_the_query_entry() {
    assert_eq!(find_entry_key(FindKey::Enter, false, false, false), Some(FindBarAction::FindNext));
    assert_eq!(find_entry_key(FindKey::Enter, false, false, true), Some(FindBarAction::FindPrevious));
    assert_eq!(find_entry_key(FindKey::Enter, true, true, true), Some(FindBarAction::ReplaceAll));
    assert_eq!(find_entry_key(FindKey::Enter, true, false, false), Some(FindBarAction::FindNext));
    assert_eq!(find_entry_key(FindKey::Escape, true, false, false), Some(FindBarAction::Close));
    assert_eq!(find_entry_key(FindKey::Other, false, false, false), None);
}

#[test]
fn enter_and_escape_in_the_replacement_entry() {
    assert_eq!(replace_entry_key(FindKey::Enter, false, false), Some(FindBarAction::ReplaceOne));
    assert_eq!(replace_entry_key(FindKey::Enter, true, true), Some(FindBarAction::ReplaceAll));
    assert_eq!(replace_entry_key(FindKey::Enter, false, true), Some(FindBarAction::ReplaceOne));
    assert_eq!(replace_entry_key(FindKey::Escape, false, false), Some(FindBarAction::Close));
    assert_eq!(replace_entry_key(FindKey::Other, true, true), None);
}

#[test]
fn match_counter_cases() {
    assert_eq!(match_count(0, true, 0), MatchCount::Blank);
    assert_eq!(match_count(-1, false, 3), MatchCount::NoMatches);
    assert_eq!(match_count(5, false, 2), MatchCount::At(2, 5));
    assert_eq!(match_count(5, false, -1), MatchCount::Pending(5));
    assert_eq!(match_count(5, false, 0), MatchCount::Pending(5));
}
