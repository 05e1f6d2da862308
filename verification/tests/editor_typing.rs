use lyrux_core::editor::indent::{analyze_line, enter_edit, is_plain_enter, ContinueAction, EnterEdit};
use lyrux_core::editor::pair::{
    backspace_deletes_pair, close_for, is_close_char, is_markup_lang, is_open_char,
    is_triple_quote_trigger, open_step, pair_for, should_autoclose_quote_at, skips_close, OpenStep,
};

#[test]
fn rust_line_comment_continues() {
    assert_eq!(
        analyze_line("    // hi", "rust"),
        ContinueAction::ContinuePrefix {
            indent: "    ".to_string(),
            prefix: "// ".to_string(),
        }
    );
}

#[test]
fn rust_empty_line_comment_exits() {
    assert_eq!(analyze_line("    // ", "rust"), ContinueAction::ExitList);
    assert_eq!(analyze_line("//", "rust"), ContinueAction::ExitList);
}

#[test]
fn python_hash_continues() {
    assert_eq!(
        analyze_line("# x", "python"),
        ContinueAction::ContinuePrefix {
            indent: String::new(),
            prefix: "# ".to_string(),
        }
    );
}

#[test]
fn python_empty_hash_exits() {
    assert_eq!(analyze_line("# ", "python"), ContinueAction::ExitList);
}

#[test]
fn markdown_dash_continues() {
    assert_eq!(
        analyze_line("- foo", "markdown"),
        ContinueAction::ContinuePrefix {
            indent: String::new(),
            prefix: "- ".to_string(),
        }
    );
}

#[test]
fn markdown_star_continues() {
    assert_eq!(
        analyze_line("* foo", "markdown"),
        ContinueAction::ContinuePrefix {
            indent: String::new(),
            prefix: "* ".to_string(),
        }
    );
}

#[test]
fn markdown_numbered_dot_increments() {
    assert_eq!(
        analyze_line("1. foo", "markdown"),
        ContinueAction::ContinueAutoIncrement {
            indent: String::new(),
            n: 1,
            suffix: ". ".to_string(),
        }
    );
}

#[test]
fn markdown_numbered_paren_increments_with_indent() {
    assert_eq!(
        analyze_line("   2) bar", "markdown"),
        ContinueAction::ContinueAutoIncrement {
            indent: "   ".to_string(),
            n: 2,
            suffix: ") ".to_string(),
        }
    );
}

#[test]
fn markdown_empty_dash_exits() {
    assert_eq!(analyze_line("- ", "markdown"), ContinueAction::ExitList);
    assert_eq!(analyze_line("  - ", "markdown"), ContinueAction::ExitList);
}

#[test]
fn markdown_empty_number_exits() {
    assert_eq!(analyze_line("1. ", "markdown"), ContinueAction::ExitList);
}

#[test]
fn plain_text_no_action() {
    assert_eq!(analyze_line("hello", "rust"), ContinueAction::NoAction);
    assert_eq!(analyze_line("    code()", "rust"), ContinueAction::NoAction);
    assert_eq!(analyze_line("", "rust"), ContinueAction::NoAction);
}

#[test]
fn markdown_no_slash_comment() {
    assert_eq!(analyze_line("// not code", "markdown"), ContinueAction::NoAction);
}

#[test]
fn jsdoc_continuation() {
    assert_eq!(
        analyze_line(" * line", "rust"),
        ContinueAction::ContinuePrefix {
            indent: " ".to_string(),
            prefix: "* ".to_string(),
        }
    );
}

#[test]
fn jsdoc_opening_transitions() {
    assert_eq!(
        analyze_line("/** doc", "rust"),
        ContinueAction::ContinuePrefix {
            indent: " ".to_string(),
            prefix: "* ".to_string(),
        }
    );
}

#[test]
fn unknown_lang_falls_back_for_slash_comment() {
    assert_eq!(
        analyze_line("// hi", ""),
        ContinueAction::ContinuePrefix {
            indent: String::new(),
            prefix: "// ".to_string(),
        }
    );
}

#[test]
fn unknown_lang_falls_back_for_hash_comment() {
    assert_eq!(
        analyze_line("  # note", ""),
        ContinueAction::ContinuePrefix {
            indent: "  ".to_string(),
            prefix: "# ".to_string(),
        }
    );
}

#[test]
fn numbered_list_too_large_is_not_a_list() {
    assert_eq!(analyze_line("99999999999. x", "markdown"), ContinueAction::NoAction);
    assert_eq!(
        analyze_line("4294967295. x", "markdown"),
        ContinueAction::ContinueAutoIncrement {
            indent: String::new(),
            n: 4294967295,
            suffix: ". ".to_string(),
        }
    );
}

#[test]
fn comment_without_space_keeps_bare_marker() {
    assert_eq!(
        analyze_line("\t//x", "c"),
        ContinueAction::ContinuePrefix {
            indent: "\t".to_string(),
            prefix: "//".to_string(),
        }
    );
    assert_eq!(analyze_line("**bold**", "rust"), ContinueAction::NoAction);
    assert_eq!(analyze_line("-x", "markdown"), ContinueAction::NoAction);
}

#[test]
fn pair_brackets() {
    assert_eq!(pair_for('(', "rust"), Some(')'));
    assert_eq!(pair_for('[', "rust"), Some(']'));
    assert_eq!(pair_for('{', "rust"), Some('}'));
}

#[test]
fn pair_quotes() {
    assert_eq!(pair_for('"', "rust"), Some('"'));
    assert_eq!(pair_for('\'', "rust"), Some('\''));
    assert_eq!(pair_for('`', "rust"), Some('`'));
}

#[test]
fn angle_only_in_markup() {
    assert_eq!(pair_for('<', "html"), Some('>'));
    assert_eq!(pair_for('<', "xml"), Some('>'));
    assert_eq!(pair_for('<', "markdown"), Some('>'));
    assert_eq!(pair_for('<', "css"), Some('>'));
    assert_eq!(pair_for('<', "rust"), None);
    assert_eq!(pair_for('<', "typescript"), None);
    assert_eq!(pair_for('<', "javascript"), None);
    assert_eq!(pair_for('<', ""), None);
}

#[test]
fn unknown_open() {
    assert_eq!(pair_for('a', "rust"), None);
    assert_eq!(pair_for('!', "rust"), None);
}

#[test]
fn close_for_each_open() {
    assert_eq!(close_for('('), Some(')'));
    assert_eq!(close_for('['), Some(']'));
    assert_eq!(close_for('{'), Some('}'));
    assert_eq!(close_for('"'), Some('"'));
    assert_eq!(close_for('\''), Some('\''));
    assert_eq!(close_for('`'), Some('`'));
    assert_eq!(close_for('<'), Some('>'));
    assert_eq!(close_for('a'), None);
}

#[test]
fn close_chars_classified() {
    assert!(is_close_char(')'));
    assert!(is_close_char(']'));
    assert!(is_close_char('}'));
    assert!(is_close_char('>'));
    assert!(is_close_char('"'));
    assert!(is_close_char('\''));
    assert!(is_close_char('`'));
    assert!(!is_close_char('('));
    assert!(!is_close_char('a'));
}

#[test]
fn open_chars_classified() {
    assert!(is_open_char('('));
    assert!(is_open_char('['));
    assert!(is_open_char('{'));
    assert!(is_open_char('<'));
    assert!(is_open_char('"'));
    assert!(is_open_char('\''));
    assert!(is_open_char('`'));
    assert!(!is_open_char(')'));
    assert!(!is_open_char('a'));
}

#[test]
fn markup_lang_set() {
    assert!(is_markup_lang("html"));
    assert!(is_markup_lang("xml"));
    assert!(is_markup_lang("markdown"));
    assert!(is_markup_lang("css"));
    assert!(!is_markup_lang("rust"));
    assert!(!is_markup_lang("typescript"));
    assert!(!is_markup_lang(""));
}

#[test]
fn quote_blocked_after_word_char() {
    assert!(!should_autoclose_quote_at(Some('a')));
    assert!(!should_autoclose_quote_at(Some('Z')));
    assert!(!should_autoclose_quote_at(Some('0')));
    assert!(!should_autoclose_quote_at(Some('_')));
}

#[test]
fn quote_allowed_at_boundary() {
    assert!(should_autoclose_quote_at(None));
    assert!(should_autoclose_quote_at(Some(' ')));
    assert!(should_autoclose_quote_at(Some('(')));
    assert!(should_autoclose_quote_at(Some('=')));
    assert!(should_autoclose_quote_at(Some('\n')));
}

#[test]
fn quote_blocked_after_unicode_letter() {
    assert!(!should_autoclose_quote_at(Some('é')));
}

#[test]
fn triple_quote_detection() {
    assert!(is_triple_quote_trigger((Some('"'), Some('"')), '"'));
    assert!(!is_triple_quote_trigger((Some('"'), None), '"'));
    assert!(!is_triple_quote_trigger((Some('a'), Some('"')), '"'));
    assert!(!is_triple_quote_trigger((Some('"'), Some('"')), '\''));
}

#[test]
fn typing_an_opener_decides_what_happens() {
    assert_eq!(
        open_step('(', "rust", false, None, (None, None), 'x', true),
        OpenStep::InsertPair { open: '(', close: ')' }
    );
    assert_eq!(
        open_step('(', "rust", true, None, (None, None), 'x', true),
        OpenStep::WrapSelection { open: '(', close: ')' }
    );
    assert_eq!(open_step('\'', "rust", false, Some('t'), (Some('t'), None), ' ', true), OpenStep::Proceed);
    assert_eq!(
        open_step('"', "rust", false, Some('"'), (Some('"'), Some('"')), ' ', true),
        OpenStep::Proceed
    );
    assert_eq!(open_step('"', "rust", false, Some(' '), (Some(' '), None), '"', true), OpenStep::StepOver);
    assert_eq!(
        open_step('"', "rust", false, Some(' '), (Some(' '), None), '"', false),
        OpenStep::InsertPair { open: '"', close: '"' }
    );
    assert_eq!(open_step('<', "rust", false, None, (None, None), ' ', true), OpenStep::Proceed);
}

#[test]
fn backspace_between_pair_deletes_both() {
    assert!(backspace_deletes_pair(false, Some('('), ')', true));
    assert!(!backspace_deletes_pair(false, Some('('), ']', true));
    assert!(!backspace_deletes_pair(true, Some('('), ')', true));
    assert!(!backspace_deletes_pair(false, None, ')', true));
    assert!(!backspace_deletes_pair(false, Some('('), ')', false));
}

#[test]
fn typing_a_closer_before_the_same_closer_steps_over_it() {
    assert!(skips_close(false, ')', ')', true));
    assert!(!skips_close(true, ')', ')', true));
    assert!(!skips_close(false, ')', ']', true));
    assert!(!skips_close(false, ')', ')', false));
    assert!(!skips_close(false, '(', '(', true));
}

#[test]
fn enter_is_plain_only_without_modifiers() {
    assert!(is_plain_enter(true, false, false, false, false));
    assert!(!is_plain_enter(true, false, false, true, false));
    assert!(!is_plain_enter(false, false, false, false, false));
}

#[test]
fn enter_edits_follow_the_continue_action() {
    assert_eq!(enter_edit(&ContinueAction::NoAction), None);
    assert_eq!(
        enter_edit(&ContinueAction::ContinuePrefix { indent: "  ".to_string(), prefix: "// ".to_string() }),
        Some(EnterEdit { clear_line: false, insert: "\n  // ".to_string() })
    );
    assert_eq!(
        enter_edit(&ContinueAction::ContinueAutoIncrement { indent: String::new(), n: 9, suffix: ". ".to_string() }),
        Some(EnterEdit { clear_line: false, insert: "\n10. ".to_string() })
    );
    assert_eq!(
        enter_edit(&ContinueAction::ContinueAutoIncrement { indent: String::new(), n: u32::MAX, suffix: ")".to_string() }),
        Some(EnterEdit { clear_line: false, insert: format!("\n{})", u32::MAX) })
    );
    assert_eq!(enter_edit(&ContinueAction::ExitList), Some(EnterEdit { clear_line: true, insert: "\n".to_string() }));
}
