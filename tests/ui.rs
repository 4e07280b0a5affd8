use shellui::text::{rfind, tokenize, TokenizeError};
use shellui::tree::CommandSpec;
use shellui::ui::{Ui, UiHint};

fn two_commands() -> CommandSpec {
    CommandSpec::new("test")
        .subcommand(CommandSpec::new("test1"))
        .subcommand(CommandSpec::new("test2"))
}

fn nested() -> CommandSpec {
    CommandSpec::new("test")
        .subcommand(
            CommandSpec::new("test1")
                .subcommand(CommandSpec::new("test11"))
                .subcommand(CommandSpec::new("test12")),
        )
        .subcommand(CommandSpec::new("test2"))
}

fn with_args() -> CommandSpec {
    CommandSpec::new("test")
        .subcommand(CommandSpec::new("test1").arg("arg1").arg("arg2"))
        .subcommand(CommandSpec::new("test2"))
}

#[test]
fn test_solve_hint_partial() {
    let hint = Ui::new(two_commands()).solve_hint("te");
    assert_eq!(
        hint,
        Some(UiHint("st1".to_string(), Some("st1".to_string())))
    );
}

#[test]
fn test_solve_hint_full() {
    let hint = Ui::new(two_commands()).solve_hint("test1");
    assert_eq!(hint, Some(UiHint("".to_string(), Some("".to_string()))));
}

#[test]
fn test_solve_hint_partial_second() {
    let hint = Ui::new(nested()).solve_hint("test1 t");
    assert_eq!(
        hint,
        Some(UiHint("est11".to_string(), Some("est11".to_string())))
    );
}

#[test]
fn test_solve_hint_no_match() {
    let hint = Ui::new(two_commands()).solve_hint("a");
    assert_eq!(hint, None);
}

#[test]
fn test_solve_hint_args() {
    let hint = Ui::new(with_args()).solve_hint("test1 ");
    assert_eq!(hint, Some(UiHint("<arg1>".to_string(), None)));
}

#[test]
fn test_solve_complete_partial() {
    let complete = Ui::new(two_commands()).solve_complete("te", 1);
    assert_eq!(
        complete,
        Some((0, vec!["test1".to_string(), "test2".to_string()]))
    );
}

#[test]
fn test_solve_complete_second() {
    let complete = Ui::new(nested()).solve_complete("test1 ", 6);
    assert_eq!(
        complete,
        Some((
            6,
            vec![
                "help".to_string(),
                "test11".to_string(),
                "test12".to_string()
            ]
        ))
    );
}

#[test]
fn complete_whole_partial_token() {
    let complete = Ui::new(two_commands()).solve_complete("te", 2);
    assert_eq!(
        complete,
        Some((0, vec!["test1".to_string(), "test2".to_string()]))
    );
}

#[test]
fn complete_empty_line_lists_top_level() {
    let complete = Ui::new(two_commands()).solve_complete("", 0);
    assert_eq!(
        complete,
        Some((
            0,
            vec!["help".to_string(), "test1".to_string(), "test2".to_string()]
        ))
    );
}

#[test]
fn complete_leaves_out_placeholders() {
    let complete = Ui::new(with_args()).solve_complete("test1 ", 6);
    assert_eq!(complete, Some((6, Vec::<String>::new())));
}

#[test]
fn complete_replaces_from_last_occurrence() {
    let complete = Ui::new(nested()).solve_complete("test1 test1", 11);
    assert_eq!(
        complete,
        Some((6, vec!["test11".to_string(), "test12".to_string()]))
    );
}

#[test]
fn complete_cursor_past_end_or_inside_char() {
    let ui = Ui::new(two_commands());
    assert_eq!(ui.solve_complete("te", 3), None);
    assert_eq!(ui.solve_complete("té", 2), None);
}

#[test]
fn complete_unclosed_quote() {
    let ui = Ui::new(two_commands());
    assert_eq!(ui.solve_complete("\"te", 3), None);
}

#[test]
fn complete_token_not_in_line() {
    let ui = Ui::new(two_commands());
    assert_eq!(ui.solve_complete("t\\e", 3), None);
}

#[test]
fn complete_only_before_cursor() {
    let ui = Ui::new(nested());
    assert_eq!(
        ui.solve_complete("test1 t", 6),
        Some((
            6,
            vec![
                "help".to_string(),
                "test11".to_string(),
                "test12".to_string()
            ]
        ))
    );
}

#[test]
fn hint_names_second_argument() {
    let hint = Ui::new(with_args()).solve_hint("test1 x ");
    assert_eq!(hint, Some(UiHint("<arg2>".to_string(), None)));
}

#[test]
fn hint_silent_on_literal_continuations() {
    assert_eq!(Ui::new(nested()).solve_hint("test1 "), None);
    assert_eq!(Ui::new(nested()).solve_hint(""), None);
}

#[test]
fn hint_unclosed_quote() {
    assert_eq!(Ui::new(two_commands()).solve_hint("'te"), None);
}

#[test]
fn hint_is_repeatable() {
    let ui = Ui::new(nested());
    let first = ui.solve_hint("test1 t");
    let second = ui.solve_hint("test1 t");
    assert_eq!(first, second);
    let a = ui.solve_complete("test1 ", 6);
    let b = ui.solve_complete("test1 ", 6);
    assert_eq!(a, b);
}

#[test]
fn hint_parts() {
    let hint = Ui::new(two_commands()).solve_hint("te").unwrap();
    assert_eq!(hint.display(), "st1");
    assert_eq!(hint.completion(), Some("st1"));
    let args = Ui::new(with_args()).solve_hint("test1 ").unwrap();
    assert_eq!(args.display(), "<arg1>");
    assert_eq!(args.completion(), None);
}

#[test]
fn matches_have_one_more_item() {
    let ui = Ui::new(with_args());
    let args = vec!["test1".to_string(), "x".to_string()];
    for limit in 0..=2 {
        let found = ui.find_matches(&args, limit);
        assert!(!found.is_empty());
        for line in found {
            assert_eq!(line.0.len(), limit + 1);
        }
    }
    assert_eq!(ui.find_matches(&args, 1).len(), 1);
    assert_eq!(ui.find_matches(&args, 0).len(), 3);
}

#[test]
fn suggestions_filter_by_prefix() {
    let ui = Ui::new(nested());
    let args = vec!["test1".to_string()];
    assert_eq!(
        ui.find_matching_suggestions(&args, 1, "test1"),
        vec!["test11", "test12"]
    );
    assert_eq!(ui.find_matching_suggestions(&args, 1, "h"), vec!["help"]);
    assert_eq!(
        ui.find_matching_suggestions(&args, 0, ""),
        vec!["help", "test1", "test2"]
    );
}

#[test]
fn tokenize_words_and_quotes() {
    assert_eq!(
        tokenize("a 'b c' d\\ e"),
        Ok(vec!["a".to_string(), "b c".to_string(), "d e".to_string()])
    );
    assert_eq!(tokenize("a \"b"), Err(TokenizeError));
    assert_eq!(tokenize(""), Ok(Vec::new()));
}

#[test]
fn rfind_last_occurrence() {
    assert_eq!(rfind("ab ab", "ab"), Some(3));
    assert_eq!(rfind("ab", "c"), None);
    assert_eq!(rfind("éa", "a"), Some(2));
    assert_eq!(rfind("abc", ""), Some(3));
}
