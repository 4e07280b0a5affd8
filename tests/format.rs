use shellui::errors::ShellUiError;
use shellui::format::{
    bold_text, compute_column_count, decimal_string, dimmed_text, error_report_lines, format_cell,
    format_error_report, join_lines,
    join_with, pad_right, signed_decimal_string, widest, AsFormatted, Message,
};
use shellui::shell::{next_action, ReadOutcome, ShellAction};

#[test]
fn message_kinds_keep_plain_text() {
    assert_eq!(Message::new("id").as_unformatted(), "id");
    assert_eq!(Message::info(12u32).as_unformatted(), "12");
    assert_eq!(Message::hint(-7i64).unformatted_len(), 2);
    assert_eq!(Message::new("x"), Message::new("x".to_string()));
    assert_ne!(Message::new("x"), Message::error("x"));
    assert_eq!(Message::new("plain").as_formatted(), "plain");
}

#[test]
fn numbers_in_decimal() {
    assert_eq!(decimal_string(0), "0");
    assert_eq!(decimal_string(8888), "8888");
    assert_eq!(decimal_string(u64::MAX), u64::MAX.to_string());
    assert_eq!(signed_decimal_string(-123), "-123");
    assert_eq!(signed_decimal_string(i64::MIN), i64::MIN.to_string());
    assert_eq!(123i32.as_unformatted(), "123");
}

#[test]
fn flags_and_options() {
    assert_eq!(true.as_unformatted(), "*");
    assert_eq!(false.as_unformatted(), "");
    assert_eq!(true.unformatted_len(), 1);
    assert_eq!(Some(5u64).as_unformatted(), "5");
    assert_eq!(None::<u64>.as_unformatted(), "");
    assert_eq!("héllo".unformatted_len(), 6);
}

#[test]
fn error_report_layout() {
    assert_eq!(
        error_report_lines(&"Test".to_string(), &Vec::new()),
        vec!["Test".to_string()]
    );
    let lines = error_report_lines(
        &"Failure".to_string(),
        &vec!["Error 1".to_string(), "Error 2".to_string()],
    );
    assert_eq!(
        join_lines(&lines),
        "Failure\nCaused by:\n  (1) Error 1\n  (2) Error 2"
    );
}

#[test]
fn column_widths_of_table() {
    let widths = compute_column_count(&vec![2, 5, 18], &vec![vec![1, 7, 5], vec![14, 2, 6]]);
    assert_eq!(widths, vec![14, 7, 18]);
    let short = compute_column_count(&vec![2, 5, 18], &vec![vec![1, 7]]);
    assert_eq!(short, vec![2, 7]);
    assert_eq!(widest(&vec![2, 5, 18]), 18);
    assert_eq!(widest(&Vec::new()), 0);
}

#[test]
fn padding_and_joining() {
    assert_eq!(pad_right("id", 5), "id   ");
    assert_eq!(pad_right("label", 3), "label");
    assert_eq!(format_cell("value", 5, 18), "value             ");
    assert_eq!(format_cell("\u{1b}[1mab\u{1b}[0m", 2, 4), "\u{1b}[1mab\u{1b}[0m  ");
    let parts = vec!["a".to_string(), "b".to_string(), "c".to_string()];
    assert_eq!(join_with(&parts, "   "), "a   b   c");
    assert_eq!(join_with(&Vec::new(), "   "), "");
}

#[test]
fn shell_errors() {
    assert!(matches!(ShellUiError::warning("careful"), ShellUiError::Warning(m) if m == "careful"));
    assert!(matches!(ShellUiError::interrupt(), ShellUiError::Interrupt));
    assert_eq!(ShellUiError::interrupt().as_unformatted(), "Interrupt");
    assert_eq!(ShellUiError::warning(3u32).as_unformatted(), "3");
    let io = std::io::Error::new(std::io::ErrorKind::Interrupted, "stop");
    assert!(matches!(ShellUiError::from_io_error(io), ShellUiError::Interrupt));
    let io = std::io::Error::other("broken");
    let error = ShellUiError::from_io_error(io);
    assert!(matches!(error, ShellUiError::Error(_)));
    assert_eq!(error.as_unformatted(), "broken");
    assert_ne!(ShellAction::Continue, ShellAction::Eof);
}

#[test]
fn styled_text_follows_colour_setting() {
    colored::control::set_override(false);
    assert_eq!(
        format_error_report(&"Failure".to_string(), &vec!["Test".to_string()]),
        "Failure\nCaused by:\n  (1) Test"
    );
    assert_eq!(format_error_report(&"Test".to_string(), &Vec::new()), "Test");
    assert_eq!(Message::info("note").as_formatted(), "note");
    assert_eq!(dimmed_text("hint"), "hint");
    colored::control::set_override(true);
    let red = Message::error("x").as_formatted();
    assert_ne!(red, "x");
    assert!(red.contains('x'));
    assert_ne!(bold_text("id"), "id");
    assert_eq!(Message::new("x").as_formatted(), "x");
    colored::control::unset_override();
}

#[test]
fn shell_steps() {
    assert_eq!(next_action(ReadOutcome::Ran(ShellAction::ClearScreen)), ShellAction::ClearScreen);
    assert_eq!(next_action(ReadOutcome::Ran(ShellAction::Continue)), ShellAction::Continue);
    assert_eq!(next_action(ReadOutcome::Interrupted), ShellAction::Continue);
    assert_eq!(next_action(ReadOutcome::Ended), ShellAction::Eof);
    assert_eq!(next_action(ReadOutcome::Failed), ShellAction::Eof);
}
