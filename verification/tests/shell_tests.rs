use mobdev::errors::Error;
use mobdev::shell::{
    escape_shell_arg, is_safe_shell_input, safe_shell_arg, shell_unquote, ShellArgument,
};

#[test]
fn test_is_safe_shell_input() {
    assert!(is_safe_shell_input("myfile.txt"));
    assert!(is_safe_shell_input("path/to/file"));
    assert!(!is_safe_shell_input("file; rm -rf /"));
    assert!(!is_safe_shell_input("file$variable"));
    assert!(!is_safe_shell_input("file`command`"));
}

#[test]
fn test_escape_shell_arg() {
    assert_eq!(escape_shell_arg("simple"), "'simple'");
    assert_eq!(escape_shell_arg("file's name"), "'file'\\''s name'");
}

#[test]
fn test_safe_shell_arg() {
    assert!(safe_shell_arg("safe.txt", false).is_ok());
    assert!(safe_shell_arg("unsafe; rm", false).is_err());
    assert!(safe_shell_arg("unsafe; rm", true).is_ok());
}

#[test]
fn safe_arg_reports_the_offending_input() {
    match safe_shell_arg("file$variable", false) {
        Err(Error::UnsafeShellInput(raw)) => assert_eq!(raw, "file$variable"),
        other => panic!("expected UnsafeShellInput, got {:?}", other),
    }
    assert_eq!(safe_shell_arg("file$variable", true).unwrap(), "'file$variable'");
}

#[test]
fn escape_then_unquote_round_trips() {
    let escaped = escape_shell_arg("file's name");
    assert_eq!(escaped, "'file'\\''s name'");
    assert_eq!(shell_unquote(&escaped).unwrap(), "file's name");

    let plain = escape_shell_arg("plain");
    assert_eq!(plain, "'plain'");
    assert_eq!(shell_unquote(&plain).unwrap(), "plain");

    let empty = escape_shell_arg("");
    assert_eq!(empty, "''");
    assert_eq!(shell_unquote(&empty).unwrap(), "");
}

#[test]
fn unquote_rejects_an_unterminated_quote() {
    assert!(shell_unquote("'abc").is_none());
    assert!(shell_unquote("abc\\").is_none());
    assert_eq!(shell_unquote("a\\'b").unwrap(), "a'b");
}

#[test]
fn a_classified_argument_carries_raw_verdict_and_rendering() {
    let arg = ShellArgument::classify("file's name");
    assert_eq!(arg.raw, "file's name");
    assert!(!arg.safe);
    assert_eq!(arg.escaped, "'file'\\''s name'");

    let plain = ShellArgument::classify("lib/main.dart");
    assert!(plain.safe);
    assert_eq!(plain.escaped, "'lib/main.dart'");
}

#[test]
fn empty_input_is_rejected() {
    assert!(!is_safe_shell_input(""));
    assert!(safe_shell_arg("", false).is_err());
    // escaping itself validates nothing: an allowed empty argument still
    // renders as a pair of quotes
    assert_eq!(safe_shell_arg("", true).unwrap(), "''");
}

#[test]
fn whitespace_in_the_allow_list_is_unicode() {
    assert!(is_safe_shell_input("two words"));
    assert!(is_safe_shell_input("a\u{00A0}b"));
    assert!(is_safe_shell_input("a\u{2003}b"));
    assert!(!is_safe_shell_input("a\u{2026}b"));
}
