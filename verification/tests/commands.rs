use filecast::command::{parse_command_line, parse_exec_command};

#[test]
fn command_line_splits_into_program_and_args() {
    let (program, args) = parse_command_line("ls -la /tmp").unwrap();
    assert_eq!(program, "ls");
    assert_eq!(args, vec!["-la", "/tmp"]);
}

#[test]
fn blank_command_line_yields_nothing() {
    assert!(parse_command_line("").is_none());
    assert!(parse_command_line("   ").is_none());
}

#[test]
fn repeated_spaces_separate_words_once() {
    let (program, args) = parse_command_line("  grep   -r  needle ").unwrap();
    assert_eq!(program, "grep");
    assert_eq!(args, vec!["-r", "needle"]);
}

#[test]
fn exec_field_placeholders_are_stripped() {
    let (cleaned, program, args) = parse_exec_command("firefox %u").unwrap();
    assert_eq!(cleaned, "firefox");
    assert_eq!(program, "firefox");
    assert_eq!(args.len(), 0);
}

#[test]
fn exec_field_keeps_real_arguments() {
    let (cleaned, program, args) = parse_exec_command("env FOO=1 myapp %U --new-window %F").unwrap();
    assert_eq!(cleaned, "env FOO=1 myapp  --new-window");
    assert_eq!(program, "env");
    assert_eq!(args, vec!["FOO=1", "myapp", "--new-window"]);
}

#[test]
fn exec_field_of_placeholders_alone_yields_nothing() {
    assert!(parse_exec_command("%f %F %u").is_none());
    assert!(parse_exec_command("").is_none());
}

#[test]
fn percent_before_an_unknown_letter_stays() {
    let (cleaned, program, args) = parse_exec_command("tool %z").unwrap();
    assert_eq!(cleaned, "tool %z");
    assert_eq!(program, "tool");
    assert_eq!(args, vec!["%z"]);
}
