use uterm::commands::{validate_args, validate_command};

#[test]
fn plain_commands_are_accepted() {
    assert!(validate_command("ls").is_ok());
    assert!(validate_command("/usr/bin/git").is_ok());
    assert!(validate_command("my-tool.v2").is_ok());
    assert!(validate_command("é").is_ok());
}

#[test]
fn empty_and_long_commands_are_refused() {
    assert_eq!(validate_command("").unwrap_err(), "Command cannot be empty");
    let long = "a".repeat(4097);
    assert_eq!(validate_command(&long).unwrap_err(), "Command too long: 4097 chars (max 4096)");
    assert!(validate_command(&"a".repeat(4096)).is_ok());
}

#[test]
fn shell_syntax_is_refused() {
    assert_eq!(
        validate_command("ls;rm").unwrap_err(),
        "Command contains forbidden character ';'. Use proper arguments instead of shell syntax."
    );
    assert_eq!(
        validate_command("ls\n").unwrap_err(),
        "Command contains forbidden character '\\n'. Use proper arguments instead of shell syntax."
    );
    assert_eq!(
        validate_command("a\0b").unwrap_err(),
        "Command contains forbidden character '\\0'. Use proper arguments instead of shell syntax."
    );
    // the first character of the list that occurs is named, not the first in the text
    assert_eq!(
        validate_command("a|b;c").unwrap_err(),
        "Command contains forbidden character ';'. Use proper arguments instead of shell syntax."
    );
    for bad in ["a&b", "a$b", "a`b", "(a", "a)", "{a", "a}", "[a", "a]", "a<b", "a>b", "a\rb", "a'b", "a\"b", "a\\b"] {
        assert!(validate_command(bad).is_err(), "{}", bad);
    }
}

#[test]
fn options_and_traversal_are_refused() {
    assert_eq!(validate_command("-rf").unwrap_err(), "Command cannot start with '-'");
    assert_eq!(
        validate_command("../bin/sh").unwrap_err(),
        "Command cannot contain '..' path traversal"
    );
    assert!(validate_command("a.b.c").is_ok());
}

#[test]
fn arguments_are_checked_in_order() {
    assert!(validate_args(&[]).is_ok());
    assert!(validate_args(&["-la".to_string(), "dir with spaces".to_string()]).is_ok());
    let many: Vec<String> = (0..101).map(|i| i.to_string()).collect();
    assert_eq!(validate_args(&many).unwrap_err(), "Too many arguments: 101 (max 100)");
    assert!(validate_args(&many[..100]).is_ok());
    let args = vec!["ok".to_string(), "a\0b".to_string(), "x".repeat(5000)];
    assert_eq!(validate_args(&args).unwrap_err(), "Argument 1 contains null byte");
    let args = vec!["ok".to_string(), "x".repeat(4097)];
    assert_eq!(validate_args(&args).unwrap_err(), "Argument 1 too long: 4097 chars (max 4096)");
}
