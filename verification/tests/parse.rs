use minishell::cmd::{classify_token, parse_cmd, CommandError, TokenClass};

#[test]
fn parse_cmd_test_args() {
    let input = String::from("     ls        -a -l\n");
    let cmd = parse_cmd(&input).unwrap();
    assert_eq!(cmd.program, "ls");
    assert_eq!(cmd.arguments, vec!["-a".to_string(), "-l".to_string()]);
}

#[test]
fn parse_cmd_test_no_args() {
    let input = "echo";
    let cmd = parse_cmd(input).unwrap();
    assert_eq!(cmd.program, "echo");
    assert!(cmd.arguments.is_empty());
}

#[test]
#[should_panic(expected = "The function should panic")]
fn parse_cmd_test_empty() {
    let input = String::from("\n");
    parse_cmd(&input).expect("The function should panic");
}

#[test]
fn parse_cmd_test_redirect_stdout() {
    let input = "echo hello > output.txt";
    let cmd = parse_cmd(input).unwrap();
    assert_eq!(cmd.program, "echo");
    assert_eq!(cmd.arguments, vec!["hello".to_string()]);
    assert_eq!(cmd.stdout_path, Some("output.txt".to_string()));
    assert_eq!(cmd.stdin_path, None);
}

#[test]
fn parse_cmd_test_redirect_both() {
    let input = "cat < input.txt > output.txt";
    let cmd = parse_cmd(input).unwrap();
    assert_eq!(cmd.program, "cat");
    assert!(cmd.arguments.is_empty());
    assert_eq!(cmd.stdin_path, Some("input.txt".to_string()));
    assert_eq!(cmd.stdout_path, Some("output.txt".to_string()));
}

#[test]
#[should_panic(expected = "called `Result::unwrap()` on an `Err` value: StdoutEmpty")]
fn parse_cmd_test_stdout_missing_file() {
    let input = "echo hello >";
    parse_cmd(input).unwrap();
}

#[test]
#[should_panic(expected = "called `Result::unwrap()` on an `Err` value: StdinEmpty")]
fn parse_cmd_test_stdin_missing_file() {
    let input = "cat <";
    parse_cmd(input).unwrap();
}

#[test]
fn parse_cmd_test_empty_command() {
    let input = "";
    match parse_cmd(input) {
        Ok(_) => panic!("The function should panic"),
        Err(err) => assert_eq!(err, CommandError::Empty),
    }
}

#[test]
fn whitespace_only_line_is_empty_command() {
    assert_eq!(parse_cmd("   \t  \n").unwrap_err(), CommandError::Empty);
    assert_eq!(parse_cmd(" ").unwrap_err(), CommandError::Empty);
}

#[test]
fn plain_tokens_become_program_and_arguments() {
    let cmd = parse_cmd("  P  A1  A2\n").unwrap();
    assert_eq!(cmd.program, "P");
    assert_eq!(cmd.arguments, vec!["A1".to_string(), "A2".to_string()]);
    assert_eq!(cmd.stdin_path, None);
    assert_eq!(cmd.stdout_path, None);
}

#[test]
fn arguments_truncate_at_first_redirect() {
    let cmd = parse_cmd("cmd a b > out.txt c d").unwrap();
    assert_eq!(cmd.program, "cmd");
    assert_eq!(cmd.arguments, vec!["a".to_string(), "b".to_string()]);
    assert_eq!(cmd.stdout_path, Some("out.txt".to_string()));
    assert_eq!(cmd.stdin_path, None);
}

#[test]
fn last_redirect_of_a_kind_wins() {
    let cmd = parse_cmd("cmd > a > b").unwrap();
    assert!(cmd.arguments.is_empty());
    assert_eq!(cmd.stdout_path, Some("b".to_string()));

    let cmd = parse_cmd("cmd < x < y").unwrap();
    assert!(cmd.arguments.is_empty());
    assert_eq!(cmd.stdin_path, Some("y".to_string()));
}

#[test]
fn redirects_interleaved_with_later_tokens() {
    let cmd = parse_cmd("cp x y < in > out").unwrap();
    assert_eq!(cmd.program, "cp");
    assert_eq!(cmd.arguments, vec!["x".to_string(), "y".to_string()]);
    assert_eq!(cmd.stdin_path, Some("in".to_string()));
    assert_eq!(cmd.stdout_path, Some("out".to_string()));
}

// A redirection target that itself looks like a redirection token is taken
// as a literal file name, and the scan still reads it as a token of its own.
#[test]
fn redirect_target_looking_like_redirect_is_literal() {
    let cmd = parse_cmd("cmd > < f").unwrap();
    assert!(cmd.arguments.is_empty());
    assert_eq!(cmd.stdout_path, Some("<".to_string()));
    assert_eq!(cmd.stdin_path, Some("f".to_string()));
}

#[test]
fn redirect_token_as_program_is_literal() {
    let cmd = parse_cmd("> f").unwrap();
    assert_eq!(cmd.program, ">");
    assert_eq!(cmd.arguments, vec!["f".to_string()]);
    assert_eq!(cmd.stdin_path, None);
    assert_eq!(cmd.stdout_path, None);
}

#[test]
fn trailing_redirect_after_valid_redirect_still_fails() {
    assert_eq!(parse_cmd("cmd > a >").unwrap_err(), CommandError::StdoutEmpty);
    assert_eq!(parse_cmd("cmd > a <").unwrap_err(), CommandError::StdinEmpty);
}

#[test]
fn classify_token_kinds() {
    assert!(matches!(classify_token("<"), TokenClass::RedirectIn));
    assert!(matches!(classify_token(">"), TokenClass::RedirectOut));
    assert!(matches!(classify_token("a"), TokenClass::Plain));
    assert!(matches!(classify_token("<<"), TokenClass::Plain));
    assert!(matches!(classify_token(""), TokenClass::Plain));
}

#[test]
fn error_messages() {
    assert_eq!(CommandError::Empty.message(), "Error: Empty command");
    assert_eq!(CommandError::StdinEmpty.message(), "Error: No file given after <");
    assert_eq!(CommandError::StdoutEmpty.message(), "Error: No file given after >");
    assert_eq!(
        CommandError::FileError("missing.txt".to_string()).message(),
        "Error: file not found: missing.txt"
    );
}

#[test]
fn parse_args_direct() {
    let args = vec![
        "a".to_string(),
        ">".to_string(),
        "out".to_string(),
        "b".to_string(),
    ];
    let cmd = minishell::cmd::parse_args("prog".to_string(), args).unwrap();
    assert_eq!(cmd.program, "prog");
    assert_eq!(cmd.arguments, vec!["a".to_string()]);
    assert_eq!(cmd.stdout_path, Some("out".to_string()));
    assert_eq!(cmd.stdin_path, None);
}
