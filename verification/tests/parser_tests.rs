use rshell::parser::{parse_tokens, parse_input, ParseResult, CommandEnum};

#[test]
fn test_tokenize_simple() {
    let input = "ls -la";
    let expected = Ok(vec!["ls".to_string(), "-la".to_string()]);
    assert_eq!(parse_tokens(input), expected);
}

#[test]
fn test_tokenize_quotes() {
    let input = "echo 'hello world' \"formatted string\"";
    let expected = Ok(vec![
        "echo".to_string(),
        "hello world".to_string(),
        "formatted string".to_string(),
    ]);
    assert_eq!(parse_tokens(input), expected);
}

#[test]
fn test_tokenize_escaped_quotes() {
    // Input: echo "He said \"Hello\""
    let input = r#"echo "He said \"Hello\"""#;
    let expected = Ok(vec![
        "echo".to_string(),
        "He said \"Hello\"".to_string(), // Parser keeps the internal quotes
    ]);
    assert_eq!(parse_tokens(input), expected);
}

#[test]
fn test_tokenize_incomplete_fails() {
    let input = "echo \"missing quote";
    assert_eq!(parse_tokens(input), Err("Incomplete".to_string()));
}

#[test]
fn test_parse_input_ls() {
    let input = "ls -la /tmp";
    match parse_input(input) {
        ParseResult::Parsed(CommandEnum::Ls(args)) => {
            assert_eq!(args, vec!["-la", "/tmp"]);
        }
        _ => panic!("Expected CommandEnum::Ls"),
    }
}

#[test]
fn test_parse_input_cd() {
    let input = "cd /home/user";
    match parse_input(input) {
        ParseResult::Parsed(CommandEnum::Cd(clean, raw)) => {
            assert_eq!(clean[0], "/home/user");
            assert_eq!(raw[0], "/home/user");
        }
        _ => panic!("Expected CommandEnum::Cd"),
    }
}

#[test]
fn test_parse_input_unknown() {
    let input = "notacommand arg1";
    match parse_input(input) {
        ParseResult::Parsed(CommandEnum::Unknown(cmd)) => {
            assert_eq!(cmd, "notacommand");
        }
        _ => panic!("Expected CommandEnum::Unknown"),
    }
}

#[test]
fn test_tokenize_example_mixed_quoting() {
    let input = "echo 'hello world' \"a\\\"b\"";
    let expected = Ok(vec![
        "echo".to_string(),
        "hello world".to_string(),
        "a\"b".to_string(),
    ]);
    assert_eq!(parse_tokens(input), expected);
}

#[test]
fn test_tokenize_odd_single_quote_incomplete() {
    assert_eq!(parse_tokens("abc'def"), Err("Incomplete".to_string()));
}

#[test]
fn test_tokenize_odd_double_quote_incomplete() {
    assert_eq!(parse_tokens("say \"hi there"), Err("Incomplete".to_string()));
}

#[test]
fn test_tokenize_trailing_escape_incomplete() {
    assert_eq!(parse_tokens("foo\\"), Err("Incomplete".to_string()));
}

#[test]
fn test_tokenize_continuation_concatenated() {
    // The first batch is incomplete; the concatenated text parses in one
    // shot with the newline kept inside the quoted token.
    assert_eq!(parse_tokens("echo 'a"), Err("Incomplete".to_string()));
    let expected = Ok(vec!["echo".to_string(), "a\nb".to_string()]);
    assert_eq!(parse_tokens("echo 'a\nb'"), expected);
}

#[test]
fn test_tokenize_idempotent() {
    let input = "cp 'a b' c";
    assert_eq!(parse_tokens(input), parse_tokens(input));
}

#[test]
fn test_tokenize_empty_and_blank() {
    assert_eq!(parse_tokens(""), Ok(vec![]));
    assert_eq!(parse_tokens("   \t "), Ok(vec![]));
}

#[test]
fn test_tokenize_backslash_kept_in_double_quotes() {
    // Inside double quotes a backslash before an ordinary character is
    // kept verbatim.
    let expected = Ok(vec!["echo".to_string(), "a\\nb".to_string()]);
    assert_eq!(parse_tokens("echo \"a\\nb\""), expected);
}

#[test]
fn test_parse_input_empty_is_unknown() {
    match parse_input("   ") {
        ParseResult::Parsed(CommandEnum::Unknown(cmd)) => assert_eq!(cmd, ""),
        _ => panic!("Expected the empty catch-all"),
    }
}

#[test]
fn test_parse_input_incomplete() {
    match parse_input("echo \"open") {
        ParseResult::Incomplete => {}
        _ => panic!("Expected ParseResult::Incomplete"),
    }
}

#[test]
fn test_parse_input_echo_keeps_raw_newline() {
    match parse_input("echo 'a\nb'") {
        ParseResult::Parsed(CommandEnum::Echo(raw)) => {
            assert_eq!(raw[0], "a\nb");
        }
        _ => panic!("Expected CommandEnum::Echo"),
    }
}

#[test]
fn test_parse_input_cd_escapes_newline_in_clean_list() {
    match parse_input("cd 'a\nb'") {
        ParseResult::Parsed(CommandEnum::Cd(clean, raw)) => {
            assert_eq!(clean[0], "a\\nb");
            assert_eq!(raw[0], "a\nb");
        }
        _ => panic!("Expected CommandEnum::Cd"),
    }
}

#[test]
fn test_parse_input_exit_and_builtins() {
    assert!(matches!(
        parse_input("exit"),
        ParseResult::Parsed(CommandEnum::Exit)
    ));
    assert!(matches!(
        parse_input("pwd"),
        ParseResult::Parsed(CommandEnum::Pwd)
    ));
    assert!(matches!(
        parse_input("clear"),
        ParseResult::Parsed(CommandEnum::Clear)
    ));
}

#[test]
fn test_parse_input_mkdir_lists() {
    match parse_input("mkdir 'a\nb' c") {
        ParseResult::Parsed(CommandEnum::Mkdir(raw, clean)) => {
            assert_eq!(raw, vec!["a\nb".to_string(), "c".to_string()]);
            assert_eq!(clean, vec!["a\\nb".to_string(), "c".to_string()]);
        }
        _ => panic!("Expected CommandEnum::Mkdir"),
    }
}
