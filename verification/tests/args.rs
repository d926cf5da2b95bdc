use minigrep::{command, default_targets, is_stdin, parse_arg, Command, Options, STDIN_LABEL, STDIN_TARGET};

fn tokens(args: &[&str]) -> Vec<String> {
    args.iter().map(|arg| arg.to_string()).collect()
}

#[test]
fn empty_command_line() {
    let (pattern, files, options) = parse_arg(Vec::new());
    assert_eq!(pattern, "");
    assert_eq!(files, Vec::<String>::new());
    assert_eq!(options, Options::new(false, false, false));
}

#[test]
fn pattern_then_targets() {
    let (pattern, files, options) = parse_arg(tokens(&["abc", "one.txt", "two.txt"]));
    assert_eq!(pattern, "abc");
    assert_eq!(files, tokens(&["one.txt", "two.txt"]));
    assert_eq!(options, Options::new(false, false, false));
}

#[test]
fn short_flags() {
    assert_eq!(parse_arg(tokens(&["-r", "p"])).2, Options::new(true, false, false));
    assert_eq!(parse_arg(tokens(&["-h", "p"])).2, Options::new(false, true, false));
    assert_eq!(parse_arg(tokens(&["-v", "p"])).2, Options::new(false, false, true));
}

#[test]
fn long_flags() {
    assert_eq!(parse_arg(tokens(&["--recursive", "p"])).2, Options::new(true, false, false));
    assert_eq!(parse_arg(tokens(&["--no-filename", "p"])).2, Options::new(false, true, false));
    assert_eq!(parse_arg(tokens(&["--invert-match", "p"])).2, Options::new(false, false, true));
}

#[test]
fn flags_may_stand_anywhere() {
    let (pattern, files, options) =
        parse_arg(tokens(&["-v", "abc", "--recursive", "dir", "-h", "file"]));
    assert_eq!(pattern, "abc");
    assert_eq!(files, tokens(&["dir", "file"]));
    assert_eq!(options, Options::new(true, true, true));
}

#[test]
fn flags_alone_leave_the_pattern_empty() {
    let (pattern, files, options) = parse_arg(tokens(&["-r", "-v"]));
    assert_eq!(pattern, "");
    assert_eq!(files, Vec::<String>::new());
    assert_eq!(options, Options::new(true, false, true));
}

#[test]
fn repeated_flag_is_the_flag() {
    let (pattern, files, options) = parse_arg(tokens(&["-v", "x", "-v", "--invert-match"]));
    assert_eq!(pattern, "x");
    assert_eq!(files, Vec::<String>::new());
    assert_eq!(options, Options::new(false, false, true));
}

#[test]
fn unknown_dash_token_is_the_pattern() {
    let (pattern, files, options) = parse_arg(tokens(&["-x", "abc", "file"]));
    assert_eq!(pattern, "-x");
    assert_eq!(files, tokens(&["abc", "file"]));
    assert_eq!(options, Options::new(false, false, false));
}

#[test]
fn unknown_dash_token_after_the_pattern_is_a_target() {
    let (pattern, files, options) = parse_arg(tokens(&["abc", "--color", "-", "-rv"]));
    assert_eq!(pattern, "abc");
    assert_eq!(files, tokens(&["--color", "-", "-rv"]));
    assert_eq!(options, Options::new(false, false, false));
}

#[test]
fn flags_are_spelled_exactly() {
    let (pattern, files, options) = parse_arg(tokens(&["-R", "--Recursive", "-r ", "--recursive=1"]));
    assert_eq!(pattern, "-R");
    assert_eq!(files, tokens(&["--Recursive", "-r ", "--recursive=1"]));
    assert_eq!(options, Options::new(false, false, false));
}

#[test]
fn empty_token_fills_the_pattern() {
    let (pattern, files, options) = parse_arg(tokens(&["", "abc", "-h"]));
    assert_eq!(pattern, "");
    assert_eq!(files, tokens(&["abc"]));
    assert_eq!(options, Options::new(false, true, false));
}

#[test]
fn no_pattern_asks_for_usage() {
    assert_eq!(command(Vec::new()), Command::Usage);
    assert_eq!(command(tokens(&["-r", "--no-filename"])), Command::Usage);
    assert_eq!(command(tokens(&["", "file"])), Command::Usage);
}

#[test]
fn no_target_means_standard_input() {
    let expected = Command::Search {
        pattern: "abc".to_string(),
        targets: tokens(&["-"]),
        options: Options::new(false, false, true),
    };
    assert_eq!(command(tokens(&["abc", "-v"])), expected);
}

#[test]
fn named_targets_are_kept_in_order() {
    let expected = Command::Search {
        pattern: "abc".to_string(),
        targets: tokens(&["b", "-", "a"]),
        options: Options::new(true, false, false),
    };
    assert_eq!(command(tokens(&["abc", "b", "-r", "-", "a"])), expected);
}

#[test]
fn default_targets_fills_in_standard_input() {
    assert_eq!(default_targets(Vec::new()), tokens(&["-"]));
    assert_eq!(default_targets(tokens(&["a", "b"])), tokens(&["a", "b"]));
    assert_eq!(default_targets(tokens(&[""])), tokens(&[""]));
}

#[test]
fn only_a_single_dash_is_standard_input() {
    assert!(is_stdin("-"));
    assert!(is_stdin(STDIN_TARGET));
    assert!(!is_stdin(""));
    assert!(!is_stdin("--"));
    assert!(!is_stdin("./-"));
    assert!(!is_stdin("(stdin)"));
}

#[test]
fn standard_input_names() {
    assert_eq!(STDIN_TARGET, "-");
    assert_eq!(STDIN_LABEL, "(stdin)");
}
