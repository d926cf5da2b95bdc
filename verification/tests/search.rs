use minigrep::{grep, keep_line, match_lines, render, write_line, Candidate, Options};
use regex::Regex;

const INPUT: &str = "abc def\nijk lmn opq\nhello123\n1234 xyz\na b c def\n";

#[test]
fn basic() {
    let regex = regex::Regex::new("abc");
    let g = grep(&Options::default(), &regex.unwrap(), INPUT, "text");

    let left: Vec<&str> = g.lines().collect();
    let right = ["text:abc def"];

    assert_eq!(left, right);
}

#[test]
fn options() {
    let regex = regex::Regex::new("def");
    let g = grep(
        &Options::new(false, true, false),
        &regex.unwrap(),
        INPUT,
        "text",
    );

    let left: Vec<&str> = g.lines().collect();
    let right = ["abc def", "a b c def"];

    assert_eq!(left, right);
}

#[test]
fn invert() {
    let regex = regex::Regex::new("^a");
    let g = grep(
        &Options::new(false, true, true),
        &regex.unwrap(),
        INPUT,
        "text",
    );

    let left: Vec<&str> = g.lines().collect();
    let right = ["ijk lmn opq", "hello123", "1234 xyz"];
    assert_eq!(left, right);
}

#[test]
fn default_options_write_label_and_line_feed() {
    let regex = Regex::new("abc").unwrap();
    let out = grep(&Options::default(), &regex, INPUT, "text");
    assert_eq!(out, "text:abc def\n");
}

#[test]
fn suppressed_label_writes_bare_lines() {
    let regex = Regex::new("def").unwrap();
    let out = grep(&Options::new(false, true, false), &regex, INPUT, "text");
    assert_eq!(out, "abc def\na b c def\n");
}

#[test]
fn inverted_anchor_writes_the_other_lines() {
    let regex = Regex::new("^a").unwrap();
    let out = grep(&Options::new(false, true, true), &regex, INPUT, "text");
    assert_eq!(out, "ijk lmn opq\nhello123\n1234 xyz\n");
}

#[test]
fn inverted_with_label() {
    let regex = Regex::new("[0-9]").unwrap();
    let out = grep(&Options::new(false, false, true), &regex, INPUT, "in.txt");
    assert_eq!(out, "in.txt:abc def\nin.txt:ijk lmn opq\nin.txt:a b c def\n");
}

#[test]
fn matching_lines_keep_their_order() {
    let regex = Regex::new("[a-z] ").unwrap();
    let out = grep(&Options::default(), &regex, INPUT, "t");
    assert_eq!(out, "t:abc def\nt:ijk lmn opq\nt:a b c def\n");
}

#[test]
fn recursive_switch_does_not_touch_the_output() {
    let regex = Regex::new("xyz").unwrap();
    let plain = grep(&Options::new(false, false, false), &regex, INPUT, "t");
    let recursive = grep(&Options::new(true, false, false), &regex, INPUT, "t");
    assert_eq!(plain, "t:1234 xyz\n");
    assert_eq!(recursive, plain);
}

#[test]
fn inverted_and_plain_part_the_lines() {
    let regex = Regex::new("def").unwrap();
    let plain = grep(&Options::new(false, true, false), &regex, INPUT, "t");
    let inverted = grep(&Options::new(false, true, true), &regex, INPUT, "t");
    assert_eq!(plain, "abc def\na b c def\n");
    assert_eq!(inverted, "ijk lmn opq\nhello123\n1234 xyz\n");
    for line in INPUT.lines() {
        let in_plain = plain.lines().any(|l| l == line);
        let in_inverted = inverted.lines().any(|l| l == line);
        assert_ne!(in_plain, in_inverted);
        assert_eq!(in_plain, regex.is_match(line));
    }
    assert_eq!(plain.lines().count() + inverted.lines().count(), INPUT.lines().count());
}

#[test]
fn suppressed_label_is_the_same_under_any_label() {
    let regex = Regex::new("l").unwrap();
    for inverted in [false, true] {
        let option = Options::new(false, true, inverted);
        let one = grep(&option, &regex, INPUT, "first");
        let other = grep(&option, &regex, INPUT, "second:");
        assert_eq!(one, other);
        assert!(!one.contains("first:"));
    }
    let out = grep(&Options::new(false, true, false), &regex, INPUT, "first");
    assert_eq!(out, "ijk lmn opq\nhello123\n");
}

#[test]
fn two_runs_write_the_same() {
    let regex = Regex::new("o").unwrap();
    let option = Options::new(false, false, true);
    let first = grep(&option, &regex, INPUT, "t");
    let second = grep(&option, &regex, INPUT, "t");
    assert_eq!(first, second);
    assert_eq!(first, "t:abc def\nt:1234 xyz\nt:a b c def\n");
}

#[test]
fn empty_content_writes_nothing() {
    let regex = Regex::new("").unwrap();
    for recursive in [false, true] {
        for no_filename in [false, true] {
            for invert_match in [false, true] {
                let option = Options::new(recursive, no_filename, invert_match);
                assert_eq!(grep(&option, &regex, "", "text"), "");
            }
        }
    }
}

#[test]
fn empty_lines_can_be_selected() {
    let regex = Regex::new("^$").unwrap();
    let out = grep(&Options::default(), &regex, "a\n\nb\n\n", "t");
    assert_eq!(out, "t:\nt:\n");
    let out = grep(&Options::new(false, true, true), &regex, "a\n\nb\n\n", "t");
    assert_eq!(out, "a\nb\n");
}

#[test]
fn last_line_without_line_feed_gets_one() {
    let regex = Regex::new("b").unwrap();
    assert_eq!(grep(&Options::default(), &regex, "a\nb", "t"), "t:b\n");
}

#[test]
fn carriage_return_is_written_with_its_line() {
    let regex = Regex::new("abc").unwrap();
    let out = grep(&Options::new(false, true, false), &regex, "abc\r\n", "text");
    assert_eq!(out, "abc\r\n");
    let at_end = Regex::new("a$").unwrap();
    let out = grep(&Options::new(false, true, false), &at_end, "a\r\nb\r\na", "t");
    assert_eq!(out, "a\n");
}

#[test]
fn pattern_is_applied_to_each_line_alone() {
    let regex = Regex::new("^b").unwrap();
    let out = grep(&Options::new(false, true, false), &regex, "ab\nba\n", "t");
    assert_eq!(out, "ba\n");
    let across = Regex::new("a\nb").unwrap();
    assert_eq!(grep(&Options::default(), &across, "a\nb\n", "t"), "");
}

#[test]
fn text_beyond_ascii() {
    let regex = Regex::new("ö").unwrap();
    let out = grep(&Options::default(), &regex, "héllo\nwörld\n", "ü");
    assert_eq!(out, "ü:wörld\n");
}

#[test]
fn keep_line_is_exclusive_or() {
    let plain = Options::new(false, false, false);
    let inverted = Options::new(false, false, true);
    assert!(keep_line(&plain, true));
    assert!(!keep_line(&plain, false));
    assert!(!keep_line(&inverted, true));
    assert!(keep_line(&inverted, false));
}

#[test]
fn write_line_appends() {
    let mut out = String::from("before\n");
    write_line(&Options::new(false, false, false), "f.txt", "line", &mut out);
    assert_eq!(out, "before\nf.txt:line\n");
    write_line(&Options::new(false, true, false), "f.txt", "bare", &mut out);
    assert_eq!(out, "before\nf.txt:line\nbare\n");
    write_line(&Options::new(true, false, true), "", "", &mut out);
    assert_eq!(out, "before\nf.txt:line\nbare\n:\n");
}

#[test]
fn match_lines_asks_the_pattern_about_each_line() {
    let regex = Regex::new("^h").unwrap();
    let lines = vec!["hello".to_string(), "oh".to_string(), "".to_string(), "h".to_string()];
    let tested = match_lines(&regex, lines);
    let expected = vec![
        Candidate { line: "hello".to_string(), matched: true },
        Candidate { line: "oh".to_string(), matched: false },
        Candidate { line: "".to_string(), matched: false },
        Candidate { line: "h".to_string(), matched: true },
    ];
    assert_eq!(tested, expected);
    assert_eq!(match_lines(&regex, Vec::new()), Vec::new());
}

#[test]
fn render_writes_the_selected_candidates() {
    let tested = vec![
        Candidate { line: "one".to_string(), matched: true },
        Candidate { line: "two".to_string(), matched: false },
        Candidate { line: "three".to_string(), matched: true },
    ];
    assert_eq!(render(&Options::new(false, false, false), "f", &tested), "f:one\nf:three\n");
    assert_eq!(render(&Options::new(false, true, false), "f", &tested), "one\nthree\n");
    assert_eq!(render(&Options::new(false, false, true), "f", &tested), "f:two\n");
    assert_eq!(render(&Options::new(false, true, true), "f", &tested), "two\n");
    assert_eq!(render(&Options::default(), "f", &Vec::new()), "");
}

#[test]
fn options_new_sets_each_switch() {
    let option = Options::new(true, false, true);
    assert!(option.recursive);
    assert!(!option.no_filename);
    assert!(option.invert_match);
    let option = Options::new(false, true, false);
    assert!(!option.recursive);
    assert!(option.no_filename);
    assert!(!option.invert_match);
}

#[test]
fn options_default_is_all_off() {
    assert_eq!(Options::default(), Options::new(false, false, false));
}

#[test]
fn output_of_two_texts_is_the_two_outputs() {
    let regex = Regex::new("a").unwrap();
    let first = "a1\nb\na2\n";
    let second = "b\na3";
    for invert_match in [false, true] {
        let option = Options::new(false, false, invert_match);
        let whole = grep(&option, &regex, "a1\nb\na2\nb\na3", "t");
        let parts = grep(&option, &regex, first, "t") + &grep(&option, &regex, second, "t");
        assert_eq!(whole, parts);
    }
    assert_eq!(grep(&Options::default(), &regex, "a1\nb\na2\nb\na3", "t"), "t:a1\nt:a2\nt:a3\n");
}
