use minigrep::split_lines;

fn owned(lines: &[&str]) -> Vec<String> {
    lines.iter().map(|line| line.to_string()).collect()
}

#[test]
fn empty_text_has_no_lines() {
    assert_eq!(split_lines(""), Vec::<String>::new());
}

#[test]
fn text_without_line_feed_is_one_line() {
    assert_eq!(split_lines("abc"), owned(&["abc"]));
}

#[test]
fn final_line_feed_opens_no_line() {
    assert_eq!(split_lines("abc\n"), owned(&["abc"]));
    assert_eq!(split_lines("a\nb\n"), owned(&["a", "b"]));
    assert_eq!(split_lines("a\nb"), owned(&["a", "b"]));
}

#[test]
fn line_feed_alone_is_one_empty_line() {
    assert_eq!(split_lines("\n"), owned(&[""]));
    assert_eq!(split_lines("\n\n"), owned(&["", ""]));
}

#[test]
fn empty_lines_in_between_are_kept() {
    assert_eq!(split_lines("a\n\nb\n"), owned(&["a", "", "b"]));
    assert_eq!(split_lines("\na"), owned(&["", "a"]));
}

#[test]
fn carriage_return_before_line_feed_is_part_of_the_line() {
    assert_eq!(split_lines("abc\r\n"), owned(&["abc\r"]));
    assert_eq!(split_lines("a\r\nb\r\n"), owned(&["a\r", "b\r"]));
    assert_eq!(split_lines("\r\n"), owned(&["\r"]));
    assert_eq!(split_lines("a\r\r\n"), owned(&["a\r\r"]));
}

#[test]
fn other_carriage_returns_stay() {
    assert_eq!(split_lines("a\r"), owned(&["a\r"]));
    assert_eq!(split_lines("\r"), owned(&["\r"]));
    assert_eq!(split_lines("a\rb\n"), owned(&["a\rb"]));
    assert_eq!(split_lines("a\n\rb"), owned(&["a", "\rb"]));
    assert_eq!(split_lines("a\r\nb\r"), owned(&["a\r", "b\r"]));
}

#[test]
fn lines_beyond_ascii() {
    assert_eq!(split_lines("héllo\nwörld\n日本語"), owned(&["héllo", "wörld", "日本語"]));
}

#[test]
fn split_lines_cuts_at_line_feeds_only() {
    let samples = [
        "",
        "\n",
        "\r",
        "\r\n",
        "\n\r",
        "a",
        "a\n",
        "a\r",
        "a\r\n",
        "a\r\r\n",
        "a\n\nb",
        "a\r\n\r\nb\r\n",
        "abc def\nijk lmn opq\nhello123\n1234 xyz\na b c def\n",
        "one\rtwo\nthree\r\nfour\n\rfive\r",
        "tab\there\n  spaces  \n",
        "ünï\r\ncödé\n",
    ];
    for sample in samples {
        let mut expected: Vec<String> = sample.split('\n').map(|line| line.to_string()).collect();
        if sample.is_empty() || sample.ends_with('\n') {
            expected.pop();
        }
        assert_eq!(split_lines(sample), expected);
    }
}

#[test]
fn no_line_holds_a_line_feed() {
    for sample in ["a\nb\nc", "\n\n\n", "x\r\ny\n"] {
        for line in split_lines(sample) {
            assert!(!line.contains('\n'));
        }
    }
}
