use unix_text_tools::head::{head_bytes, head_lines, head_output};
use unix_text_tools::parse_positive_int;

const DEFAULT_TXT: &str = "one\ntwo\nthree\nfour\nfive\nsix\nseven\neight\nnine\nten\n";

fn lines_mode(content: &str, count: &str) -> String {
    head_output(content, count.to_string(), None).unwrap()
}

#[test]
fn headr_run_empty() {
    assert_eq!(lines_mode("", "10"), "");
}

#[test]
fn run_default_count() {
    let out = lines_mode(DEFAULT_TXT, "10");
    assert!(out.contains("one\ntwo\nthree\nfour\nfive\nsix\nseven\neight\nnine\nten"));
}

#[test]
fn run_less_than_default() {
    let out = lines_mode("one\ntwo\nthree\n", "10");
    assert!(out.contains("one\ntwo\nthree"));
}

#[test]
fn run_more_than_default() {
    let content = format!("{}eleven\ntwelve\n", DEFAULT_TXT);
    let out = lines_mode(&content, "10");
    assert!(out.contains("one\ntwo\nthree\nfour\nfive\nsix\nseven\neight\nnine\nten"));
    assert!(!out.contains("eleven"));
}

#[test]
fn run_with_count() {
    assert_eq!(lines_mode(DEFAULT_TXT, "5"), "one\ntwo\nthree\nfour\nfive\n");
}

#[test]
fn run_with_bytes() {
    assert_eq!(head_bytes(DEFAULT_TXT, 10), "one\ntwo\nth".as_bytes());
    let out = head_output(DEFAULT_TXT, "10".to_string(), Some("10".to_string())).unwrap();
    assert_eq!(out, "111\n110\n101\n10\n116\n119\n111\n10\n116\n104\n");
}

#[test]
fn bytes_beyond_the_end() {
    assert_eq!(head_bytes("ab", 10), b"ab");
    assert_eq!(head_bytes("é", 1), vec![0xC3]);
}

#[test]
fn lines_beyond_the_end() {
    assert_eq!(head_lines("a\nb", 5), vec!["a", "b"]);
    assert_eq!(head_lines("a\nb\nc", 2), vec!["a", "b"]);
}

#[test]
fn parse_positive_counts() {
    assert_eq!(parse_positive_int("10".to_string()), Ok(10));
    assert_eq!(parse_positive_int("+7".to_string()), Ok(7));
    assert_eq!(parse_positive_int("2147483647".to_string()), Ok(2147483647));
}

#[test]
fn parse_rejects_other_counts() {
    for bad in ["0", "-3", "abc", "", "+", "-", "2147483648", "99999999999", " 5", "5x", "-0"] {
        assert_eq!(parse_positive_int(bad.to_string()), Err(bad.to_string()));
    }
}

#[test]
fn illegal_counts_are_errors() {
    assert_eq!(head_output(DEFAULT_TXT, "0".to_string(), None), Err("0".to_string()));
    assert_eq!(
        head_output(DEFAULT_TXT, "10".to_string(), Some("x".to_string())),
        Err("x".to_string())
    );
}
