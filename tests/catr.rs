use unix_text_tools::cat::{number_lines, number_non_blank_lines, render, Numbering};

const TEST_TXT: &str = "catr in file!\n\ncatr in file!!\n";

#[test]
fn run_catr() {
    let out = render(TEST_TXT, Numbering::Plain);
    assert!(out.contains("catr in file!\n\ncatr in file!!"));
}

#[test]
fn run_catr_number() {
    let out = render(TEST_TXT, Numbering::from_flags(true, false));
    assert!(out.contains("1: catr in file!\n2: \n3: catr in file!!"));
}

#[test]
fn run_catr_non_blank_number() {
    let out = render(TEST_TXT, Numbering::from_flags(false, true));
    assert!(out.contains("1: catr in file!\n\n2: catr in file!!"));
}

#[test]
fn numbering_every_line() {
    let r = number_lines("catr in file!\n\ncatr in file!!");
    assert_eq!(r, vec!["1: catr in file!", "2: ", "3: catr in file!!"]);
}

#[test]
fn numbering_non_blank_lines() {
    let r = number_non_blank_lines("catr in file!\n\ncatr in file!!");
    assert_eq!(r, vec!["1: catr in file!", "", "2: catr in file!!"]);
}

#[test]
fn numbering_keeps_line_count() {
    for text in ["", "a", "a\n", "a\n\nb", "\n\n\n", "x\r\ny\r\n", "last\r"] {
        let expected = text.lines().count();
        assert_eq!(number_lines(text).len(), expected);
        assert_eq!(number_non_blank_lines(text).len(), expected);
    }
}

#[test]
fn numbering_past_nine_and_crlf() {
    let text = "l\n".repeat(12);
    let r = number_lines(&text);
    assert_eq!(r[9], "10: l");
    assert_eq!(r[11], "12: l");
    assert_eq!(number_lines("a\r\nb"), vec!["1: a", "2: b"]);
    assert_eq!(number_lines("a\rb\r"), vec!["1: a\rb\r"]);
}

#[test]
fn plain_mode_adds_newline() {
    assert_eq!(render("abc", Numbering::Plain), "abc\n");
    assert_eq!(render("", Numbering::All), "");
    assert_eq!(render("x\n\ny", Numbering::NonBlank), "1: x\n\n2: y\n");
}
