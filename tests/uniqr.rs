use unix_text_tools::uniq::unique_lines;

#[test]
fn uniqr_run_empty() {
    assert!(unique_lines("").is_empty());
}

#[test]
fn collapses_adjacent_duplicates() {
    assert_eq!(unique_lines("a\na\nb\na\n"), vec!["a", "b", "a"]);
}

#[test]
fn trailing_space_is_ignored() {
    assert_eq!(unique_lines("a \na\t\na\nb"), vec!["a ", "b"]);
}

#[test]
fn leading_blank_line_is_dropped() {
    assert_eq!(unique_lines("\n\nx\n\n"), vec!["x", ""]);
}

#[test]
fn neighbours_never_agree() {
    let out = unique_lines("x\nx \ny\ny\nx\n\n\nz  \nz");
    assert_eq!(out, vec!["x", "y", "x", "", "z  "]);
    for pair in out.windows(2) {
        assert_ne!(pair[0].trim_end(), pair[1].trim_end());
    }
}
