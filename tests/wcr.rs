use unix_text_tools::get_file_counts;
use unix_text_tools::wc::report;

#[test]
fn wcr_run_empty() {
    let counts = get_file_counts(String::new());
    let out = report(counts, false, false, false, "\"src/wcr/inputs/empty.txt\"");
    assert!(out.contains("0 0 0 \"src/wcr/inputs/empty.txt\"\n"));
}

#[test]
fn run_single_file() {
    let content = "one\ntwo\nthree\nfour\nfive\nsix\nseven\neight\nnine\nten\n".to_string();
    let counts = get_file_counts(content);
    let out = report(counts, false, false, false, "\"src/wcr/inputs/single.txt\"");
    assert!(out.contains("10 10 49 \"src/wcr/inputs/single.txt\"\n"));
}

#[test]
fn counts_of_mixed_text() {
    assert_eq!(get_file_counts("  héllo  wörld\n\tx\r\ny".to_string()), (3, 4, 22));
    assert_eq!(get_file_counts("\n\n".to_string()), (2, 0, 2));
    assert_eq!(get_file_counts("a\u{3000}b".to_string()), (1, 2, 5));
}

#[test]
fn counts_grow_when_text_is_appended() {
    let parts = ["", "a", " b", "\n", "c\r", "\n\n", "  ", "d"];
    let mut text = String::new();
    let mut last = get_file_counts(text.clone());
    for p in parts {
        text.push_str(p);
        let now = get_file_counts(text.clone());
        assert!(now.0 >= last.0 && now.1 >= last.1 && now.2 >= last.2);
        last = now;
    }
}

#[test]
fn selected_counts_keep_their_order() {
    let c = (1, 22, 333);
    assert_eq!(report(c, true, false, false, "p"), "1 p\n");
    assert_eq!(report(c, false, true, true, "p"), "22 333 p\n");
    assert_eq!(report(c, true, true, true, "p"), "1 22 333 p\n");
}
