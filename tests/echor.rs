use unix_text_tools::echo::echo;

fn words(ws: &[&str]) -> Vec<String> {
    ws.iter().map(|w| w.to_string()).collect()
}

#[test]
fn run_echor() {
    let out = echo(&words(&["hello"]), false);
    assert!(out.contains("hello"));
}

#[test]
fn echo_joins_with_newline() {
    assert_eq!(echo(&words(&["hello", "world"]), false), "hello world\n");
}

#[test]
fn echo_omits_newline() {
    assert_eq!(echo(&words(&["hello", "world"]), true), "hello world");
}

#[test]
fn echo_edge_cases() {
    assert_eq!(echo(&words(&[]), false), "\n");
    assert_eq!(echo(&words(&[]), true), "");
    assert_eq!(echo(&words(&["a", "", "b"]), true), "a  b");
}
