use unix_text_tools::find::{Entry, EntryType, Filter, FindError, NamePattern};

fn entry(path: &str, name: &str, kind: char) -> Entry {
    Entry {
        path: path.to_string(),
        name: name.to_string(),
        is_dir: kind == 'd',
        is_file: kind == 'f',
        is_symlink: kind == 'l',
    }
}

fn tree() -> Vec<Entry> {
    vec![
        entry("in", "in", 'd'),
        entry("in/a", "a", 'd'),
        entry("in/a/a.txt", "a.txt", 'f'),
        entry("in/b.csv", "b.csv", 'f'),
        entry("in/c.mp3", "c.mp3", 'f'),
        entry("in/d", "d", 'l'),
    ]
}

fn names(ns: &[&str]) -> Vec<String> {
    ns.iter().map(|n| n.to_string()).collect()
}

#[test]
fn no_filter_keeps_everything() {
    let f = Filter::new(vec![], &names(&[])).unwrap();
    assert_eq!(f.select(&tree()).len(), 6);
}

#[test]
fn type_filter() {
    let f = Filter::new(vec![EntryType::Dir], &names(&[])).unwrap();
    assert_eq!(f.select(&tree()), vec!["in", "in/a"]);
    let f = Filter::new(vec![EntryType::Link], &names(&[])).unwrap();
    assert_eq!(f.select(&tree()), vec!["in/d"]);
    let f = Filter::new(vec![EntryType::Dir, EntryType::File], &names(&[])).unwrap();
    assert_eq!(f.select(&tree()).len(), 5);
}

#[test]
fn name_filter() {
    let f = Filter::new(vec![], &names(&[".*\\.csv"])).unwrap();
    assert_eq!(f.select(&tree()), vec!["in/b.csv"]);
    let f = Filter::new(vec![], &names(&[".*\\.csv", ".*\\.mp3"])).unwrap();
    assert_eq!(f.select(&tree()), vec!["in/b.csv", "in/c.mp3"]);
}

#[test]
fn both_filters_must_pass() {
    let f = Filter::new(vec![EntryType::Dir], &names(&["a"])).unwrap();
    assert_eq!(f.select(&tree()), vec!["in/a"]);
}

#[test]
fn search_is_unanchored() {
    let p = NamePattern::new("sv").unwrap();
    assert!(p.is_match("b.csv"));
    assert!(!p.is_match("c.mp3"));
    let p = NamePattern::new("^b").unwrap();
    assert!(p.is_match("b.csv"));
    assert!(!p.is_match("ab"));
}

#[test]
fn invalid_pattern_is_an_error() {
    match Filter::new(vec![], &names(&["ok", "(", "["])) {
        Err(FindError::InvalidPattern(p)) => assert_eq!(p, "("),
        Ok(_) => panic!("a bad pattern was accepted"),
    }
}

#[test]
fn entry_type_letters() {
    let letters: Vec<char> = EntryType::variants().iter().map(|t| t.letter()).collect();
    assert_eq!(letters, vec!['d', 'f', 'l']);
    assert_eq!(EntryType::from_letter('f'), Some(EntryType::File));
    assert_eq!(EntryType::from_letter('x'), None);
}
