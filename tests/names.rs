use krill::names::{name_holds, name_le, sorted_matching};

#[test]
fn order_of_names() {
    assert!(name_le("delta-10.json", "delta-2.json"));
    assert!(!name_le("delta-2.json", "delta-10.json"));
    assert!(name_le("abc", "abc"));
    assert!(name_le("ab", "abc"));
    assert!(!name_le("abc", "ab"));
    assert!(name_le("", ""));
}

#[test]
fn substring_matching() {
    assert!(name_holds("command-3.json", "command"));
    assert!(name_holds("command-3.json", ""));
    assert!(name_holds("abc", "abc"));
    assert!(!name_holds("ab", "abc"));
    assert!(!name_holds("delta-1.json", "command"));
}

#[test]
fn sort_keeps_only_matching() {
    let names: Vec<String> = ["b", "xa", "a", "x", "c", "ax"].iter().map(|s| s.to_string()).collect();
    assert_eq!(sorted_matching(&names, "x"), vec!["ax", "x", "xa"]);
    assert_eq!(sorted_matching(&names, ""), vec!["a", "ax", "b", "c", "x", "xa"]);
    assert!(sorted_matching(&names, "zz").is_empty());
}
