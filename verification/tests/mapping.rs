use log_replay::text::same_text;
use log_replay::Mapping;

fn sorted_entries(mapping: &Mapping) -> Vec<(String, String)> {
    let mut entries = mapping.entries().clone();
    entries.sort();
    entries
}

#[test]
fn new_mapping_is_empty() {
    let mapping = Mapping::new();
    assert_eq!(mapping.len(), 0);
    assert_eq!(mapping.get("a"), None);
    assert!(!mapping.contains_key(""));
}

#[test]
fn insert_binds_and_overwrites() {
    let mut mapping = Mapping::new();
    assert_eq!(mapping.insert("a".to_string(), "one".to_string()), None);
    assert_eq!(mapping.insert("b".to_string(), "two".to_string()), None);
    assert_eq!(mapping.insert("a".to_string(), "three".to_string()), Some("one".to_string()));
    assert_eq!(mapping.len(), 2);
    assert_eq!(mapping.get("a"), Some(&"three".to_string()));
    assert_eq!(mapping.get("b"), Some(&"two".to_string()));
    assert_eq!(
        sorted_entries(&mapping),
        vec![("a".to_string(), "three".to_string()), ("b".to_string(), "two".to_string())]
    );
}

#[test]
fn remove_unbinds_and_tolerates_absence() {
    let mut mapping = Mapping::new();
    mapping.insert("a".to_string(), "one".to_string());
    mapping.insert("b".to_string(), "two".to_string());
    mapping.insert("c".to_string(), "three".to_string());
    assert_eq!(mapping.remove("b"), Some("two".to_string()));
    assert_eq!(mapping.remove("b"), None);
    assert_eq!(mapping.remove("zz"), None);
    assert_eq!(mapping.len(), 2);
    assert!(mapping.contains_key("a"));
    assert!(!mapping.contains_key("b"));
    assert!(mapping.contains_key("c"));
    assert_eq!(
        sorted_entries(&mapping),
        vec![("a".to_string(), "one".to_string()), ("c".to_string(), "three".to_string())]
    );
}

#[test]
fn keys_are_compared_as_whole_texts() {
    let mut mapping = Mapping::new();
    mapping.insert("ab".to_string(), "x".to_string());
    assert!(!mapping.contains_key("a"));
    assert!(!mapping.contains_key("abc"));
    assert!(!mapping.contains_key("ba"));
    assert!(mapping.contains_key("ab"));
}

#[test]
fn same_text_compares_characters() {
    assert!(same_text("", ""));
    assert!(same_text("del", "del"));
    assert!(!same_text("del", "de"));
    assert!(!same_text("del", "dex"));
    assert!(!same_text("", "a"));
    assert!(same_text("\u{e9}t\u{e9}", "\u{e9}t\u{e9}"));
    assert!(!same_text("\u{e9}", "e"));
}
