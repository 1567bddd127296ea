use meowdiff::strmap::StrMap;

#[test]
fn map_replaces_and_removes_by_key() {
    let mut m: StrMap<u32> = StrMap::new();
    assert_eq!(m.len(), 0);
    assert_eq!(m.get("a"), None);
    assert!(!m.contains_key("a"));
    m.insert("a".to_string(), 1);
    m.insert("b".to_string(), 2);
    m.insert("a".to_string(), 3);
    assert_eq!(m.len(), 2);
    assert_eq!(m.get("a"), Some(&3));
    assert_eq!(m.get("b"), Some(&2));
    assert_eq!(m.position("a"), Some(0));
    assert_eq!(m.position("b"), Some(1));
    assert_eq!(m.position("c"), None);
    m.remove("a");
    assert_eq!(m.len(), 1);
    assert_eq!(m.get("a"), None);
    assert_eq!(m.get("b"), Some(&2));
    m.remove("a");
    m.remove("zz");
    assert_eq!(m.len(), 1);
    m.remove("b");
    assert_eq!(m.len(), 0);
    assert!(!m.contains_key("b"));
}

#[test]
fn keys_are_compared_as_whole_strings() {
    let mut m: StrMap<&str> = StrMap::new();
    m.insert("".to_string(), "empty");
    m.insert("a".to_string(), "a");
    m.insert("ab".to_string(), "ab");
    m.insert("A".to_string(), "upper");
    assert_eq!(m.get(""), Some(&"empty"));
    assert_eq!(m.get("a"), Some(&"a"));
    assert_eq!(m.get("ab"), Some(&"ab"));
    assert_eq!(m.get("A"), Some(&"upper"));
    assert_eq!(m.get("b"), None);
    assert_eq!(m.len(), 4);
}
