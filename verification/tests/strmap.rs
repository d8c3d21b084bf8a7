use mcp_core::strmap::StrMap;
use mcp_core::text::parse_usize;

#[test]
fn map_keeps_keys_sorted_and_unique() {
    let mut m = StrMap::new();
    assert_eq!(m.insert("b".to_string(), 2), None);
    assert_eq!(m.insert("a".to_string(), 1), None);
    assert_eq!(m.insert("é".to_string(), 4), None);
    assert_eq!(m.insert("ab".to_string(), 3), None);
    assert_eq!(m.insert("b".to_string(), 20), Some(2));
    assert_eq!(m.len(), 4);
    assert_eq!(m.get("b"), Some(&20));
    assert_eq!(m.get("c"), None);
    assert_eq!(m.remove("a"), Some(1));
    assert_eq!(m.remove("a"), None);
    let keys: Vec<String> = m.into_entries().into_iter().map(|(k, _)| k).collect();
    assert_eq!(keys, vec!["ab", "b", "é"]);
}

#[test]
fn parse_usize_matches_std() {
    for s in [
        "0", "42", "+42", "", "+", "-1", " 1", "1 ", "1a", "18446744073709551615",
        "18446744073709551616", "00012", "++1",
    ] {
        assert_eq!(parse_usize(s), s.parse::<usize>().ok(), "input {s:?}");
    }
}
