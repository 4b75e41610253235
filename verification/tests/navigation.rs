use filecast::nav::NavigationHistory;

#[test]
fn push_appends_and_becomes_current() {
    let mut h = NavigationHistory::new("/a".to_string());
    assert_eq!(h.entries, vec!["/a"]);
    assert_eq!(h.index, 0);
    h.push("/b".to_string());
    assert_eq!(h.entries, vec!["/a", "/b"]);
    assert_eq!(h.index, 1);
    assert_eq!(h.current(), "/b");
}

#[test]
fn push_after_back_discards_forward_entries() {
    let mut h = NavigationHistory::new("/a".to_string());
    h.push("/b".to_string());
    assert_eq!(h.back(), Some("/a".to_string()));
    assert_eq!(h.index, 0);
    h.push("/c".to_string());
    assert_eq!(h.entries, vec!["/a", "/c"]);
    assert_eq!(h.index, 1);
}

#[test]
fn back_at_the_oldest_entry_is_a_no_op() {
    let mut h = NavigationHistory::new("/a".to_string());
    assert_eq!(h.back(), None);
    assert_eq!(h.entries, vec!["/a"]);
    assert_eq!(h.index, 0);
}

#[test]
fn forward_at_the_newest_entry_is_a_no_op() {
    let mut h = NavigationHistory::new("/a".to_string());
    h.push("/b".to_string());
    assert_eq!(h.forward(), None);
    assert_eq!(h.index, 1);
}

#[test]
fn back_and_forward_walk_the_stack() {
    let mut h = NavigationHistory::new("/a".to_string());
    h.push("/b".to_string());
    h.push("/c".to_string());
    assert_eq!(h.back(), Some("/b".to_string()));
    assert_eq!(h.back(), Some("/a".to_string()));
    assert_eq!(h.forward(), Some("/b".to_string()));
    assert_eq!(h.forward(), Some("/c".to_string()));
    assert_eq!(h.forward(), None);
}
