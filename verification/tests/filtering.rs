use filecast::filter::DirectoryFilter;
use filecast::model::DirEntry;

fn listing(names: &[&str]) -> Vec<DirEntry> {
    names
        .iter()
        .map(|n| DirEntry {
            path: format!("/d/{}", n),
            name: n.to_string(),
            is_dir: false,
            size: 0,
            modified: None,
        })
        .collect()
}

#[test]
fn filter_keeps_matching_entries_in_order() {
    let l = listing(&["apple", "banana", "grape"]);
    let mut f = DirectoryFilter::new();
    f.apply("ap", &l);
    assert!(f.active);
    let names: Vec<String> = f.filtered.iter().map(|e| e.name.clone()).collect();
    assert_eq!(names, vec!["apple", "grape"]);
    assert_eq!(f.selected, 0);
}

#[test]
fn filter_is_case_insensitive() {
    let l = listing(&["README", "Makefile", "notes.txt"]);
    let mut f = DirectoryFilter::new();
    f.apply("read", &l);
    let names: Vec<String> = f.filtered.iter().map(|e| e.name.clone()).collect();
    assert_eq!(names, vec!["README"]);
}

#[test]
fn clearing_the_query_restores_the_full_list() {
    let l = listing(&["apple", "banana", "grape"]);
    let mut f = DirectoryFilter::new();
    f.apply("ap", &l);
    f.selected = 1;
    f.apply("", &l);
    assert!(!f.active);
    assert_eq!(f.selected, 0);
    let shown = f.get_display_list(&l);
    assert_eq!(shown.len(), 3);
    assert_eq!(shown[0].name, "apple");
    assert_eq!(shown[2].name, "grape");
}

#[test]
fn display_list_shows_the_filtered_entries_while_active() {
    let l = listing(&["apple", "banana", "grape"]);
    let mut f = DirectoryFilter::new();
    f.apply("an", &l);
    let shown = f.get_display_list(&l);
    assert_eq!(shown.len(), 1);
    assert_eq!(shown[0].name, "banana");
}

#[test]
fn clear_drops_the_cached_entries() {
    let l = listing(&["apple"]);
    let mut f = DirectoryFilter::new();
    f.apply("a", &l);
    f.clear();
    assert!(!f.active);
    assert_eq!(f.filtered.len(), 0);
    assert_eq!(f.selected, 0);
}
