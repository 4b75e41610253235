use filecast::listing::arrange_listing;
use filecast::model::DirEntry;

fn entry(name: &str, is_dir: bool) -> DirEntry {
    DirEntry {
        path: format!("/d/{}", name),
        name: name.to_string(),
        is_dir,
        size: 0,
        modified: None,
    }
}

fn names(v: &[DirEntry]) -> Vec<String> {
    v.iter().map(|e| e.name.clone()).collect()
}

#[test]
fn directories_order_before_files() {
    let raw = vec![
        entry("zeta.txt", false),
        entry("src", true),
        entry("alpha.txt", false),
        entry("docs", true),
    ];
    let arranged = arrange_listing(&raw, false);
    assert_eq!(names(&arranged), vec!["docs", "src", "alpha.txt", "zeta.txt"]);
}

#[test]
fn hidden_entries_are_dropped_by_default() {
    let raw = vec![entry(".git", true), entry("main.rs", false), entry(".env", false)];
    let arranged = arrange_listing(&raw, false);
    assert_eq!(names(&arranged), vec!["main.rs"]);
}

#[test]
fn hidden_entries_stay_when_asked_for() {
    let raw = vec![entry(".git", true), entry("main.rs", false), entry(".env", false)];
    let arranged = arrange_listing(&raw, true);
    assert_eq!(names(&arranged), vec![".git", ".env", "main.rs"]);
}

#[test]
fn names_sort_within_each_group() {
    let raw = vec![
        entry("b.txt", false),
        entry("a.txt", false),
        entry("c.txt", false),
    ];
    let arranged = arrange_listing(&raw, false);
    assert_eq!(names(&arranged), vec!["a.txt", "b.txt", "c.txt"]);
}
