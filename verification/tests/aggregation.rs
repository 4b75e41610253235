use filecast::aggregate::{search_all, SearchAction};
use filecast::model::{DesktopApp, DirEntry, RecentAccess};
use filecast::search::SearchResultKind;

fn entry(name: &str) -> DirEntry {
    DirEntry {
        path: format!("/tmp/{}", name),
        name: name.to_string(),
        is_dir: false,
        size: 1,
        modified: None,
    }
}

fn app(name: &str, description: Option<&str>) -> DesktopApp {
    DesktopApp {
        name: name.to_string(),
        exec_cmd: name.to_string(),
        icon: None,
        description: description.map(|d| d.to_string()),
        categories: Vec::new(),
        keywords: Vec::new(),
        terminal: false,
        path: format!("/usr/share/applications/{}.desktop", name),
    }
}

fn recent(path: &str) -> RecentAccess {
    RecentAccess { path: path.to_string(), last_accessed: 0, access_count: 1, is_dir: false }
}

fn results(action: SearchAction) -> Vec<filecast::search::SearchResult> {
    match action {
        SearchAction::Results(v) => v,
        _ => panic!("expected finished results"),
    }
}

#[test]
fn empty_query_yields_nothing() {
    let r = results(search_all("", &Vec::new(), &Vec::new(), &Vec::new()));
    assert_eq!(r.len(), 0);
}

#[test]
fn colon_query_yields_one_command_result() {
    let r = results(search_all(":  ls -la", &Vec::new(), &Vec::new(), &Vec::new()));
    assert_eq!(r.len(), 1);
    assert_eq!(r[0].name, "Run: ls -la");
    assert_eq!(r[0].description, "Execute shell command");
    assert_eq!(r[0].score, 10);
    assert!(matches!(&r[0].kind, SearchResultKind::Command(c) if c == "ls -la"));
}

#[test]
fn bare_colon_yields_nothing() {
    let r = results(search_all(":", &Vec::new(), &Vec::new(), &Vec::new()));
    assert_eq!(r.len(), 0);
    let r = results(search_all(":   ", &Vec::new(), &Vec::new(), &Vec::new()));
    assert_eq!(r.len(), 0);
}

#[test]
fn at_query_asks_for_content_search() {
    let action = search_all("@ needle ", &Vec::new(), &Vec::new(), &Vec::new());
    assert!(matches!(action, SearchAction::ContentSearch(p) if p == "needle"));
}

#[test]
fn bare_at_yields_nothing() {
    let r = results(search_all("@  ", &Vec::new(), &Vec::new(), &Vec::new()));
    assert_eq!(r.len(), 0);
}

#[test]
fn slash_query_asks_for_name_search() {
    let action = search_all("/report", &Vec::new(), &Vec::new(), &Vec::new());
    assert!(matches!(action, SearchAction::NameSearch(p) if p == "report"));
}

#[test]
fn fuzzy_results_rank_by_score_with_stable_ties() {
    let apps = vec![app("docviewer", None), app("xdoc", None)];
    let recents = vec![recent("/home/u/doc")];
    let files = vec![entry("doctor"), entry("nodocs")];
    let r = results(search_all("doc", &files, &recents, &apps));
    // recent "doc" matches exactly: 100 + 10; "docviewer" and "doctor"
    // start with it: 90 each, the application first; "xdoc" and "nodocs"
    // contain it: 70 each, the application first
    let scores: Vec<u32> = r.iter().map(|x| x.score).collect();
    assert_eq!(scores, vec![110, 90, 90, 70, 70]);
    assert_eq!(r[0].name, "doc");
    assert_eq!(r[1].name, "docviewer");
    assert_eq!(r[2].name, "doctor");
    assert_eq!(r[3].name, "xdoc");
    assert_eq!(r[4].name, "nodocs");
}

#[test]
fn result_count_caps_at_20_and_scores_never_increase() {
    let mut files = Vec::new();
    let mut i = 0;
    while i < 30 {
        files.push(entry(&format!("notes{:02}", i)));
        i += 1;
    }
    let apps = vec![app("notes", None)];
    let r = results(search_all("notes", &files, &Vec::new(), &apps));
    assert_eq!(r.len(), 20);
    let mut j = 1;
    while j < r.len() {
        assert!(r[j - 1].score >= r[j].score);
        j += 1;
    }
    // the exact application match outranks the prefix matches
    assert_eq!(r[0].name, "notes");
    assert_eq!(r[0].score, 100);
    // equal-scored listing entries keep listing order
    assert_eq!(r[1].name, "notes00");
    assert_eq!(r[2].name, "notes01");
}

#[test]
fn description_match_above_30_counts_at_half() {
    let apps = vec![app("gimp", Some("image editor"))];
    let r = results(search_all("image", &Vec::new(), &Vec::new(), &apps));
    // "image editor" starts with the query: 90, halved to 45
    assert_eq!(r.len(), 1);
    assert_eq!(r[0].name, "gimp");
    assert_eq!(r[0].score, 45);
}

#[test]
fn description_match_at_or_below_30_is_dropped() {
    let apps = vec![app("gimp", None), app("inkscape", Some("xyz"))];
    let r = results(search_all("image", &Vec::new(), &Vec::new(), &apps));
    assert_eq!(r.len(), 0);
}

#[test]
fn recent_match_takes_a_bonus_of_10() {
    let recents = vec![recent("/var/log/syslog")];
    let r = results(search_all("syslog", &Vec::new(), &recents, &Vec::new()));
    assert_eq!(r.len(), 1);
    assert_eq!(r[0].score, 110);
    assert_eq!(r[0].name, "syslog");
    assert_eq!(r[0].description, "Recent • /var/log/syslog");
    assert!(matches!(&r[0].kind, SearchResultKind::RecentFile(p) if p == "/var/log/syslog"));
}

#[test]
fn parent_entry_never_matches() {
    let mut parent = entry("..");
    parent.is_dir = true;
    let files = vec![parent, entry("..config")];
    let r = results(search_all("..", &files, &Vec::new(), &Vec::new()));
    assert_eq!(r.len(), 1);
    assert_eq!(r[0].name, "..config");
}
