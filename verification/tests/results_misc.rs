use filecast::mode::{AppMode, FocusedPane};
use filecast::model::{DesktopApp, DirEntry, RecentAccess};
use filecast::search::{get_file_icon, SearchResult, SearchResultKind};
use filecast::search_config::SearchConfig;

#[test]
fn icons_follow_the_extension_tables() {
    assert_eq!(get_file_icon("photo.png"), "🖼️");
    assert_eq!(get_file_icon("LOUD.JPG"), "🖼️");
    assert_eq!(get_file_icon("movie.mkv"), "🎬");
    assert_eq!(get_file_icon("song.flac"), "🎵");
    assert_eq!(get_file_icon("paper.pdf"), "📝");
    assert_eq!(get_file_icon("sheet.xlsx"), "📊");
    assert_eq!(get_file_icon("bundle.tar.gz"), "📦");
    assert_eq!(get_file_icon("main.rs"), "💻");
    assert_eq!(get_file_icon("page.html"), "📋");
    assert_eq!(get_file_icon("run.sh"), "⚙️");
    assert_eq!(get_file_icon("mystery"), "📄");
    assert_eq!(get_file_icon("noext."), "📄");
}

#[test]
fn file_result_takes_the_entry_name_and_path() {
    let e = DirEntry {
        path: "/home/u/main.rs".to_string(),
        name: "main.rs".to_string(),
        is_dir: false,
        size: 10,
        modified: None,
    };
    let r = SearchResult::file(&e, 90);
    assert_eq!(r.name, "main.rs");
    assert_eq!(r.description, "/home/u/main.rs");
    assert_eq!(r.icon, "💻");
    assert_eq!(r.score, 90);
    assert!(matches!(&r.kind, SearchResultKind::File(p) if p == "/home/u/main.rs"));
}

#[test]
fn directory_result_takes_the_folder_icon() {
    let e = DirEntry {
        path: "/home/u/src".to_string(),
        name: "src".to_string(),
        is_dir: true,
        size: 0,
        modified: Some(7),
    };
    let r = SearchResult::file(&e, 70);
    assert_eq!(r.icon, "📁");
}

#[test]
fn recent_result_is_named_by_the_file_name() {
    let m = RecentAccess {
        path: "/var/log/syslog".to_string(),
        last_accessed: 100,
        access_count: 3,
        is_dir: false,
    };
    let r = SearchResult::recent_file(&m, 80);
    assert_eq!(r.name, "syslog");
    assert_eq!(r.description, "Recent • /var/log/syslog");
    assert_eq!(r.score, 80);
    assert!(matches!(&r.kind, SearchResultKind::RecentFile(p) if p == "/var/log/syslog"));
}

#[test]
fn application_result_falls_back_to_a_stock_description() {
    let a = DesktopApp {
        name: "Files".to_string(),
        exec_cmd: "files".to_string(),
        icon: None,
        description: None,
        categories: Vec::new(),
        keywords: Vec::new(),
        terminal: false,
        path: "/usr/share/applications/files.desktop".to_string(),
    };
    let r = SearchResult::application(&a, 100);
    assert_eq!(r.name, "Files");
    assert_eq!(r.description, "Application");
    assert_eq!(r.icon, "🚀");
    assert_eq!(r.score, 100);
}

#[test]
fn grep_result_joins_name_and_line_number() {
    let r = SearchResult::grep_result("deep/dir/a.c".to_string(), 120, "  hit  ".to_string());
    assert_eq!(r.name, "a.c:120");
    assert_eq!(r.description, "hit");
    assert_eq!(r.icon, "🔎");
    assert_eq!(r.score, 30);
}

#[test]
fn command_result_has_fixed_priority_10() {
    let r = SearchResult::command("make test");
    assert_eq!(r.name, "Run: make test");
    assert_eq!(r.score, 10);
}

#[test]
fn stock_config_excludes_the_usual_directories() {
    let c = SearchConfig::default();
    assert_eq!(
        c.exclude_dirs,
        vec![
            "node_modules",
            ".next",
            ".git",
            "target",
            "dist",
            "build",
            "__pycache__",
            ".venv",
            "venv",
            ".cache",
        ]
    );
}

#[test]
fn mode_labels_match_the_status_line() {
    assert_eq!(AppMode::Normal.label(), "NORMAL");
    assert_eq!(AppMode::Search.label(), "SEARCH");
    assert_eq!(AppMode::Command.label(), "COMMAND");
    assert_eq!(AppMode::Quit.label(), "QUIT");
}

#[test]
fn pane_focus_cycles_in_order() {
    assert_eq!(FocusedPane::History.next(), FocusedPane::FileList);
    assert_eq!(FocusedPane::FileList.next(), FocusedPane::Preview);
    assert_eq!(FocusedPane::Preview.next(), FocusedPane::History);
}
