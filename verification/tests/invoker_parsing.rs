use filecast::invoker::{
    content_search_command, content_search_fallback, name_search_candidates, name_search_command,
    name_search_fallback, name_search_results, parse_content_search_output, FoundPath,
};
use filecast::search::SearchResultKind;
use filecast::search_config::SearchConfig;

fn config(dirs: &[&str]) -> SearchConfig {
    SearchConfig { exclude_dirs: dirs.iter().map(|d| d.to_string()).collect() }
}

#[test]
fn grep_line_parses_into_path_line_and_content() {
    let r = parse_content_search_output("src/main.c:42:return 0;");
    assert_eq!(r.len(), 1);
    assert_eq!(r[0].name, "main.c:42");
    assert_eq!(r[0].description, "return 0;");
    assert_eq!(r[0].score, 30);
    match &r[0].kind {
        SearchResultKind::GrepResult { path, line, content } => {
            assert_eq!(path, "src/main.c");
            assert_eq!(*line, 42);
            assert_eq!(content, "return 0;");
        }
        _ => panic!("expected a content-search result"),
    }
}

#[test]
fn grep_line_with_bad_number_is_dropped() {
    let r = parse_content_search_output("src/main.c:notanumber:x");
    assert_eq!(r.len(), 0);
}

#[test]
fn grep_line_with_missing_fields_is_dropped() {
    let out = "noseparator\nonly:one\na.c:7:ok\n";
    let r = parse_content_search_output(out);
    assert_eq!(r.len(), 1);
    assert_eq!(r[0].name, "a.c:7");
}

#[test]
fn grep_output_accepts_crlf_line_endings() {
    let r = parse_content_search_output("a.c:3:first\r\nb.c:4:second\r\n");
    assert_eq!(r.len(), 2);
    assert_eq!(r[0].description, "first");
    assert_eq!(r[1].name, "b.c:4");
}

#[test]
fn grep_output_caps_at_15_lines() {
    let mut out = String::new();
    let mut i = 0;
    while i < 25 {
        out.push_str(&format!("f{}.rs:{}:line\n", i, i + 1));
        i += 1;
    }
    let r = parse_content_search_output(&out);
    assert_eq!(r.len(), 15);
    assert_eq!(r[0].name, "f0.rs:1");
    assert_eq!(r[14].name, "f14.rs:15");
}

#[test]
fn grep_content_is_trimmed_and_clipped_to_80() {
    let long = "x".repeat(100);
    let out = format!("a.c:1:   {}  ", long);
    let r = parse_content_search_output(&out);
    assert_eq!(r.len(), 1);
    assert_eq!(r[0].description.chars().count(), 80);
    assert!(r[0].description.chars().all(|c| c == 'x'));
}

#[test]
fn content_search_uses_rg_with_exclusions() {
    let inv = content_search_command("needle", &config(&["node_modules", ".git"]));
    assert_eq!(inv.program, "rg");
    assert_eq!(
        inv.args,
        vec![
            "-n",
            "-i",
            "--max-count",
            "20",
            "--glob",
            "!node_modules/**",
            "--glob",
            "!.git/**",
            "needle",
            ".",
        ]
    );
}

#[test]
fn content_search_falls_back_to_grep() {
    let inv = content_search_fallback("needle", &config(&["target"]));
    assert_eq!(inv.program, "grep");
    assert_eq!(inv.args, vec!["-r", "-n", "-i", "--exclude-dir=target", "needle", "."]);
}

#[test]
fn name_search_uses_fd_with_exclusions() {
    let inv = name_search_command("report", &config(&["dist"]));
    assert_eq!(inv.program, "fd");
    assert_eq!(inv.args, vec!["-i", "--max-results", "20", "--exclude", "dist", "report"]);
}

#[test]
fn name_search_falls_back_to_find() {
    let inv = name_search_fallback("report", &config(&["build"]));
    assert_eq!(inv.program, "find");
    assert_eq!(
        inv.args,
        vec![".", "-maxdepth", "5", "-not", "-path", "*build*", "-iname", "*report*"]
    );
}

#[test]
fn name_candidates_are_trimmed_and_capped_at_15() {
    let mut out = String::from("  ./spaced path  \n");
    let mut i = 0;
    while i < 20 {
        out.push_str(&format!("./f{}\n", i));
        i += 1;
    }
    let c = name_search_candidates(&out);
    assert_eq!(c.len(), 15);
    assert_eq!(c[0], "./spaced path");
    assert_eq!(c[1], "./f0");
}

#[test]
fn name_results_carry_score_50_and_icons() {
    let found = vec![
        FoundPath { path: "./src/lib.rs".to_string(), is_dir: false },
        FoundPath { path: "./docs".to_string(), is_dir: true },
    ];
    let r = name_search_results(&found);
    assert_eq!(r.len(), 2);
    assert_eq!(r[0].name, "lib.rs");
    assert_eq!(r[0].icon, "💻");
    assert_eq!(r[0].score, 50);
    assert_eq!(r[0].description, "./src/lib.rs");
    assert!(matches!(&r[0].kind, SearchResultKind::File(p) if p == "./src/lib.rs"));
    assert_eq!(r[1].name, "docs");
    assert_eq!(r[1].icon, "📁");
    assert_eq!(r[1].score, 50);
}
