use filecast::complete::{extract_word_to_complete, CompletionOutcome, TabCompletionCycler};
use filecast::model::DirEntry;

fn dir_entry(name: &str, is_dir: bool) -> DirEntry {
    DirEntry {
        path: format!("/d/{}", name),
        name: name.to_string(),
        is_dir,
        size: 0,
        modified: None,
    }
}

#[test]
fn word_after_last_space_is_the_target() {
    let (prefix, word) = extract_word_to_complete("cd do");
    assert_eq!(prefix, "cd ");
    assert_eq!(word, "do");
}

#[test]
fn whole_buffer_is_the_target_without_a_space() {
    let (prefix, word) = extract_word_to_complete("vim");
    assert_eq!(prefix, "");
    assert_eq!(word, "vim");
}

#[test]
fn tab_cycles_through_sorted_candidates() {
    let entries = vec![dir_entry("docs", true), dir_entry("downloads", true)];
    let mut cycler = TabCompletionCycler::new();

    let (buf, outcome) = cycler.tab_complete("cd do", &entries);
    assert_eq!(buf, "cd docs/");
    assert_eq!(outcome, CompletionOutcome::Cycled { position: 0, total: 2 });
    assert_eq!(cycler.candidates.len(), 2);

    let (buf, outcome) = cycler.tab_complete(&buf, &entries);
    assert_eq!(buf, "cd downloads/");
    assert_eq!(outcome, CompletionOutcome::Cycled { position: 1, total: 2 });

    let (buf, _) = cycler.tab_complete(&buf, &entries);
    assert_eq!(buf, "cd docs/");
}

#[test]
fn single_match_completes_at_once() {
    let entries = vec![dir_entry("notes.txt", false), dir_entry("src", true)];
    let mut cycler = TabCompletionCycler::new();
    let (buf, outcome) = cycler.tab_complete("cat no", &entries);
    assert_eq!(buf, "cat notes.txt");
    assert_eq!(outcome, CompletionOutcome::Completed);
    assert_eq!(cycler.candidates.len(), 0);
}

#[test]
fn no_match_leaves_the_buffer_untouched() {
    let entries = vec![dir_entry("src", true)];
    let mut cycler = TabCompletionCycler::new();
    let (buf, outcome) = cycler.tab_complete("cd zz", &entries);
    assert_eq!(buf, "cd zz");
    assert_eq!(outcome, CompletionOutcome::NoMatches);
}

#[test]
fn empty_target_is_ignored() {
    let entries = vec![dir_entry("src", true)];
    let mut cycler = TabCompletionCycler::new();
    let (buf, outcome) = cycler.tab_complete("cd ", &entries);
    assert_eq!(buf, "cd ");
    assert_eq!(outcome, CompletionOutcome::NoTarget);
}

#[test]
fn parent_entry_is_never_offered() {
    let entries = vec![dir_entry("..", true), dir_entry(".config", true)];
    let mut cycler = TabCompletionCycler::new();
    let (buf, outcome) = cycler.tab_complete("ls .", &entries);
    assert_eq!(buf, "ls .config/");
    assert_eq!(outcome, CompletionOutcome::Completed);
}

#[test]
fn matching_is_case_sensitive() {
    let entries = vec![dir_entry("Downloads", true)];
    let mut cycler = TabCompletionCycler::new();
    let (_, outcome) = cycler.tab_complete("cd do", &entries);
    assert_eq!(outcome, CompletionOutcome::NoMatches);
}

#[test]
fn reset_invalidates_the_cache() {
    let entries = vec![dir_entry("docs", true), dir_entry("downloads", true)];
    let mut cycler = TabCompletionCycler::new();
    let (buf, _) = cycler.tab_complete("cd do", &entries);
    assert_eq!(buf, "cd docs/");
    cycler.reset();
    assert_eq!(cycler.candidates.len(), 0);
    let (buf, outcome) = cycler.tab_complete("cd dow", &entries);
    assert_eq!(buf, "cd downloads/");
    assert_eq!(outcome, CompletionOutcome::Completed);
}
