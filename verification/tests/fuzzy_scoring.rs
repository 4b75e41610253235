use filecast::fuzzy::fuzzy_score;

#[test]
fn identical_strings_score_100() {
    assert_eq!(fuzzy_score("firefox", "firefox"), 100);
    assert_eq!(fuzzy_score("a", "a"), 100);
    assert_eq!(fuzzy_score("Files TUI", "Files TUI"), 100);
}

#[test]
fn equality_is_case_insensitive() {
    assert_eq!(fuzzy_score("FOO", "foo"), 100);
    assert_eq!(fuzzy_score("FireFox", "fIREfOX"), 100);
}

#[test]
fn prefix_scores_90() {
    assert_eq!(fuzzy_score("foo", "foobar"), 90);
    assert_eq!(fuzzy_score("foo", "FOOBAR"), 90);
}

#[test]
fn substring_scores_70() {
    assert_eq!(fuzzy_score("bar", "foobar"), 70);
    assert_eq!(fuzzy_score("OBA", "foobar"), 70);
}

#[test]
fn subsequence_scores_between_40_and_65() {
    let s = fuzzy_score("fb", "foobar");
    assert!(s >= 40);
    assert!(s <= 65);
    // one non-consecutive pair, plus the word-boundary bonus for 'f'
    assert_eq!(s, 50);
}

#[test]
fn subsequence_consecutive_pairs_add_five() {
    // f-b-a: b and a are adjacent in "foobar", 'f' starts the word
    assert_eq!(fuzzy_score("fba", "foobar"), 55);
}

#[test]
fn subsequence_without_boundary_bonus() {
    // o..a is a subsequence with no consecutive pair, and no word of the
    // text starts with 'o'
    assert_eq!(fuzzy_score("oa", "for a"), 40);
}

#[test]
fn subsequence_cap_at_65() {
    // four consecutive pairs plus the boundary bonus would reach 70
    assert_eq!(fuzzy_score("abcdef", "abcde-f"), 65);
}

#[test]
fn no_match_scores_0() {
    assert_eq!(fuzzy_score("xyz", "foobar"), 0);
    assert_eq!(fuzzy_score("a", "xyz"), 0);
}

#[test]
fn empty_query_is_a_prefix() {
    assert_eq!(fuzzy_score("", "anything"), 90);
    assert_eq!(fuzzy_score("", ""), 100);
}
