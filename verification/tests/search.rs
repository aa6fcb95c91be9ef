use hearth_text::search::search_source;

#[test]
fn case_sensitive_search_finds_literal_non_overlapping_matches() {
    assert_eq!(search_source("a ab aab", "ab", true), vec![2..4, 6..8]);
    assert_eq!(search_source("aaa", "aa", true), vec![0..2]);
    assert_eq!(search_source("Hello hello HELLO", "hello", true), vec![6..11]);
}

#[test]
fn empty_query_finds_nothing() {
    assert!(search_source("anything", "", true).is_empty());
    assert!(search_source("anything", "", false).is_empty());
}

#[test]
fn case_insensitive_search_maps_back_to_source_ranges() {
    assert_eq!(search_source("Hello hello HELLO", "hello", false), vec![0..5, 6..11, 12..17]);
    assert_eq!(search_source("İstanbul 中文", "İSTANBUL", false), vec![0..9]);
    assert_eq!(search_source("中文 ABC", "abc", false), vec![7..10]);
}
