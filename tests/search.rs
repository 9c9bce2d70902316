use sw_assistant::search::{
    count_replacements, create_search_match, detect_file_type_from_extension, extract_context_after, extract_context_before,
    fuzzy_match, is_whole_word_match, pattern_matches, MatchType, SearchOptions,
};

fn lines() -> Vec<String> {
    ["a", "b", "c", "d", "e"].iter().map(|s| s.to_string()).collect()
}

#[test]
fn context_windows() {
    let l = lines();
    assert_eq!(extract_context_before(&l, 3, 2), vec!["b", "c"]);
    assert_eq!(extract_context_before(&l, 1, 5), vec!["a"]);
    assert_eq!(extract_context_after(&l, 1, 2), vec!["c", "d"]);
    assert_eq!(extract_context_after(&l, 3, 9), vec!["e"]);
    let m = create_search_match("c", 3, 0, "c", MatchType::Exact, &l, 2, 1);
    assert_eq!(m.context_before, vec!["b"]);
    assert_eq!(m.context_after, vec!["d"]);
    assert_eq!(m.line_number, 3);
}

#[test]
fn fuzzy_and_plain_matching() {
    assert!(fuzzy_match("fb", "FooBar", false));
    assert!(!fuzzy_match("fb", "FooBar", true));
    assert!(!fuzzy_match("rab", "bar", false));
    assert!(fuzzy_match("", "x", true));
    assert!(pattern_matches("Hello World", "WORLD", false, false));
    assert!(!pattern_matches("Hello World", "WORLD", true, false));
    assert!(pattern_matches("Hello World", "hwd", false, true));
}

#[test]
fn extension_types_and_replacements() {
    assert_eq!(detect_file_type_from_extension("src/Main.RS"), "rs");
    assert_eq!(detect_file_type_from_extension("Makefile"), "unknown");
    assert_eq!(count_replacements("aaaa", "xa", "aa"), 2);
    assert_eq!(count_replacements("x", "foo foo", "foo"), 0);
    assert_eq!(count_replacements("abc", "a", ""), 2);
}

#[test]
fn whole_word_boundaries() {
    assert!(is_whole_word_match("let foo = 1;", 4, "foo"));
    assert!(!is_whole_word_match("let food = 1;", 4, "foo"));
    assert!(!is_whole_word_match("afoo", 1, "foo"));
    assert!(is_whole_word_match("foo", 0, "foo"));
    assert!(is_whole_word_match("x foo", 2, "foo"));
}

#[test]
fn default_search_options() {
    let o = SearchOptions::default();
    assert!(!o.case_sensitive);
    assert_eq!(o.context_lines, 2);
    assert_eq!(o.max_matches_per_file, Some(100));
    assert_eq!(o.max_file_size, Some(10 * 1024 * 1024));
    assert_eq!(o.file_types.len(), 10);
    assert_eq!(o.exclude_patterns, vec![".git", "node_modules", "target", ".vscode"]);
}
