use sw_assistant::chunks::chunk_text_for_token_limit;

#[test]
fn chunks_cut_at_spaces() {
    let c = chunk_text_for_token_limit("aaaa bbbb cccc", 2);
    assert_eq!(c, vec![(0, "aaaa".to_string()), (1, "bbbb".to_string()), (2, "cccc".to_string())]);
}

#[test]
fn chunks_without_breaks_cut_where_full() {
    let c = chunk_text_for_token_limit("abcdefghij", 1);
    assert_eq!(c, vec![(0, "abcd".to_string()), (1, "fghi".to_string())]);
}

#[test]
fn chunk_edge_cases() {
    assert!(chunk_text_for_token_limit("", 10).is_empty());
    assert_eq!(chunk_text_for_token_limit("abc", 0), vec![(0, String::new())]);
    assert_eq!(chunk_text_for_token_limit("short text", 100), vec![(0, "short text".to_string())]);
    assert_eq!(chunk_text_for_token_limit("x", usize::MAX), vec![(0, "x".to_string())]);
}
