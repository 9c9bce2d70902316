use sw_assistant::chunks::chunk_text_for_token_limit;
use sw_assistant::summarize::{chunk_prompt, join_with, offline_summary, synthesis_prompt};

#[test]
fn prompts_name_the_part() {
    assert_eq!(
        chunk_prompt(0, 3, "text"),
        "Summarize the following content (part 1/3). Focus on key points and be concise.\n\ntext"
    );
    let parts = vec!["a".to_string(), "b".to_string()];
    assert_eq!(synthesis_prompt(&parts), "Synthesize a concise overall summary from these parts:\n- a\n- b");
}

#[test]
fn offline_summary_takes_first_lines() {
    let chunks = chunk_text_for_token_limit("Line one\nLine two\nLine three", 600);
    assert_eq!(offline_summary(&chunks), "Line one");
    let many = vec![(0, "  first\nsecond".to_string()), (1, "third".to_string()), (2, "   ".to_string())];
    assert_eq!(offline_summary(&many), "first | third | ");
    assert_eq!(offline_summary(&vec![]), "");
}

#[test]
fn join_with_separator() {
    assert_eq!(join_with(&vec!["x".to_string()], ", "), "x");
    assert_eq!(join_with(&vec!["x".to_string(), "y".to_string(), "z".to_string()], ", "), "x, y, z");
}
