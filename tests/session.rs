use sw_assistant::llm::ChatMessage;
use sw_assistant::session::{
    active_session_path, recency_order, build_messages_with_truncation, now_ms, search_session, session_file_path,
    session_lines, sessions_dir, summarize_log, SessionRecord,
};

fn rec(role: &str, content: &str) -> SessionRecord {
    SessionRecord { timestamp_ms: 1, role: role.into(), content: content.into(), model: None, usage: None }
}

#[test]
fn truncation_smoke() {
    let mut hist = Vec::new();
    for i in 0..100 {
        hist.push(SessionRecord { timestamp_ms: now_ms(), role: "user".into(), content: format!("line {}", i), model: None, usage: None });
        hist.push(SessionRecord { timestamp_ms: now_ms(), role: "assistant".into(), content: format!("resp {}", i), model: None, usage: None });
    }
    let msgs = build_messages_with_truncation(&hist, "final question", 200);
    assert!(msgs.len() < hist.len() + 1);
    assert_eq!(msgs.last().unwrap().role, "user");
    assert!(msgs.last().unwrap().content.contains("final question"));
}

#[test]
fn truncation_keeps_oversized_newest_turn() {
    let hist = vec![rec("user", "hello"), rec("assistant", "hi there")];
    let long = "x".repeat(100);
    let msgs = build_messages_with_truncation(&hist, &long, 0);
    assert_eq!(msgs.len(), 1);
    assert_eq!(msgs[0].role, "user");
    assert_eq!(msgs[0].content, long);
}

#[test]
fn truncation_keeps_suffix_in_order() {
    // costs: "aaaa" 1, "bbbbbbbb" 2, "cccc" 1, new "dd" 1
    let hist = vec![rec("user", "aaaa"), rec("assistant", "bbbbbbbb"), rec("user", "cccc")];
    let msgs = build_messages_with_truncation(&hist, "dd", 4);
    let contents: Vec<&str> = msgs.iter().map(|m: &ChatMessage| m.content.as_str()).collect();
    assert_eq!(contents, vec!["bbbbbbbb", "cccc", "dd"]);
    assert_eq!(msgs[0].role, "assistant");
}

#[test]
fn truncation_with_large_budget_keeps_everything() {
    let hist = vec![rec("system", "be brief"), rec("user", "q"), rec("assistant", "a")];
    let msgs = build_messages_with_truncation(&hist, "next", 1000);
    assert_eq!(msgs.len(), 4);
    assert_eq!(msgs[0].role, "system");
    assert_eq!(msgs[3].content, "next");
}

#[test]
fn truncation_of_empty_history() {
    let msgs = build_messages_with_truncation(&[], "only", 0);
    assert_eq!(msgs.len(), 1);
    assert_eq!(msgs[0].content, "only");
}

#[test]
fn search_is_case_insensitive_and_ordered() {
    let hist = vec![rec("user", "Hello World"), rec("assistant", "nothing"), rec("assistant", "say HELLO")];
    let found = search_session(&hist, "hello");
    assert_eq!(found.len(), 2);
    assert_eq!(found[0].content, "Hello World");
    assert_eq!(found[1].content, "say HELLO");
    assert!(search_session(&hist, "absent").is_empty());
}

#[test]
fn session_paths_are_joined_under_app_dir() {
    assert_eq!(sessions_dir("/data"), "/data/sw-assistant/sessions");
    assert_eq!(sessions_dir("/data/"), "/data/sw-assistant/sessions");
    assert_eq!(active_session_path("/data"), "/data/sw-assistant/active_session");
    assert_eq!(session_file_path("/data", "s1"), "/data/sw-assistant/sessions/s1.jsonl");
    assert_eq!(session_file_path("/data", "/abs/s2"), "/abs/s2.jsonl");
}

#[test]
fn session_lines_skip_blank_lines() {
    let log = "{\"a\":1}\n\n   \n\u{a0}\u{3000}\n{\"b\":2}\r\n{\"c\":3}";
    let lines = session_lines(log);
    assert_eq!(lines, vec!["{\"a\":1}", "{\"b\":2}", "{\"c\":3}"]);
    assert!(session_lines("").is_empty());
}

#[test]
fn appending_a_line_adds_one_record_line() {
    let mut log = String::new();
    let before = session_lines(&log).len();
    for line in ["{\"role\":\"user\"}", "{\"role\":\"assistant\"}"] {
        log.push_str(line);
        log.push('\n');
    }
    let lines = session_lines(&log);
    assert_eq!(lines.len(), before + 2);
    assert_eq!(lines.last().unwrap(), "{\"role\":\"assistant\"}");
}

#[test]
fn log_summary_counts_lines_and_last_timestamp() {
    assert_eq!(summarize_log(&[Some(5), None, Some(9), None]), (4, Some(9)));
    assert_eq!(summarize_log(&[None, None]), (2, None));
    assert_eq!(summarize_log(&[]), (0, None));
}

#[test]
fn clock_reads_after_epoch() {
    assert!(now_ms() > 1_600_000_000_000);
}

#[test]
fn framed_record_ends_with_line_break() {
    assert_eq!(sw_assistant::session::frame_record("{\"a\":1}").as_deref(), Some("{\"a\":1}\n"));
    assert_eq!(sw_assistant::session::frame_record("a\nb"), None);
    assert_eq!(sw_assistant::session::frame_record("  "), None);
    assert_eq!(sw_assistant::session::frame_record("x\r"), None);
    assert_eq!(sw_assistant::session::frame_record(""), None);
}

#[test]
fn sessions_listed_newest_first() {
    assert_eq!(recency_order(&[Some(5), None, Some(9), Some(5), None]), vec![2, 0, 3, 1, 4]);
    assert!(recency_order(&[]).is_empty());
    assert_eq!(recency_order(&[Some(-3), None]), vec![0, 1]);
}

#[test]
fn clock_clamp_saturates() {
    assert_eq!(sw_assistant::session::clamp_ms(5), 5);
    assert_eq!(sw_assistant::session::clamp_ms(u128::MAX), i64::MAX);
}
