use sw_assistant::render::{ErrorOut, Feedback};

#[test]
fn error_json_with_and_without_hint() {
    let e = ErrorOut { code: "timeout".into(), message: "took \"long\"".into(), hint: Some("wait".into()) };
    assert_eq!(e.to_json(), "{\"code\":\"timeout\",\"message\":\"took \\\"long\\\"\",\"hint\":\"wait\"}");
    let e = ErrorOut { code: "unknown".into(), message: "x".into(), hint: None };
    assert_eq!(e.to_json(), "{\"code\":\"unknown\",\"message\":\"x\"}");
}

#[test]
fn review_text_has_all_headings() {
    let f = Feedback {
        correctness: vec!["off by one".into()],
        style: vec![],
        security: vec!["no input check".into(), "secret in log".into()],
        tests: vec![],
        suggestions: vec!["add tests".into()],
    };
    assert_eq!(
        f.review_text(),
        "Correctness:\n- off by one\n\nStyle:\n\nSecurity:\n- no input check\n- secret in log\n\nTests:\n\nSuggestions:\n- add tests\n"
    );
}

#[test]
fn json_object_is_cut_out() {
    assert_eq!(sw_assistant::render::extract_json_object("```json\n{\"type\":\"fix\"}\n```"), "{\"type\":\"fix\"}");
    assert_eq!(sw_assistant::render::extract_json_object("  plain  "), "plain");
    assert_eq!(sw_assistant::render::extract_json_object("} oops {"), "");
}
