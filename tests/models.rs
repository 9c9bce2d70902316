use sw_assistant::config::ModelCapsOverride;
use sw_assistant::models::{
    apply_override, cache_is_fresh, infer_caps_for_provider_model, merge_models, remote_model, ModelInfo, ReportedCaps,
};

#[test]
fn caps_for_mock_and_openai() {
    assert_eq!(infer_caps_for_provider_model("Mock", "anything"), (true, false, vec!["text".to_string()]));
    assert_eq!(
        infer_caps_for_provider_model("openai", "GPT-4o-mini"),
        (true, true, vec!["text".to_string(), "vision".to_string()])
    );
    assert_eq!(infer_caps_for_provider_model("openai", "o4-mini"), (true, false, vec!["text".to_string()]));
    assert_eq!(infer_caps_for_provider_model("openai", "turbo-o-mini"), (true, true, vec!["text".to_string()]));
    assert_eq!(infer_caps_for_provider_model("openai", "gpt-3.5-turbo"), (false, false, vec!["text".to_string()]));
    assert_eq!(infer_caps_for_provider_model("groq", "gpt-4o"), (false, false, vec!["text".to_string()]));
}

#[test]
fn override_replaces_only_set_fields() {
    let mut mi = ModelInfo {
        name: "mock-small".into(),
        provider: "mock".into(),
        source: "config".into(),
        streaming: true,
        context_window: None,
        supports_json: false,
        supports_tools: false,
        modalities: vec!["text".into()],
    };
    let ovr = ModelCapsOverride {
        streaming: None,
        context_window: Some(8192),
        supports_json: Some(true),
        supports_tools: None,
        modalities: Some(vec!["text".into(), "vision".into()]),
    };
    apply_override(&mut mi, &ovr);
    assert!(mi.streaming);
    assert_eq!(mi.context_window, Some(8192));
    assert!(mi.supports_json);
    assert!(!mi.supports_tools);
    assert_eq!(mi.modalities, vec!["text", "vision"]);
    assert_eq!(mi.name, "mock-small");
}

fn info(name: &str, source: &str) -> ModelInfo {
    ModelInfo {
        name: name.into(),
        provider: "mock".into(),
        source: source.into(),
        streaming: true,
        context_window: None,
        supports_json: false,
        supports_tools: false,
        modalities: vec![],
    }
}

#[test]
fn cache_freshness_window() {
    assert!(cache_is_fresh(1_000, 1_000 + 86_400_000));
    assert!(!cache_is_fresh(1_000, 1_001 + 86_400_000));
    assert!(cache_is_fresh(5_000, 0));
    assert!(!cache_is_fresh(i64::MIN, i64::MAX));
}

#[test]
fn merge_keeps_first_of_each_name() {
    let merged = merge_models(vec![info("a", "config"), info("b", "remote"), info("a", "remote"), info("c", "cache")]);
    let names: Vec<(&str, &str)> = merged.iter().map(|m| (m.name.as_str(), m.source.as_str())).collect();
    assert_eq!(names, vec![("a", "config"), ("b", "remote"), ("c", "cache")]);
}

#[test]
fn remote_model_layers_metadata_and_override() {
    let m = remote_model("openai", "gpt-4o", None, None);
    assert_eq!(m.context_window, Some(128000));
    assert_eq!(m.source, "remote");
    assert_eq!(m.modalities, vec!["text", "vision"]);
    let reported = ReportedCaps { streaming: false, context_window: None, supports_json: false, supports_tools: true, modalities: vec![] };
    let ovr = ModelCapsOverride { streaming: None, context_window: Some(4096), supports_json: None, supports_tools: None, modalities: None };
    let m = remote_model("openai", "gpt-4o", Some(&reported), Some(&ovr));
    assert!(!m.streaming);
    assert_eq!(m.context_window, Some(4096));
    assert!(!m.supports_json);
    assert!(m.supports_tools);
    assert_eq!(m.modalities, vec!["text", "vision"]);
}
