use sw_assistant::config::{resolve_effective_settings, AppConfig, ModelCapsOverride, Profile};

fn caps(json: bool) -> ModelCapsOverride {
    ModelCapsOverride { streaming: None, context_window: None, supports_json: Some(json), supports_tools: None, modalities: None }
}

fn config() -> AppConfig {
    AppConfig {
        default_profile: Some("work".into()),
        profiles: vec![
            ("default".into(), Profile { provider: Some("groq".into()), api_key: None, model: None }),
            ("work".into(), Profile { provider: Some("lmstudio".into()), api_key: None, model: Some("qwen".into()) }),
        ],
        model_overrides: vec![("mock:mock-small".into(), caps(true)), ("mock-small".into(), caps(false))],
    }
}

#[test]
fn defaults_without_config() {
    let s = resolve_effective_settings(None, None, None, None);
    assert_eq!(s.provider, "openai");
    assert_eq!(s.model, "gpt-4o-mini");
}

#[test]
fn configured_default_profile_applies() {
    let cfg = config();
    let s = resolve_effective_settings(Some(&cfg), None, None, None);
    assert_eq!(s.provider, "lmstudio");
    assert_eq!(s.model, "qwen");
}

#[test]
fn profile_override_and_cli_values_win() {
    let cfg = config();
    let s = resolve_effective_settings(Some(&cfg), Some("default"), None, None);
    assert_eq!(s.provider, "groq");
    assert_eq!(s.model, "gpt-4o-mini");
    let s = resolve_effective_settings(Some(&cfg), None, Some("openai"), Some("gpt-5-nano"));
    assert_eq!(s.provider, "openai");
    assert_eq!(s.model, "gpt-5-nano");
    let s = resolve_effective_settings(Some(&cfg), Some("missing"), None, None);
    assert_eq!(s.provider, "openai");
}

#[test]
fn override_lookup_prefers_provider_key() {
    let cfg = config();
    assert_eq!(cfg.find_model_override("MOCK", "mock-small").unwrap().supports_json, Some(true));
    assert_eq!(cfg.find_model_override("openai", "mock-small").unwrap().supports_json, Some(false));
    assert!(cfg.find_model_override("mock", "other").is_none());
}

#[test]
fn duplicate_keys_break_the_invariant() {
    assert!(config().is_well_formed());
    let mut c = config();
    c.profiles.push(("work".into(), Profile { provider: None, api_key: None, model: None }));
    assert!(!c.is_well_formed());
}
