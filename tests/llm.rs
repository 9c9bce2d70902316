use sw_assistant::llm::{
    chat_request_body, check_status, prepare_credential_check, provider_key_env, resolve_api_base_for_provider, credential_env_var, effective_base_url, resolve_credentials,
    response_from_choices, ChatMessage, LlmError, LlmRequest, NotImplementedAdapter, PreparedCall, Provider, ProviderAdapter,
    ProviderRegistry, Usage,
};

fn request(api_base: Option<&str>) -> LlmRequest {
    LlmRequest {
        model: "gpt-4o-mini".into(),
        messages: vec![ChatMessage::new("user", "Hi \"there\"")],
        stream: false,
        api_base: api_base.map(|s| s.to_string()),
    }
}

#[test]
fn provider_parse_ignores_case() {
    assert_eq!(Provider::from_str("OpenAI"), Some(Provider::OpenAi));
    assert_eq!(Provider::from_str("openai"), Some(Provider::OpenAi));
    assert_eq!(Provider::from_str("groq"), None);
}

#[test]
fn loopback_endpoint_needs_no_credential() {
    let ctx = resolve_credentials(&Some("http://127.0.0.1:1234/v1".into()), None).unwrap();
    assert!(!ctx.credential_required);
    assert_eq!(ctx.base_url, "http://127.0.0.1:1234/v1");
    assert!(ctx.credential.is_none());
    let ctx = resolve_credentials(&Some("http://localhost:8080/v1".into()), None).unwrap();
    assert!(!ctx.credential_required);
}

#[test]
fn cloud_endpoint_without_credential_fails() {
    match resolve_credentials(&None, None) {
        Err(LlmError::MissingCredential { base_url, env_var }) => {
            assert_eq!(base_url, "https://api.openai.com/v1");
            assert_eq!(env_var, "OPENAI_API_KEY");
        }
        other => panic!("unexpected: {:?}", other),
    }
    match resolve_credentials(&Some("https://api.groq.com/openai/v1".into()), None) {
        Err(LlmError::MissingCredential { env_var, .. }) => assert_eq!(env_var, "GROQ_API_KEY"),
        other => panic!("unexpected: {:?}", other),
    }
}

#[test]
fn cloud_endpoint_with_credential_succeeds() {
    let ctx = resolve_credentials(&None, Some("k".into())).unwrap();
    assert!(ctx.credential_required);
    assert_eq!(ctx.credential.as_deref(), Some("k"));
}

#[test]
fn env_var_follows_endpoint() {
    assert_eq!(credential_env_var("https://api.groq.com/openai/v1"), "GROQ_API_KEY");
    assert_eq!(credential_env_var("http://127.0.0.1:1234/v1"), "LMSTUDIO_API_KEY");
    assert_eq!(credential_env_var("https://api.openai.com/v1"), "OPENAI_API_KEY");
    assert_eq!(effective_base_url(&None), "https://api.openai.com/v1");
}

#[test]
fn request_body_is_json() {
    let msgs = vec![ChatMessage::new("system", "be brief"), ChatMessage::new("user", "say \"hi\"\n")];
    let body = chat_request_body("m1", &msgs, true);
    assert_eq!(
        body,
        "{\"model\":\"m1\",\"messages\":[{\"role\":\"system\",\"content\":\"be brief\"},{\"role\":\"user\",\"content\":\"say \\\"hi\\\"\\n\"}],\"stream\":true}"
    );
    let parsed: serde_json::Value = serde_json::from_str(&body).unwrap();
    assert_eq!(parsed["messages"][1]["content"], "say \"hi\"\n");
    assert_eq!(chat_request_body("m", &[], false), "{\"model\":\"m\",\"messages\":[],\"stream\":false}");
}

#[test]
fn non_ok_status_is_a_provider_error() {
    assert!(check_status(200, String::new()).is_ok());
    match check_status(429, "slow down".into()) {
        Err(LlmError::ProviderError { status, body }) => {
            assert_eq!(status, 429);
            assert_eq!(body, "slow down");
        }
        other => panic!("unexpected: {:?}", other),
    }
}

#[test]
fn response_takes_first_choice() {
    let usage = Usage { prompt_tokens: Some(3), completion_tokens: Some(4), total_tokens: Some(7) };
    let r = response_from_choices(vec![Some("a".into()), Some("b".into())], Some(usage));
    assert_eq!(r.content, "a");
    assert_eq!(r.usage, Some(usage));
    assert_eq!(response_from_choices(vec![], None).content, "");
    assert_eq!(response_from_choices(vec![None], None).content, "");
}

#[test]
fn unknown_provider_is_absent_every_time() {
    let reg = ProviderRegistry::new();
    for _ in 0..3 {
        assert!(reg.get("not-a-real-provider").is_none());
    }
}

#[test]
fn registry_lookup_ignores_case() {
    let reg = ProviderRegistry::new();
    assert!(matches!(reg.get("OpenAI"), Some(ProviderAdapter::OpenAi)));
    match reg.get("Gemini") {
        Some(ProviderAdapter::NotImplemented(a)) => assert_eq!(a.name, "gemini"),
        _ => panic!("expected a placeholder"),
    }
    for n in ["anthropic", "grok", "xai", "groq", "ollama", "lmstudio"] {
        assert!(matches!(reg.get(n), Some(ProviderAdapter::NotImplemented(_))));
    }
}

#[test]
fn placeholder_adapter_fails_at_once() {
    let reg = ProviderRegistry::new();
    let a = reg.get("anthropic").unwrap();
    match a.prepare(&request(None), Some("k".into()), false) {
        Err(LlmError::NotImplemented { provider }) => assert_eq!(provider, "anthropic"),
        other => panic!("unexpected: {:?}", other),
    }
}

#[test]
fn wired_adapter_prepares_call() {
    let a = ProviderAdapter::OpenAi;
    let call: PreparedCall = a.prepare(&request(Some("http://localhost:1234/v1")), None, true).unwrap();
    assert_eq!(call.url, "http://localhost:1234/v1/chat/completions");
    assert!(call.bearer.is_none());
    assert!(call.body.ends_with("\"stream\":true}"));
    assert!(matches!(a.prepare(&request(None), None, false), Err(LlmError::MissingCredential { .. })));
    let call = a.prepare(&request(None), Some("sk".into()), false).unwrap();
    assert_eq!(call.url, "https://api.openai.com/v1/chat/completions");
    assert_eq!(call.bearer.as_deref(), Some("sk"));
}

#[test]
fn credential_check_rules() {
    assert_eq!(provider_key_env("OpenAI"), "OPENAI_API_KEY");
    assert_eq!(provider_key_env("groq"), "GROQ_API_KEY");
    assert_eq!(provider_key_env("ollama"), "");
    let c = prepare_credential_check("openai", Some("sk".into()), None, &None).unwrap();
    assert_eq!(c.url, "https://api.openai.com/v1/models");
    assert_eq!(c.bearer.as_deref(), Some("sk"));
    assert!(matches!(prepare_credential_check("openai", None, None, &None), Err(LlmError::MissingCredential { .. })));
    assert!(matches!(prepare_credential_check("openai", Some("  ".into()), None, &None), Err(LlmError::MissingCredential { .. })));
    let local = Some("http://localhost:1234/v1".to_string());
    let c = prepare_credential_check("openai", Some("".into()), None, &local).unwrap();
    assert!(c.bearer.is_none());
    let c = prepare_credential_check("ollama", None, None, &None).unwrap();
    assert!(c.bearer.is_none());
}

#[test]
fn provider_endpoints() {
    assert_eq!(resolve_api_base_for_provider("Groq", None).as_deref(), Some("https://api.groq.com/openai/v1"));
    assert_eq!(resolve_api_base_for_provider("lmstudio", None).as_deref(), Some("http://127.0.0.1:1234/v1"));
    assert_eq!(resolve_api_base_for_provider("lmstudio", Some("http://h:1/v1".into())).as_deref(), Some("http://h:1/v1"));
    assert_eq!(resolve_api_base_for_provider("openai", None), None);
}

#[test]
fn placeholder_adapter_is_named() {
    let a = NotImplementedAdapter::new("xai");
    assert_eq!(a.name, "xai");
    match ProviderAdapter::NotImplemented(a).prepare(&request(None), None, true) {
        Err(LlmError::NotImplemented { provider }) => assert_eq!(provider, "xai"),
        other => panic!("unexpected: {:?}", other),
    }
}

#[test]
fn lookup_reports_unsupported_provider() {
    let reg = ProviderRegistry::new();
    match reg.lookup("not-a-real-provider") {
        Err(LlmError::UnsupportedProvider { name }) => assert_eq!(name, "not-a-real-provider"),
        _ => panic!("expected an unsupported provider"),
    }
    assert!(matches!(reg.lookup("OPENAI"), Ok(ProviderAdapter::OpenAi)));
}

#[test]
fn loopback_wins_over_other_patterns() {
    let base = Some("http://localhost:8080/api.groq.com/v1".to_string());
    let ctx = resolve_credentials(&base, None).unwrap();
    assert!(!ctx.credential_required);
    assert_eq!(credential_env_var("http://127.0.0.1/api.groq.com"), "LMSTUDIO_API_KEY");
    let local = Some("http://127.0.0.1:1234/v1".to_string());
    let c = prepare_credential_check("openai", None, None, &local).unwrap();
    assert_eq!(c.url, "http://127.0.0.1:1234/v1/models");
    assert!(c.bearer.is_none());
}

#[test]
fn unicode_blank_key_is_missing() {
    assert!(matches!(prepare_credential_check("openai", Some("\u{a0}\u{3000}".into()), None, &None), Err(LlmError::MissingCredential { .. })));
}

#[test]
fn request_body_escapes_control_characters() {
    let msgs = vec![ChatMessage::new("user", "a\u{1}b\u{8}\u{c}\r\t\\ é")];
    let body = chat_request_body("m", &msgs, false);
    assert!(body.contains("\"content\":\"a\\u0001b\\b\\f\\r\\t\\\\ é\""));
    let parsed: serde_json::Value = serde_json::from_str(&body).unwrap();
    assert_eq!(parsed["messages"][0]["content"], "a\u{1}b\u{8}\u{c}\r\t\\ é");
}
