use taste::jsontext::{
    close_truncated, extract_json, first_object, json_candidates, strip_fences, strip_think,
    strip_trailing_commas,
};
use taste::model::{
    api_key_from_store, api_key_to_store, clip_log, default_model, empty_status, fallback_model,
    friendly_err, is_guardrail, is_timeout_error, key_status, model_catalog, model_label,
    normalize_model, openrouter_err_text, openrouter_model_id, probe_status, should_fallback,
    stored_model, stored_status, stored_web, store_api_key, set_web, tools_unsupported,
    OpenRouterErrorFields, MODEL_DEEPSEEK, MODEL_GEMINI, MODEL_QWEN_BALANCED, MODEL_QWEN_MAX,
};
use taste::reason::empty_critic;

#[test]
fn critic_pass_survives_non_json_model_text() {
    let raw = "sorry, I can't critique that right now";
    assert!(extract_json(raw).is_err());
    let critic = empty_critic();
    assert!(critic.candidate_assessments.is_empty());
    assert!(critic.discovery_queries.is_empty());
}

#[test]
fn model_ids_map() {
    assert_eq!(default_model(), MODEL_DEEPSEEK);
    assert_eq!(normalize_model("deepseek"), MODEL_DEEPSEEK);
    assert_eq!(normalize_model("Qwen2.5 72B"), MODEL_DEEPSEEK);
    assert_eq!(normalize_model("Qwen3.8 2.4T A95B"), MODEL_QWEN_MAX);
    assert_eq!(openrouter_model_id(MODEL_DEEPSEEK), "deepseek/deepseek-v4-pro-0813");
    assert_eq!(model_catalog().len(), 4);
}

#[test]
fn context_length_errors_are_retryable() {
    assert!(should_fallback(
        "HTTP 400: maximum context length is 32768 tokens"
    ));
}

#[test]
fn normalizing_twice_changes_nothing() {
    for raw in ["deepseek", "  Gemini ", "qwen3.8_27b", "Qwen3.8 2.4T A95B", "gpt-4o", ""] {
        let once = normalize_model(raw);
        assert_eq!(normalize_model(&once), once);
        assert!([MODEL_DEEPSEEK, MODEL_GEMINI, MODEL_QWEN_MAX, MODEL_QWEN_BALANCED]
            .contains(&once.as_str()));
    }
    assert_eq!(normalize_model("  Gemini "), MODEL_GEMINI);
    assert_eq!(normalize_model("qwen3.8_27b"), MODEL_QWEN_BALANCED);
}

#[test]
fn labels_and_fallbacks() {
    assert_eq!(model_label(MODEL_GEMINI), "Gemini 3.7 Flash");
    assert_eq!(model_label("unknown"), "DeepSeek V4 Pro 0813");
    assert_eq!(fallback_model(MODEL_DEEPSEEK), MODEL_GEMINI);
    assert_eq!(fallback_model(MODEL_GEMINI), MODEL_DEEPSEEK);
    assert_eq!(openrouter_model_id("legacy"), MODEL_DEEPSEEK);
    assert_eq!(openrouter_model_id(MODEL_QWEN_MAX), MODEL_QWEN_MAX);
}

#[test]
fn catalog_contexts_are_all_one_million() {
    let models = model_catalog();
    assert!(models.iter().all(|m| m.context == "1M"));
    assert_eq!(models[1].id, MODEL_QWEN_MAX);
    assert_eq!(models[3].cost, "mid");
}

#[test]
fn stored_preferences() {
    assert_eq!(stored_model(None), MODEL_DEEPSEEK);
    assert_eq!(stored_model(Some("gemini")), MODEL_GEMINI);
    assert!(stored_web(None));
    assert!(!stored_web(Some("0")));
    assert!(!stored_web(Some("false")));
    assert!(stored_web(Some("1")));
    assert_eq!(set_web(true), "1");
    assert_eq!(set_web(false), "0");
}

#[test]
fn key_statuses() {
    let e = empty_status();
    assert!(!e.stored && e.valid.is_none() && e.web && e.models.is_empty());
    let s = stored_status(true, Some("gemini"), Some("0"));
    assert!(s.stored);
    assert_eq!(s.valid, Some(true));
    assert_eq!(s.model, MODEL_GEMINI);
    assert!(!s.web);
    assert_eq!(s.models.len(), 4);
    let bad = probe_status(Some("HTTP 401 Unauthorized".into()));
    assert_eq!(bad.valid, Some(false));
    let down = probe_status(Some("connection refused".into()));
    assert_eq!(down.valid, None);
    assert_eq!(
        down.last_error.as_deref(),
        Some("Could not reach OpenRouter: connection refused")
    );
    let ok = probe_status(None);
    assert_eq!(ok.valid, Some(true));
    let (st, persist) = store_api_key(bad.clone(), None, None);
    assert!(!persist);
    assert!(!st.stored);
    let (st, persist) = store_api_key(ok.clone(), None, Some("false"));
    assert!(persist && st.stored && !st.web);
    let ks = key_status(Some(ok), None, None);
    assert!(ks.stored);
    let none = key_status(None, None, None);
    assert!(!none.stored && none.models.len() == 4);
}

#[test]
fn pasted_keys() {
    assert_eq!(api_key_to_store("  sk-1 \n").unwrap(), "sk-1");
    assert_eq!(
        api_key_to_store("   ").unwrap_err(),
        "Paste an OpenRouter key first."
    );
    assert_eq!(api_key_from_store(Ok(" k ".into())).unwrap(), Some("k".into()));
    assert_eq!(api_key_from_store(Ok("  ".into())).unwrap(), None);
    assert_eq!(
        api_key_from_store(Err("No matching entry found".into())).unwrap(),
        None
    );
    assert_eq!(api_key_from_store(Err("locked".into())).unwrap_err(), "locked");
}

#[test]
fn error_classes() {
    assert!(is_timeout_error("Request TIMED OUT"));
    assert!(is_guardrail("No endpoints found matching your data policy"));
    assert!(tools_unsupported("This model does not support tools"));
    assert!(should_fallback("HTTP 502 bad gateway"));
    assert!(!should_fallback("HTTP 401 unauthorized"));
    assert_eq!(friendly_err("boom", MODEL_DEEPSEEK), "boom");
    assert!(friendly_err("timeout", MODEL_GEMINI).starts_with("Gemini 3.7 Flash did not finish"));
}

#[test]
fn clipping_flattens_white_space() {
    assert_eq!(clip_log("  a \n\t b  c ", 10), "a b c");
    assert_eq!(clip_log("abcdef", 3), "abc\u{2026}");
    assert_eq!(clip_log("", 3), "");
}

#[test]
fn openrouter_error_keeps_provider_and_raw() {
    let fields = OpenRouterErrorFields {
        message: Some("Provider returned error".into()),
        code: Some("502".into()),
        provider: Some("DeepInfra".into()),
        raw: Some("upstream overloaded\ntry again".into()),
    };
    let out = openrouter_err_text(Some(502), "{}", Some(fields));
    assert_eq!(
        out,
        "HTTP 502 \u{b7} code 502 \u{b7} DeepInfra \u{b7} Provider returned error \u{b7} raw: upstream overloaded try again"
    );
    assert!(should_fallback(&out));
    assert_eq!(openrouter_err_text(None, "  ", None), "OpenRouter returned an error status");
    assert_eq!(
        openrouter_err_text(None, "gateway  down", None),
        "OpenRouter returned an error \u{b7} gateway down"
    );
    let body = r#"{
        "error": {
            "message": "Provider returned error",
            "code": 502,
            "metadata": {
                "provider_name": "DeepInfra",
                "raw": "upstream overloaded\ntry again"
            }
        }
    }"#;
    let out = taste::model::format_openrouter_err(Some(502), body);
    assert!(out.contains("HTTP 502"), "{out}");
    assert!(out.contains("DeepInfra"), "{out}");
    assert!(out.contains("upstream overloaded"), "{out}");
    assert!(should_fallback(&out));
}

#[test]
fn error_fields_read_the_error_object() {
    let f = taste::model::error_fields(r#"{"error": {"code": -3, "metadata": {"provider": "P"}}}"#).unwrap();
    assert_eq!(f.code.as_deref(), Some("-3"));
    assert_eq!(f.provider.as_deref(), Some("P"));
    assert_eq!(f.message, None);
    let f = taste::model::error_fields(r#"{"error": {"code": "rate_limited"}}"#).unwrap();
    assert_eq!(f.code.as_deref(), Some("rate_limited"));
    assert!(taste::model::error_fields("not json").is_none());
    assert_eq!(
        taste::model::format_openrouter_err(None, "not json"),
        "OpenRouter returned an error \u{b7} not json"
    );
}

#[test]
fn fences_and_think_blocks() {
    assert_eq!(strip_fences("```json\n{\"a\":1}\n```"), "{\"a\":1}");
    assert_eq!(strip_fences("Here:\n```json {\"a\":1}```"), "{\"a\":1}");
    assert_eq!(strip_fences("  {}  "), "{}");
    assert_eq!(strip_think("<think>x</think>{\u{201c}a\u{201d}:1}"), "{\"a\":1}");
}

#[test]
fn first_object_balances_braces() {
    assert_eq!(first_object("pre {\"a\":{\"b\":\"}\"}} post").unwrap(), "{\"a\":{\"b\":\"}\"}}");
    assert_eq!(first_object("{\"a\":[1,2").unwrap(), "{\"a\":[1,2");
    assert!(first_object("no object").is_none());
}

#[test]
fn trailing_commas_and_truncation() {
    assert_eq!(strip_trailing_commas("{\"a\":[1,2, ],}"), "{\"a\":[1,2 ]}");
    assert_eq!(strip_trailing_commas("{\"a\":\",}\"}"), "{\"a\":\",}\"}");
    assert_eq!(close_truncated("{\"a\":[1,2,  "), "{\"a\":[1,2]}");
    assert_eq!(close_truncated("{\"a\":\"tex"), "{\"a\":\"tex\"}");
}

#[test]
fn extract_json_repairs_replies() {
    assert!(extract_json("```json\n{\"a\": [1, 2,],}\n```").unwrap().is_object());
    assert!(extract_json("<think>hmm</think> {\"a\": {\"b\": 1").unwrap().is_object());
    assert!(extract_json("{ not json at all").is_err());
    let c = json_candidates("x {\"a\":1,} y").unwrap();
    assert_eq!(c, vec!["{\"a\":1,}".to_string(), "{\"a\":1}".into(), "{\"a\":1}".into()]);
}

#[test]
fn extract_json_unwraps_fences() {
    let raw = "```json\n{\"title\":\"Night owl\",\"summary\":\"x\",\"picks\":[]}\n```";
    let v = extract_json(raw).unwrap();
    assert_eq!(v["title"], "Night owl");
}

#[test]
fn extract_json_gives_the_repaired_object() {
    let v = extract_json("Sure: {\"a\": [1, 2,], \"b\": \"x\",}").unwrap();
    assert_eq!(v["a"][1], 2);
    assert_eq!(v["b"], "x");
    let v = extract_json("{\"c\": {\"d\": 3").unwrap();
    assert_eq!(v["c"]["d"], 3);
}

#[test]
fn the_critic_may_not_pick() {
    let with: serde_json::Value = serde_json::from_str("{\"picks\": []}").unwrap();
    assert_eq!(taste::jsontext::check_critic(&with), Err("Call 1 must not emit picks".to_string()));
    let without: serde_json::Value = serde_json::from_str("{\"discoveryQueries\": []}").unwrap();
    assert_eq!(taste::jsontext::check_critic(&without), Ok(()));
}
