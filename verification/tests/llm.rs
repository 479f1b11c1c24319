use spec_drift::llm::{
    chat_completions_url, client_plan, default_api_base, usable_api_key, verdict_span,
    BudgetedClient, ClientPlan, LlmClient, LlmConfig, LlmProvider, LlmVerdict, NullLlmClient,
};
use std::sync::atomic::{AtomicU32, Ordering};
use std::sync::Arc;

struct CountingClient {
    calls: AtomicU32,
}

impl LlmClient for CountingClient {
    fn evaluate(&self, _: &str, _: &str) -> Option<LlmVerdict> {
        self.calls.fetch_add(1, Ordering::AcqRel);
        Some(LlmVerdict { match_spec: true, reason: "ok".into() })
    }
}

/// The JSON object a reply carries, framed by the library.
fn framed<'a>(text: &'a str) -> Option<&'a str> {
    verdict_span(text).map(|(s, e)| &text[s..e])
}

#[test]
fn always_returns_none() {
    assert!(NullLlmClient.evaluate("x", "y").is_none());
    assert!(NullLlmClient.complete("x", "y").is_none());
}

#[test]
fn budget_exhausts_and_stops_calling_inner() {
    let inner = Arc::new(CountingClient { calls: AtomicU32::new(0) });
    let client = BudgetedClient::new(inner.clone(), 2);

    assert!(client.evaluate("s", "u").is_some());
    assert!(client.evaluate("s", "u").is_some());
    assert!(client.evaluate("s", "u").is_none());
    assert!(client.evaluate("s", "u").is_none());

    assert_eq!(inner.calls.load(Ordering::Acquire), 2);
}

#[test]
fn zero_budget_never_calls_inner() {
    let inner = Arc::new(CountingClient { calls: AtomicU32::new(0) });
    let client = BudgetedClient::new(inner.clone(), 0);
    assert!(client.evaluate("s", "u").is_none());
    assert_eq!(inner.calls.load(Ordering::Acquire), 0);
}

#[test]
fn force_off_always_yields_null_client() {
    let mut cfg = LlmConfig::defaults();
    cfg.enabled = true;
    assert_eq!(client_plan(&cfg, true, true), ClientPlan::Off);
}

#[test]
fn disabled_config_yields_null_client() {
    let cfg = LlmConfig::defaults(); // enabled=false
    assert!(!cfg.enabled);
    assert_eq!(client_plan(&cfg, false, true), ClientPlan::Off);
}

#[test]
fn enabled_config_picks_a_budgeted_client() {
    let mut cfg = LlmConfig::defaults();
    cfg.enabled = true;
    assert_eq!(client_plan(&cfg, false, true), ClientPlan::BudgetedAnthropic);
    assert_eq!(client_plan(&cfg, false, false), ClientPlan::BudgetedNull);
    cfg.provider = LlmProvider::OpenAi;
    assert_eq!(client_plan(&cfg, false, true), ClientPlan::BudgetedNull);
}

#[test]
fn defaults_match_the_documented_config() {
    let cfg = LlmConfig::defaults();
    assert_eq!(cfg.provider, LlmProvider::Anthropic);
    assert!(cfg.model.is_empty());
    assert_eq!(cfg.max_calls, 50);
    assert_eq!(cfg.timeout_s, 30);
}

#[test]
fn from_env_returns_none_without_key() {
    assert!(!usable_api_key(""));
    assert!(!usable_api_key("   \t"));
    assert!(usable_api_key("sk-123"));
}

#[test]
fn parses_bare_json_verdict() {
    let text = r#"{"match_spec": true, "reason": "all good"}"#;
    assert_eq!(framed(text), Some(text));
}

#[test]
fn parses_verdict_after_preamble() {
    let text = r#"Here is my analysis:
        {"match_spec": false, "reason": "function was renamed"}
        — end of analysis."#;
    assert_eq!(framed(text), Some(r#"{"match_spec": false, "reason": "function was renamed"}"#));
}

#[test]
fn returns_none_on_unparseable_response() {
    assert_eq!(framed("I'm sorry, I can't help with that."), None);
    assert_eq!(framed("{ never closed"), None);
}

#[test]
fn verdict_span_balances_nested_braces() {
    assert_eq!(framed("x {a {b} c} {d}"), Some("{a {b} c}"));
    assert_eq!(framed("é{}"), Some("{}"));
}

#[test]
fn parses_openai_verdict() {
    let text = r#"{"match_spec": true, "reason": "ok"}"#;
    assert_eq!(verdict_span(text), Some((0, text.len())));
}

#[test]
fn resolve_url_defaults() {
    // OpenAI default
    let url_openai = chat_completions_url(default_api_base(LlmProvider::OpenAi).unwrap());
    assert_eq!(url_openai, "https://api.openai.com/v1/chat/completions");

    // Local default
    let url_local = chat_completions_url(default_api_base(LlmProvider::Local).unwrap());
    assert_eq!(url_local, "http://localhost:8080/v1/chat/completions");

    assert!(default_api_base(LlmProvider::Anthropic).is_none());
}

#[test]
fn completions_url_does_not_double_slashes_or_suffixes() {
    assert_eq!(chat_completions_url("http://h/v1/"), "http://h/v1/chat/completions");
    assert_eq!(chat_completions_url("http://h/v1/chat/completions"), "http://h/v1/chat/completions");
}
