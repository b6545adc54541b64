use codez_llm_switch::connector::{address, prepare};
use codez_llm_switch::protocol::{ApiError, ResponsesApiRequest};
use codez_llm_switch::run::begin;
use codez_llm_switch::testing::{dummy_ctx, dummy_ctx_anthropic, dummy_headers};
use codez_llm_switch::Connector as ConnectorKind;
use codez_llm_switch::{
    build_headers, default_plugins, egress_url, make_connector, resolve_key, run_transforms,
    AuthKind, ConnectorTrait, HttpError, ProviderCfg, Route,
};

#[test]
fn v1_transforms_are_noop_passthrough() {
    let mut req = sample_request();
    let before = format!("{req:?}");
    let plugins = default_plugins();
    assert!(plugins.is_empty(), "v1 has no transforms");
    run_transforms(&plugins, &mut req).expect("noop ok");
    let after = format!("{req:?}");
    assert_eq!(before, after, "v1 transform must not mutate the request");
}

#[test]
fn factory_returns_distinct_connectors() {
    let chat = make_connector(ConnectorKind::Chat);
    let anthropic = make_connector(ConnectorKind::Anthropic);
    assert_eq!(chat.kind(), ConnectorKind::Chat);
    assert_eq!(anthropic.kind(), ConnectorKind::Anthropic);
}

fn sample_request() -> ResponsesApiRequest {
    ResponsesApiRequest {
        model: "test".into(),
        instructions: String::new(),
        input: vec![],
        tools: vec![],
        tool_choice: "auto".into(),
        parallel_tool_calls: true,
        reasoning: None,
        store: false,
        stream: true,
        includes: vec![],
        service_tier: None,
        prompt_cache_key: None,
        text: None,
        client_metadata: None,
    }
}

fn provider() -> ProviderCfg {
    ProviderCfg {
        connector: ConnectorKind::Chat,
        base_url: Some("https://gw.example.com//".into()),
        auth: AuthKind::Bearer,
        key_env: Some("SOME_KEY".into()),
        auth_key: Some("inline".into()),
        path: None,
        model: None,
        anthropic_version: None,
        default_max_tokens: Some(77),
        prompt_cache: true,
    }
}

fn invalid(e: ApiError) -> String {
    match e {
        ApiError::InvalidRequest { message } => message,
        other => panic!("unexpected error {other:?}"),
    }
}

#[test]
fn environment_goes_before_inline_key() {
    let cfg = provider();
    assert_eq!(resolve_key(&cfg, Some("env")).unwrap().as_deref(), Some("env"));
    assert_eq!(resolve_key(&cfg, Some("")).unwrap().as_deref(), Some("inline"));
    assert_eq!(resolve_key(&cfg, None).unwrap().as_deref(), Some("inline"));
    let mut bare = provider();
    bare.auth_key = None;
    assert_eq!(resolve_key(&bare, None).unwrap(), None);
    bare.key_env = None;
    assert_eq!(resolve_key(&bare, Some("env")).unwrap(), None);
}

#[test]
fn headers_that_cannot_be_sent_are_refused() {
    let e = build_headers(AuthKind::Bearer, Some("a\nb"), None).unwrap_err();
    assert_eq!(e.message(), "invalid header value: failed to parse header value");
    assert!(matches!(e, HttpError::BadHeader(_)));
    let e = build_headers(AuthKind::XApiKey, Some("ok"), Some("\u{7f}")).unwrap_err();
    assert!(matches!(e, HttpError::BadHeader(_)));
    let e = build_headers(AuthKind::Bearer, None, None).unwrap_err();
    assert_eq!(e.message(), "missing API key (set key_env or auth_key)");
    let h = build_headers(AuthKind::Bearer, Some("a\tb\u{e9}"), None).unwrap();
    assert_eq!(h.get("authorization").unwrap().as_bytes(), "Bearer a\tb\u{e9}".as_bytes());
}

#[test]
fn api_key_has_a_default_version_and_json_type() {
    let h = build_headers(AuthKind::XApiKey, Some("k"), None).unwrap();
    assert_eq!(h.get("anthropic-version").unwrap(), "2023-06-01");
    assert_eq!(h.get("content-type").unwrap(), "application/json");
    assert_eq!(h.len(), 3);
}

#[test]
fn sample_headers_carry_the_sample_key() {
    let h = dummy_headers();
    assert_eq!(h.get("authorization").unwrap(), "Bearer testkey");
    assert_eq!(h.get("content-type").unwrap(), "application/json");
    assert_eq!(h.len(), 2);
}

#[test]
fn all_slashes_at_the_end_go() {
    assert_eq!(egress_url("http://x///", ConnectorKind::Chat, Some("p")), "http://xp");
    assert_eq!(egress_url("///", ConnectorKind::Chat, None), "/chat/completions");
}

#[test]
fn settings_come_from_the_route() {
    let rt = Route { provider_id: "p".into(), cfg: provider() };
    let mut req = sample_request();
    let before = format!("{req:?}");
    let ctx = begin(&rt, &mut req, Some("env")).unwrap();
    assert_eq!(before, format!("{req:?}"));
    assert_eq!(ctx.base_url, "https://gw.example.com//");
    assert_eq!(ctx.model, "test");
    assert_eq!(ctx.key.as_deref(), Some("env"));
    assert_eq!(ctx.default_max_tokens, Some(77));
    assert!(ctx.prompt_cache);
    let mut cfg = provider();
    cfg.model = Some("other".into());
    cfg.path = Some("/x".into());
    cfg.anthropic_version = Some("v".into());
    let rt = Route { provider_id: "p".into(), cfg };
    let ctx = begin(&rt, &mut req, None).unwrap();
    assert_eq!(ctx.model, "other");
    assert_eq!(ctx.key.as_deref(), Some("inline"));
    assert_eq!(ctx.path_override.as_deref(), Some("/x"));
    assert_eq!(ctx.anthropic_version.as_deref(), Some("v"));
}

#[test]
fn route_without_address_is_refused() {
    let mut cfg = provider();
    cfg.base_url = None;
    let rt = Route { provider_id: "p".into(), cfg };
    let e = begin(&rt, &mut sample_request(), None).unwrap_err();
    assert_eq!(invalid(e), "provider p missing base_url");
}

#[test]
fn chat_request_is_prepared() {
    let req = sample_request();
    let out = prepare(&make_connector(ConnectorKind::Chat), &req, &dummy_ctx("m"), None).unwrap().unwrap();
    assert_eq!(out.url, "https://api.example.com/chat/completions");
    assert_eq!(out.headers.get("authorization").unwrap(), "Bearer test-key");
    assert_eq!(out.body["model"], "m");
}

#[test]
fn anthropic_request_is_prepared() {
    let req = sample_request();
    let mut ctx = dummy_ctx_anthropic("m", None);
    ctx.anthropic_version = Some("2024-01-01".into());
    let out = prepare(&make_connector(ConnectorKind::Anthropic), &req, &ctx, None).unwrap().unwrap();
    assert_eq!(out.url, "https://api.anthropic.com/v1/messages");
    assert_eq!(out.headers.get("x-api-key").unwrap(), "test-key");
    assert_eq!(out.headers.get("anthropic-version").unwrap(), "2024-01-01");
    assert_eq!(out.body["max_tokens"], 4096);
}

#[test]
fn chat_connector_leaves_the_version_at_its_default() {
    let req = sample_request();
    let mut ctx = dummy_ctx_anthropic("m", None);
    ctx.anthropic_version = Some("2024-01-01".into());
    let out = prepare(&make_connector(ConnectorKind::Chat), &req, &ctx, None).unwrap().unwrap();
    assert_eq!(out.headers.get("anthropic-version").unwrap(), "2023-06-01");
}

#[test]
fn lent_headers_are_used_only_without_a_key() {
    let req = sample_request();
    let chat = make_connector(ConnectorKind::Chat);
    let mut lent = reqwest::header::HeaderMap::new();
    lent.insert("authorization", "Bearer lent".parse().unwrap());
    lent.insert("chatgpt-account-id", "a".parse().unwrap());
    let mut ctx = dummy_ctx("m");
    let out = prepare(&chat, &req, &ctx, Some(lent.clone())).unwrap().unwrap();
    assert_eq!(out.headers.get("authorization").unwrap(), "Bearer test-key");
    assert!(out.headers.get("chatgpt-account-id").is_none());
    ctx.key = None;
    assert!(codez_llm_switch::connector::borrows_auth(&ctx));
    let out = prepare(&chat, &req, &ctx, Some(lent.clone())).unwrap().unwrap();
    assert_eq!(out.headers.get("authorization").unwrap(), "Bearer lent");
    assert_eq!(out.headers.get("chatgpt-account-id").unwrap(), "a");
    assert_eq!(out.headers.get("content-type").unwrap(), "application/json");
    let e = prepare(&chat, &req, &ctx, None).unwrap().unwrap_err();
    assert_eq!(invalid(e), "missing API key (set key_env or auth_key)");
    ctx.auth = AuthKind::XApiKey;
    assert!(!codez_llm_switch::connector::borrows_auth(&ctx));
    let e = prepare(&chat, &req, &ctx, Some(lent)).unwrap().unwrap_err();
    assert_eq!(invalid(e), "missing API key (set key_env or auth_key)");
}

#[test]
fn body_is_looked_at_before_headers() {
    let mut req = sample_request();
    req.input = vec![codez_llm_switch::protocol::ResponseItem::Other];
    let mut ctx = dummy_ctx("m");
    ctx.key = None;
    let e = prepare(&make_connector(ConnectorKind::Chat), &req, &ctx, None).unwrap().unwrap_err();
    assert_eq!(
        invalid(e),
        "unknown ResponseItem variant (Other) not supported in v1 chat connector"
    );
}

#[test]
fn many_lent_headers_are_sent() {
    let req = sample_request();
    let mut ctx = dummy_ctx("m");
    ctx.key = None;
    let chat = make_connector(ConnectorKind::Chat);
    let lend = |n: usize| {
        let mut h = reqwest::header::HeaderMap::new();
        for i in 0..n {
            let name: reqwest::header::HeaderName = format!("x-{i}").parse().unwrap();
            h.insert(name, "v".parse().unwrap());
        }
        h
    };
    for n in [0, 2, 6553, 10_000] {
        let out = prepare(&chat, &req, &ctx, Some(lend(n))).unwrap().unwrap();
        assert_eq!(out.headers.len(), n + 1);
        assert_eq!(out.headers.get("content-type").unwrap(), "application/json");
    }
    assert!(prepare(&chat, &req, &ctx, Some(lend(24_576))).is_none());
    ctx.key = Some("k".into());
    let out = prepare(&chat, &req, &ctx, Some(lend(24_576))).unwrap().unwrap();
    assert_eq!(out.headers.len(), 2);
}

#[test]
fn body_is_addressed_to_its_upstream() {
    let ctx = dummy_ctx("m");
    let body = serde_json::Value::from("b");
    let out = address(ConnectorKind::Anthropic, &ctx, body, None).unwrap().unwrap();
    assert_eq!(out.url, "https://api.example.com/v1/messages");
    assert_eq!(out.body, "b");
}
