use codez_llm_switch::protocol::{
    InternalSessionSource, ResponseItem, ResponsesApiRequest, SessionSource, SubAgentSource,
};
use codez_llm_switch::testing::sample_request;
use codez_llm_switch::{
    load_config, purpose_from_source, request_has_namespace_tools, route_request, Config, Purpose,
    RawProvider, RawSwitch,
};
use serde_json::Value;

fn json(text: &str) -> Value {
    serde_json::from_str(text).unwrap()
}

#[test]
fn plain_function_tool_is_expressible() {
    let mut req = sample_request();
    req.tools = vec![json(r#"{"type": "function", "name": "shell"}"#)];
    assert!(!request_has_namespace_tools(&req));
}

#[test]
fn non_function_tool_definition_triggers() {
    let mut req = sample_request();
    req.tools = vec![json(r#"{"type": "web_search"}"#)];
    assert!(request_has_namespace_tools(&req));
}

#[test]
fn tool_without_type_triggers() {
    let mut req = sample_request();
    req.tools = vec![json(r#"{"name": "weird"}"#)];
    assert!(request_has_namespace_tools(&req));
}

#[test]
fn namespaced_function_call_in_input_triggers() {
    let mut req = sample_request();
    req.input = vec![ResponseItem::FunctionCall {
        id: None,
        name: "send".into(),
        namespace: Some("mcp__gmail".into()),
        arguments: "{}".into(),
        call_id: "c1".into(),
        metadata: None,
    }];
    assert!(request_has_namespace_tools(&req));
}

#[test]
fn plain_function_call_in_input_is_expressible() {
    let mut req = sample_request();
    req.input = vec![ResponseItem::FunctionCall {
        id: None,
        name: "shell".into(),
        namespace: None,
        arguments: "{}".into(),
        call_id: "c1".into(),
        metadata: None,
    }];
    assert!(!request_has_namespace_tools(&req));
}

#[test]
fn empty_request_is_expressible() {
    let req = sample_request();
    assert!(!request_has_namespace_tools(&req));
}

#[test]
fn maps_subagent_variants() {
    assert_eq!(purpose_from_source(&SessionSource::SubAgent(SubAgentSource::Review)), Some(Purpose::Review));
    assert_eq!(purpose_from_source(&SessionSource::SubAgent(SubAgentSource::Compact)), Some(Purpose::Compact));
    assert_eq!(
        purpose_from_source(&SessionSource::SubAgent(SubAgentSource::MemoryConsolidation)),
        Some(Purpose::Memory)
    );
}

#[test]
fn maps_internal_memory() {
    assert_eq!(
        purpose_from_source(&SessionSource::Internal(InternalSessionSource::MemoryConsolidation)),
        Some(Purpose::Memory)
    );
}

#[test]
fn main_sources_are_none() {
    assert_eq!(purpose_from_source(&SessionSource::Cli), None);
    assert_eq!(purpose_from_source(&SessionSource::VSCode), None);
    assert_eq!(purpose_from_source(&SessionSource::Exec), None);
    assert_eq!(purpose_from_source(&SessionSource::Mcp), None);
    assert_eq!(purpose_from_source(&SessionSource::Unknown), None);
    assert_eq!(purpose_from_source(&SessionSource::Custom("x".into())), None);
    assert_eq!(purpose_from_source(&SessionSource::SubAgent(SubAgentSource::Other("y".into()))), None);
}

#[test]
fn as_key_matches_config_keys() {
    assert_eq!(Purpose::Compact.as_key(), "compact");
    assert_eq!(Purpose::Review.as_key(), "review");
    assert_eq!(Purpose::Memory.as_key(), "memory");
}

fn provider(connector: &str) -> RawProvider {
    RawProvider {
        connector: connector.into(),
        base_url: None,
        auth: "bearer".into(),
        key_env: None,
        auth_key: None,
        path: None,
        model: None,
        anthropic_version: None,
        default_max_tokens: None,
        prompt_cache: false,
    }
}

fn config(enabled: bool) -> Config {
    let raw = RawSwitch {
        enabled,
        providers: vec![
            ("main".into(), provider("chat")),
            ("cheap".into(), provider("anthropic")),
            ("native".into(), provider("responses")),
        ],
        purpose: vec![
            ("compact".into(), "cheap".into()),
            ("review".into(), "gone".into()),
        ],
    };
    load_config(Ok(Some(raw)), false).unwrap()
}

fn chosen(cfg: &Config, purpose: Option<Purpose>, req: &ResponsesApiRequest, id: &str) -> Option<String> {
    route_request(cfg, purpose, req, id).map(|r| r.provider_id)
}

#[test]
fn purpose_goes_before_provider() {
    let cfg = config(true);
    let req = sample_request();
    assert_eq!(chosen(&cfg, Some(Purpose::Compact), &req, "main").as_deref(), Some("cheap"));
    assert_eq!(chosen(&cfg, Some(Purpose::Compact), &req, "native").as_deref(), Some("cheap"));
}

#[test]
fn unmapped_or_unknown_purpose_falls_back_to_provider() {
    let cfg = config(true);
    let req = sample_request();
    assert_eq!(chosen(&cfg, Some(Purpose::Memory), &req, "main").as_deref(), Some("main"));
    assert_eq!(chosen(&cfg, Some(Purpose::Review), &req, "main").as_deref(), Some("main"));
    assert_eq!(chosen(&cfg, Some(Purpose::Review), &req, "native"), None);
    assert_eq!(chosen(&cfg, None, &req, "main").as_deref(), Some("main"));
    assert_eq!(chosen(&cfg, None, &req, "elsewhere"), None);
}

#[test]
fn namespace_tools_abandon_the_purpose() {
    let cfg = config(true);
    let mut req = sample_request();
    req.tools = vec![json(r#"{"type": "web_search"}"#)];
    assert_eq!(chosen(&cfg, Some(Purpose::Compact), &req, "main").as_deref(), Some("main"));
    assert_eq!(chosen(&cfg, Some(Purpose::Compact), &req, "native"), None);
}

#[test]
fn disabled_switch_routes_no_purpose() {
    let cfg = config(false);
    let req = sample_request();
    assert_eq!(chosen(&cfg, Some(Purpose::Compact), &req, "main"), None);
}

#[test]
fn routed_settings_are_those_of_the_provider() {
    let cfg = config(true);
    let req = sample_request();
    let r = route_request(&cfg, Some(Purpose::Compact), &req, "main").unwrap();
    assert_eq!(r.cfg.connector, codez_llm_switch::Connector::Anthropic);
    assert_eq!(r.cfg.auth, codez_llm_switch::AuthKind::Bearer);
}
