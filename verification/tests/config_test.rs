use codez_llm_switch::{
    config_or_disabled, enabled, load_config, route_in, AuthKind, Config, ConfigError, Connector,
    RawProvider, RawSwitch,
};
use toml::{Table, Value};

fn text(t: &Table, key: &str) -> Option<String> {
    t.get(key).and_then(Value::as_str).map(String::from)
}

fn raw_provider(t: &Table) -> RawProvider {
    RawProvider {
        connector: text(t, "connector").unwrap(),
        base_url: text(t, "base_url"),
        auth: text(t, "auth").unwrap(),
        key_env: text(t, "key_env"),
        auth_key: text(t, "auth_key"),
        path: text(t, "path"),
        model: text(t, "model"),
        anthropic_version: text(t, "anthropic_version"),
        default_max_tokens: t
            .get("default_max_tokens")
            .and_then(Value::as_integer)
            .map(|n| u32::try_from(n).unwrap()),
        prompt_cache: t.get("prompt_cache").and_then(Value::as_bool).unwrap_or(false),
    }
}

fn raw_switch(t: &Table) -> RawSwitch {
    let providers = match t.get("providers").and_then(Value::as_table) {
        Some(ps) => ps
            .iter()
            .map(|(id, p)| (id.clone(), raw_provider(p.as_table().unwrap())))
            .collect(),
        None => Vec::new(),
    };
    let purpose = match t.get("purpose").and_then(Value::as_table) {
        Some(ps) => ps
            .iter()
            .map(|(key, id)| (key.clone(), id.as_str().unwrap().to_string()))
            .collect(),
        None => Vec::new(),
    };
    RawSwitch {
        enabled: t.get("enabled").and_then(Value::as_bool).unwrap_or(false),
        providers,
        purpose,
    }
}

fn load_config_from_str(
    toml_text: &str,
    allow_inline_key: bool,
) -> Result<Config, ConfigError> {
    let parsed = match toml::from_str::<Table>(toml_text) {
        Ok(root) => Ok(root.get("llm-switch").and_then(Value::as_table).map(raw_switch)),
        Err(e) => Err(e.to_string()),
    };
    load_config(parsed, allow_inline_key)
}

const SAMPLE: &str = r#"
[llm-switch]
enabled = true

[llm-switch.providers.deepseek]
connector = "chat"
base_url  = "https://api.deepseek.com/v1"
auth      = "bearer"
key_env   = "DEEPSEEK_API_KEY"

[llm-switch.providers.opus]
connector         = "anthropic"
base_url          = "https://api.anthropic.com"
auth              = "x-api-key"
key_env           = "ANTHROPIC_API_KEY"
anthropic_version = "2023-06-01"
default_max_tokens = 8192
"#;

#[test]
fn parses_providers() {
    let cfg = load_config_from_str(SAMPLE, false).expect("parse ok");
    assert!(cfg.enabled);
    let ds = cfg.providers.get("deepseek").expect("deepseek present");
    assert!(matches!(ds.connector, Connector::Chat));
    assert!(matches!(ds.auth, AuthKind::Bearer));
    assert_eq!(ds.key_env.as_deref(), Some("DEEPSEEK_API_KEY"));
    let cl = cfg.providers.get("opus").expect("opus present");
    assert!(matches!(cl.connector, Connector::Anthropic));
    assert!(matches!(cl.auth, AuthKind::XApiKey));
    assert_eq!(cl.default_max_tokens, Some(8192));
    assert_eq!(cl.anthropic_version.as_deref(), Some("2023-06-01"));
}

#[test]
fn rejects_inline_auth_key_in_prod() {
    let toml = r#"
[llm-switch]
enabled = true
[llm-switch.providers.deepseek]
connector = "chat"
auth = "bearer"
auth_key = "sk-secret"
"#;
    let err = load_config_from_str(toml, false).unwrap_err();
    assert!(err.message().contains("auth_key"), "err should mention auth_key: {err:?}");
    let ok = load_config_from_str(toml, true).expect("testkey path accepts inline key");
    assert_eq!(
        ok.providers.get("deepseek").unwrap().auth_key.as_deref(),
        Some("sk-secret")
    );
}

#[test]
fn responses_connector_is_not_routable() {
    let toml = r#"
[llm-switch]
enabled = true
[llm-switch.providers.openai]
connector = "responses"
auth = "bearer"
"#;
    let cfg = load_config_from_str(toml, false).expect("parse ok");
    assert!(cfg.providers.get("openai").is_none(), "responses provider dropped from routable map");
}

#[test]
fn missing_section_means_disabled() {
    let cfg = load_config_from_str("[other]\nx = 1\n", false).expect("parse ok");
    assert!(!cfg.enabled);
    assert!(cfg.providers.is_empty());
}

#[test]
fn unknown_connector_is_rejected() {
    let toml = "[llm-switch]\nenabled=true\n[llm-switch.providers.x]\nconnector=\"anthropics\"\nauth=\"bearer\"\n";
    let err = load_config_from_str(toml, false).unwrap_err();
    assert!(
        matches!(err, codez_llm_switch::ConfigError::UnknownConnector(_, _)),
        "should be UnknownConnector: {err:?}"
    );
}

#[test]
fn responses_provider_with_auth_key_is_rejected() {
    let toml = "[llm-switch]\nenabled=true\n[llm-switch.providers.openai]\nconnector=\"responses\"\nauth=\"bearer\"\nauth_key=\"sk-secret\"\n";
    let err = load_config_from_str(toml, false).unwrap_err();
    assert!(err.message().contains("auth_key"), "should mention auth_key: {err:?}");
}

#[test]
fn prompt_cache_defaults_false_and_parses_true() {
    let toml = r#"
[llm-switch]
enabled = true

[llm-switch.providers.opus-default]
connector = "anthropic"
base_url  = "https://api.anthropic.com"
auth      = "x-api-key"
key_env   = "ANTHROPIC_API_KEY"

[llm-switch.providers.opus-cached]
connector    = "anthropic"
base_url     = "https://api.anthropic.com"
auth         = "x-api-key"
key_env      = "ANTHROPIC_API_KEY"
prompt_cache = true
"#;
    let cfg = load_config_from_str(toml, false).expect("parse ok");
    assert!(!cfg.providers.get("opus-default").unwrap().prompt_cache);
    assert!(cfg.providers.get("opus-cached").unwrap().prompt_cache);
}

#[test]
fn parses_purpose_table() {
    let toml = r#"
[llm-switch]
enabled = true

[llm-switch.providers.deepseek]
connector = "chat"
base_url  = "https://api.deepseek.com/v1"
auth      = "bearer"
key_env   = "DEEPSEEK_API_KEY"

[llm-switch.purpose]
compact = "deepseek"
review  = "deepseek"
memory  = "deepseek"
"#;
    let cfg = load_config_from_str(toml, false).expect("parse ok");
    assert_eq!(cfg.purpose.get("compact").map(String::as_str), Some("deepseek"));
    assert_eq!(cfg.purpose.get("review").map(String::as_str), Some("deepseek"));
    assert_eq!(cfg.purpose.get("memory").map(String::as_str), Some("deepseek"));
}

#[test]
fn purpose_table_absent_is_empty_not_error() {
    let toml = r#"
[llm-switch]
enabled = true

[llm-switch.providers.x]
connector = "chat"
auth = "bearer"
"#;
    let cfg = load_config_from_str(toml, false).expect("parse ok");
    assert!(cfg.purpose.is_empty());
}

#[test]
fn purpose_value_to_unknown_provider_is_kept_not_rejected() {
    let toml = r#"
[llm-switch]
enabled = true

[llm-switch.providers.x]
connector = "chat"
auth = "bearer"

[llm-switch.purpose]
compact = "does-not-exist"
"#;
    let cfg = load_config_from_str(toml, false).expect("parse ok");
    assert_eq!(cfg.purpose.get("compact").map(String::as_str), Some("does-not-exist"));
}

#[test]
fn disabled_never_routes() {
    let cfg = load_config_from_str("[llm-switch]\nenabled=false\n[llm-switch.providers.x]\nconnector=\"chat\"\nauth=\"bearer\"\n", false).unwrap();
    assert!(route_in(&cfg, "x").is_none());
    assert!(!enabled(&cfg));
}

#[test]
fn enabled_routes_known_provider() {
    let cfg = load_config_from_str("[llm-switch]\nenabled=true\n[llm-switch.providers.x]\nconnector=\"chat\"\nauth=\"bearer\"\n", false).unwrap();
    assert!(route_in(&cfg, "x").is_some());
    assert!(route_in(&cfg, "unknown").is_none());
    assert!(enabled(&cfg));
}

#[test]
fn text_that_is_not_toml_is_a_parse_error() {
    let err = load_config_from_str("[llm-switch\n", false).unwrap_err();
    assert!(matches!(err, ConfigError::Parse(_)));
    assert!(err.message().starts_with("config-zmod parse error: "));
}

#[test]
fn unknown_auth_is_rejected() {
    let toml = "[llm-switch]\n[llm-switch.providers.x]\nconnector=\"chat\"\nauth=\"basic\"\n";
    let err = load_config_from_str(toml, false).unwrap_err();
    assert_eq!(err.message(), "provider 'x': unknown auth 'basic'");
}

#[test]
fn unknown_connector_names_provider_and_connector() {
    let toml = "[llm-switch]\n[llm-switch.providers.x]\nconnector=\"smtp\"\nauth=\"basic\"\n";
    let err = load_config_from_str(toml, false).unwrap_err();
    assert_eq!(err.message(), "provider 'x': unknown connector 'smtp'");
}

#[test]
fn inline_key_is_reported_before_anything_else() {
    let toml = "[llm-switch]\n[llm-switch.providers.x]\nconnector=\"smtp\"\nauth=\"basic\"\nauth_key=\"k\"\n";
    let err = load_config_from_str(toml, false).unwrap_err();
    assert_eq!(
        err.message(),
        "provider 'x': inline `auth_key` is forbidden in ~/.codex/config-zmod.toml (only allowed in gitignored tests/testkey.toml)"
    );
    let err = load_config_from_str(toml, true).unwrap_err();
    assert!(matches!(err, ConfigError::UnknownConnector(_, _)));
}

#[test]
fn native_provider_needs_no_known_auth() {
    let toml = "[llm-switch]\nenabled=true\n[llm-switch.providers.x]\nconnector=\"responses\"\nauth=\"whatever\"\n";
    let cfg = load_config_from_str(toml, false).unwrap();
    assert!(cfg.enabled);
    assert!(cfg.providers.is_empty());
}

#[test]
fn missing_or_bad_file_means_disabled() {
    assert!(!config_or_disabled(None).enabled);
    let bad = load_config_from_str("nonsense", false);
    assert!(bad.is_err());
    assert!(!config_or_disabled(Some(bad)).enabled);
    let good = load_config_from_str(SAMPLE, false);
    assert!(config_or_disabled(Some(good)).enabled);
}

#[test]
fn order_of_providers_makes_no_difference() {
    let forward = "[llm-switch]\nenabled=true\n[llm-switch.providers.a]\nconnector=\"chat\"\nauth=\"bearer\"\n[llm-switch.providers.b]\nconnector=\"anthropic\"\nauth=\"x-api-key\"\n";
    let parsed = |reverse: bool| {
        let root = toml::from_str::<Table>(forward).unwrap();
        let mut raw = raw_switch(root["llm-switch"].as_table().unwrap());
        if reverse {
            raw.providers.reverse();
        }
        load_config(Ok(Some(raw)), false).unwrap()
    };
    let one = parsed(false);
    let two = parsed(true);
    assert_eq!(one.providers.get("a").unwrap().connector, Connector::Chat);
    assert_eq!(two.providers.get("a").unwrap().connector, Connector::Chat);
    assert_eq!(one.providers.get("b").unwrap().auth, AuthKind::XApiKey);
    assert_eq!(two.providers.get("b").unwrap().auth, AuthKind::XApiKey);
}

#[test]
fn last_entry_of_a_provider_counts() {
    let root = toml::from_str::<Table>(SAMPLE).unwrap();
    let mut raw = raw_switch(root["llm-switch"].as_table().unwrap());
    let mut again = raw_switch(root["llm-switch"].as_table().unwrap());
    for (_, p) in again.providers.iter_mut() {
        p.model = Some("later".into());
    }
    raw.providers.append(&mut again.providers);
    let cfg = load_config(Ok(Some(raw)), false).unwrap();
    assert_eq!(cfg.providers.get("deepseek").unwrap().model.as_deref(), Some("later"));
    assert_eq!(cfg.providers.get("opus").unwrap().model.as_deref(), Some("later"));
}

#[test]
fn clone_of_a_configuration_is_the_same() {
    let cfg = load_config_from_str(SAMPLE, false).unwrap();
    let copy = cfg.clone();
    assert_eq!(format!("{cfg:?}"), format!("{copy:?}"));
    assert_eq!(copy.providers.get("opus").unwrap().default_max_tokens, Some(8192));
}
