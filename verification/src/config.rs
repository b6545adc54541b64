//! Configuration: which providers are taken over, and how each is reached.

use crate::table::Table;
use crate::text::{copy_text, join, join3, same};
use vstd::prelude::*;
use vstd::string::*;

verus! {

/// The protocol of an upstream.
#[derive(Debug, Clone, Copy, PartialEq, Eq, Structural)]
pub enum Connector {
    Chat,
    Anthropic,
}

/// How a key is sent.
#[derive(Debug, Clone, Copy, PartialEq, Eq, Structural)]
pub enum AuthKind {
    Bearer,
    XApiKey,
}

/// How a provider is reached.
#[derive(Debug)]
pub struct ProviderCfg {
    pub connector: Connector,
    pub base_url: Option<String>,
    pub auth: AuthKind,
    /// The environment variable that holds the key.
    pub key_env: Option<String>,
    /// The key itself.
    pub auth_key: Option<String>,
    pub path: Option<String>,
    pub model: Option<String>,
    pub anthropic_version: Option<String>,
    pub default_max_tokens: Option<u32>,
    pub prompt_cache: bool,
}

impl Clone for ProviderCfg {
    fn clone(&self) -> (r: ProviderCfg)
        ensures
            r == *self,
    {
        ProviderCfg {
            connector: self.connector,
            base_url: copy_text(&self.base_url),
            auth: self.auth,
            key_env: copy_text(&self.key_env),
            auth_key: copy_text(&self.auth_key),
            path: copy_text(&self.path),
            model: copy_text(&self.model),
            anthropic_version: copy_text(&self.anthropic_version),
            default_max_tokens: self.default_max_tokens,
            prompt_cache: self.prompt_cache,
        }
    }
}

/// The configuration of the switch.
#[derive(Debug)]
pub struct Config {
    pub enabled: bool,
    /// The providers that are taken over, by their identifier.
    pub providers: Table<ProviderCfg>,
    /// Which provider serves a purpose, by the key of the purpose.
    pub purpose: Table<String>,
}

/// The `llm-switch` section of a configuration file as it is written there.
#[derive(Debug)]
pub struct RawSwitch {
    pub enabled: bool,
    pub providers: Vec<(String, RawProvider)>,
    pub purpose: Vec<(String, String)>,
}

/// A provider as it is written in a configuration file.
#[derive(Debug)]
pub struct RawProvider {
    pub connector: String,
    pub base_url: Option<String>,
    pub auth: String,
    pub key_env: Option<String>,
    pub auth_key: Option<String>,
    pub path: Option<String>,
    pub model: Option<String>,
    pub anthropic_version: Option<String>,
    pub default_max_tokens: Option<u32>,
    pub prompt_cache: bool,
}

/// Why a configuration is refused.
#[derive(Debug)]
pub enum ConfigError {
    /// The text is not what a configuration file is made of.
    Parse(String),
    /// The provider holds a key where none may be written.
    InlineAuthKeyForbidden(String),
    /// The provider names a protocol that is not known.
    UnknownConnector(String, String),
    /// The provider names a way to send its key that is not known.
    UnknownAuth(String, String),
}

/// What an error is, with texts as sequences.
pub enum ConfigErrorView {
    Parse(Seq<char>),
    InlineAuthKeyForbidden(Seq<char>),
    UnknownConnector(Seq<char>, Seq<char>),
    UnknownAuth(Seq<char>, Seq<char>),
}

impl View for ConfigError {
    type V = ConfigErrorView;

    open spec fn view(&self) -> ConfigErrorView {
        match *self {
            ConfigError::Parse(why) => ConfigErrorView::Parse(why@),
            ConfigError::InlineAuthKeyForbidden(id) => ConfigErrorView::InlineAuthKeyForbidden(id@),
            ConfigError::UnknownConnector(id, name) => ConfigErrorView::UnknownConnector(
                id@,
                name@,
            ),
            ConfigError::UnknownAuth(id, name) => ConfigErrorView::UnknownAuth(id@, name@),
        }
    }
}

/// An error in words.
pub open spec fn config_message(e: ConfigErrorView) -> Seq<char> {
    match e {
        ConfigErrorView::Parse(why) => "config-zmod parse error: "@ + why,
        ConfigErrorView::InlineAuthKeyForbidden(id) => "provider '"@ + id
            + "': inline `auth_key` is forbidden in ~/.codex/config-zmod.toml (only allowed in gitignored tests/testkey.toml)"@,
        ConfigErrorView::UnknownConnector(id, name) => "provider '"@ + id
            + "': unknown connector '"@ + name + "'"@,
        ConfigErrorView::UnknownAuth(id, name) => "provider '"@ + id + "': unknown auth '"@ + name
            + "'"@,
    }
}

impl ConfigError {
    /// The error in words.
    pub fn message(&self) -> (r: String)
        ensures
            r@ == config_message(self@),
    {
        match self {
            ConfigError::Parse(why) => join("config-zmod parse error: ", why.as_str()),
            ConfigError::InlineAuthKeyForbidden(id) => join3(
                "provider '",
                id.as_str(),
                "': inline `auth_key` is forbidden in ~/.codex/config-zmod.toml (only allowed in gitignored tests/testkey.toml)",
            ),
            ConfigError::UnknownConnector(id, name) => {
                let head: String = join3("provider '", id.as_str(), "': unknown connector '");
                join3(head.as_str(), name.as_str(), "'")
            },
            ConfigError::UnknownAuth(id, name) => {
                let head: String = join3("provider '", id.as_str(), "': unknown auth '");
                join3(head.as_str(), name.as_str(), "'")
            },
        }
    }
}

// ---- what a file amounts to ----

/// The protocol that a name stands for. One is known but is none of those that are translated.
pub enum Protocol {
    Translated(Connector),
    Native,
    Unknown,
}

/// The protocol that a name stands for.
pub open spec fn protocol_named(name: Seq<char>) -> Protocol {
    if name == "chat"@ {
        Protocol::Translated(Connector::Chat)
    } else if name == "anthropic"@ {
        Protocol::Translated(Connector::Anthropic)
    } else if name == "responses"@ {
        Protocol::Native
    } else {
        Protocol::Unknown
    }
}

/// The way to send a key that a name stands for.
pub open spec fn auth_named(name: Seq<char>) -> Option<AuthKind> {
    if name == "bearer"@ {
        Some(AuthKind::Bearer)
    } else if name == "x-api-key"@ {
        Some(AuthKind::XApiKey)
    } else {
        None
    }
}

/// What a provider of a file amounts to: how it is reached, nothing if it is not taken over, or
/// why it is refused. A key where none may be written is refused before anything else is looked
/// at.
pub open spec fn provider_of(id: Seq<char>, raw: RawProvider, allow_inline_key: bool) -> Result<
    Option<ProviderCfg>,
    ConfigErrorView,
> {
    if raw.auth_key is Some && !allow_inline_key {
        Err(ConfigErrorView::InlineAuthKeyForbidden(id))
    } else {
        match protocol_named(raw.connector@) {
            Protocol::Unknown => Err(ConfigErrorView::UnknownConnector(id, raw.connector@)),
            Protocol::Native => Ok(None),
            Protocol::Translated(connector) => match auth_named(raw.auth@) {
                None => Err(ConfigErrorView::UnknownAuth(id, raw.auth@)),
                Some(auth) => Ok(
                    Some(
                        ProviderCfg {
                            connector,
                            base_url: raw.base_url,
                            auth,
                            key_env: raw.key_env,
                            auth_key: raw.auth_key,
                            path: raw.path,
                            model: raw.model,
                            anthropic_version: raw.anthropic_version,
                            default_max_tokens: raw.default_max_tokens,
                            prompt_cache: raw.prompt_cache,
                        },
                    ),
                ),
            },
        }
    }
}

/// The providers behind `done` that a file amounts to, or why the first that is refused is.
pub open spec fn providers_from(
    done: Map<Seq<char>, ProviderCfg>,
    raws: Seq<(String, RawProvider)>,
    allow_inline_key: bool,
) -> Result<Map<Seq<char>, ProviderCfg>, ConfigErrorView>
    decreases raws.len(),
{
    if raws.len() == 0 {
        Ok(done)
    } else {
        let (id, raw) = raws[0];
        match provider_of(id@, raw, allow_inline_key) {
            Err(e) => Err(e),
            Ok(None) => providers_from(done, raws.skip(1), allow_inline_key),
            Ok(Some(cfg)) => providers_from(
                done.insert(id@, cfg),
                raws.skip(1),
                allow_inline_key,
            ),
        }
    }
}

/// The purposes behind `done` that a file maps.
pub open spec fn purposes_from(
    done: Map<Seq<char>, String>,
    raws: Seq<(String, String)>,
) -> Map<Seq<char>, String>
    decreases raws.len(),
{
    if raws.len() == 0 {
        done
    } else {
        purposes_from(done.insert(raws[0].0@, raws[0].1), raws.skip(1))
    }
}

/// What a configuration is.
pub struct ConfigView {
    pub enabled: bool,
    pub providers: Map<Seq<char>, ProviderCfg>,
    pub purpose: Map<Seq<char>, String>,
}

impl View for Config {
    type V = ConfigView;

    open spec fn view(&self) -> ConfigView {
        ConfigView {
            enabled: self.enabled,
            providers: self.providers@,
            purpose: self.purpose@,
        }
    }
}

/// The configuration under which nothing is taken over.
pub open spec fn disabled_config() -> ConfigView {
    ConfigView { enabled: false, providers: Map::empty(), purpose: Map::empty() }
}

/// The configuration that a file amounts to, given what its text parses to: the section, nothing
/// if it has none, or why it does not parse.
pub open spec fn config_of(
    parsed: Result<Option<RawSwitch>, String>,
    allow_inline_key: bool,
) -> Result<ConfigView, ConfigErrorView> {
    match parsed {
        Err(why) => Err(ConfigErrorView::Parse(why@)),
        Ok(None) => Ok(disabled_config()),
        Ok(Some(sw)) => match providers_from(Map::empty(), sw.providers@, allow_inline_key) {
            Err(e) => Err(e),
            Ok(providers) => Ok(
                ConfigView {
                    enabled: sw.enabled,
                    providers,
                    purpose: purposes_from(Map::empty(), sw.purpose@),
                },
            ),
        },
    }
}

/// Whether a function returned this configuration, or this error.
pub open spec fn configures(
    r: Result<Config, ConfigError>,
    want: Result<ConfigView, ConfigErrorView>,
) -> bool {
    match (r, want) {
        (Ok(c), Ok(v)) => c@ == v,
        (Err(e), Err(v)) => e@ == v,
        _ => false,
    }
}

impl Clone for Config {
    fn clone(&self) -> (r: Config)
        ensures
            r@ == self@,
    {
        let r = Config {
            enabled: self.enabled,
            providers: self.providers.clone(),
            purpose: self.purpose.clone(),
        };
        assert(r.providers@ =~= self.providers@);
        assert(r.purpose@ =~= self.purpose@);
        r
    }
}

impl Config {
    /// The configuration under which nothing is taken over.
    pub fn disabled() -> (r: Config)
        ensures
            r@ == disabled_config(),
    {
        Config { enabled: false, providers: Table::new(), purpose: Table::new() }
    }
}

/// What a provider of a file amounts to.
fn load_provider(id: &str, raw: RawProvider, allow_inline_key: bool) -> (r: Result<
    Option<ProviderCfg>,
    ConfigError,
>)
    ensures
        match (r, provider_of(id@, raw, allow_inline_key)) {
            (Ok(c), Ok(v)) => c == v,
            (Err(e), Err(v)) => e@ == v,
            _ => false,
        },
{
    if raw.auth_key.is_some() && !allow_inline_key {
        return Err(ConfigError::InlineAuthKeyForbidden(id.to_owned()));
    }
    let name: &str = raw.connector.as_str();
    let connector: Connector = if same(name, "chat") {
        Connector::Chat
    } else if same(name, "anthropic") {
        Connector::Anthropic
    } else if same(name, "responses") {
        return Ok(None);
    } else {
        return Err(ConfigError::UnknownConnector(id.to_owned(), raw.connector));
    };
    let auth: AuthKind = if same(raw.auth.as_str(), "bearer") {
        AuthKind::Bearer
    } else if same(raw.auth.as_str(), "x-api-key") {
        AuthKind::XApiKey
    } else {
        return Err(ConfigError::UnknownAuth(id.to_owned(), raw.auth));
    };
    Ok(
        Some(
            ProviderCfg {
                connector,
                base_url: raw.base_url,
                auth,
                key_env: raw.key_env,
                auth_key: raw.auth_key,
                path: raw.path,
                model: raw.model,
                anthropic_version: raw.anthropic_version,
                default_max_tokens: raw.default_max_tokens,
                prompt_cache: raw.prompt_cache,
            },
        ),
    )
}

/// Builds the configuration from what the text of a file parses to. Only a file that is kept out
/// of the way may hold keys: for any other, `allow_inline_key` is false.
pub fn load_config(parsed: Result<Option<RawSwitch>, String>, allow_inline_key: bool) -> (r: Result<
    Config,
    ConfigError,
>)
    ensures
        configures(r, config_of(parsed, allow_inline_key)),
{
    let sw: RawSwitch = match parsed {
        Err(why) => {
            return Err(ConfigError::Parse(why));
        },
        Ok(None) => {
            return Ok(Config::disabled());
        },
        Ok(Some(sw)) => sw,
    };
    let mut providers: Table<ProviderCfg> = Table::new();
    let raws: Vec<(String, RawProvider)> = sw.providers;
    let ghost all = raws@;
    assert(all.skip(0) =~= all);
    for entry in it: raws
        invariant
            it.seq() == raws@,
            all == raws@,
            parsed matches Ok(Some(p)) && p.providers@ == all,
            providers_from(Map::empty(), all, allow_inline_key) == providers_from(
                providers@,
                all.skip(it.index()),
                allow_inline_key,
            ),
    {
        assert(all.skip(it.index()).skip(1) =~= all.skip(it.index() + 1));
        assert(all.skip(it.index())[0] == entry);
        let id: String = entry.0;
        match load_provider(id.as_str(), entry.1, allow_inline_key) {
            Ok(Some(cfg)) => {
                providers.insert(id, cfg);
            },
            Ok(None) => {},
            Err(e) => {
                return Err(e);
            },
        }
    }
    let mut purpose: Table<String> = Table::new();
    let mapped: Vec<(String, String)> = sw.purpose;
    let ghost pairs = mapped@;
    assert(pairs.skip(0) =~= pairs);
    for entry in it: mapped
        invariant
            it.seq() == mapped@,
            pairs == mapped@,
            purposes_from(Map::empty(), pairs) == purposes_from(
                purpose@,
                pairs.skip(it.index()),
            ),
    {
        assert(pairs.skip(it.index()).skip(1) =~= pairs.skip(it.index() + 1));
        assert(pairs.skip(it.index())[0] == entry);
        purpose.insert(entry.0, entry.1);
    }
    Ok(Config { enabled: sw.enabled, providers, purpose })
}

/// The configuration to work under: that of the file, or none where there is no file or it is
/// refused.
pub fn config_or_disabled(loaded: Option<Result<Config, ConfigError>>) -> (r: Config)
    ensures
        r@ == (match loaded {
            Some(Ok(c)) => c@,
            _ => disabled_config(),
        }),
{
    match loaded {
        Some(Ok(c)) => c,
        _ => Config::disabled(),
    }
}

} // verus!
