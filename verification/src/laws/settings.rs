//! What a configuration file says, and what becomes of it.

use super::config::{defines, distinct_ids, has, law_order_of_providers_is_immaterial};
use crate::config::{
    config_message, config_of, configures, provider_of, providers_from, purposes_from, AuthKind,
    Config, ConfigError, ConfigErrorView, ConfigView, Connector, ProviderCfg, RawProvider,
    RawSwitch,
};
use crate::connector::EgressCtx;
use crate::http::{http_message, key_of, url_of, HttpErrorView};
use crate::namespace::has_namespace_tools;
use crate::json::held;
use crate::protocol::{
    ApiError, InternalSessionSource, ResponsesApiRequest,
    SessionSource, SubAgentSource,
};
use crate::purpose::{purpose_key, purpose_of, Purpose};
use crate::route::{provider_route, request_route, route_view, Route, RouteView};
use crate::run::begins;
use vstd::prelude::*;

verus! {

// ---- configuration ----

/// Whether a provider speaks a protocol that is translated.
pub open spec fn is_translated(raw: RawProvider) -> bool {
    raw.connector@ == "chat"@ || raw.connector@ == "anthropic"@
}

/// Whether nothing stands against a provider: it holds no key where none may be written, its
/// protocol is known, and if that is translated, so is the way to send its key.
pub open spec fn is_acceptable(raw: RawProvider, allow_inline_key: bool) -> bool {
    &&& raw.auth_key is None || allow_inline_key
    &&& is_translated(raw) || raw.connector@ == "responses"@
    &&& is_translated(raw) ==> raw.auth@ == "bearer"@ || raw.auth@ == "x-api-key"@
}

/// Whether a provider is reached exactly as it is written.
pub open spec fn is_reached_as(cfg: ProviderCfg, raw: RawProvider) -> bool {
    &&& cfg.connector == (if raw.connector@ == "chat"@ {
        Connector::Chat
    } else {
        Connector::Anthropic
    })
    &&& cfg.auth == (if raw.auth@ == "bearer"@ {
        AuthKind::Bearer
    } else {
        AuthKind::XApiKey
    })
    &&& cfg.base_url == raw.base_url
    &&& cfg.key_env == raw.key_env
    &&& cfg.auth_key == raw.auth_key
    &&& cfg.path == raw.path
    &&& cfg.model == raw.model
    &&& cfg.anthropic_version == raw.anthropic_version
    &&& cfg.default_max_tokens == raw.default_max_tokens
    &&& cfg.prompt_cache == raw.prompt_cache
}

proof fn lemma_names()
    ensures
        "chat"@ != "anthropic"@,
        "chat"@ != "responses"@,
        "anthropic"@ != "responses"@,
        "bearer"@ != "x-api-key"@,
{
    reveal_strlit("chat");
    reveal_strlit("anthropic");
    reveal_strlit("responses");
    reveal_strlit("bearer");
    reveal_strlit("x-api-key");
    assert("chat"@.len() == 4 && "anthropic"@.len() == 9 && "responses"@.len() == 9);
    assert("anthropic"@[0] == 'a' && "responses"@[0] == 'r');
    assert("bearer"@.len() == 6 && "x-api-key"@.len() == 9);
}

/// Why a provider is refused, given that it is: for a key where none may be written before
/// anything else, then for its protocol, then for the way to send its key.
pub open spec fn refused_for(id: Seq<char>, raw: RawProvider, allow_inline_key: bool) -> ConfigErrorView {
    if raw.auth_key is Some && !allow_inline_key {
        ConfigErrorView::InlineAuthKeyForbidden(id)
    } else if !is_translated(raw) {
        ConfigErrorView::UnknownConnector(id, raw.connector@)
    } else {
        ConfigErrorView::UnknownAuth(id, raw.auth@)
    }
}

proof fn lemma_provider(id: Seq<char>, raw: RawProvider, allow: bool)
    ensures
        match provider_of(id, raw, allow) {
            Ok(Some(cfg)) => is_acceptable(raw, allow) && is_translated(raw) && is_reached_as(
                cfg,
                raw,
            ),
            Ok(None) => is_acceptable(raw, allow) && !is_translated(raw),
            Err(e) => !is_acceptable(raw, allow) && e == refused_for(id, raw, allow),
        },
{
    lemma_names();
}

/// A provider that speaks a translated protocol is taken over and reached exactly as its section
/// says: with the protocol, the way to send its key and every setting that is written there. A
/// provider that is not written, or speaks no translated protocol, is not taken over. The switch
/// is on if and only if the file says so.
pub proof fn law_providers_are_reached_as_written(sw: RawSwitch, allow_inline_key: bool)
    requires
        distinct_ids(sw.providers@),
    ensures
        config_of(Ok(Some(sw)), allow_inline_key) matches Ok(c) ==> {
            &&& c.enabled == sw.enabled
            &&& forall|i: int|
                #![trigger sw.providers@[i]]
                0 <= i < sw.providers@.len() ==> {
                    let (id, raw) = sw.providers@[i];
                    if is_translated(raw) {
                        c.providers.contains_key(id@) && is_reached_as(c.providers[id@], raw)
                    } else {
                        !c.providers.contains_key(id@)
                    }
                }
            &&& forall|id: Seq<char>| #[trigger]
                c.providers.contains_key(id) ==> exists|i: int|
                    0 <= i < sw.providers@.len() && (#[trigger] sw.providers@[i]).0@ == id
        },
{
    law_order_of_providers_is_immaterial(sw, allow_inline_key);
    let raws = sw.providers@;
    if let Ok(c) = config_of(Ok(Some(sw)), allow_inline_key) {
        assert forall|i: int|
            #![trigger sw.providers@[i]]
            0 <= i < sw.providers@.len() implies ({
            let (id, raw) = sw.providers@[i];
            if is_translated(raw) {
                c.providers.contains_key(id@) && is_reached_as(c.providers[id@], raw)
            } else {
                !c.providers.contains_key(id@)
            }
        }) by {
            let (id, raw) = raws[i];
            lemma_provider(id@, raw, allow_inline_key);
            assert(provider_of(raws[i].0@, raws[i].1, allow_inline_key) is Ok);
            if is_translated(raw) {
                let cfg = provider_of(id@, raw, allow_inline_key)->Ok_0->Some_0;
                assert(defines(raws, allow_inline_key, id@, cfg)) by {
                    assert(raws[i].0@ == id@);
                }
                assert(has(c.providers, id@, cfg));
            } else if c.providers.contains_key(id@) {
                let cfg = c.providers[id@];
                assert(has(c.providers, id@, cfg));
                assert(defines(raws, allow_inline_key, id@, cfg));
                let j = choose|j: int|
                    0 <= j < raws.len() && (#[trigger] raws[j]).0@ == id@ && provider_of(
                        id@,
                        raws[j].1,
                        allow_inline_key,
                    ) == Ok::<Option<ProviderCfg>, ConfigErrorView>(Some(cfg));
                assert(i == j);
            }
        }
        assert forall|id: Seq<char>| #[trigger]
            c.providers.contains_key(id) implies exists|i: int|
            0 <= i < sw.providers@.len() && (#[trigger] sw.providers@[i]).0@ == id by {
            assert(has(c.providers, id, c.providers[id]));
            assert(defines(raws, allow_inline_key, id, c.providers[id]));
        }
    }
}

proof fn lemma_first_refused(
    done: Map<Seq<char>, ProviderCfg>,
    raws: Seq<(String, RawProvider)>,
    allow: bool,
    k: int,
)
    requires
        0 <= k < raws.len(),
        !is_acceptable(raws[k].1, allow),
        forall|i: int| 0 <= i < k ==> is_acceptable((#[trigger] raws[i]).1, allow),
    ensures
        providers_from(done, raws, allow) == Err::<Map<Seq<char>, ProviderCfg>, ConfigErrorView>(
            refused_for(raws[k].0@, raws[k].1, allow),
        ),
    decreases raws.len(),
{
    let (id, raw) = raws[0];
    lemma_provider(id@, raw, allow);
    if k > 0 {
        assert(is_acceptable(raws[0].1, allow));
        let rest = raws.skip(1);
        assert(rest[k - 1] == raws[k]);
        assert forall|i: int| 0 <= i < k - 1 implies is_acceptable((#[trigger] rest[i]).1, allow) by {
            assert(rest[i] == raws[i + 1]);
        }
        match provider_of(id@, raw, allow) {
            Ok(Some(cfg)) => lemma_first_refused(done.insert(id@, cfg), rest, allow, k - 1),
            _ => lemma_first_refused(done, rest, allow, k - 1),
        }
    }
}

proof fn lemma_all_acceptable(
    done: Map<Seq<char>, ProviderCfg>,
    raws: Seq<(String, RawProvider)>,
    allow: bool,
)
    requires
        forall|i: int| 0 <= i < raws.len() ==> is_acceptable((#[trigger] raws[i]).1, allow),
    ensures
        providers_from(done, raws, allow) is Ok,
    decreases raws.len(),
{
    if raws.len() > 0 {
        let (id, raw) = raws[0];
        lemma_provider(id@, raw, allow);
        assert(is_acceptable(raws[0].1, allow));
        let rest = raws.skip(1);
        assert forall|i: int| 0 <= i < rest.len() implies is_acceptable(
            (#[trigger] rest[i]).1,
            allow,
        ) by {
            assert(rest[i] == raws[i + 1]);
        }
        match provider_of(id@, raw, allow) {
            Ok(Some(cfg)) => lemma_all_acceptable(done.insert(id@, cfg), rest, allow),
            _ => lemma_all_acceptable(done, rest, allow),
        }
    }
}

/// A file is refused for the first provider that something stands against, and says what. It is
/// accepted if nothing stands against any provider. A text that does not parse is refused with the
/// words for it, and a file without a section is accepted and leaves the switch off.
pub proof fn law_files_are_refused(sw: RawSwitch, why: String, allow_inline_key: bool)
    ensures
        forall|k: int|
            #![trigger sw.providers@[k]]
            0 <= k < sw.providers@.len() && !is_acceptable(sw.providers@[k].1, allow_inline_key) && (
            forall|i: int|
                0 <= i < k ==> is_acceptable((#[trigger] sw.providers@[i]).1, allow_inline_key))
                ==> config_of(Ok(Some(sw)), allow_inline_key) == Err::<ConfigView, ConfigErrorView>(
                refused_for(sw.providers@[k].0@, sw.providers@[k].1, allow_inline_key),
            ),
        (forall|i: int|
            0 <= i < sw.providers@.len() ==> is_acceptable(
                (#[trigger] sw.providers@[i]).1,
                allow_inline_key,
            )) ==> config_of(Ok(Some(sw)), allow_inline_key) is Ok,
        config_of(Err(why), allow_inline_key) == Err::<ConfigView, ConfigErrorView>(
            ConfigErrorView::Parse(why@),
        ),
        config_of(Ok(None), allow_inline_key) == Ok::<ConfigView, ConfigErrorView>(
            ConfigView { enabled: false, providers: Map::empty(), purpose: Map::empty() },
        ),
{
    let raws = sw.providers@;
    assert forall|k: int|
        #![trigger sw.providers@[k]]
        0 <= k < sw.providers@.len() && !is_acceptable(sw.providers@[k].1, allow_inline_key) && (
        forall|i: int|
            0 <= i < k ==> is_acceptable((#[trigger] sw.providers@[i]).1, allow_inline_key)) implies
        config_of(Ok(Some(sw)), allow_inline_key) == Err::<ConfigView, ConfigErrorView>(
        refused_for(sw.providers@[k].0@, sw.providers@[k].1, allow_inline_key),
    ) by {
        lemma_first_refused(Map::empty(), raws, allow_inline_key, k);
    }
    if forall|i: int|
        0 <= i < sw.providers@.len() ==> is_acceptable(
            (#[trigger] sw.providers@[i]).1,
            allow_inline_key,
        ) {
        lemma_all_acceptable(Map::empty(), raws, allow_inline_key);
    }
}

proof fn lemma_unnamed_purpose(
    done: Map<Seq<char>, String>,
    raws: Seq<(String, String)>,
    key: Seq<char>,
)
    requires
        forall|i: int| 0 <= i < raws.len() ==> (#[trigger] raws[i]).0@ != key,
    ensures
        purposes_from(done, raws).contains_key(key) == done.contains_key(key),
        purposes_from(done, raws)[key] == done[key],
    decreases raws.len(),
{
    if raws.len() > 0 {
        let rest = raws.skip(1);
        assert(raws[0].0@ != key);
        assert forall|j: int| 0 <= j < rest.len() implies (#[trigger] rest[j]).0@ != key by {
            assert(raws[j + 1] == rest[j]);
        }
        lemma_unnamed_purpose(done.insert(raws[0].0@, raws[0].1), rest, key);
    }
}

proof fn lemma_last_purpose(
    done: Map<Seq<char>, String>,
    raws: Seq<(String, String)>,
    key: Seq<char>,
    i: int,
)
    requires
        0 <= i < raws.len(),
        raws[i].0@ == key,
        forall|j: int| i < j < raws.len() ==> (#[trigger] raws[j]).0@ != key,
    ensures
        purposes_from(done, raws).contains_key(key),
        purposes_from(done, raws)[key] == raws[i].1,
    decreases raws.len(),
{
    let rest = raws.skip(1);
    let next = done.insert(raws[0].0@, raws[0].1);
    assert forall|j: int| i <= j < rest.len() implies (#[trigger] rest[j]).0@ != key by {
        assert(raws[j + 1] == rest[j]);
    }
    if i == 0 {
        lemma_unnamed_purpose(next, rest, key);
    } else {
        assert(rest[i - 1] == raws[i]);
        lemma_last_purpose(next, rest, key, i - 1);
    }
}

/// Where a purpose is named, it is named a last time.
proof fn lemma_named_last(raws: Seq<(String, String)>, key: Seq<char>, n: int) -> (i: int)
    requires
        0 <= n < raws.len(),
        raws[n].0@ == key,
    ensures
        0 <= i < raws.len(),
        raws[i].0@ == key,
        forall|j: int| i < j < raws.len() ==> (#[trigger] raws[j]).0@ != key,
    decreases raws.len() - n,
{
    if exists|j: int| n < j < raws.len() && (#[trigger] raws[j]).0@ == key {
        let j = choose|j: int| n < j < raws.len() && (#[trigger] raws[j]).0@ == key;
        lemma_named_last(raws, key, j)
    } else {
        n
    }
}

/// A purpose is served by the provider that the file names for it, by the last one if it names
/// several, whether or not there is such a provider. A purpose that the file does not name is not
/// mapped.
pub proof fn law_purposes_are_mapped_as_written(
    sw: RawSwitch,
    allow_inline_key: bool,
    key: Seq<char>,
)
    ensures
        config_of(Ok(Some(sw)), allow_inline_key) matches Ok(c) ==> {
            &&& c.purpose.contains_key(key) <==> exists|i: int|
                0 <= i < sw.purpose@.len() && (#[trigger] sw.purpose@[i]).0@ == key
            &&& forall|i: int|
                #![trigger sw.purpose@[i]]
                0 <= i < sw.purpose@.len() && sw.purpose@[i].0@ == key && (forall|j: int|
                    i < j < sw.purpose@.len() ==> (#[trigger] sw.purpose@[j]).0@ != key)
                    ==> c.purpose[key] == sw.purpose@[i].1
        },
{
    let raws = sw.purpose@;
    if exists|i: int| 0 <= i < raws.len() && (#[trigger] raws[i]).0@ == key {
        let n = choose|i: int| 0 <= i < raws.len() && (#[trigger] raws[i]).0@ == key;
        let i = lemma_named_last(raws, key, n);
        lemma_last_purpose(Map::empty(), raws, key, i);
        assert forall|k: int|
            #![trigger sw.purpose@[k]]
            0 <= k < raws.len() && raws[k].0@ == key && (forall|j: int|
                k < j < raws.len() ==> (#[trigger] raws[j]).0@ != key) implies k == i by {
            if k < i {
                assert(raws[i].0@ != key);
            } else if i < k {
                assert(raws[k].0@ != key);
            }
        }
    } else {
        lemma_unnamed_purpose(Map::empty(), raws, key);
    }
}

/// Each refusal of a file has its words.
pub proof fn law_config_errors_have_words(a: Seq<char>, b: Seq<char>)
    ensures
        config_message(ConfigErrorView::Parse(a)) == "config-zmod parse error: "@ + a,
        config_message(ConfigErrorView::InlineAuthKeyForbidden(a)) == "provider '"@ + a
            + "': inline `auth_key` is forbidden in ~/.codex/config-zmod.toml (only allowed in gitignored tests/testkey.toml)"@,
        config_message(ConfigErrorView::UnknownConnector(a, b)) == "provider '"@ + a
            + "': unknown connector '"@ + b + "'"@,
        config_message(ConfigErrorView::UnknownAuth(a, b)) == "provider '"@ + a
            + "': unknown auth '"@ + b + "'"@,
{
}

/// To load a file is to come to the configuration that it amounts to, in every part, or to its
/// error, in every part.
pub proof fn law_loading_hides_nothing(
    r: Result<Config, ConfigError>,
    want: Result<ConfigView, ConfigErrorView>,
)
    ensures
        configures(r, want) <==> match r {
            Ok(c) => want == Ok::<ConfigView, ConfigErrorView>(
                ConfigView {
                    enabled: c.enabled,
                    providers: c.providers@,
                    purpose: c.purpose@,
                },
            ),
            Err(ConfigError::Parse(why)) => want == Err::<ConfigView, ConfigErrorView>(
                ConfigErrorView::Parse(why@),
            ),
            Err(ConfigError::InlineAuthKeyForbidden(id)) => want == Err::<
                ConfigView,
                ConfigErrorView,
            >(ConfigErrorView::InlineAuthKeyForbidden(id@)),
            Err(ConfigError::UnknownConnector(id, name)) => want == Err::<
                ConfigView,
                ConfigErrorView,
            >(ConfigErrorView::UnknownConnector(id@, name@)),
            Err(ConfigError::UnknownAuth(id, name)) => want == Err::<ConfigView, ConfigErrorView>(
                ConfigErrorView::UnknownAuth(id@, name@),
            ),
        },
{
}

// ---- routes ----

/// A request with a purpose goes to the provider that is mapped under the key of the purpose, if
/// the switch is on, that provider is taken over and the request can be translated. Otherwise, and
/// without a purpose, it goes to its own provider, if the switch is on and that is taken over.
/// Otherwise it goes nowhere.
pub proof fn law_requests_go_where_they_should(
    cfg: ConfigView,
    purpose: Option<Purpose>,
    untranslatable: bool,
    id: Seq<char>,
)
    ensures
        ({
            let key = match purpose {
                Some(Purpose::Compact) => "compact"@,
                Some(Purpose::Review) => "review"@,
                _ => "memory"@,
            };
            let target = cfg.purpose[key]@;
            let by_purpose = purpose is Some && !untranslatable && cfg.purpose.contains_key(key)
                && cfg.providers.contains_key(target);
            request_route(cfg, purpose, untranslatable, id) == if !cfg.enabled {
                None
            } else if by_purpose {
                Some(RouteView { provider_id: target, cfg: cfg.providers[target] })
            } else if cfg.providers.contains_key(id) {
                Some(RouteView { provider_id: id, cfg: cfg.providers[id] })
            } else {
                None
            }
        }),
        provider_route(cfg, id) == if cfg.enabled && cfg.providers.contains_key(id) {
            Some(RouteView { provider_id: id, cfg: cfg.providers[id] })
        } else {
            None
        },
{
}

/// A route says which provider it leads to and how that is reached.
pub proof fn law_routes_say_all(r: Route)
    ensures
        route_view(Some(r)) == Some(RouteView { provider_id: r.provider_id@, cfg: r.cfg }),
        route_view(None) is None,
{
}

/// Reviews, compactions and the upkeep of memories have a purpose, whoever starts them. Nothing
/// else has one.
pub proof fn law_internal_work_has_a_purpose(source: SessionSource)
    ensures
        purpose_of(source) == Some(Purpose::Review) <==> source == SessionSource::SubAgent(
            SubAgentSource::Review,
        ),
        purpose_of(source) == Some(Purpose::Compact) <==> source == SessionSource::SubAgent(
            SubAgentSource::Compact,
        ),
        purpose_of(source) == Some(Purpose::Memory) <==> source == SessionSource::SubAgent(
            SubAgentSource::MemoryConsolidation,
        ) || source == SessionSource::Internal(InternalSessionSource::MemoryConsolidation),
        purpose_key(Purpose::Compact) == "compact"@,
        purpose_key(Purpose::Review) == "review"@,
        purpose_key(Purpose::Memory) == "memory"@,
{
}

/// A request cannot be translated if and only if one of its tools is not a function or one of its
/// items calls a function of a namespace.
pub proof fn law_what_cannot_be_translated(req: ResponsesApiRequest)
    ensures
        has_namespace_tools(req) <==> {
            ||| exists|i: int|
                0 <= i < req.tools@.len() && held(#[trigger] req.tools@[i]).text_at("type"@)
                    != Some("function"@)
            ||| exists|i: int|
                0 <= i < req.input@.len() && (#[trigger] req.input@[i]) is FunctionCall
                    && req.input@[i]->FunctionCall_namespace is Some
        },
{
    assert forall|i: int| 0 <= i < req.input@.len() implies (
    crate::namespace::is_namespaced_call(#[trigger] req.input@[i]) <==> req.input@[i] is FunctionCall
        && req.input@[i]->FunctionCall_namespace is Some) by {}
    assert forall|i: int| 0 <= i < req.tools@.len() implies (
    crate::namespace::is_function_tool(held(#[trigger] req.tools@[i])) <==> held(
        req.tools@[i],
    ).text_at("type"@) == Some("function"@)) by {}
    if exists|i: int|
        0 <= i < req.tools@.len() && held(#[trigger] req.tools@[i]).text_at("type"@) != Some(
            "function"@,
        ) {
        let i = choose|i: int|
            0 <= i < req.tools@.len() && held(#[trigger] req.tools@[i]).text_at("type"@) != Some(
                "function"@,
            );
        assert(!crate::namespace::is_function_tool(held(req.tools@[i])));
    }
    if exists|i: int|
        0 <= i < req.input@.len() && (#[trigger] req.input@[i]) is FunctionCall
            && req.input@[i]->FunctionCall_namespace is Some {
        let i = choose|i: int|
            0 <= i < req.input@.len() && (#[trigger] req.input@[i]) is FunctionCall
                && req.input@[i]->FunctionCall_namespace is Some;
        assert(crate::namespace::is_namespaced_call(req.input@[i]));
    }
}

// ---- settings of a request ----

/// The settings of a request are those of its provider; only the model of the request counts where
/// the provider names none, and a provider without an address is refused.
pub proof fn law_settings_come_from_the_provider(
    r: Result<EgressCtx, ApiError>,
    rt: RouteView,
    request_model: Seq<char>,
    env_value: Option<Seq<char>>,
)
    ensures
        begins(r, rt, request_model, env_value) <==> match (r, rt.cfg.base_url) {
            (Ok(ctx), Some(base_url)) => {
                &&& ctx.base_url@ == base_url@
                &&& match rt.cfg.model {
                    Some(model) => ctx.model@ == model@,
                    None => ctx.model@ == request_model,
                }
                &&& ctx.auth == rt.cfg.auth
                &&& match (ctx.key, key_of(rt.cfg, env_value)) {
                    (Some(a), Some(b)) => a@ == b,
                    (None, None) => true,
                    _ => false,
                }
                &&& match (ctx.anthropic_version, rt.cfg.anthropic_version) {
                    (Some(a), Some(b)) => a@ == b@,
                    (None, None) => true,
                    _ => false,
                }
                &&& match (ctx.path_override, rt.cfg.path) {
                    (Some(a), Some(b)) => a@ == b@,
                    (None, None) => true,
                    _ => false,
                }
                &&& ctx.default_max_tokens == rt.cfg.default_max_tokens
                &&& ctx.prompt_cache == rt.cfg.prompt_cache
            },
            (Err(ApiError::InvalidRequest { message }), None) => message@ == "provider "@
                + rt.provider_id + " missing base_url"@,
            _ => false,
        },
{
}

/// The key of a provider is the value of the environment variable that it names, unless it names
/// none or that is missing or empty; then it is the key that is configured, if one is.
pub proof fn law_keys_come_from_the_environment_first(
    cfg: ProviderCfg,
    env_value: Option<Seq<char>>,
)
    ensures
        key_of(cfg, env_value) == if cfg.key_env is Some && env_value is Some
            && env_value->Some_0.len() > 0 {
            env_value
        } else {
            match cfg.auth_key {
                Some(k) => Some(k@),
                None => None,
            }
        },
{
}

/// The address is the base without slashes at its end, and behind it the path that is configured,
/// or else that of the protocol.
pub proof fn law_addresses(base: Seq<char>, connector: Connector, path: Option<Seq<char>>)
    ensures
        url_of(base.push('/'), connector, path) == url_of(base, connector, path),
        base.len() == 0 || base.last() != '/' ==> url_of(base, connector, path) == base + (
        match path {
            Some(p) => p,
            None => match connector {
                Connector::Chat => "/chat/completions"@,
                Connector::Anthropic => "/v1/messages"@,
            },
        }),
{
    assert(base.push('/').drop_last() =~= base);
}

/// Each reason why there are no headers has its words.
pub proof fn law_http_errors_have_words(why: Seq<char>)
    ensures
        http_message(HttpErrorView::MissingKey) == "missing API key (set key_env or auth_key)"@,
        http_message(HttpErrorView::BadHeader(why)) == "invalid header value: "@ + why,
{
}

} // verus!
