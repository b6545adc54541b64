//! From a route to the settings of a request.

use crate::connector::EgressCtx;
use crate::http::{key_of, resolve_key};
use crate::pipeline::{default_plugins, run_transforms};
use crate::protocol::{ApiError, ApiErrorView, ResponsesApiRequest};
use crate::route::{Route, RouteView};
use crate::text::{copy_text, join3, opt_text, text_or};
use vstd::prelude::*;
use vstd::string::*;

verus! {

/// Whether `ctx` holds the settings that a route comes to, given the model that the request names
/// and the value of the environment variable that the provider names. The model of the provider
/// goes before that of the request.
pub open spec fn is_ctx_of(
    ctx: EgressCtx,
    rt: RouteView,
    request_model: Seq<char>,
    env_value: Option<Seq<char>>,
) -> bool {
    &&& opt_text(rt.cfg.base_url) == Some(ctx.base_url@)
    &&& ctx.model@ == (match rt.cfg.model {
        Some(m) => m@,
        None => request_model,
    })
    &&& ctx.auth == rt.cfg.auth
    &&& opt_text(ctx.key) == key_of(rt.cfg, env_value)
    &&& opt_text(ctx.anthropic_version) == opt_text(rt.cfg.anthropic_version)
    &&& opt_text(ctx.path_override) == opt_text(rt.cfg.path)
    &&& ctx.default_max_tokens == rt.cfg.default_max_tokens
    &&& ctx.prompt_cache == rt.cfg.prompt_cache
}

/// Whether a function returned the settings that a route comes to, or refused a route whose
/// provider has no address.
pub open spec fn begins(
    r: Result<EgressCtx, ApiError>,
    rt: RouteView,
    request_model: Seq<char>,
    env_value: Option<Seq<char>>,
) -> bool {
    match r {
        Ok(ctx) => is_ctx_of(ctx, rt, request_model, env_value),
        Err(e) => rt.cfg.base_url is None && e@ == (ApiErrorView::InvalidRequest {
            message: "provider "@ + rt.provider_id + " missing base_url"@,
        }),
    }
}

/// Runs the plugins on the request and gathers the settings for it. `env_value` is the value of
/// the environment variable that `key_env` names, where it names one and that is set.
pub fn begin(rt: &Route, request: &mut ResponsesApiRequest, env_value: Option<&str>) -> (r: Result<
    EgressCtx,
    ApiError,
>)
    ensures
        *final(request) == *old(request),
        begins(
            r,
            rt@,
            old(request).model@,
            match env_value {
                Some(v) => Some(v@),
                None => None,
            },
        ),
{
    let plugins = default_plugins();
    if let Err(e) = run_transforms(plugins.as_slice(), request) {
        return Err(ApiError::from(e));
    }
    let base_url: String = match &rt.cfg.base_url {
        Some(u) => u.clone(),
        None => {
            return Err(
                ApiError::InvalidRequest {
                    message: join3("provider ", rt.provider_id.as_str(), " missing base_url"),
                },
            );
        },
    };
    let key: Option<String> = match resolve_key(&rt.cfg, env_value) {
        Ok(key) => key,
        Err(e) => {
            return Err(ApiError::InvalidRequest { message: e.message() });
        },
    };
    Ok(
        EgressCtx {
            base_url,
            model: text_or(&rt.cfg.model, request.model.as_str()),
            auth: rt.cfg.auth,
            key,
            anthropic_version: copy_text(&rt.cfg.anthropic_version),
            path_override: copy_text(&rt.cfg.path),
            default_max_tokens: rt.cfg.default_max_tokens,
            prompt_cache: rt.cfg.prompt_cache,
        },
    )
}

} // verus!
