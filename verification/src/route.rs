//! Which provider serves a request.

use crate::config::{Config, ConfigView, ProviderCfg};
use crate::namespace::{has_namespace_tools, request_has_namespace_tools};
use crate::protocol::ResponsesApiRequest;
use crate::purpose::{purpose_key, Purpose};
use vstd::prelude::*;
use vstd::string::*;

verus! {

/// A provider that takes a request over.
#[derive(Debug)]
pub struct Route {
    pub provider_id: String,
    pub cfg: ProviderCfg,
}

impl Clone for Route {
    fn clone(&self) -> (r: Route)
        ensures
            r == *self,
    {
        Route { provider_id: self.provider_id.clone(), cfg: self.cfg.clone() }
    }
}

/// What a route is, with texts as sequences.
pub struct RouteView {
    pub provider_id: Seq<char>,
    pub cfg: ProviderCfg,
}

impl View for Route {
    type V = RouteView;

    open spec fn view(&self) -> RouteView {
        RouteView { provider_id: self.provider_id@, cfg: self.cfg }
    }
}

/// What an optional route is.
pub open spec fn route_view(r: Option<Route>) -> Option<RouteView> {
    match r {
        Some(route) => Some(route@),
        None => None,
    }
}

/// The route by the identifier of a provider. There is none if the switch is off or does not take
/// that provider over.
pub open spec fn provider_route(cfg: ConfigView, id: Seq<char>) -> Option<RouteView> {
    if cfg.enabled && cfg.providers.contains_key(id) {
        Some(RouteView { provider_id: id, cfg: cfg.providers[id] })
    } else {
        None
    }
}

/// The route by the purpose of a request. There is none if the request has no purpose, if its
/// purpose is not mapped to a provider that is taken over, or if it holds tools that cannot be
/// translated.
pub open spec fn purpose_route(
    cfg: ConfigView,
    purpose: Option<Purpose>,
    untranslatable: bool,
) -> Option<RouteView> {
    match purpose {
        Some(p) => if !untranslatable && cfg.purpose.contains_key(purpose_key(p)) {
            provider_route(cfg, cfg.purpose[purpose_key(p)]@)
        } else {
            None
        },
        None => None,
    }
}

/// The route of a request: by its purpose, else by the identifier of its provider.
pub open spec fn request_route(
    cfg: ConfigView,
    purpose: Option<Purpose>,
    untranslatable: bool,
    id: Seq<char>,
) -> Option<RouteView> {
    match purpose_route(cfg, purpose, untranslatable) {
        Some(r) => Some(r),
        None => provider_route(cfg, id),
    }
}

/// Whether the switch is on.
pub fn enabled(cfg: &Config) -> (r: bool)
    ensures
        r == cfg@.enabled,
{
    cfg.enabled
}

/// The route by the identifier of a provider. Without one, the request goes its native way.
pub fn route_in(cfg: &Config, model_provider_id: &str) -> (r: Option<Route>)
    ensures
        route_view(r) == provider_route(cfg@, model_provider_id@),
{
    if !cfg.enabled {
        return None;
    }
    match cfg.providers.get(model_provider_id) {
        Some(p) => Some(Route { provider_id: model_provider_id.to_owned(), cfg: p.clone() }),
        None => None,
    }
}

/// The route by the purpose of a request.
fn route_by_purpose(cfg: &Config, purpose: Option<Purpose>, req: &ResponsesApiRequest) -> (r: Option<
    Route,
>)
    ensures
        route_view(r) == purpose_route(cfg@, purpose, has_namespace_tools(*req)),
{
    let Some(p) = purpose else {
        return None;
    };
    match cfg.purpose.get(p.as_key()) {
        Some(id) => if request_has_namespace_tools(req) {
            None
        } else {
            route_in(cfg, id.as_str())
        },
        None => None,
    }
}

/// The route of a request: by its purpose, else by the identifier of its provider. Without one,
/// the request goes its native way. A request with tools that cannot be translated keeps to its
/// provider, where it fails loudly.
pub fn route_request(
    cfg: &Config,
    purpose: Option<Purpose>,
    req: &ResponsesApiRequest,
    model_provider_id: &str,
) -> (r: Option<Route>)
    ensures
        route_view(r) == request_route(
            cfg@,
            purpose,
            has_namespace_tools(*req),
            model_provider_id@,
        ),
{
    match route_by_purpose(cfg, purpose, req) {
        Some(r) => Some(r),
        None => route_in(cfg, model_provider_id),
    }
}

} // verus!
