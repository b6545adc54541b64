//! What holds of routing.

use crate::config::ConfigView;
use crate::purpose::{purpose_key, Purpose};
use crate::route::{provider_route, purpose_route, request_route};
use vstd::prelude::*;

verus! {

/// A switch that is off takes no request over.
pub proof fn law_disabled_never_routes(
    cfg: ConfigView,
    purpose: Option<Purpose>,
    untranslatable: bool,
    id: Seq<char>,
)
    requires
        !cfg.enabled,
    ensures
        request_route(cfg, purpose, untranslatable, id) is None,
{
}

/// A request goes to the provider of its purpose if that is mapped to one that is taken over and
/// nothing stands against translation. In every other case it goes where the identifier of its
/// own provider says, and only if that is not taken over either does it go its native way.
pub proof fn law_two_level_fallback(
    cfg: ConfigView,
    purpose: Option<Purpose>,
    untranslatable: bool,
    id: Seq<char>,
)
    ensures
        ({
            let chosen = request_route(cfg, purpose, untranslatable, id);
            let mapped = purpose matches Some(p) && cfg.purpose.contains_key(purpose_key(p))
                && cfg.providers.contains_key(cfg.purpose[purpose_key(p)]@);
            if cfg.enabled && mapped && !untranslatable {
                purpose matches Some(p) && chosen matches Some(r) && r.provider_id
                    == cfg.purpose[purpose_key(p)]@ && r.cfg == cfg.providers[r.provider_id]
            } else {
                chosen == provider_route(cfg, id)
            }
        }),
        request_route(cfg, purpose, untranslatable, id) is None <==> purpose_route(
            cfg,
            purpose,
            untranslatable,
        ) is None && provider_route(cfg, id) is None,
{
}

/// Whatever route a request takes, it leads to a provider of the configuration, with its settings
/// as they stand there.
pub proof fn law_routes_are_configured(
    cfg: ConfigView,
    purpose: Option<Purpose>,
    untranslatable: bool,
    id: Seq<char>,
)
    ensures
        request_route(cfg, purpose, untranslatable, id) matches Some(r) ==> cfg.enabled
            && cfg.providers.contains_key(r.provider_id) && r.cfg == cfg.providers[r.provider_id],
{
}

/// A request without a purpose, which is every request of the user's own session, is routed by
/// the identifier of its provider alone.
pub proof fn law_main_session_is_unaffected(
    cfg: ConfigView,
    untranslatable: bool,
    id: Seq<char>,
)
    ensures
        request_route(cfg, None, untranslatable, id) == provider_route(cfg, id),
{
}

} // verus!
