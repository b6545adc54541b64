//! What holds of configurations.

use crate::config::{
    config_of, protocol_named, provider_of, providers_from, ConfigErrorView, ProviderCfg,
    RawProvider, RawSwitch,
};
use crate::route::provider_route;
use vstd::prelude::*;

verus! {

/// Whether no identifier occurs twice.
pub open spec fn distinct_ids(raws: Seq<(String, RawProvider)>) -> bool {
    forall|i: int, j: int|
        0 <= i < j < raws.len() ==> (#[trigger] raws[i]).0@ != (#[trigger] raws[j]).0@
}

/// Whether every provider is accepted.
pub open spec fn all_accepted(raws: Seq<(String, RawProvider)>, allow_inline_key: bool) -> bool {
    forall|i: int|
        0 <= i < raws.len() ==> provider_of(
            (#[trigger] raws[i]).0@,
            raws[i].1,
            allow_inline_key,
        ) is Ok
}

/// Whether some provider has this identifier and is reached in this way.
pub open spec fn defines(
    raws: Seq<(String, RawProvider)>,
    allow_inline_key: bool,
    id: Seq<char>,
    cfg: ProviderCfg,
) -> bool {
    exists|i: int|
        0 <= i < raws.len() && (#[trigger] raws[i]).0@ == id && provider_of(
            id,
            raws[i].1,
            allow_inline_key,
        ) == Ok::<Option<ProviderCfg>, ConfigErrorView>(Some(cfg))
}

/// Whether `m` has the providers of `done` and those that the file defines, and no others.
spec fn adds(
    m: Map<Seq<char>, ProviderCfg>,
    done: Map<Seq<char>, ProviderCfg>,
    raws: Seq<(String, RawProvider)>,
    allow: bool,
) -> bool {
    forall|id: Seq<char>, cfg: ProviderCfg| #[trigger]
        has(m, id, cfg) <==> has(done, id, cfg) || defines(raws, allow, id, cfg)
}

/// Whether a provider with this identifier is reached in this way.
pub open spec fn has(m: Map<Seq<char>, ProviderCfg>, id: Seq<char>, cfg: ProviderCfg) -> bool {
    m.contains_key(id) && m[id] == cfg
}

proof fn lemma_defines(raws: Seq<(String, RawProvider)>, allow: bool, id: Seq<char>, cfg: ProviderCfg)
    requires
        raws.len() > 0,
    ensures
        defines(raws, allow, id, cfg) <==> defines(raws.skip(1), allow, id, cfg) || (raws[0].0@ == id
            && provider_of(id, raws[0].1, allow) == Ok::<
            Option<ProviderCfg>,
            ConfigErrorView,
        >(Some(cfg))),
{
    let rest = raws.skip(1);
    let hit = Ok::<Option<ProviderCfg>, ConfigErrorView>(Some(cfg));
    if defines(rest, allow, id, cfg) {
        let i = choose|i: int|
            0 <= i < rest.len() && (#[trigger] rest[i]).0@ == id && provider_of(
                id,
                rest[i].1,
                allow,
            ) == hit;
        assert(raws[i + 1] == rest[i]);
    }
    if defines(raws, allow, id, cfg) {
        let i = choose|i: int|
            0 <= i < raws.len() && (#[trigger] raws[i]).0@ == id && provider_of(
                id,
                raws[i].1,
                allow,
            ) == hit;
        if i > 0 {
            assert(rest[i - 1] == raws[i]);
        }
    }
}

proof fn lemma_providers_from(
    done: Map<Seq<char>, ProviderCfg>,
    raws: Seq<(String, RawProvider)>,
    allow: bool,
)
    requires
        distinct_ids(raws),
        forall|i: int| 0 <= i < raws.len() ==> !done.contains_key((#[trigger] raws[i]).0@),
    ensures
        match providers_from(done, raws, allow) {
            Ok(m) => all_accepted(raws, allow) && adds(m, done, raws, allow),
            Err(_) => !all_accepted(raws, allow),
        },
    decreases raws.len(),
{
    if raws.len() > 0 {
        let id0 = raws[0].0@;
        let rest = raws.skip(1);
        let first = provider_of(id0, raws[0].1, allow);
        assert forall|i: int, j: int| 0 <= i < j < rest.len() implies (#[trigger] rest[i]).0@ != (
        #[trigger] rest[j]).0@ by {
            assert(raws[i + 1].0@ != raws[j + 1].0@);
        }
        if first is Ok {
            let next = match first {
                Ok(Some(cfg)) => done.insert(id0, cfg),
                _ => done,
            };
            assert forall|i: int| 0 <= i < rest.len() implies !next.contains_key(
                (#[trigger] rest[i]).0@,
            ) by {
                assert(rest[i] == raws[i + 1]);
                assert(raws[0].0@ != raws[i + 1].0@);
            }
            lemma_providers_from(next, rest, allow);
            assert(providers_from(done, raws, allow) == providers_from(next, rest, allow));
            if all_accepted(rest, allow) {
                assert forall|i: int| 0 <= i < raws.len() implies provider_of(
                    (#[trigger] raws[i]).0@,
                    raws[i].1,
                    allow,
                ) is Ok by {
                    if i > 0 {
                        assert(rest[i - 1] == raws[i]);
                    }
                }
            } else {
                let i = choose|i: int|
                    0 <= i < rest.len() && !(provider_of(
                        (#[trigger] rest[i]).0@,
                        rest[i].1,
                        allow,
                    ) is Ok);
                assert(rest[i] == raws[i + 1]);
            }
            if let Ok(m) = providers_from(next, rest, allow) {
                assert forall|id: Seq<char>, cfg: ProviderCfg| #[trigger]
                    has(m, id, cfg) <==> has(done, id, cfg) || defines(raws, allow, id, cfg) by {
                    lemma_defines(raws, allow, id, cfg);
                    assert(has(m, id, cfg) <==> has(next, id, cfg) || defines(
                        rest,
                        allow,
                        id,
                        cfg,
                    ));
                    assert(!done.contains_key(raws[0].0@));
                }
            }
        }
    }
}

/// Which providers a configuration has does not depend on the order in which a file lists them: it
/// is accepted if and only if each of them is, and then has exactly those that are taken over.
pub proof fn law_order_of_providers_is_immaterial(sw: RawSwitch, allow_inline_key: bool)
    requires
        distinct_ids(sw.providers@),
    ensures
        config_of(Ok(Some(sw)), allow_inline_key) is Ok <==> all_accepted(
            sw.providers@,
            allow_inline_key,
        ),
        config_of(Ok(Some(sw)), allow_inline_key) matches Ok(c) ==> forall|
            id: Seq<char>,
            cfg: ProviderCfg,
        | #[trigger]
            has(c.providers, id, cfg) <==> defines(sw.providers@, allow_inline_key, id, cfg),
{
    lemma_providers_from(Map::empty(), sw.providers@, allow_inline_key);
}

proof fn lemma_no_keys(done: Map<Seq<char>, ProviderCfg>, raws: Seq<(String, RawProvider)>)
    requires
        forall|id: Seq<char>| #[trigger] done.contains_key(id) ==> done[id].auth_key is None,
    ensures
        providers_from(done, raws, false) matches Ok(m) ==> forall|id: Seq<char>| #[trigger]
            m.contains_key(id) ==> m[id].auth_key is None,
    decreases raws.len(),
{
    if raws.len() > 0 {
        let (id, raw) = raws[0];
        match provider_of(id@, raw, false) {
            Ok(Some(cfg)) => lemma_no_keys(done.insert(id@, cfg), raws.skip(1)),
            Ok(None) => lemma_no_keys(done, raws.skip(1)),
            Err(_) => {},
        }
    }
}

/// Where a file may hold no keys, no provider of an accepted one has a key of its own, and a file
/// that holds one for any provider, taken over or not, is refused.
pub proof fn law_no_inline_keys(sw: RawSwitch)
    ensures
        config_of(Ok(Some(sw)), false) matches Ok(c) ==> forall|id: Seq<char>| #[trigger]
            c.providers.contains_key(id) ==> c.providers[id].auth_key is None,
        (exists|i: int|
            0 <= i < sw.providers@.len() && (#[trigger] sw.providers@[i]).1.auth_key is Some)
            ==> config_of(Ok(Some(sw)), false) is Err,
{
    lemma_no_keys(Map::empty(), sw.providers@);
    if exists|i: int|
        0 <= i < sw.providers@.len() && (#[trigger] sw.providers@[i]).1.auth_key is Some {
        let i = choose|i: int|
            0 <= i < sw.providers@.len() && (#[trigger] sw.providers@[i]).1.auth_key is Some;
        lemma_refused(Map::empty(), sw.providers@, i);
    }
}

proof fn lemma_refused(
    done: Map<Seq<char>, ProviderCfg>,
    raws: Seq<(String, RawProvider)>,
    i: int,
)
    requires
        0 <= i < raws.len(),
        raws[i].1.auth_key is Some,
    ensures
        providers_from(done, raws, false) is Err,
    decreases raws.len(),
{
    let (id, raw) = raws[0];
    if i > 0 {
        assert(raws.skip(1)[i - 1] == raws[i]);
        match provider_of(id@, raw, false) {
            Ok(Some(cfg)) => lemma_refused(done.insert(id@, cfg), raws.skip(1), i - 1),
            Ok(None) => lemma_refused(done, raws.skip(1), i - 1),
            Err(_) => {},
        }
    }
}

/// A provider that speaks the native protocol is never routed to.
pub proof fn law_native_is_not_routable(sw: RawSwitch, allow_inline_key: bool, i: int)
    requires
        distinct_ids(sw.providers@),
        0 <= i < sw.providers@.len(),
        protocol_named(sw.providers@[i].1.connector@) is Native,
    ensures
        config_of(Ok(Some(sw)), allow_inline_key) matches Ok(c) ==> provider_route(
            c,
            sw.providers@[i].0@,
        ) is None,
{
    law_order_of_providers_is_immaterial(sw, allow_inline_key);
    if let Ok(c) = config_of(Ok(Some(sw)), allow_inline_key) {
        let id = sw.providers@[i].0@;
        if c.providers.contains_key(id) {
            let cfg = c.providers[id];
            assert(has(c.providers, id, cfg));
            let j = choose|j: int|
                0 <= j < sw.providers@.len() && (#[trigger] sw.providers@[j]).0@ == id
                    && provider_of(id, sw.providers@[j].1, allow_inline_key) == Ok::<
                    Option<ProviderCfg>,
                    ConfigErrorView,
                >(Some(cfg));
            assert(i == j);
        }
    }
}

/// Without a file section, and so without a file, nothing is routed.
pub proof fn law_missing_section_is_off(allow_inline_key: bool, id: Seq<char>)
    ensures
        config_of(Ok(None), allow_inline_key) matches Ok(c) && !c.enabled && provider_route(
            c,
            id,
        ) is None,
{
}

} // verus!
