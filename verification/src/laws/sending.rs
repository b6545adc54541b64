//! What is sent, and what contracts hide of it: nothing.

use crate::config::{AuthKind, Connector};
use crate::connector::anthropic_req::anthropic_body;
use crate::connector::chat_req::chat_body;
use crate::connector::{
    addressed, body_of, builds, chooses, lacks_bearer, lent_values,
    may_overflow, next_count, outgoing, push_yields, pushed_all, sends, spells, synth_name,
    translated, variant, ConnError, EgressCtx, Outgoing, OutgoingView, SseTranslator,
};
use crate::http::{
    header_text, header_values, headers_for, heads, HttpError, HttpErrorView,
};
use crate::json::{held, held_opt, JsonView};
use crate::pipeline::{may_run, TransformPlugin};
use crate::protocol::{
    api_words, events_view, ApiError, ApiErrorView, ContentItem, ContentView, EventView, ItemView,
    ResponseEvent, ResponseItem, ResponsesApiRequest,
};
use crate::sse::{did, item_view, Arrival, ArrivalView, End, Outcome, Step};
use crate::text::{opt_text, shown, quoted};
use reqwest::header::{HeaderMap, HeaderValue};
use serde_json::Value;
use vstd::prelude::*;
use vstd::utf8::encode_utf8;

verus! {

// ---- headers ----

/// A header with one value.
pub open spec fn single(text: Seq<char>) -> Seq<Seq<u8>> {
    seq![encode_utf8(text)]
}

/// The headers that carry a key are exactly these: the key behind the word for bearers, or the key
/// by itself and the version, by default the first one; and with either, that the body is JSON. A
/// missing key, and a text that no header can hold, are refused.
pub proof fn law_headers_carry_the_key(
    auth: AuthKind,
    key: Option<Seq<char>>,
    anthropic_version: Option<Seq<char>>,
)
    ensures
        ({
            let version = match anthropic_version {
                Some(v) => v,
                None => "2023-06-01"@,
            };
            let unfit = Err::<Map<Seq<char>, Seq<Seq<u8>>>, HttpErrorView>(
                HttpErrorView::BadHeader("failed to parse header value"@),
            );
            headers_for(auth, key, anthropic_version) == match key {
                None => Err(HttpErrorView::MissingKey),
                Some(k) => match auth {
                    AuthKind::Bearer => if header_text("Bearer "@ + k) {
                        Ok(
                            map![
                                "authorization"@ => single("Bearer "@ + k),
                                "content-type"@ => single("application/json"@),
                            ],
                        )
                    } else {
                        unfit
                    },
                    AuthKind::XApiKey => if header_text(k) && header_text(version) {
                        Ok(
                            map![
                                "x-api-key"@ => single(k),
                                "anthropic-version"@ => single(version),
                                "content-type"@ => single("application/json"@),
                            ],
                        )
                    } else {
                        unfit
                    },
                },
            }
        }),
{
}

/// A text fits into a header if and only if each of its characters does: all but the control
/// characters below the space, tabs excepted, and the one for deletion.
pub proof fn law_what_headers_hold(c: char, a: Seq<char>, b: Seq<char>)
    ensures
        header_text(a + b) <==> header_text(a) && header_text(b),
        header_text(seq![c]) <==> c as u32 == 9 || (c as u32 >= 32 && c as u32 != 127),
        header_text(Seq::empty()),
{
    let ab = a + b;
    if header_text(ab) {
        assert forall|i: int| 0 <= i < a.len() implies #[trigger] a[i] == '\t' || (a[i] >= ' '
            && a[i] != '\u{7f}') by {
            assert(ab[i] == a[i]);
        }
        assert forall|i: int| 0 <= i < b.len() implies #[trigger] b[i] == '\t' || (b[i] >= ' '
            && b[i] != '\u{7f}') by {
            assert(ab[a.len() + i] == b[i]);
        }
    }
    if header_text(a) && header_text(b) {
        assert forall|i: int| 0 <= i < ab.len() implies #[trigger] ab[i] == '\t' || (ab[i] >= ' '
            && ab[i] != '\u{7f}') by {
            if i < a.len() {
                assert(ab[i] == a[i]);
            } else {
                assert(ab[i] == b[i - a.len()]);
            }
        }
    }
    assert(seq![c][0] == c);
}

/// A request is sent with the key of its provider; without one, where it would be a bearer's, with
/// what the client lends and that the body is JSON; and otherwise not at all. Only a Messages
/// request asks for the version that is configured.
pub proof fn law_requests_are_addressed(
    kind: Connector,
    ctx: EgressCtx,
    body: JsonView,
    lent: Option<Map<Seq<char>, Seq<Seq<u8>>>>,
)
    ensures
        ({
            let version = match kind {
                Connector::Chat => None,
                Connector::Anthropic => match ctx.anthropic_version {
                    Some(v) => Some(v@),
                    None => None,
                },
            };
            let headers = match (ctx.key, ctx.auth, lent) {
                (Some(key), _, _) => match headers_for(ctx.auth, Some(key@), version) {
                    Ok(h) => Ok::<Map<Seq<char>, Seq<Seq<u8>>>, Seq<char>>(h),
                    Err(HttpErrorView::MissingKey) => Err(
                        "missing API key (set key_env or auth_key)"@,
                    ),
                    Err(HttpErrorView::BadHeader(why)) => Err("invalid header value: "@ + why),
                },
                (None, AuthKind::Bearer, Some(h)) => Ok(
                    h.insert("content-type"@, single("application/json"@)),
                ),
                _ => Err("missing API key (set key_env or auth_key)"@),
            };
            let path = match ctx.path_override {
                Some(p) => Some(p@),
                None => None,
            };
            addressed(kind, ctx, body, lent) == match headers {
                Ok(headers) => Ok::<OutgoingView, Seq<char>>(
                    OutgoingView {
                        url: crate::http::url_of(ctx.base_url@, kind, path),
                        headers,
                        body,
                    },
                ),
                Err(reason) => Err(reason),
            }
        }),
        lacks_bearer(ctx) <==> ctx.key is None && ctx.auth == AuthKind::Bearer,
{
}

/// A request is what its body, then its address and headers, come to; the first refusal counts.
/// The body is that of its protocol, for the model and the settings that were chosen.
pub proof fn law_requests_are_bodies_with_addresses(
    kind: Connector,
    req: ResponsesApiRequest,
    ctx: EgressCtx,
    lent: Option<Map<Seq<char>, Seq<Seq<u8>>>>,
)
    ensures
        ({
            let body = match kind {
                Connector::Chat => chat_body(req, ctx.model@),
                Connector::Anthropic => anthropic_body(
                    req,
                    ctx.model@,
                    ctx.default_max_tokens,
                    ctx.prompt_cache,
                ),
            };
            &&& body_of(kind, req, ctx) == body
            &&& outgoing(kind, req, ctx, lent) == match body {
                Ok(b) => addressed(kind, ctx, b, lent),
                Err(reason) => Err(reason),
            }
        }),
{
}

// ---- plugins ----

/// Plugins run one after the other: one by itself does what it may, and of two runs the second
/// starts from what the first left, and only if that did not fail.
pub proof fn law_plugins_run_in_order(
    p: Box<dyn TransformPlugin>,
    rest: Seq<Box<dyn TransformPlugin>>,
    before: ResponsesApiRequest,
    after: ResponsesApiRequest,
    r: Result<(), ConnError>,
)
    ensures
        may_run(seq![p] + rest, before, after, r) <==> exists|
            mid: ResponsesApiRequest,
            first: Result<(), ConnError>,
        | #[trigger]
            p.may_turn(before, mid, first) && if first is Ok {
                may_run(rest, mid, after, r)
            } else {
                after == mid && r == first
            },
        may_run(Seq::empty(), before, after, r) <==> after == before && r is Ok,
{
    let all = seq![p] + rest;
    assert(all.skip(1) =~= rest);
    assert(all[0] == p);
}

// ---- what contracts say ----

/// A builder that is said to build something returned exactly that, or failed hard with exactly
/// that reason.
pub proof fn law_builders_hide_nothing(
    r: Result<Value, ConnError>,
    c: Result<Option<Value>, ConnError>,
    s: Result<String, ConnError>,
    want: Result<JsonView, Seq<char>>,
    choice: Result<Option<JsonView>, Seq<char>>,
    text: Result<Seq<char>, Seq<char>>,
)
    ensures
        builds(r, want) <==> match r {
            Ok(v) => want == Ok::<JsonView, Seq<char>>(held(v)),
            Err(ConnError::HardFail(reason)) => want == Err::<JsonView, Seq<char>>(reason@),
            Err(ConnError::Http(_)) => false,
        },
        chooses(c, choice) <==> match c {
            Ok(Some(v)) => choice == Ok::<Option<JsonView>, Seq<char>>(Some(held(v))),
            Ok(None) => choice == Ok::<Option<JsonView>, Seq<char>>(None),
            Err(ConnError::HardFail(reason)) => choice == Err::<Option<JsonView>, Seq<char>>(
                reason@,
            ),
            Err(ConnError::Http(_)) => false,
        },
        spells(s, text) <==> match s {
            Ok(t) => text == Ok::<Seq<char>, Seq<char>>(t@),
            Err(ConnError::HardFail(reason)) => text == Err::<Seq<char>, Seq<char>>(reason@),
            Err(ConnError::Http(_)) => false,
        },
{
}

/// Headers that are said to be built are exactly those, or the error is exactly that one.
pub proof fn law_headers_hide_nothing(
    r: Result<HeaderMap<HeaderValue>, HttpError>,
    want: Result<Map<Seq<char>, Seq<Seq<u8>>>, HttpErrorView>,
)
    ensures
        heads(r, want) <==> match r {
            Ok(h) => want == Ok::<Map<Seq<char>, Seq<Seq<u8>>>, HttpErrorView>(header_values(h)),
            Err(HttpError::MissingKey) => want == Err::<
                Map<Seq<char>, Seq<Seq<u8>>>,
                HttpErrorView,
            >(HttpErrorView::MissingKey),
            Err(HttpError::BadHeader(why)) => want == Err::<
                Map<Seq<char>, Seq<Seq<u8>>>,
                HttpErrorView,
            >(HttpErrorView::BadHeader(why@)),
        },
{
}

/// A request that is said to be sent is exactly that, with its address, its headers and its body,
/// or it is refused as invalid with exactly that reason.
pub proof fn law_requests_hide_nothing(
    r: Result<Outgoing, ApiError>,
    want: Result<OutgoingView, Seq<char>>,
)
    ensures
        sends(r, want) <==> match r {
            Ok(o) => want == Ok::<OutgoingView, Seq<char>>(
                OutgoingView {
                    url: o.url@,
                    headers: header_values(o.headers),
                    body: held(o.body),
                },
            ),
            Err(ApiError::InvalidRequest { message }) => want == Err::<OutgoingView, Seq<char>>(
                message@,
            ),
            Err(_) => false,
        },
{
}

/// There is no answer only where what the client lends is needed and is more than is surely held.
pub proof fn law_answers_are_owed(ctx: EgressCtx, lent: Option<HeaderMap<HeaderValue>>)
    ensures
        may_overflow(ctx, lent) ==> {
            &&& ctx.key is None
            &&& ctx.auth == AuthKind::Bearer
            &&& lent matches Some(h) && !(header_values(h).dom().finite() && header_values(
                h,
            ).dom().len() <= 6553)
        },
        lent_values(lent) == match lent {
            Some(h) => Some(header_values(h)),
            None => None,
        },
{
}

/// A translator that is said to yield something returned exactly those events, or failed hard with
/// exactly that reason.
pub proof fn law_translators_hide_nothing(
    r: Result<Vec<ResponseEvent>, ConnError>,
    want: Result<Seq<EventView>, Seq<char>>,
)
    ensures
        push_yields(r, want) <==> match r {
            Ok(events) => want matches Ok(seen) && seen.len() == events@.len() && forall|i: int|
                0 <= i < seen.len() ==> #[trigger] seen[i] == events@[i]@,
            Err(ConnError::HardFail(reason)) => want == Err::<Seq<EventView>, Seq<char>>(reason@),
            Err(ConnError::Http(_)) => false,
        },
{
    if let (Ok(events), Ok(seen)) = (r, want) {
        if seen.len() == events@.len() && (forall|i: int|
            0 <= i < seen.len() ==> #[trigger] seen[i] == events@[i]@) {
            assert(events_view(events@) =~= seen);
        }
    }
}

/// A reader that is said to do something came to exactly that state, those events and that outcome.
pub proof fn law_readers_hide_nothing<M>(
    m: M,
    events: Seq<ResponseEvent>,
    outcome: Outcome,
    s: Step<M>,
    got: Arrival,
    item: Result<ResponseEvent, ApiError>,
)
    ensures
        did(m, events, outcome, s) ==> {
            &&& m == s.m
            &&& events.len() == s.events.len()
            &&& forall|i: int| 0 <= i < events.len() ==> s.events[i] == #[trigger] events[i]@
            &&& match outcome {
                Outcome::More => s.end is More,
                Outcome::Done => s.end is Done,
                Outcome::Failed(e) => s.end == End::Failed(e@),
            }
        },
        got@ == match got {
            Arrival::Bytes(chunk) => ArrivalView::Bytes(chunk@),
            Arrival::Broken(why) => ArrivalView::Broken(why@),
            Arrival::End => ArrivalView::End,
        },
        item_view(item) == match item {
            Ok(e) => Ok::<EventView, ApiErrorView>(e@),
            Err(e) => Err(e@),
        },
{
}

/// What an event or an error says is all that it holds: the text of a piece, every part of a
/// completed call or message, and every part of a completed response or an error.
pub proof fn law_events_say_all(e: ResponseEvent, item: ResponseItem, c: ContentItem, a: ApiError)
    ensures
        e@ == match e {
            ResponseEvent::OutputTextDelta(s) => EventView::OutputTextDelta(s@),
            ResponseEvent::OutputItemDone(item) => EventView::OutputItemDone(item@),
            ResponseEvent::Completed { response_id, token_usage, end_turn } =>
                EventView::Completed { response_id: response_id@, token_usage, end_turn },
        },
        match item {
            ResponseItem::FunctionCall { id, name, namespace, arguments, call_id, metadata } => item@
                == (ItemView::FunctionCall {
                id: opt_text(id),
                name: name@,
                namespace: opt_text(namespace),
                arguments: arguments@,
                call_id: call_id@,
                metadata: held_opt(metadata),
            }),
            ResponseItem::Message { id, role, content, phase, metadata } => {
                &&& item@ matches ItemView::Message {
                    id: vid,
                    role: vrole,
                    content: vcontent,
                    phase: vphase,
                    metadata: vmetadata,
                } && {
                    &&& vid == opt_text(id)
                    &&& vrole == role@
                    &&& vphase == opt_text(phase)
                    &&& vmetadata == held_opt(metadata)
                    &&& vcontent.len() == content@.len()
                    &&& forall|i: int|
                        0 <= i < vcontent.len() ==> #[trigger] vcontent[i] == content@[i]@
                }
            },
            _ => !(item@ is FunctionCall) && !(item@ is Message),
        },
        c@ == match c {
            ContentItem::InputText { text } => ContentView::InputText(text@),
            ContentItem::InputImage { image_url, detail } => ContentView::InputImage(
                image_url@,
                opt_text(detail),
            ),
            ContentItem::OutputText { text } => ContentView::OutputText(text@),
        },
        a@ == match a {
            ApiError::Api { status, message } => ApiErrorView::Api { status, message: message@ },
            ApiError::Stream(message) => ApiErrorView::Stream(message@),
            ApiError::InvalidRequest { message } => ApiErrorView::InvalidRequest {
                message: message@,
            },
        },
        api_words(a@) == match a {
            ApiError::Api { message, .. } => message@,
            ApiError::Stream(message) => message@,
            ApiError::InvalidRequest { message } => message@,
        },
{
}

/// A hard failure is told to the client as an invalid request with the same reason; an error of the
/// exchange is told as it is.
pub proof fn law_failures_are_told(e: ConnError)
    ensures
        <ApiError as vstd::std_specs::convert::FromSpec<ConnError>>::from_spec(e) == match e {
            ConnError::HardFail(message) => ApiError::InvalidRequest { message },
            ConnError::Http(api) => api,
        },
{
}

/// Each item has a name of its own.
pub proof fn law_items_have_names(item: ResponseItem)
    ensures
        variant(item) == match item {
            ResponseItem::Message { .. } => "Message"@,
            ResponseItem::AgentMessage { .. } => "AgentMessage"@,
            ResponseItem::Reasoning { .. } => "Reasoning"@,
            ResponseItem::LocalShellCall { .. } => "LocalShellCall"@,
            ResponseItem::FunctionCall { .. } => "FunctionCall"@,
            ResponseItem::ToolSearchCall { .. } => "ToolSearchCall"@,
            ResponseItem::FunctionCallOutput { .. } => "FunctionCallOutput"@,
            ResponseItem::CustomToolCall { .. } => "CustomToolCall"@,
            ResponseItem::CustomToolCallOutput { .. } => "CustomToolCallOutput"@,
            ResponseItem::ToolSearchOutput { .. } => "ToolSearchOutput"@,
            ResponseItem::WebSearchCall { .. } => "WebSearchCall"@,
            ResponseItem::ImageGenerationCall { .. } => "ImageGenerationCall"@,
            ResponseItem::Compaction { .. } => "Compaction"@,
            ResponseItem::CompactionTrigger { .. } => "CompactionTrigger"@,
            ResponseItem::ContextCompaction { .. } => "ContextCompaction"@,
            ResponseItem::Other => "Other"@,
        },
{
}

/// An optional text is shown as Rust shows it.
pub proof fn law_optional_texts_are_shown(s: Seq<char>)
    ensures
        shown(Some(s)) == "Some("@ + quoted(s) + ")"@,
        shown(None) == "None"@,
{
}

/// A translator takes records one after the other: what two runs of records come to is what the
/// first comes to and then, if that did not fail, the second from there.
pub proof fn law_records_are_taken_in_order<T: SseTranslator>(
    m: T::Model,
    a: Seq<JsonView>,
    b: Seq<JsonView>,
)
    ensures
        ({
            let (mid, first) = pushed_all::<T>(m, a);
            let (end, second) = pushed_all::<T>(mid, b);
            pushed_all::<T>(m, a + b) == match (first, second) {
                (Ok(x), Ok(y)) => (end, Ok::<Seq<EventView>, Seq<char>>(x + y)),
                (Ok(_), Err(reason)) => (end, Err(reason)),
                (Err(reason), _) => (mid, Err(reason)),
            }
        }),
        pushed_all::<T>(m, Seq::empty()) == (m, Ok::<Seq<EventView>, Seq<char>>(Seq::empty())),
    decreases b.len(),
{
    let (mid, first) = pushed_all::<T>(m, a);
    if b.len() == 0 {
        assert(a + b =~= a);
        if let Ok(x) = first {
            assert(x + Seq::<EventView>::empty() =~= x);
        }
    } else {
        law_records_are_taken_in_order::<T>(m, a, b.drop_last());
        assert((a + b).drop_last() =~= a + b.drop_last());
        let (m1, r1) = pushed_all::<T>(mid, b.drop_last());
        if let (Ok(x), Ok(y)) = (first, r1) {
            if let Ok(z) = T::pushed(m1, b.last()).1 {
                assert((x + y) + z =~= x + (y + z));
            }
        }
    }
}

/// One record does what the translator does with it, and the end of a stream adds what the
/// translator adds.
pub proof fn law_records_do_what_translators_do<T: SseTranslator>(
    m: T::Model,
    v: JsonView,
    data: Seq<JsonView>,
)
    ensures
        pushed_all::<T>(m, seq![v]) == T::pushed(m, v),
        translated::<T>(m, data, false) == pushed_all::<T>(m, data).1,
        translated::<T>(m, data, true) == match pushed_all::<T>(m, data).1 {
            Ok(events) => Ok::<Seq<EventView>, Seq<char>>(
                events + T::finished(pushed_all::<T>(m, data).0).1,
            ),
            Err(reason) => Err(reason),
        },
{
    reveal_with_fuel(pushed_all, 2);
    assert(seq![v].drop_last() =~= Seq::<JsonView>::empty());
    if let Ok(z) = T::pushed(m, v).1 {
        assert(Seq::<EventView>::empty() + z =~= z);
    }
}

/// A made-up identifier says what it stands for and its number.
pub proof fn law_made_up_identifiers(kind: Seq<char>, n: u64)
    ensures
        synth_name(kind, n) == "llmswitch-"@ + kind + "-"@ + crate::text::decimal(n as nat),
        n < u64::MAX ==> next_count(n) == n + 1,
{
}

} // verus!
