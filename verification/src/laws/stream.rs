//! What holds of translated streams.

use crate::connector::anthropic_sse::{
    anthropic_finished, anthropic_pushed, anthropic_start, tool_uses_done, AnthropicSseState,
    BlockView,
};
use crate::connector::chat_sse::{
    calls_after_all, calls_done, chat_finished, chat_pushed, chat_start, choice_pieces,
    first_choice, ChatSseState, ToolView,
};
use crate::connector::{pushed_all, synth_name, text_done, translated, SseTranslator};
use crate::json::JsonView;
use crate::order::{increasing, keys_in_order, lists_keys, values_in_order};
use crate::protocol::{ApiErrorView, EventView, ItemView};
use crate::sse::{
    behind, bytes_step, fault_of, frame_ends, frame_step, handed_on, handed_on_with, idle, is_break,
    received, ArrivalView, End, ReaderView, Step,
};
use crate::text::{decimal, digit};
use vstd::prelude::*;

verus! {

// ---- shape ----

/// Whether an event passes text on.
pub open spec fn is_delta(e: EventView) -> bool {
    e is OutputTextDelta
}

/// Whether an event completes a call.
pub open spec fn is_call(e: EventView) -> bool {
    e matches EventView::OutputItemDone(item) && item is FunctionCall
}

/// The text that events pass on, all pieces in one.
pub open spec fn passed_on(events: Seq<EventView>) -> Seq<char>
    decreases events.len(),
{
    if events.len() == 0 {
        Seq::empty()
    } else {
        match events.last() {
            EventView::OutputTextDelta(t) => passed_on(events.drop_last()) + t,
            _ => passed_on(events.drop_last()),
        }
    }
}

/// Whether the events of a whole response have their shape: text as it arrives, then the calls,
/// then the same text as one message if there is any, then the completed response.
pub open spec fn well_shaped(
    all: Seq<EventView>,
    deltas: Seq<EventView>,
    calls: Seq<EventView>,
    last: EventView,
) -> bool {
    &&& all == (deltas + calls + text_done(passed_on(deltas))).push(last)
    &&& forall|i: int| 0 <= i < deltas.len() ==> is_delta(#[trigger] deltas[i])
    &&& forall|i: int| 0 <= i < calls.len() ==> is_call(#[trigger] calls[i])
    &&& last is Completed
}

proof fn lemma_passed_on(a: Seq<EventView>, b: Seq<EventView>)
    requires
        b.len() <= 1,
    ensures
        passed_on(a + b) == passed_on(a) + passed_on(b),
{
    reveal_with_fuel(passed_on, 2);
    if b.len() == 0 {
        assert(a + b =~= a);
        assert(passed_on(a) + passed_on(b) =~= passed_on(a));
    } else {
        assert((a + b).drop_last() =~= a);
        assert(b.drop_last() =~= Seq::empty());
        assert((a + b).last() == b.last());
        match b.last() {
            EventView::OutputTextDelta(t) => {
                assert(Seq::<char>::empty() + t =~= t);
            },
            _ => {
                assert(passed_on(a) + passed_on(b) =~= passed_on(a));
            },
        }
    }
}

proof fn lemma_one_delta(t: Seq<char>)
    ensures
        passed_on(seq![EventView::OutputTextDelta(t)]) == t,
{
    reveal_with_fuel(passed_on, 2);
    let one = seq![EventView::OutputTextDelta(t)];
    assert(one.drop_last() =~= Seq::empty());
    assert(Seq::<char>::empty() + t =~= t);
}

proof fn lemma_chat_deltas(data: Seq<JsonView>)
    ensures
        pushed_all::<ChatSseState>(chat_start(), data).1 matches Ok(events) ==> (pushed_all::<
            ChatSseState,
        >(chat_start(), data).0.text == passed_on(events) && forall|i: int|
            0 <= i < events.len() ==> is_delta(#[trigger] events[i])),
    decreases data.len(),
{
    if data.len() > 0 {
        lemma_chat_deltas(data.drop_last());
        let (m1, before) = pushed_all::<ChatSseState>(chat_start(), data.drop_last());
        if let Ok(events) = before {
            if let Ok(more) = chat_pushed(m1, data.last()).1 {
                lemma_passed_on(events, more);
                if more.len() > 0 {
                    lemma_one_delta(more[0]->OutputTextDelta_0);
                    assert(more =~= seq![EventView::OutputTextDelta(more[0]->OutputTextDelta_0)]);
                } else {
                    assert(events + more =~= events);
                }
            }
        }
    }
}

proof fn lemma_anthropic_deltas(data: Seq<JsonView>)
    ensures
        pushed_all::<AnthropicSseState>(anthropic_start(), data).1 matches Ok(events) ==> (
        pushed_all::<AnthropicSseState>(anthropic_start(), data).0.text == passed_on(events)
            && forall|i: int| 0 <= i < events.len() ==> is_delta(#[trigger] events[i])),
    decreases data.len(),
{
    if data.len() > 0 {
        lemma_anthropic_deltas(data.drop_last());
        let (m1, before) = pushed_all::<AnthropicSseState>(anthropic_start(), data.drop_last());
        if let Ok(events) = before {
            if let Ok(more) = anthropic_pushed(m1, data.last()).1 {
                lemma_passed_on(events, more);
                if more.len() > 0 {
                    lemma_one_delta(more[0]->OutputTextDelta_0);
                    assert(more =~= seq![EventView::OutputTextDelta(more[0]->OutputTextDelta_0)]);
                } else {
                    assert(events + more =~= events);
                }
            }
        }
    }
}

proof fn lemma_calls_done(accs: Seq<ToolView>, made_up: u64)
    ensures
        calls_done(accs, made_up).0.len() == accs.len(),
        forall|i: int|
            0 <= i < accs.len() ==> is_call(#[trigger] calls_done(accs, made_up).0[i]),
    decreases accs.len(),
{
    if accs.len() > 0 {
        lemma_calls_done(accs.drop_last(), made_up);
    }
}

proof fn lemma_tool_uses_done(blocks: Seq<BlockView>, made_up: u64)
    ensures
        forall|i: int|
            0 <= i < tool_uses_done(blocks, made_up).0.len() ==> is_call(
                #[trigger] tool_uses_done(blocks, made_up).0[i],
            ),
    decreases blocks.len(),
{
    if blocks.len() > 0 {
        lemma_tool_uses_done(blocks.drop_last(), made_up);
        let before = tool_uses_done(blocks.drop_last(), made_up).0;
        let now = tool_uses_done(blocks, made_up).0;
        assert forall|i: int| 0 <= i < now.len() implies is_call(#[trigger] now[i]) by {
            if i < before.len() {
                assert(now[i] == before[i]);
            }
        }
    }
}

proof fn lemma_calls_after_all_finite(calls: Map<i64, ToolView>, pieces: Seq<JsonView>)
    requires
        calls.dom().finite(),
    ensures
        calls_after_all(calls, pieces).dom().finite(),
    decreases pieces.len(),
{
    if pieces.len() > 0 {
        lemma_calls_after_all_finite(calls, pieces.drop_last());
    }
}

proof fn lemma_chat_calls_finite(data: Seq<JsonView>)
    ensures
        pushed_all::<ChatSseState>(chat_start(), data).0.calls.dom().finite(),
    decreases data.len(),
{
    if data.len() > 0 {
        lemma_chat_calls_finite(data.drop_last());
        let (m, before) = pushed_all::<ChatSseState>(chat_start(), data.drop_last());
        if let Some(choice) = first_choice(data.last()) {
            lemma_calls_after_all_finite(m.calls, choice_pieces(choice));
        }
    }
}

pub(super) proof fn lemma_anthropic_blocks_finite(data: Seq<JsonView>)
    ensures
        pushed_all::<AnthropicSseState>(anthropic_start(), data).0.blocks.dom().finite(),
    decreases data.len(),
{
    if data.len() > 0 {
        lemma_anthropic_blocks_finite(data.drop_last());
    }
}

proof fn lemma_insert_key(ks: Seq<i64>, k: i64) -> (r: Seq<i64>)
    requires
        increasing(ks),
        !ks.contains(k),
    ensures
        increasing(r),
        r.to_set() == ks.to_set().insert(k),
        r.len() > 0,
        r.last() == k || (ks.len() > 0 && r.last() == ks.last()),
    decreases ks.len(),
{
    if ks.len() == 0 || ks.last() < k {
        let r = ks.push(k);
        assert(r.to_set() =~= ks.to_set().insert(k)) by {
            assert forall|x: i64| ks.to_set().insert(k).contains(x) implies r.to_set().contains(x) by {
                if x == k {
                    assert(r[ks.len() as int] == x);
                } else {
                    let i = choose|i: int| 0 <= i < ks.len() && ks[i] == x;
                    assert(r[i] == x);
                }
            }
            assert forall|x: i64| r.to_set().contains(x) implies ks.to_set().insert(k).contains(x) by {
                let i = choose|i: int| 0 <= i < r.len() && r[i] == x;
                if i < ks.len() {
                    assert(ks[i] == x);
                }
            }
        }
        r
    } else {
        let head = ks.drop_last();
        let top = ks.last();
        assert(ks.contains(top));
        assert(k < top);
        assert(!head.contains(k)) by {
            if head.contains(k) {
                let i = choose|i: int| 0 <= i < head.len() && head[i] == k;
                assert(ks[i] == k);
            }
        }
        let s = lemma_insert_key(head, k);
        let r = s.push(top);
        assert forall|i: int| 0 <= i < s.len() implies s[i] < top by {
            assert(s[i] <= s.last());
            if s.last() != k {
                assert(head.last() == ks[head.len() - 1]);
            }
        }
        assert(r.to_set() =~= ks.to_set().insert(k)) by {
            assert forall|x: i64| r.to_set().contains(x) implies ks.to_set().insert(k).contains(x) by {
                let i = choose|i: int| 0 <= i < r.len() && r[i] == x;
                if i < s.len() {
                    assert(s.to_set().contains(x));
                    if x != k {
                        assert(head.to_set().contains(x));
                        let j = choose|j: int| 0 <= j < head.len() && head[j] == x;
                        assert(ks[j] == x);
                    }
                }
            }
            assert forall|x: i64| ks.to_set().insert(k).contains(x) implies r.to_set().contains(x) by {
                if x == top {
                    assert(r[s.len() as int] == x);
                } else {
                    if x != k {
                        let j = choose|j: int| 0 <= j < ks.len() && ks[j] == x;
                        assert(head[j] == x);
                        assert(head.to_set().contains(x));
                    }
                    assert(s.to_set().contains(x));
                    let i = choose|i: int| 0 <= i < s.len() && s[i] == x;
                    assert(r[i] == x);
                }
            }
        }
        r
    }
}

proof fn lemma_some_order<V>(m: Map<i64, V>) -> (ks: Seq<i64>)
    requires
        m.dom().finite(),
    ensures
        lists_keys(ks, m),
    decreases m.dom().len(),
{
    if m.dom().len() == 0 {
        let ks = Seq::<i64>::empty();
        m.dom().lemma_len0_is_empty();
        assert(ks.to_set() =~= m.dom());
        ks
    } else {
        let k = m.dom().choose();
        assert(m.dom().contains(k));
        let rest = m.remove(k);
        let ks = lemma_some_order(rest);
        assert(!ks.contains(k)) by {
            if ks.contains(k) {
                assert(ks.to_set().contains(k));
            }
        }
        let r = lemma_insert_key(ks, k);
        assert(r.to_set() =~= m.dom());
        r
    }
}

/// The calls of a response come out in increasing order of their index, each index once and none
/// left out.
pub proof fn law_calls_come_in_index_order<V>(calls: Map<i64, V>)
    requires
        calls.dom().finite(),
    ensures
        lists_keys(keys_in_order(calls), calls),
        values_in_order(calls).len() == keys_in_order(calls).len(),
        forall|i: int|
            0 <= i < keys_in_order(calls).len() ==> #[trigger] values_in_order(calls)[i]
                == calls[keys_in_order(calls)[i]],
{
    let ks = lemma_some_order(calls);
}

/// A whole Chat Completions response that does not fail has its shape: text as it arrives, the
/// calls in the order of their index, the same text as one message if there is any, and the
/// completed response, which comes once and last.
pub proof fn law_chat_response_shape(data: Seq<JsonView>)
    ensures
        ({
            let (m, r) = pushed_all::<ChatSseState>(chat_start(), data);
            r matches Ok(deltas) ==> translated::<ChatSseState>(chat_start(), data, true) matches Ok(
                all,
            ) && well_shaped(
                all,
                deltas,
                calls_done(values_in_order(m.calls), m.made_up).0,
                all.last(),
            )
        }),
        ({
            let m = pushed_all::<ChatSseState>(chat_start(), data).0;
            lists_keys(keys_in_order(m.calls), m.calls)
        }),
{
    lemma_chat_calls_finite(data);
    law_calls_come_in_index_order(pushed_all::<ChatSseState>(chat_start(), data).0.calls);
    lemma_chat_deltas(data);
    let (m, r) = pushed_all::<ChatSseState>(chat_start(), data);
    if let Ok(deltas) = r {
        let calls = calls_done(values_in_order(m.calls), m.made_up).0;
        lemma_calls_done(values_in_order(m.calls), m.made_up);
        let tail = chat_finished(m).1;
        assert(deltas + tail =~= (deltas + calls + text_done(passed_on(deltas))).push(tail.last()));
    }
}

/// A whole Anthropic Messages response that does not fail has its shape: text as it arrives, the
/// tool uses in the order of their blocks, the same text as one message if there is any, and the
/// completed response, which comes once and last.
pub proof fn law_anthropic_response_shape(data: Seq<JsonView>)
    ensures
        ({
            let (m, r) = pushed_all::<AnthropicSseState>(anthropic_start(), data);
            r matches Ok(deltas) ==> translated::<AnthropicSseState>(
                anthropic_start(),
                data,
                true,
            ) matches Ok(all) && well_shaped(
                all,
                deltas,
                tool_uses_done(values_in_order(m.blocks), m.made_up).0,
                all.last(),
            )
        }),
        ({
            let m = pushed_all::<AnthropicSseState>(anthropic_start(), data).0;
            lists_keys(keys_in_order(m.blocks), m.blocks)
        }),
{
    lemma_anthropic_blocks_finite(data);
    law_calls_come_in_index_order(pushed_all::<AnthropicSseState>(anthropic_start(), data).0.blocks);
    lemma_anthropic_deltas(data);
    let (m, r) = pushed_all::<AnthropicSseState>(anthropic_start(), data);
    if let Ok(deltas) = r {
        let calls = tool_uses_done(values_in_order(m.blocks), m.made_up).0;
        lemma_tool_uses_done(values_in_order(m.blocks), m.made_up);
        let tail = anthropic_finished(m).1;
        assert(deltas + tail =~= (deltas + calls + text_done(passed_on(deltas))).push(tail.last()));
    }
}

// ---- arrival ----

proof fn lemma_behind<M>(a: Seq<EventView>, b: Seq<EventView>, s: Step<M>)
    ensures
        behind(a, behind(b, s)) == behind(a + b, s),
        behind(Seq::empty(), s) == s,
{
    assert(a + (b + s.events) =~= (a + b) + s.events);
    assert(Seq::<EventView>::empty() + s.events =~= s.events);
}

pub(super) proof fn lemma_first_frame<T: SseTranslator>(m: T::Model, bytes: Seq<u8>, p: int)
    requires
        frame_ends(bytes, p),
    ensures
        ({
            let s = frame_step::<T>(m, bytes.take(p));
            let next = bytes_step::<T>(s.m, bytes.skip(p + 2));
            bytes_step::<T>(m, bytes) == if s.end is More {
                (behind(s.events, next.0), next.1)
            } else {
                (s, bytes.skip(p + 2))
            }
        }),
{
    let q = choose|q: int| frame_ends(bytes, q);
    if p < q {
        assert(!is_break(bytes, p));
    } else if q < p {
        assert(!is_break(bytes, q));
    }
}

/// It makes no difference whether two runs of bytes arrive one after the other or at once: the
/// events are the same, the end is the same, and so is what is left for the next bytes. If the
/// first run ends the stream, the second is not looked at.
pub proof fn law_arrival_in_two_parts<T: SseTranslator>(m: T::Model, a: Seq<u8>, b: Seq<u8>)
    ensures
        ({
            let (first, left) = bytes_step::<T>(m, a);
            bytes_step::<T>(m, a + b) == if first.end is More {
                let (second, rest) = bytes_step::<T>(first.m, left + b);
                (behind(first.events, second), rest)
            } else {
                (first, left + b)
            }
        }),
    decreases a.len(),
{
    if exists|p: int| frame_ends(a, p) {
        let p = choose|p: int| frame_ends(a, p);
        let ab = a + b;
        assert(frame_ends(ab, p)) by {
            assert forall|q: int| 0 <= q < p implies !is_break(ab, q) by {
                assert(!is_break(a, q));
            }
        }
        assert(ab.take(p) =~= a.take(p));
        assert(ab.skip(p + 2) =~= a.skip(p + 2) + b);
        lemma_first_frame::<T>(m, a, p);
        lemma_first_frame::<T>(m, ab, p);
        let s = frame_step::<T>(m, a.take(p));
        if s.end is More {
            law_arrival_in_two_parts::<T>(s.m, a.skip(p + 2), b);
            let (next, left) = bytes_step::<T>(s.m, a.skip(p + 2));
            if next.end is More {
                let (second, rest) = bytes_step::<T>(next.m, left + b);
                lemma_behind(s.events, next.events, second);
            }
        }
    } else {
        lemma_behind(Seq::empty(), Seq::empty(), bytes_step::<T>(m, a + b).0);
    }
}

/// What runs of bytes do that arrive one after the other, up to one that ends the stream. `left`
/// is what was left before.
pub open spec fn arrivals<T: SseTranslator>(
    m: T::Model,
    left: Seq<u8>,
    chunks: Seq<Seq<u8>>,
) -> Step<T::Model>
    decreases chunks.len(),
{
    if chunks.len() == 0 {
        idle(m)
    } else {
        let (s, rest) = bytes_step::<T>(m, left + chunks[0]);
        if s.end is More {
            behind(s.events, arrivals::<T>(s.m, rest, chunks.skip(1)))
        } else {
            s
        }
    }
}

/// All bytes of some runs.
pub open spec fn all_bytes(chunks: Seq<Seq<u8>>) -> Seq<u8>
    decreases chunks.len(),
{
    if chunks.len() == 0 {
        Seq::empty()
    } else {
        chunks[0] + all_bytes(chunks.skip(1))
    }
}

proof fn lemma_arrivals<T: SseTranslator>(m: T::Model, left: Seq<u8>, chunks: Seq<Seq<u8>>)
    requires
        bytes_step::<T>(m, left) == (idle::<T::Model>(m), left),
    ensures
        arrivals::<T>(m, left, chunks) == bytes_step::<T>(m, left + all_bytes(chunks)).0,
    decreases chunks.len(),
{
    if chunks.len() == 0 {
        assert(left + all_bytes(chunks) =~= left);
    } else {
        let a = left + chunks[0];
        let b = all_bytes(chunks.skip(1));
        assert(left + all_bytes(chunks) =~= a + b);
        law_arrival_in_two_parts::<T>(m, a, b);
        let (s, rest) = bytes_step::<T>(m, a);
        if s.end is More {
            lemma_left_is_incomplete::<T>(m, a);
            lemma_arrivals::<T>(s.m, rest, chunks.skip(1));
        }
    }
}

proof fn lemma_left_is_incomplete<T: SseTranslator>(m: T::Model, bytes: Seq<u8>)
    requires
        bytes_step::<T>(m, bytes).0.end is More,
    ensures
        forall|p: int| !frame_ends(bytes_step::<T>(m, bytes).1, p),
    decreases bytes.len(),
{
    if exists|p: int| frame_ends(bytes, p) {
        let p = choose|p: int| frame_ends(bytes, p);
        let s = frame_step::<T>(m, bytes.take(p));
        lemma_left_is_incomplete::<T>(s.m, bytes.skip(p + 2));
    }
}

/// However the bytes of a stream are cut on their way, even within a character, the events and the
/// end are those of the bytes as a whole.
pub proof fn law_cuts_are_immaterial<T: SseTranslator>(m: T::Model, chunks: Seq<Seq<u8>>)
    ensures
        arrivals::<T>(m, Seq::empty(), chunks) == bytes_step::<T>(m, all_bytes(chunks)).0,
{
    let nothing = Seq::<u8>::empty();
    assert(forall|p: int| !frame_ends(nothing, p));
    assert(nothing + all_bytes(chunks) =~= all_bytes(chunks));
    lemma_arrivals::<T>(m, nothing, chunks);
}

// ---- end of a stream ----

/// The items that a reader yields for what arrives, one after the other.
pub open spec fn delivered<T: SseTranslator>(
    r: ReaderView<T::Model>,
    arrivals: Seq<ArrivalView>,
) -> Seq<Result<EventView, ApiErrorView>>
    decreases arrivals.len(),
{
    if arrivals.len() == 0 {
        Seq::empty()
    } else {
        let (next, items) = received::<T>(r, arrivals[0]);
        items + delivered::<T>(next, arrivals.skip(1))
    }
}

/// Runs of bytes as they arrive.
pub open spec fn as_arrivals(chunks: Seq<Seq<u8>>) -> Seq<ArrivalView> {
    chunks.map_values(|c: Seq<u8>| ArrivalView::Bytes(c))
}

/// The items of a whole stream, given what its bytes do and what comes behind them, a fault or the
/// end. A failure while reading, or a fault where the stream is still open, is one error behind
/// the events so far, and nothing is completed. Otherwise the response is completed, once.
pub open spec fn whole_stream<T: SseTranslator>(s: Step<T::Model>, last: ArrivalView) -> Seq<
    Result<EventView, ApiErrorView>,
> {
    match (s.end, last) {
        (End::Failed(e), _) => handed_on_with(s.events, e),
        (End::More, ArrivalView::Broken(why)) => handed_on_with(s.events, fault_of(why)),
        _ => handed_on(s.events + T::finished(s.m).1),
    }
}

/// Of a stream that is closed, nothing is delivered any more, whatever arrives.
pub proof fn law_closed_streams_deliver_nothing<T: SseTranslator>(
    r: ReaderView<T::Model>,
    arrivals: Seq<ArrivalView>,
)
    requires
        !r.open,
    ensures
        delivered::<T>(r, arrivals) == Seq::<Result<EventView, ApiErrorView>>::empty(),
    decreases arrivals.len(),
{
    if arrivals.len() > 0 {
        law_closed_streams_deliver_nothing::<T>(r, arrivals.skip(1));
        assert(delivered::<T>(r, arrivals) =~= Seq::empty());
    }
}

/// An error is the last item of its stream: whatever arrives, nothing is delivered behind it.
pub proof fn law_nothing_follows_an_error<T: SseTranslator>(
    r: ReaderView<T::Model>,
    arrivals: Seq<ArrivalView>,
)
    ensures
        forall|i: int|
            0 <= i < delivered::<T>(r, arrivals).len() && (#[trigger] delivered::<T>(
                r,
                arrivals,
            )[i]) is Err ==> i == delivered::<T>(r, arrivals).len() - 1,
    decreases arrivals.len(),
{
    if arrivals.len() > 0 {
        let (next, items) = received::<T>(r, arrivals[0]);
        law_nothing_follows_an_error::<T>(next, arrivals.skip(1));
        if !next.open {
            law_closed_streams_deliver_nothing::<T>(next, arrivals.skip(1));
        }
    }
}

proof fn lemma_handed_on(a: Seq<EventView>, b: Seq<EventView>, e: ApiErrorView)
    ensures
        handed_on(a + b) == handed_on(a) + handed_on(b),
        handed_on_with(a + b, e) == handed_on(a) + handed_on_with(b, e),
{
    assert(handed_on(a + b) =~= handed_on(a) + handed_on(b));
    assert(handed_on_with(a + b, e) =~= handed_on(a) + handed_on_with(b, e));
}

proof fn lemma_whole_stream_behind<T: SseTranslator>(
    a: Seq<EventView>,
    s: Step<T::Model>,
    last: ArrivalView,
)
    ensures
        whole_stream::<T>(behind(a, s), last) == handed_on(a) + whole_stream::<T>(s, last),
{
    let done = T::finished(s.m).1;
    assert(a + s.events + done =~= a + (s.events + done));
    match (s.end, last) {
        (End::Failed(e), _) => lemma_handed_on(a, s.events, e),
        (End::More, ArrivalView::Broken(why)) => lemma_handed_on(a, s.events, fault_of(why)),
        _ => lemma_handed_on(a, s.events + done, fault_of(Seq::empty())),
    }
}

proof fn lemma_delivered<T: SseTranslator>(
    r: ReaderView<T::Model>,
    chunks: Seq<Seq<u8>>,
    last: ArrivalView,
    later: Seq<ArrivalView>,
)
    requires
        r.open,
        !(last is Bytes),
    ensures
        delivered::<T>(r, as_arrivals(chunks) + seq![last] + later) == whole_stream::<T>(
            arrivals::<T>(r.m, r.pending, chunks),
            last,
        ),
    decreases chunks.len(),
{
    let all = as_arrivals(chunks) + seq![last] + later;
    let (next, items) = received::<T>(r, all[0]);
    if chunks.len() == 0 {
        law_closed_streams_deliver_nothing::<T>(next, all.skip(1));
        assert(Seq::<EventView>::empty() + T::finished(r.m).1 =~= T::finished(r.m).1);
        assert(delivered::<T>(r, all) =~= items);
    } else {
        assert(all[0] == ArrivalView::Bytes(chunks[0]));
        assert(all.skip(1) =~= as_arrivals(chunks.skip(1)) + seq![last] + later);
        let (s, rest) = bytes_step::<T>(r.m, r.pending + chunks[0]);
        if s.end is More {
            lemma_delivered::<T>(next, chunks.skip(1), last, later);
            lemma_whole_stream_behind::<T>(
                s.events,
                arrivals::<T>(s.m, rest, chunks.skip(1)),
                last,
            );
        } else {
            law_closed_streams_deliver_nothing::<T>(next, all.skip(1));
            assert(delivered::<T>(r, all) =~= items);
        }
    }
}

/// What is delivered of a whole stream, however its bytes are cut: the events that they yield, and
/// then either those that complete the response, once, or one error and nothing more. It is an
/// error if reading fails before the mark at the end, or if a fault comes before it. Whatever
/// arrives later makes no difference.
pub proof fn law_streams_end_once<T: SseTranslator>(
    m: T::Model,
    chunks: Seq<Seq<u8>>,
    last: ArrivalView,
    later: Seq<ArrivalView>,
)
    requires
        !(last is Bytes),
    ensures
        delivered::<T>(
            ReaderView { m, pending: Seq::empty(), open: true },
            as_arrivals(chunks) + seq![last] + later,
        ) == whole_stream::<T>(bytes_step::<T>(m, all_bytes(chunks)).0, last),
{
    lemma_delivered::<T>(
        ReaderView { m, pending: Seq::empty(), open: true },
        chunks,
        last,
        later,
    );
    law_cuts_are_immaterial::<T>(m, chunks);
}

// ---- made-up identifiers ----

proof fn lemma_digit(a: nat, b: nat)
    requires
        a < 10,
        b < 10,
        digit(a) == digit(b),
    ensures
        a == b,
{
    assert(digit(a) as u32 == 48 + a);
    assert(digit(b) as u32 == 48 + b);
}

proof fn lemma_decimal_len(n: nat)
    ensures
        decimal(n).len() >= 1,
        n >= 10 <==> decimal(n).len() > 1,
    decreases n,
{
    if n >= 10 {
        lemma_decimal_len(n / 10);
    }
}

/// Different numbers have different numerals.
pub proof fn law_numerals_differ(a: nat, b: nat)
    requires
        decimal(a) == decimal(b),
    ensures
        a == b,
    decreases a,
{
    lemma_decimal_len(a);
    lemma_decimal_len(b);
    if a < 10 {
        assert(decimal(a)[0] == digit(a));
        assert(decimal(b)[0] == digit(b));
        lemma_digit(a, b);
    } else {
        assert(decimal(a).drop_last() =~= decimal(a / 10));
        assert(decimal(b).drop_last() =~= decimal(b / 10));
        assert(decimal(a).last() == digit(a % 10));
        assert(decimal(b).last() == digit(b % 10));
        law_numerals_differ(a / 10, b / 10);
        lemma_digit(a % 10, b % 10);
    }
}

/// Two made-up identifiers of one kind are the same only if they have the same number.
pub proof fn law_made_up_identifiers_differ(kind: Seq<char>, a: u64, b: u64)
    requires
        synth_name(kind, a) == synth_name(kind, b),
    ensures
        a == b,
{
    let head = "llmswitch-"@ + kind + "-"@;
    assert(synth_name(kind, a).skip(head.len() as int) =~= decimal(a as nat));
    assert(synth_name(kind, b).skip(head.len() as int) =~= decimal(b as nat));
    law_numerals_differ(a as nat, b as nat);
}

/// The identifier of the call that an event completes.
pub open spec fn completed_id(e: EventView) -> Seq<char> {
    match e {
        EventView::OutputItemDone(ItemView::FunctionCall { call_id, .. }) => call_id,
        _ => Seq::empty(),
    }
}

/// Among the first `n` calls of a response, one without an identifier of its own got the number
/// that the counter had reached by then.
proof fn lemma_numbers(accs: Seq<ToolView>, made_up: u64, i: int)
    requires
        made_up + accs.len() <= u64::MAX,
        0 <= i < accs.len(),
        accs[i].call_id is None,
    ensures
        ({
            let n = calls_done(accs.take(i + 1), made_up).1;
            &&& completed_id(calls_done(accs, made_up).0[i]) == synth_name("call"@, n)
            &&& n == calls_done(accs.take(i), made_up).1 + 1
        }),
    decreases accs.len(),
{
    lemma_calls_done(accs, made_up);
    lemma_calls_done(accs.drop_last(), made_up);
    let head = accs.drop_last();
    if i < head.len() {
        lemma_numbers(head, made_up, i);
        assert(head.take(i + 1) =~= accs.take(i + 1));
        assert(head.take(i) =~= accs.take(i));
    } else {
        assert(accs.take(i + 1) =~= accs);
        assert(accs.take(i) =~= head);
        lemma_counter(head, made_up);
    }
}

proof fn lemma_counter(accs: Seq<ToolView>, made_up: u64)
    requires
        made_up + accs.len() <= u64::MAX,
    ensures
        made_up <= calls_done(accs, made_up).1 <= made_up + accs.len(),
    decreases accs.len(),
{
    if accs.len() > 0 {
        lemma_counter(accs.drop_last(), made_up);
    }
}

proof fn lemma_counter_grows(accs: Seq<ToolView>, made_up: u64, i: int, j: int)
    requires
        made_up + accs.len() <= u64::MAX,
        0 <= i <= j <= accs.len(),
    ensures
        calls_done(accs.take(i), made_up).1 <= calls_done(accs.take(j), made_up).1,
    decreases j,
{
    if i < j {
        lemma_counter_grows(accs, made_up, i, j - 1);
        assert(accs.take(j).drop_last() =~= accs.take(j - 1));
        lemma_counter(accs.take(j - 1), made_up);
    }
}

/// Two calls of a response that came without identifiers get different ones, as long as the
/// counter does not start again.
pub proof fn law_made_up_call_identifiers_differ(
    accs: Seq<ToolView>,
    made_up: u64,
    i: int,
    j: int,
)
    requires
        made_up + accs.len() <= u64::MAX,
        0 <= i < j < accs.len(),
        accs[i].call_id is None,
        accs[j].call_id is None,
    ensures
        completed_id(calls_done(accs, made_up).0[i]) != completed_id(
            calls_done(accs, made_up).0[j],
        ),
{
    lemma_numbers(accs, made_up, i);
    lemma_numbers(accs, made_up, j);
    lemma_counter_grows(accs, made_up, i + 1, j);
    let a = calls_done(accs.take(i + 1), made_up).1;
    let b = calls_done(accs.take(j + 1), made_up).1;
    if synth_name("call"@, a) == synth_name("call"@, b) {
        law_made_up_identifiers_differ("call"@, a, b);
    }
}

} // verus!
