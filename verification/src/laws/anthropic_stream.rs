//! What an Anthropic Messages stream comes to.

use super::chat_stream::{completes_call, filled, or_empty, owed_message};
use super::stream::{law_calls_come_in_index_order, lemma_anthropic_blocks_finite};
use crate::connector::anthropic_sse::{
    anthropic_finished, anthropic_pushed, anthropic_start, tool_uses_done, AnthropicModel,
    AnthropicSseState, BlockView,
};
use crate::connector::{pushed_all, translated};
use crate::json::{json_text, JsonView};
use crate::order::{increasing, keys_in_order, lemma_increasing_unique, lists_keys, values_in_order};
use crate::protocol::{EventView, TokenUsage};
use crate::text::decimal;
use vstd::prelude::*;

verus! {

// ---- what is seen of events ----

/// Whether an event is of this type.
pub open spec fn is_type(evt: JsonView, kind: Seq<char>) -> bool {
    evt.text_at("type"@) == Some(kind)
}

/// Whether no event is an error.
pub open spec fn no_errors(data: Seq<JsonView>) -> bool {
    forall|i: int| 0 <= i < data.len() ==> !is_type(#[trigger] data[i], "error"@)
}

/// The text that an event adds.
pub open spec fn added_text(evt: JsonView) -> Option<Seq<char>> {
    if is_type(evt, "content_block_delta"@) {
        match evt.get("delta"@) {
            Some(d) => if is_type(d, "text_delta"@) {
                d.text_at("text"@)
            } else {
                None
            },
            None => None,
        }
    } else {
        None
    }
}

/// The index of the block that an event speaks of.
pub open spec fn block_of(evt: JsonView) -> i64 {
    match evt.i64_at("index"@) {
        Some(i) => i,
        None => 0,
    }
}

/// The piece of input that an event adds to the block `i`.
pub open spec fn added_input(evt: JsonView, i: i64) -> Option<Seq<char>> {
    if is_type(evt, "content_block_delta"@) && block_of(evt) == i {
        match evt.get("delta"@) {
            Some(d) => if is_type(d, "input_json_delta"@) {
                d.text_at("partial_json"@)
            } else {
                None
            },
            None => None,
        }
    } else {
        None
    }
}

/// The tool use that an event starts as the block `i`.
pub open spec fn started_use(evt: JsonView, i: i64) -> Option<JsonView> {
    if is_type(evt, "content_block_start"@) && block_of(evt) == i {
        match evt.get("content_block"@) {
            Some(cb) => if is_type(cb, "tool_use"@) {
                Some(cb)
            } else {
                None
            },
            None => None,
        }
    } else {
        None
    }
}

/// The events that pass the text on.
pub open spec fn deltas_of(data: Seq<JsonView>) -> Seq<EventView>
    decreases data.len(),
{
    if data.len() == 0 {
        Seq::empty()
    } else {
        match added_text(data.last()) {
            Some(t) => deltas_of(data.drop_last()).push(EventView::OutputTextDelta(t)),
            None => deltas_of(data.drop_last()),
        }
    }
}

/// The text, all pieces in one.
pub open spec fn text_of(data: Seq<JsonView>) -> Seq<char>
    decreases data.len(),
{
    if data.len() == 0 {
        Seq::empty()
    } else {
        match added_text(data.last()) {
            Some(t) => text_of(data.drop_last()) + t,
            None => text_of(data.drop_last()),
        }
    }
}

/// The input of the block `i`: all its pieces, in the order of arrival.
pub open spec fn input_of(data: Seq<JsonView>, i: i64) -> Seq<char>
    decreases data.len(),
{
    if data.len() == 0 {
        Seq::empty()
    } else {
        match added_input(data.last(), i) {
            Some(p) => input_of(data.drop_last(), i) + p,
            None => input_of(data.drop_last(), i),
        }
    }
}

/// The last tool use that was started as the block `i`.
pub open spec fn use_of(data: Seq<JsonView>, i: i64) -> Option<JsonView>
    decreases data.len(),
{
    if data.len() == 0 {
        None
    } else {
        match started_use(data.last(), i) {
            Some(cb) => Some(cb),
            None => use_of(data.drop_last(), i),
        }
    }
}

/// A member of the message that an event starts.
pub open spec fn in_message(evt: JsonView, key: Seq<char>) -> Option<JsonView> {
    if is_type(evt, "message_start"@) {
        match evt.get("message"@) {
            Some(m) => m.get(key),
            None => None,
        }
    } else {
        None
    }
}

/// The first identifier of a message that is not empty.
pub open spec fn first_id(data: Seq<JsonView>) -> Option<Seq<char>>
    decreases data.len(),
{
    if data.len() == 0 {
        None
    } else {
        match first_id(data.drop_last()) {
            Some(id) => Some(id),
            None => match in_message(data.last(), "id"@) {
                Some(v) => filled(v.as_text()),
                None => None,
            },
        }
    }
}

/// The last count under `key` among those at the start of a message, zero where there is none.
pub open spec fn start_count(data: Seq<JsonView>, key: Seq<char>) -> i64
    decreases data.len(),
{
    if data.len() == 0 {
        0
    } else {
        let now = match in_message(data.last(), "usage"@) {
            Some(u) => u.i64_at(key),
            None => None,
        };
        match now {
            Some(n) => n,
            None => start_count(data.drop_last(), key),
        }
    }
}

/// A member of a delta of the message.
pub open spec fn in_message_delta(evt: JsonView, key: Seq<char>) -> Option<JsonView> {
    if is_type(evt, "message_delta"@) {
        evt.get(key)
    } else {
        None
    }
}

/// The last reason to stop.
pub open spec fn last_reason(data: Seq<JsonView>) -> Option<Seq<char>>
    decreases data.len(),
{
    if data.len() == 0 {
        None
    } else {
        let now = match in_message_delta(data.last(), "delta"@) {
            Some(d) => d.text_at("stop_reason"@),
            None => None,
        };
        match now {
            Some(r) => Some(r),
            None => last_reason(data.drop_last()),
        }
    }
}

/// The last count of tokens that were put out, zero where there is none.
pub open spec fn output_count(data: Seq<JsonView>) -> i64
    decreases data.len(),
{
    if data.len() == 0 {
        0
    } else {
        let now = match in_message_delta(data.last(), "usage"@) {
            Some(u) => u.i64_at("output_tokens"@),
            None => None,
        };
        match now {
            Some(n) => n,
            None => output_count(data.drop_last()),
        }
    }
}

// ---- what is owed ----

/// How many of the tool uses under these indexes came without an identifier.
pub open spec fn unnamed(data: Seq<JsonView>, ks: Seq<i64>) -> nat
    decreases ks.len(),
{
    if ks.len() == 0 {
        0
    } else {
        unnamed(data, ks.drop_last()) + if use_of(data, ks.last())->Some_0.text_at("id"@) is None {
            1nat
        } else {
            0
        }
    }
}

/// The event that completes the tool use at the place `j` of these indexes.
pub open spec fn owed_call(data: Seq<JsonView>, ks: Seq<i64>, j: int) -> EventView {
    let cb = use_of(data, ks[j])->Some_0;
    let input = input_of(data, ks[j]);
    completes_call(
        or_empty(cb.text_at("name"@)),
        if input.len() == 0 {
            "{}"@
        } else {
            input
        },
        match cb.text_at("id"@) {
            Some(id) => id,
            None => "llmswitch-"@ + "call"@ + "-"@ + decimal(unnamed(data, ks.take(j + 1))),
        },
    )
}

/// The event that completes the response. The tokens read from a cache are told, but are no part
/// of the total.
pub open spec fn owed_completion(data: Seq<JsonView>, ks: Seq<i64>) -> EventView {
    EventView::Completed {
        response_id: match first_id(data) {
            Some(id) => id,
            None => "llmswitch-"@ + "resp"@ + "-"@ + decimal(unnamed(data, ks) + 1),
        },
        token_usage: Some(
            TokenUsage {
                input_tokens: start_count(data, "input_tokens"@),
                cached_input_tokens: start_count(data, "cache_read_input_tokens"@),
                output_tokens: output_count(data),
                reasoning_output_tokens: 0,
                total_tokens: start_count(data, "cache_creation_input_tokens"@).wrapping_add(
                    start_count(data, "input_tokens"@),
                ).wrapping_add(output_count(data)),
            },
        ),
        end_turn: match last_reason(data) {
            Some(r) => if r == "end_turn"@ {
                Some(true)
            } else if r == "tool_use"@ {
                Some(false)
            } else {
                None
            },
            None => None,
        },
    }
}

/// Whether these are the indexes of the tool uses that were started, in increasing order.
pub open spec fn indexes_of(data: Seq<JsonView>, ks: Seq<i64>) -> bool {
    &&& forall|i: int, j: int| 0 <= i < j < ks.len() ==> ks[i] < ks[j]
    &&& forall|k: i64|
        #![trigger ks.contains(k)]
        ks.contains(k) <==> exists|p: int|
            0 <= p < data.len() && started_use(#[trigger] data[p], k) is Some
}

// ---- proofs ----

proof fn lemma_types()
    ensures
        "error"@.len() == 5,
        "message_start"@.len() == 13,
        "content_block_start"@.len() == 19,
        "content_block_delta"@.len() == 19,
        "message_delta"@.len() == 13,
        "content_block_start"@ != "content_block_delta"@,
        "message_start"@ != "message_delta"@,
        "text_delta"@ != "input_json_delta"@,
{
    reveal_strlit("error");
    reveal_strlit("message_start");
    reveal_strlit("content_block_start");
    reveal_strlit("content_block_delta");
    reveal_strlit("message_delta");
    reveal_strlit("text_delta");
    reveal_strlit("input_json_delta");
    assert("content_block_start"@[14] == 's' && "content_block_delta"@[14] == 'd');
    assert("message_start"@[8] == 's' && "message_delta"@[8] == 'd');
    assert("text_delta"@.len() != "input_json_delta"@.len());
}

spec fn block_tracks(b: BlockView, data: Seq<JsonView>, i: i64) -> bool {
    &&& b.partial_json == input_of(data, i)
    &&& match use_of(data, i) {
        Some(cb) => b.is_tool_use && b.call_id == cb.text_at("id"@) && b.name == cb.text_at(
            "name"@,
        ),
        None => !b.is_tool_use && b.call_id is None && b.name is None,
    }
}

spec fn tracks(m: AnthropicModel, data: Seq<JsonView>) -> bool {
    &&& m.text == text_of(data)
    &&& m.response_id == first_id(data)
    &&& m.stop_reason == last_reason(data)
    &&& m.input_tokens == start_count(data, "input_tokens"@)
    &&& m.cached_input_tokens == start_count(data, "cache_read_input_tokens"@)
    &&& m.cache_creation_input_tokens == start_count(data, "cache_creation_input_tokens"@)
    &&& m.output_tokens == output_count(data)
    &&& m.made_up == 0
    &&& forall|i: i64|
        #![trigger m.blocks.contains_key(i)]
        block_tracks(crate::connector::anthropic_sse::block_at(m.blocks, i), data, i)
}

proof fn lemma_tracks_event(m: AnthropicModel, data: Seq<JsonView>, evt: JsonView)
    requires
        tracks(m, data),
        !is_type(evt, "error"@),
    ensures
        ({
            let (next, r) = anthropic_pushed(m, evt);
            &&& tracks(next, data.push(evt))
            &&& r == Ok::<Seq<EventView>, Seq<char>>(
                match added_text(evt) {
                    Some(t) => seq![EventView::OutputTextDelta(t)],
                    None => Seq::empty(),
                },
            )
        }),
{
    lemma_types();
    let now = data.push(evt);
    assert(now.drop_last() =~= data);
    let next = anthropic_pushed(m, evt).0;
    assert forall|i: i64| #![trigger next.blocks.contains_key(i)] block_tracks(
        crate::connector::anthropic_sse::block_at(next.blocks, i),
        now,
        i,
    ) by {
        assert(m.blocks.contains_key(i) || !m.blocks.contains_key(i));
        assert(block_tracks(crate::connector::anthropic_sse::block_at(m.blocks, i), data, i));
    }
}

proof fn lemma_tracks(data: Seq<JsonView>)
    requires
        no_errors(data),
    ensures
        ({
            let (m, r) = pushed_all::<AnthropicSseState>(anthropic_start(), data);
            r == Ok::<Seq<EventView>, Seq<char>>(deltas_of(data)) && tracks(m, data)
        }),
    decreases data.len(),
{
    if data.len() > 0 {
        let head = data.drop_last();
        let evt = data.last();
        assert forall|i: int| 0 <= i < head.len() implies !is_type(
            #[trigger] head[i],
            "error"@,
        ) by {
            assert(head[i] == data[i]);
        }
        assert(!is_type(data[data.len() - 1], "error"@));
        lemma_tracks(head);
        let m = pushed_all::<AnthropicSseState>(anthropic_start(), head).0;
        lemma_tracks_event(m, head, evt);
        assert(head.push(evt) =~= data);
        let more = anthropic_pushed(m, evt).1->Ok_0;
        match added_text(evt) {
            Some(t) => {
                assert(deltas_of(head) + more =~= deltas_of(head).push(
                    EventView::OutputTextDelta(t),
                ));
            },
            None => {
                assert(deltas_of(head) + more =~= deltas_of(head));
            },
        }
    }
}

proof fn lemma_use_of(data: Seq<JsonView>, k: i64)
    ensures
        use_of(data, k) is Some <==> exists|p: int|
            0 <= p < data.len() && started_use(#[trigger] data[p], k) is Some,
    decreases data.len(),
{
    if data.len() > 0 {
        let head = data.drop_last();
        lemma_use_of(head, k);
        if use_of(head, k) is Some {
            let p = choose|p: int|
                0 <= p < head.len() && started_use(#[trigger] head[p], k) is Some;
            assert(data[p] == head[p]);
        }
        assert(data[data.len() - 1] == data.last());
        if exists|p: int| 0 <= p < data.len() && started_use(#[trigger] data[p], k) is Some {
            let p = choose|p: int|
                0 <= p < data.len() && started_use(#[trigger] data[p], k) is Some;
            if p < head.len() {
                assert(head[p] == data[p]);
            }
        }
    }
}

/// The places among some keys that hold tool uses.
spec fn uses_among(m: AnthropicModel, keys: Seq<i64>) -> Seq<i64> {
    keys.filter(|k: i64| m.blocks[k].is_tool_use)
}

proof fn lemma_uses_done(m: AnthropicModel, data: Seq<JsonView>, keys: Seq<i64>)
    requires
        tracks(m, data),
        keys.len() < u64::MAX,
        forall|j: int| 0 <= j < keys.len() ==> m.blocks.contains_key(#[trigger] keys[j]),
    ensures
        ({
            let ks = uses_among(m, keys);
            let r = tool_uses_done(keys.map_values(|k: i64| m.blocks[k]), 0);
            &&& r.0 == Seq::new(ks.len(), |j: int| owed_call(data, ks, j))
            &&& r.1 == unnamed(data, ks)
            &&& unnamed(data, ks) <= keys.len()
        }),
    decreases keys.len(),
{
    reveal(Seq::filter);
    let blocks = keys.map_values(|k: i64| m.blocks[k]);
    let ks = uses_among(m, keys);
    let want = Seq::new(ks.len(), |j: int| owed_call(data, ks, j));
    if keys.len() == 0 {
        assert(tool_uses_done(blocks, 0).0 =~= want);
    } else {
        let kh = keys.drop_last();
        let k = keys.last();
        assert(m.blocks.contains_key(keys[keys.len() - 1]));
        assert forall|j: int| 0 <= j < kh.len() implies m.blocks.contains_key(
            #[trigger] kh[j],
        ) by {
            assert(kh[j] == keys[j]);
        }
        lemma_uses_done(m, data, kh);
        assert(blocks.drop_last() =~= kh.map_values(|k: i64| m.blocks[k]));
        let before = uses_among(m, kh);
        assert(block_tracks(m.blocks[k], data, k)) by {
            assert(crate::connector::anthropic_sse::block_at(m.blocks, k) == m.blocks[k]);
        }
        if m.blocks[k].is_tool_use {
            assert(ks == before.push(k));
            assert(ks.drop_last() =~= before);
            assert(ks.take(ks.len() as int) =~= ks);
            let old = Seq::new(before.len(), |j: int| owed_call(data, before, j));
            assert forall|j: int| 0 <= j < before.len() implies old[j] == want[j] by {
                assert(before.take(j + 1) =~= ks.take(j + 1));
            }
            assert(tool_uses_done(blocks, 0).0 =~= want);
        } else {
            assert(ks == before);
        }
    }
}

proof fn lemma_filter_increasing(m: AnthropicModel, keys: Seq<i64>)
    requires
        increasing(keys),
    ensures
        increasing(uses_among(m, keys)),
        forall|k: i64| #[trigger]
            uses_among(m, keys).contains(k) <==> keys.contains(k) && m.blocks[k].is_tool_use,
    decreases keys.len(),
{
    reveal(Seq::filter);
    if keys.len() > 0 {
        let kh = keys.drop_last();
        let last = keys.last();
        lemma_filter_increasing(m, kh);
        let before = uses_among(m, kh);
        let now = uses_among(m, keys);
        assert(kh.push(last) =~= keys);
        assert forall|k: i64| #[trigger]
            now.contains(k) <==> keys.contains(k) && m.blocks[k].is_tool_use by {
            super::lists::lemma_push_contains(kh, last, k);
            super::lists::lemma_push_contains(before, last, k);
            assert(before.contains(k) <==> kh.contains(k) && m.blocks[k].is_tool_use);
        }
        assert forall|i: int, j: int| 0 <= i < j < now.len() implies now[i] < now[j] by {
            if j == before.len() {
                assert(before.contains(before[i]));
                let p = choose|p: int| 0 <= p < kh.len() && kh[p] == before[i];
                assert(keys[p] < keys[keys.len() - 1]);
            }
        }
    }
}

// ---- laws ----

/// What a stream without errors comes to: each text as it arrives; then the tool uses in
/// increasing order of the index of their block, each with the name and the identifier that its
/// block was started with and with all pieces of its input in the order of arrival, or with an
/// empty object where there are none; then the whole text as one message, if there is text; then
/// the completed response, with the first identifier, the last token counts and the last reason to
/// stop. An event for another block leaves a block as it is. Identifiers that were not given are
/// made up and counted.
pub proof fn law_anthropic_stream_comes_to(data: Seq<JsonView>, ks: Seq<i64>)
    requires
        no_errors(data),
        indexes_of(data, ks),
        data.len() < u64::MAX,
    ensures
        translated::<AnthropicSseState>(anthropic_start(), data, true) == Ok::<
            Seq<EventView>,
            Seq<char>,
        >(
            deltas_of(data) + Seq::new(ks.len(), |j: int| owed_call(data, ks, j)) + owed_message(
                text_of(data),
            ) + seq![owed_completion(data, ks)],
        ),
        translated::<AnthropicSseState>(anthropic_start(), data, false) == Ok::<
            Seq<EventView>,
            Seq<char>,
        >(deltas_of(data)),
{
    lemma_tracks(data);
    let m = pushed_all::<AnthropicSseState>(anthropic_start(), data).0;
    lemma_anthropic_blocks_finite(data);
    law_calls_come_in_index_order(m.blocks);
    let keys = keys_in_order(m.blocks);
    lemma_few_blocks(data);
    lemma_few_keys(keys, m);
    assert forall|j: int| 0 <= j < keys.len() implies m.blocks.contains_key(
        #[trigger] keys[j],
    ) by {
        assert(keys.to_set().contains(keys[j]));
    }
    lemma_uses_done(m, data, keys);
    lemma_filter_increasing(m, keys);
    let found = uses_among(m, keys);
    assert(found.to_set() =~= ks.to_set()) by {
        assert forall|k: i64| found.to_set().contains(k) <==> ks.to_set().contains(k) by {
            lemma_use_of(data, k);
            assert(found.to_set().contains(k) <==> found.contains(k));
            assert(ks.to_set().contains(k) <==> ks.contains(k));
            assert(keys.to_set().contains(k) <==> keys.contains(k));
            assert(keys.contains(k) <==> m.blocks.contains_key(k));
            assert(block_tracks(
                crate::connector::anthropic_sse::block_at(m.blocks, k),
                data,
                k,
            ));
        }
    }
    lemma_increasing_unique(found, ks);
    let calls = Seq::new(ks.len(), |j: int| owed_call(data, ks, j));
    let done = anthropic_finished(m).1;
    assert(values_in_order(m.blocks) =~= keys.map_values(|k: i64| m.blocks[k]));
    assert(done.last() == owed_completion(data, ks));
    assert(done =~= calls + owed_message(text_of(data)) + seq![owed_completion(data, ks)]);
    assert(deltas_of(data) + done =~= deltas_of(data) + calls + owed_message(text_of(data)) + seq![
        owed_completion(data, ks),
    ]);
}

/// Each event speaks of one block at most.
proof fn lemma_few_blocks(data: Seq<JsonView>)
    ensures
        pushed_all::<AnthropicSseState>(anthropic_start(), data).0.blocks.dom().finite(),
        pushed_all::<AnthropicSseState>(anthropic_start(), data).0.blocks.dom().len() <= data.len(),
    decreases data.len(),
{
    if data.len() > 0 {
        lemma_few_blocks(data.drop_last());
    }
}

proof fn lemma_few_keys(keys: Seq<i64>, m: AnthropicModel)
    requires
        lists_keys(keys, m.blocks),
        m.blocks.dom().finite(),
    ensures
        keys.len() == m.blocks.dom().len(),
{
    assert(keys.no_duplicates());
    keys.unique_seq_to_set();
}

/// A stream fails at its first error, and shows it, whatever follows.
pub proof fn law_anthropic_stream_fails(
    before: Seq<JsonView>,
    evt: JsonView,
    behind: Seq<JsonView>,
    done: bool,
)
    requires
        no_errors(before),
        is_type(evt, "error"@),
    ensures
        translated::<AnthropicSseState>(anthropic_start(), before.push(evt) + behind, done) == Err::<
            Seq<EventView>,
            Seq<char>,
        >(
            "anthropic upstream error: "@ + (match evt.get("error"@) {
                Some(e) => json_text(e),
                None => Seq::empty(),
            }),
        ),
{
    let all = before.push(evt) + behind;
    let n = before.len() as int;
    lemma_tracks(before);
    assert(all.take(n + 1).drop_last() =~= before);
    assert(all.take(n + 1).last() == evt);
    crate::connector::lemma_failure_stays::<AnthropicSseState>(anthropic_start(), all, n + 1);
}

/// Once a response is completed, nothing of it is left: to end the stream again completes an empty
/// response.
pub proof fn law_anthropic_responses_leave_nothing(m: AnthropicModel)
    ensures
        ({
            let after = anthropic_finished(m).0;
            &&& after.text.len() == 0
            &&& after.response_id is None
            &&& forall|i: i64| !(#[trigger] after.blocks.contains_key(i))
        }),
{
}

} // verus!
