//! What a Chat Completions stream comes to.

use crate::connector::chat_sse::{
    calls_after, calls_after_all, calls_done, chat_finished, chat_pushed, chat_start, tool_after,
    ChatModel, ChatSseState, ToolView,
};
use crate::connector::{pushed_all, translated};
use crate::json::{json_text, JsonView};
use crate::order::{lemma_keys_in_order, lists_keys, values_in_order};
use crate::protocol::{ContentView, EventView, ItemView, TokenUsage};
use crate::text::decimal;
use vstd::prelude::*;

verus! {

// ---- what is seen of records ----

/// Whether no record carries an error.
pub open spec fn no_errors(data: Seq<JsonView>) -> bool {
    forall|i: int| 0 <= i < data.len() ==> (#[trigger] data[i]).get("error"@) is None
}

/// A text that is not empty.
pub open spec fn filled(s: Option<Seq<char>>) -> Option<Seq<char>> {
    match s {
        Some(t) => if t.len() > 0 {
            Some(t)
        } else {
            None
        },
        None => None,
    }
}

/// The member of the first choice of a record under `key`.
pub open spec fn in_choice(record: JsonView, key: Seq<char>) -> Option<JsonView> {
    match record.list_at("choices"@) {
        Some(cs) => if cs.len() > 0 {
            cs[0].get(key)
        } else {
            None
        },
        None => None,
    }
}

/// The text that a record adds.
pub open spec fn added_text(record: JsonView) -> Option<Seq<char>> {
    match in_choice(record, "delta"@) {
        Some(delta) => filled(delta.text_at("content"@)),
        None => None,
    }
}

/// The pieces of calls that a record adds.
pub open spec fn added_pieces(record: JsonView) -> Seq<JsonView> {
    match in_choice(record, "delta"@) {
        Some(delta) => match delta.list_at("tool_calls"@) {
            Some(pieces) => pieces,
            None => Seq::empty(),
        },
        None => Seq::empty(),
    }
}

/// The events that pass the text of records on.
pub open spec fn deltas_of(data: Seq<JsonView>) -> Seq<EventView>
    decreases data.len(),
{
    if data.len() == 0 {
        Seq::empty()
    } else {
        match added_text(data.last()) {
            Some(t) => deltas_of(data.drop_last()).push(EventView::OutputTextDelta(t)),
            None => deltas_of(data.drop_last()),
        }
    }
}

/// The text of records, all pieces in one.
pub open spec fn text_of(data: Seq<JsonView>) -> Seq<char>
    decreases data.len(),
{
    if data.len() == 0 {
        Seq::empty()
    } else {
        match added_text(data.last()) {
            Some(t) => text_of(data.drop_last()) + t,
            None => text_of(data.drop_last()),
        }
    }
}

/// The first identifier in any record that is not empty.
pub open spec fn first_id(data: Seq<JsonView>) -> Option<Seq<char>>
    decreases data.len(),
{
    if data.len() == 0 {
        None
    } else {
        match first_id(data.drop_last()) {
            Some(id) => Some(id),
            None => filled(data.last().text_at("id"@)),
        }
    }
}

/// The last token counts in any record that are not null, whether or not it has choices.
pub open spec fn last_usage(data: Seq<JsonView>) -> Option<JsonView>
    decreases data.len(),
{
    if data.len() == 0 {
        None
    } else {
        match data.last().get("usage"@) {
            Some(u) => if u is Null {
                last_usage(data.drop_last())
            } else {
                Some(u)
            },
            None => last_usage(data.drop_last()),
        }
    }
}

/// The last reason to stop that is not empty.
pub open spec fn last_reason(data: Seq<JsonView>) -> Option<Seq<char>>
    decreases data.len(),
{
    if data.len() == 0 {
        None
    } else {
        let now = match in_choice(data.last(), "finish_reason"@) {
            Some(v) => filled(v.as_text()),
            None => None,
        };
        match now {
            Some(r) => Some(r),
            None => last_reason(data.drop_last()),
        }
    }
}

/// The pieces of calls of all records, in the order of arrival.
pub open spec fn pieces_of(data: Seq<JsonView>) -> Seq<JsonView>
    decreases data.len(),
{
    if data.len() == 0 {
        Seq::empty()
    } else {
        pieces_of(data.drop_last()) + added_pieces(data.last())
    }
}

/// The index of the call that a piece belongs to.
pub open spec fn belongs_to(piece: JsonView) -> i64 {
    match piece.i64_at("index"@) {
        Some(i) => i,
        None => 0,
    }
}

/// The pieces of one call, in the order of arrival.
pub open spec fn pieces_at(pieces: Seq<JsonView>, i: i64) -> Seq<JsonView> {
    pieces.filter(|p: JsonView| belongs_to(p) == i)
}

/// A member of the function that a piece speaks of.
pub open spec fn in_function(piece: JsonView, key: Seq<char>) -> Option<Seq<char>> {
    match piece.get("function"@) {
        Some(f) => f.text_at(key),
        None => None,
    }
}

/// The arguments that pieces hold, all in one.
pub open spec fn joined_arguments(pieces: Seq<JsonView>) -> Seq<char>
    decreases pieces.len(),
{
    if pieces.len() == 0 {
        Seq::empty()
    } else {
        match in_function(pieces.last(), "arguments"@) {
            Some(a) => joined_arguments(pieces.drop_last()) + a,
            None => joined_arguments(pieces.drop_last()),
        }
    }
}

/// The last name that pieces hold.
pub open spec fn last_name(pieces: Seq<JsonView>) -> Option<Seq<char>>
    decreases pieces.len(),
{
    if pieces.len() == 0 {
        None
    } else {
        match filled(in_function(pieces.last(), "name"@)) {
            Some(n) => Some(n),
            None => last_name(pieces.drop_last()),
        }
    }
}

/// The last identifier that pieces hold.
pub open spec fn last_call_id(pieces: Seq<JsonView>) -> Option<Seq<char>>
    decreases pieces.len(),
{
    if pieces.len() == 0 {
        None
    } else {
        match filled(pieces.last().text_at("id"@)) {
            Some(id) => Some(id),
            None => last_call_id(pieces.drop_last()),
        }
    }
}

// ---- what is owed ----

/// How many of the calls under these indexes came without an identifier.
pub open spec fn unnamed(data: Seq<JsonView>, ks: Seq<i64>) -> nat
    decreases ks.len(),
{
    if ks.len() == 0 {
        0
    } else {
        unnamed(data, ks.drop_last()) + if last_call_id(
            pieces_at(pieces_of(data), ks.last()),
        ) is None {
            1nat
        } else {
            0
        }
    }
}

/// A text, empty where there is none.
pub open spec fn or_empty(s: Option<Seq<char>>) -> Seq<char> {
    match s {
        Some(t) => t,
        None => Seq::empty(),
    }
}

/// The event that completes a call.
pub open spec fn completes_call(
    name: Seq<char>,
    arguments: Seq<char>,
    call_id: Seq<char>,
) -> EventView {
    EventView::OutputItemDone(
        ItemView::FunctionCall {
            id: None,
            name,
            namespace: None,
            arguments,
            call_id,
            metadata: None,
        },
    )
}

/// The event that completes the call at the place `j` of these indexes.
pub open spec fn owed_call(data: Seq<JsonView>, ks: Seq<i64>, j: int) -> EventView {
    let pieces = pieces_at(pieces_of(data), ks[j]);
    completes_call(
        or_empty(last_name(pieces)),
        joined_arguments(pieces),
        match last_call_id(pieces) {
            Some(id) => id,
            None => "llmswitch-"@ + "call"@ + "-"@ + decimal(unnamed(data, ks.take(j + 1))),
        },
    )
}

/// The event that completes a message of one text, if there is text.
pub open spec fn owed_message(text: Seq<char>) -> Seq<EventView> {
    if text.len() > 0 {
        seq![
            EventView::OutputItemDone(
                ItemView::Message {
                    id: None,
                    role: "assistant"@,
                    content: seq![ContentView::OutputText(text)],
                    phase: None,
                    metadata: None,
                },
            ),
        ]
    } else {
        Seq::empty()
    }
}

/// A count, zero where there is none.
pub open spec fn count(v: Option<i64>) -> i64 {
    match v {
        Some(n) => n,
        None => 0,
    }
}

/// The event that completes the response.
pub open spec fn owed_completion(data: Seq<JsonView>, ks: Seq<i64>) -> EventView {
    EventView::Completed {
        response_id: match first_id(data) {
            Some(id) => id,
            None => "llmswitch-"@ + "resp"@ + "-"@ + decimal(unnamed(data, ks) + 1),
        },
        token_usage: match last_usage(data) {
            Some(u) => Some(
                TokenUsage {
                    input_tokens: count(u.i64_at("prompt_tokens"@)),
                    cached_input_tokens: match u.get("prompt_tokens_details"@) {
                        Some(d) => count(d.i64_at("cached_tokens"@)),
                        None => 0,
                    },
                    output_tokens: count(u.i64_at("completion_tokens"@)),
                    reasoning_output_tokens: 0,
                    total_tokens: count(u.i64_at("total_tokens"@)),
                },
            ),
            None => None,
        },
        end_turn: match last_reason(data) {
            Some(r) => if r == "stop"@ {
                Some(true)
            } else if r == "tool_calls"@ || r == "length"@ {
                Some(false)
            } else {
                None
            },
            None => None,
        },
    }
}

// ---- proofs ----

spec fn gathered(pieces: Seq<JsonView>) -> ToolView {
    ToolView {
        call_id: last_call_id(pieces),
        name: last_name(pieces),
        arguments: joined_arguments(pieces),
    }
}

spec fn gathers(calls: Map<i64, ToolView>, pieces: Seq<JsonView>) -> bool {
    forall|i: i64|
        #![trigger calls.contains_key(i)]
        #![trigger pieces_at(pieces, i)]
        (calls.contains_key(i) <==> pieces_at(pieces, i).len() > 0) && (calls.contains_key(i)
            ==> calls[i] == gathered(pieces_at(pieces, i)))
}

proof fn lemma_gather_one(calls: Map<i64, ToolView>, pieces: Seq<JsonView>, p: JsonView)
    requires
        gathers(calls, pieces),
    ensures
        gathers(calls_after(calls, p), pieces.push(p)),
{
    reveal(Seq::filter);
    let now = calls_after(calls, p);
    let all = pieces.push(p);
    assert(all.drop_last() =~= pieces);
    assert forall|i: i64|
        #![trigger now.contains_key(i)]
        #![trigger pieces_at(all, i)]
        (now.contains_key(i) <==> pieces_at(all, i).len() > 0) && (now.contains_key(i) ==> now[i]
            == gathered(pieces_at(all, i))) by {
        assert(calls.contains_key(i) <==> pieces_at(pieces, i).len() > 0);
        if belongs_to(p) == i {
            let before = pieces_at(pieces, i);
            assert(pieces_at(all, i) == before.push(p));
            assert(before.push(p).drop_last() =~= before);
            let acc = if calls.contains_key(i) {
                calls[i]
            } else {
                crate::connector::chat_sse::empty_tool()
            };
            if !calls.contains_key(i) {
                assert(before =~= Seq::empty());
            }
            assert(acc == gathered(before));
            assert(now[i] == tool_after(acc, p));
            assert(tool_after(acc, p) == gathered(before.push(p)));
        } else {
            assert(pieces_at(all, i) == pieces_at(pieces, i));
        }
    }
}

proof fn lemma_gather_all(calls: Map<i64, ToolView>, before: Seq<JsonView>, pieces: Seq<JsonView>)
    requires
        gathers(calls, before),
    ensures
        gathers(calls_after_all(calls, pieces), before + pieces),
    decreases pieces.len(),
{
    if pieces.len() == 0 {
        assert(before + pieces =~= before);
    } else {
        let head = pieces.drop_last();
        lemma_gather_all(calls, before, head);
        lemma_gather_one(calls_after_all(calls, head), before + head, pieces.last());
        assert((before + head).push(pieces.last()) =~= before + pieces);
    }
}

spec fn tracks(m: ChatModel, data: Seq<JsonView>) -> bool {
    &&& m.text == text_of(data)
    &&& m.response_id == first_id(data)
    &&& m.finish_reason == last_reason(data)
    &&& m.usage == last_usage(data)
    &&& m.made_up == 0
    &&& gathers(m.calls, pieces_of(data))
}

proof fn lemma_tracks(data: Seq<JsonView>)
    requires
        no_errors(data),
    ensures
        ({
            let (m, r) = pushed_all::<ChatSseState>(chat_start(), data);
            r == Ok::<Seq<EventView>, Seq<char>>(deltas_of(data)) && tracks(m, data)
        }),
    decreases data.len(),
{
    if data.len() == 0 {
        reveal(Seq::filter);
        assert(gathers(chat_start().calls, pieces_of(data))) by {
            assert forall|i: i64| pieces_at(pieces_of(data), i).len() == 0 by {}
        }
    } else {
        let head = data.drop_last();
        let record = data.last();
        assert forall|i: int| 0 <= i < head.len() implies (#[trigger] head[i]).get(
            "error"@,
        ) is None by {
            assert(head[i] == data[i]);
        }
        assert(data[data.len() - 1].get("error"@) is None);
        lemma_tracks(head);
        let m = pushed_all::<ChatSseState>(chat_start(), head).0;
        lemma_gather_all(m.calls, pieces_of(head), added_pieces(record));
        lemma_gather_all(m.calls, pieces_of(head), Seq::empty());
        let more = chat_pushed(m, record).1->Ok_0;
        match added_text(record) {
            Some(t) => {
                assert(deltas_of(head) + more =~= deltas_of(head).push(
                    EventView::OutputTextDelta(t),
                ));
            },
            None => {
                assert(deltas_of(head) + more =~= deltas_of(head));
            },
        }
        if record.list_at("choices"@) is None || record.list_at("choices"@)->Some_0.len() == 0 {
            assert(pieces_of(head) + added_pieces(record) =~= pieces_of(head));
        }
    }
}

proof fn lemma_calls_done(data: Seq<JsonView>, ks: Seq<i64>, accs: Seq<ToolView>)
    requires
        ks.len() == accs.len(),
        ks.len() < u64::MAX,
        forall|j: int|
            0 <= j < ks.len() ==> accs[j] == gathered(
                pieces_at(pieces_of(data), #[trigger] ks[j]),
            ),
    ensures
        calls_done(accs, 0).0 == Seq::new(ks.len(), |j: int| owed_call(data, ks, j)),
        calls_done(accs, 0).1 == unnamed(data, ks),
        unnamed(data, ks) <= ks.len(),
    decreases ks.len(),
{
    let want = Seq::new(ks.len(), |j: int| owed_call(data, ks, j));
    if ks.len() == 0 {
        assert(calls_done(accs, 0).0 =~= want);
    } else {
        let kh = ks.drop_last();
        let ah = accs.drop_last();
        assert forall|j: int| 0 <= j < kh.len() implies ah[j] == gathered(
            pieces_at(pieces_of(data), #[trigger] kh[j]),
        ) by {
            assert(ks[j] == kh[j]);
        }
        lemma_calls_done(data, kh, ah);
        let n = ks.len() - 1;
        assert(accs[n] == gathered(pieces_at(pieces_of(data), ks[n])));
        assert(ks.take(n + 1) =~= ks);
        let before = Seq::new(kh.len(), |j: int| owed_call(data, kh, j));
        assert forall|j: int| 0 <= j < n implies before[j] == want[j] by {
            assert(kh.take(j + 1) =~= ks.take(j + 1));
        }
        assert(calls_done(accs, 0).0 =~= want);
    }
}

/// Whether these are the indexes of the calls that records speak of, in increasing order.
pub open spec fn indexes_of(data: Seq<JsonView>, ks: Seq<i64>) -> bool {
    &&& forall|i: int, j: int| 0 <= i < j < ks.len() ==> ks[i] < ks[j]
    &&& forall|k: i64|
        #![trigger ks.contains(k)]
        ks.contains(k) <==> exists|p: int|
            0 <= p < pieces_of(data).len() && belongs_to(#[trigger] pieces_of(data)[p]) == k
}

proof fn lemma_has_pieces(pieces: Seq<JsonView>, k: i64)
    ensures
        pieces_at(pieces, k).len() > 0 <==> exists|p: int|
            0 <= p < pieces.len() && belongs_to(#[trigger] pieces[p]) == k,
{
    let f = |p: JsonView| belongs_to(p) == k;
    if exists|p: int| 0 <= p < pieces.len() && belongs_to(#[trigger] pieces[p]) == k {
        let p = choose|p: int| 0 <= p < pieces.len() && belongs_to(#[trigger] pieces[p]) == k;
        pieces.lemma_filter_contains(f, p);
    }
    if pieces_at(pieces, k).len() > 0 {
        let x = pieces.filter(f)[0];
        pieces.lemma_filter_pred(f, 0);
        assert(pieces.filter(f).contains(x));
        pieces.lemma_filter_contains_rev(f, x);
        let p = choose|p: int| 0 <= p < pieces.len() && pieces[p] == x;
        assert(belongs_to(pieces[p]) == k);
    }
}

// ---- laws ----

/// What a stream without errors comes to: each text as it arrives; then the calls in increasing
/// order of their index, each with the last name and identifier that was given for it and with all
/// pieces of its arguments in the order of arrival; then the whole text as one message, if there
/// is text; then the completed response, with the first identifier, the last token counts and the
/// last reason to stop that any record gave. Identifiers that were not given are made up and
/// counted.
pub proof fn law_chat_stream_comes_to(data: Seq<JsonView>, ks: Seq<i64>)
    requires
        no_errors(data),
        indexes_of(data, ks),
        ks.len() < u64::MAX,
    ensures
        translated::<ChatSseState>(chat_start(), data, true) == Ok::<Seq<EventView>, Seq<char>>(
            deltas_of(data) + Seq::new(ks.len(), |j: int| owed_call(data, ks, j)) + owed_message(
                text_of(data),
            ) + seq![owed_completion(data, ks)],
        ),
        translated::<ChatSseState>(chat_start(), data, false) == Ok::<Seq<EventView>, Seq<char>>(
            deltas_of(data),
        ),
{
    lemma_tracks(data);
    let m = pushed_all::<ChatSseState>(chat_start(), data).0;
    let pieces = pieces_of(data);
    assert(ks.to_set() =~= m.calls.dom()) by {
        assert forall|k: i64| ks.to_set().contains(k) <==> m.calls.dom().contains(k) by {
            lemma_has_pieces(pieces, k);
            assert(ks.to_set().contains(k) <==> ks.contains(k));
            assert(m.calls.contains_key(k) <==> pieces_at(pieces, k).len() > 0);
        }
    }
    assert(lists_keys(ks, m.calls));
    lemma_keys_in_order(ks, m.calls);
    let accs = values_in_order(m.calls);
    assert forall|j: int| 0 <= j < ks.len() implies accs[j] == gathered(
        pieces_at(pieces, #[trigger] ks[j]),
    ) by {
        assert(ks.contains(ks[j]));
        assert(ks.to_set().contains(ks[j]));
        assert(m.calls.contains_key(ks[j]));
    }
    lemma_calls_done(data, ks, accs);
    let calls = Seq::new(ks.len(), |j: int| owed_call(data, ks, j));
    let done = chat_finished(m).1;
    assert(done.last() == owed_completion(data, ks));
    assert(done =~= calls + owed_message(text_of(data)) + seq![owed_completion(data, ks)]);
    assert(deltas_of(data) + done =~= deltas_of(data) + calls + owed_message(text_of(data)) + seq![
        owed_completion(data, ks),
    ]);
}

/// A stream fails at its first record with an error, and shows that error, whatever follows.
pub proof fn law_chat_stream_fails(
    before: Seq<JsonView>,
    record: JsonView,
    behind: Seq<JsonView>,
    done: bool,
)
    requires
        no_errors(before),
        record.get("error"@) is Some,
    ensures
        translated::<ChatSseState>(chat_start(), before.push(record) + behind, done) == Err::<
            Seq<EventView>,
            Seq<char>,
        >("upstream error in SSE chunk: "@ + json_text(record.get("error"@)->Some_0)),
{
    let all = before.push(record) + behind;
    let n = before.len() as int;
    lemma_tracks(before);
    assert(all.take(n + 1).drop_last() =~= before);
    assert(all.take(n + 1).last() == record);
    crate::connector::lemma_failure_stays::<ChatSseState>(chat_start(), all, n + 1);
}

/// Once a response is completed, nothing of it is left: to end the stream again completes an empty
/// response.
pub proof fn law_chat_responses_leave_nothing(m: ChatModel)
    ensures
        ({
            let after = chat_finished(m).0;
            &&& after.text.len() == 0
            &&& after.response_id is None
            &&& forall|i: i64| !(#[trigger] after.calls.contains_key(i))
        }),
{
}

} // verus!
