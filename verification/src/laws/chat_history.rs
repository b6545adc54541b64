//! What a Chat Completions request says of the history.

use super::chat::{
    filled, law_reordering_keeps_all, lemma_bystanders_have_none, lemma_filled, lemma_laid_out,
    lemma_reordered_without_orphans, lemma_results_have_id, lemma_scan_in_parts, lemma_scan_start, lemma_shapes, makes_call, scan_inv,
};
use super::lists::{lemma_others_contains, lemma_push_contains};
use crate::connector::chat_req::{
    agent_text, chat_messages, message_text, output_text, scan_items, scan_start, Scan,
};
use crate::connector::reorder::{
    bystanders, call_ids, laid_out, placed_all, present, reordered, result_id,
    results_for, Laid,
};
use crate::json::JsonView;
use crate::protocol::ResponseItem;
use vstd::prelude::*;

verus! {

// ---- what is seen of messages ----

/// Whether a message carries a result of this call.
pub open spec fn carries(m: JsonView, id: Seq<char>) -> bool {
    m.text_at("role"@) == Some("tool"@) && m.text_at("tool_call_id"@) == Some(id)
}

/// Whether a message carries the result of some call.
pub open spec fn carries_some(m: JsonView) -> bool {
    m.text_at("role"@) == Some("tool"@) && m.text_at("tool_call_id"@) is Some
}

/// Whether a message makes this call and no other.
pub open spec fn makes(m: JsonView, id: Seq<char>) -> bool {
    &&& m.text_at("role"@) == Some("assistant"@)
    &&& m.list_at("tool_calls"@) matches Some(cs) && cs.len() == 1 && cs[0].text_at("id"@) == Some(
        id,
    )
}

/// The messages that carry no result, in their order.
pub open spec fn plain_part(ms: Seq<JsonView>) -> Seq<JsonView> {
    ms.filter(|m: JsonView| !carries_some(m))
}

/// The messages that carry a result of this call, in their order.
pub open spec fn result_part(ms: Seq<JsonView>, id: Seq<char>) -> Seq<JsonView> {
    ms.filter(|m: JsonView| carries(m, id))
}

/// A message that carries a result.
pub open spec fn carrying(id: Seq<char>, content: Seq<char>) -> JsonView {
    JsonView::Object(
        map![
            "role"@ => JsonView::Text("tool"@),
            "tool_call_id"@ => JsonView::Text(id),
            "content"@ => JsonView::Text(content),
        ],
    )
}

// ---- what is owed to a history ----

/// Whether a history makes this call.
pub open spec fn is_called(input: Seq<ResponseItem>, id: Seq<char>) -> bool {
    exists|i: int| 0 <= i < input.len() && makes_call(#[trigger] input[i], id)
}

/// The messages that an item is sent as, results left aside.
pub open spec fn sent_as(item: ResponseItem) -> Seq<JsonView> {
    match item {
        ResponseItem::Message { role, content, .. } => match message_text(content@) {
            Ok(text) => seq![
                JsonView::Object(
                    map!["role"@ => JsonView::Text(role@), "content"@ => JsonView::Text(text)],
                ),
            ],
            Err(_) => Seq::empty(),
        },
        ResponseItem::AgentMessage { content, .. } => match agent_text(content@) {
            Ok(text) => seq![
                JsonView::Object(
                    map![
                        "role"@ => JsonView::Text("assistant"@),
                        "content"@ => JsonView::Text(text),
                    ],
                ),
            ],
            Err(_) => Seq::empty(),
        },
        ResponseItem::FunctionCall { name, arguments, call_id, .. } => seq![
            JsonView::Object(
                map![
                    "role"@ => JsonView::Text("assistant"@),
                    "tool_calls"@ => JsonView::List(seq![
                        JsonView::Object(map![
                            "id"@ => JsonView::Text(call_id@),
                            "type"@ => JsonView::Text("function"@),
                            "function"@ => JsonView::Object(map![
                                "name"@ => JsonView::Text(name@),
                                "arguments"@ => JsonView::Text(arguments@),
                            ]),
                        ]),
                    ]),
                ],
            ),
        ],
        _ => Seq::empty(),
    }
}

/// The messages that a history is sent as, results left aside.
pub open spec fn all_sent_as(input: Seq<ResponseItem>) -> Seq<JsonView>
    decreases input.len(),
{
    if input.len() == 0 {
        Seq::empty()
    } else {
        all_sent_as(input.drop_last()) + sent_as(input.last())
    }
}

/// The results of a call that a history holds, those before the call left aside.
pub open spec fn results_held(input: Seq<ResponseItem>, id: Seq<char>) -> Seq<JsonView>
    decreases input.len(),
{
    if input.len() == 0 {
        Seq::empty()
    } else {
        let before = results_held(input.drop_last(), id);
        match input.last() {
            ResponseItem::FunctionCallOutput { call_id, output, .. } => if call_id@ == id
                && is_called(input.drop_last(), id) {
                match output_text(output) {
                    Ok(text) => before.push(carrying(id, text)),
                    Err(_) => before,
                }
            } else {
                before
            },
            _ => before,
        }
    }
}

/// Whether a history makes this call and holds no result behind the last time.
pub open spec fn awaits(input: Seq<ResponseItem>, id: Seq<char>) -> bool
    decreases input.len(),
{
    if input.len() == 0 {
        false
    } else {
        match input.last() {
            ResponseItem::FunctionCall { call_id, .. } => call_id@ == id || awaits(
                input.drop_last(),
                id,
            ),
            ResponseItem::FunctionCallOutput { call_id, .. } => call_id@ != id && awaits(
                input.drop_last(),
                id,
            ),
            _ => awaits(input.drop_last(), id),
        }
    }
}

/// Why a history is refused at an item, if it is.
pub open spec fn chat_refusal(before: Seq<ResponseItem>, item: ResponseItem) -> Option<Seq<char>> {
    match item {
        ResponseItem::Message { content, .. } => match message_text(content@) {
            Ok(_) => None,
            Err(reason) => Some(reason),
        },
        ResponseItem::AgentMessage { content, .. } => match agent_text(content@) {
            Ok(_) => None,
            Err(reason) => Some(reason),
        },
        ResponseItem::FunctionCall { name, namespace, .. } => if namespace is Some {
            Some(
                "namespaced function call '"@ + name@
                    + "' not supported in v1 chat connector"@,
            )
        } else {
            None
        },
        ResponseItem::FunctionCallOutput { call_id, output, .. } => if is_called(before, call_id@) {
            match output_text(output) {
                Ok(_) => None,
                Err(reason) => Some(reason),
            }
        } else {
            None
        },
        ResponseItem::Reasoning { .. } => None,
        ResponseItem::CompactionTrigger { .. } => None,
        ResponseItem::LocalShellCall { .. } => Some(
            "LocalShellCall not supported in v1 chat connector"@,
        ),
        ResponseItem::ToolSearchCall { .. } => Some(
            "ToolSearchCall not supported in v1 chat connector"@,
        ),
        ResponseItem::ToolSearchOutput { .. } => Some(
            "ToolSearchOutput not supported in v1 chat connector"@,
        ),
        ResponseItem::WebSearchCall { .. } => Some(
            "WebSearchCall not supported in v1 chat connector"@,
        ),
        ResponseItem::ImageGenerationCall { .. } => Some(
            "ImageGenerationCall not supported in v1 chat connector"@,
        ),
        ResponseItem::CustomToolCall { .. } => Some(
            "CustomToolCall not supported in v1 chat connector"@,
        ),
        ResponseItem::CustomToolCallOutput { .. } => Some(
            "CustomToolCallOutput not supported in v1 chat connector"@,
        ),
        ResponseItem::Compaction { .. } => Some(
            "Compaction (encrypted content) not supported in v1 chat connector"@,
        ),
        ResponseItem::ContextCompaction { .. } => Some(
            "ContextCompaction (encrypted content) not supported in v1 chat connector"@,
        ),
        ResponseItem::Other => Some(
            "unknown ResponseItem variant (Other) not supported in v1 chat connector"@,
        ),
    }
}

// ---- proofs ----

proof fn lemma_same_filter(
    ms: Seq<JsonView>,
    p: spec_fn(JsonView) -> bool,
    q: spec_fn(JsonView) -> bool,
)
    requires
        forall|m: JsonView| #[trigger] p(m) == q(m),
    ensures
        ms.filter(p) == ms.filter(q),
    decreases ms.len(),
{
    reveal(Seq::filter);
    if ms.len() > 0 {
        lemma_same_filter(ms.drop_last(), p, q);
        assert(p(ms.last()) == q(ms.last()));
    }
}

pub(super) proof fn lemma_parts(ms: Seq<JsonView>, id: Seq<char>)
    ensures
        plain_part(ms) == bystanders(ms),
        result_part(ms, id) == results_for(ms, id),
{
    lemma_same_filter(ms, |m: JsonView| !carries_some(m), |m: JsonView| result_id(m) is None);
    lemma_same_filter(ms, |m: JsonView| carries(m, id), |m: JsonView| result_id(m) == Some(id));
}

proof fn lemma_is_called_push(input: Seq<ResponseItem>, item: ResponseItem, id: Seq<char>)
    ensures
        is_called(input.push(item), id) <==> is_called(input, id) || makes_call(item, id),
{
    let now = input.push(item);
    if is_called(input, id) {
        let i = choose|i: int| 0 <= i < input.len() && makes_call(#[trigger] input[i], id);
        assert(makes_call(now[i], id));
    }
    assert(now[input.len() as int] == item);
    if is_called(now, id) {
        let i = choose|i: int| 0 <= i < now.len() && makes_call(#[trigger] now[i], id);
        if i < input.len() {
            assert(makes_call(input[i], id));
        }
    }
}

/// The instructions as a message, if there are some.
pub open spec fn sent_instructions(instructions: Seq<char>) -> Seq<JsonView> {
    if instructions.len() > 0 {
        seq![
            JsonView::Object(
                map![
                    "role"@ => JsonView::Text("system"@),
                    "content"@ => JsonView::Text(instructions),
                ],
            ),
        ]
    } else {
        Seq::empty()
    }
}

spec fn tracks(instructions: Seq<char>, input: Seq<ResponseItem>, s: Scan) -> bool {
    &&& scan_inv(s)
    &&& bystanders(s.messages) == sent_instructions(instructions) + all_sent_as(input)
    &&& forall|id: Seq<char>| #[trigger] results_for(s.messages, id) == results_held(input, id)
    &&& forall|id: Seq<char>| #[trigger] s.needing.contains(id) <==> awaits(input, id)
    &&& forall|id: Seq<char>| #[trigger] s.calls.contains(id) <==> is_called(input, id)
}

proof fn lemma_push_plain(ms: Seq<JsonView>, m: JsonView)
    requires
        result_id(m) is None,
    ensures
        bystanders(ms.push(m)) == bystanders(ms).push(m),
        forall|id: Seq<char>| #[trigger] results_for(ms.push(m), id) == results_for(ms, id),
{
    reveal(Seq::filter);
    assert(ms.push(m).drop_last() =~= ms);
}

proof fn lemma_push_result(ms: Seq<JsonView>, m: JsonView, call_id: Seq<char>)
    requires
        result_id(m) == Some(call_id),
    ensures
        bystanders(ms.push(m)) == bystanders(ms),
        forall|id: Seq<char>| #[trigger]
            results_for(ms.push(m), id) == if id == call_id {
                results_for(ms, id).push(m)
            } else {
                results_for(ms, id)
            },
{
    reveal(Seq::filter);
    assert(ms.push(m).drop_last() =~= ms);
}

/// One more item.
proof fn lemma_tracks_item(
    instructions: Seq<char>,
    input: Seq<ResponseItem>,
    item: ResponseItem,
    s: Scan,
)
    requires
        tracks(instructions, input, s),
    ensures
        match crate::connector::chat_req::scan_item(s, item) {
            Ok(t) => chat_refusal(input, item) is None && tracks(
                instructions,
                input.push(item),
                t,
            ),
            Err(reason) => chat_refusal(input, item) == Some(reason),
        },
{
    let now = input.push(item);
    assert(now.drop_last() =~= input);
    let r = crate::connector::chat_req::scan_item(s, item);
    assert forall|id: Seq<char>| is_called(now, id) <==> is_called(input, id) || makes_call(
        item,
        id,
    ) by {
        lemma_is_called_push(input, item, id);
    }
    super::chat::lemma_scan_item(s, item);
    match item {
        ResponseItem::FunctionCallOutput { call_id, output, .. } => {
            assert(s.calls.contains(call_id@) <==> is_called(input, call_id@));
        },
        _ => {},
    }
    if let Ok(t) = r {
        let sys = sent_instructions(instructions);
        let old_plain = all_sent_as(input);
        let sent = sent_as(item);
        match item {
            ResponseItem::Message { role, content, .. } => {
                let text = message_text(content@)->Ok_0;
                lemma_shapes(role@, text, text);
                lemma_push_plain(s.messages, sent[0]);
                assert(sys + old_plain + sent =~= (sys + old_plain).push(sent[0]));
                assert(sys + (old_plain + sent) =~= sys + old_plain + sent);
            },
            ResponseItem::AgentMessage { content, .. } => {
                let text = agent_text(content@)->Ok_0;
                lemma_shapes("assistant"@, text, text);
                lemma_push_plain(s.messages, sent[0]);
                assert(sys + old_plain + sent =~= (sys + old_plain).push(sent[0]));
                assert(sys + (old_plain + sent) =~= sys + old_plain + sent);
            },
            ResponseItem::FunctionCall { name, arguments, call_id, .. } => {
                lemma_shapes(call_id@, name@, arguments@);
                lemma_push_plain(s.messages, sent[0]);
                assert(sys + old_plain + sent =~= (sys + old_plain).push(sent[0]));
                assert(sys + (old_plain + sent) =~= sys + old_plain + sent);
                assert forall|id: Seq<char>| #[trigger] t.calls.contains(id) <==> is_called(
                    now,
                    id,
                ) by {
                    lemma_push_contains(s.calls, call_id@, id);
                    assert(s.calls.contains(id) <==> is_called(input, id));
                }
                assert forall|id: Seq<char>| #[trigger] t.needing.contains(id) <==> awaits(
                    now,
                    id,
                ) by {
                    lemma_push_contains(s.needing, call_id@, id);
                    assert(s.needing.contains(id) <==> awaits(input, id));
                }
            },
            ResponseItem::FunctionCallOutput { call_id, output, .. } => {
                assert(old_plain + sent =~= old_plain);
                assert(s.needing.contains(call_id@) ==> s.calls.contains(call_id@));
                if s.calls.contains(call_id@) {
                    let text = output_text(output)->Ok_0;
                    lemma_shapes(call_id@, text, text);
                    lemma_push_result(s.messages, carrying(call_id@, text), call_id@);
                    lemma_others_contains(s.needing, call_id@);
                    assert forall|id: Seq<char>| #[trigger]
                        results_for(t.messages, id) == results_held(now, id) by {
                        assert(results_for(s.messages, id) == results_held(input, id));
                    }
                    assert forall|id: Seq<char>| #[trigger] t.needing.contains(id) <==> awaits(
                        now,
                        id,
                    ) by {
                        assert(s.needing.contains(id) <==> awaits(input, id));
                    }
                } else {
                    assert forall|id: Seq<char>| #[trigger] t.needing.contains(id) <==> awaits(
                        now,
                        id,
                    ) by {
                        assert(s.needing.contains(id) <==> awaits(input, id));
                    }
                }
            },
            _ => {
                assert(old_plain + sent =~= old_plain);
            },
        }
        assert forall|id: Seq<char>| #[trigger]
            results_for(t.messages, id) == results_held(now, id) by {
            assert(results_for(s.messages, id) == results_held(input, id));
        }
    }
}

proof fn lemma_tracks(instructions: Seq<char>, input: Seq<ResponseItem>)
    ensures
        scan_items(scan_start(instructions), input) matches Ok(s) ==> tracks(
            instructions,
            input,
            s,
        ),
    decreases input.len(),
{
    let start = scan_start(instructions);
    if input.len() == 0 {
        reveal(Seq::filter);
        lemma_scan_start(instructions);
        lemma_shapes("system"@, instructions, instructions);
        let none = Seq::<JsonView>::empty();
        if instructions.len() > 0 {
            lemma_push_plain(none, sent_instructions(instructions)[0]);
            assert(start.messages =~= none.push(sent_instructions(instructions)[0]));
            assert(bystanders(none) =~= none);
        }
        assert(sent_instructions(instructions) + none =~= sent_instructions(instructions));
        assert(bystanders(start.messages) =~= sent_instructions(instructions));
        assert forall|id: Seq<char>| #[trigger]
            results_for(start.messages, id) == results_held(input, id) by {
            assert(results_for(none, id) =~= none);
        }
    } else {
        let head = input.drop_last();
        lemma_tracks(instructions, head);
        assert(head + seq![input.last()] =~= input);
        lemma_scan_in_parts(start, head, seq![input.last()]);
        if let Ok(s) = scan_items(start, head) {
            lemma_tracks_item(instructions, head, input.last(), s);
            reveal_with_fuel(scan_items, 2);
            assert(seq![input.last()].skip(1) =~= Seq::<ResponseItem>::empty());
            assert(head.push(input.last()) =~= input);
        }
    }
}

/// All results of a call stand behind the first message that makes it.
spec fn grouped_at(out: Seq<JsonView>, all: Seq<JsonView>, j: int, id: Seq<char>) -> bool {
    let rs = results_for(all, id);
    j + 1 + rs.len() <= out.len() && out.subrange(j + 1, j + 1 + rs.len()) == rs
}

proof fn lemma_groups(all: Seq<JsonView>, rest: Seq<JsonView>)
    requires
        forall|i: int| 0 <= i < rest.len() ==> result_id(#[trigger] rest[i]) is None,
        forall|i: int| 0 <= i < rest.len() ==> call_ids(#[trigger] rest[i]).len() <= 1,
    ensures
        forall|j: int, id: Seq<char>|
            #![trigger call_ids(laid_out(all, rest).out[j]).contains(id)]
            0 <= j < laid_out(all, rest).out.len() && call_ids(
                laid_out(all, rest).out[j],
            ).contains(id) && (forall|i: int|
                0 <= i < j ==> !call_ids(#[trigger] laid_out(all, rest).out[i]).contains(id))
                ==> grouped_at(laid_out(all, rest).out, all, j, id),
    decreases rest.len(),
{
    if rest.len() > 0 {
        let head = rest.drop_last();
        let m = rest.last();
        assert forall|i: int| 0 <= i < head.len() implies result_id(#[trigger] head[i]) is None
            && call_ids(head[i]).len() <= 1 by {
            assert(head[i] == rest[i]);
        }
        lemma_groups(all, head);
        lemma_laid_out(all, head);
        let l = laid_out(all, head);
        let pushed = Laid { out: l.out.push(m), placed: l.placed };
        let r = laid_out(all, rest);
        let ids = call_ids(m);
        let n = l.out.len() as int;
        assert(call_ids(rest[rest.len() - 1]).len() <= 1);
        reveal_with_fuel(placed_all, 2);
        let more = if ids.len() == 1 && !l.placed.contains(ids[0]) {
            results_for(all, ids[0])
        } else {
            Seq::empty()
        };
        assert(r.out =~= l.out.push(m) + more);
        assert forall|j: int, id: Seq<char>|
            #![trigger call_ids(r.out[j]).contains(id)]
            0 <= j < r.out.len() && call_ids(r.out[j]).contains(id) && (forall|i: int|
                0 <= i < j ==> !call_ids(#[trigger] r.out[i]).contains(id)) implies grouped_at(
            r.out,
            all,
            j,
            id,
        ) by {
            if j < n {
                assert(r.out[j] == l.out[j]);
                assert forall|i: int| 0 <= i < j implies !call_ids(
                    #[trigger] l.out[i],
                ).contains(id) by {
                    assert(r.out[i] == l.out[i]);
                }
                assert(call_ids(l.out[j]).contains(id));
                assert(grouped_at(l.out, all, j, id));
                let k = results_for(all, id).len() as int;
                assert(r.out.subrange(j + 1, j + 1 + k) =~= l.out.subrange(j + 1, j + 1 + k));
            } else if j == n {
                assert(r.out[j] == m);
                assert(ids[0] == id);
                if l.placed.contains(id) {
                    assert(super::chat::calls(head, id));
                    assert(bystanders(l.out) == head);
                    super::chat::lemma_bystanders_within(l.out, id);
                    let i = choose|i: int|
                        0 <= i < l.out.len() && call_ids(#[trigger] l.out[i]).contains(id);
                    assert(r.out[i] == l.out[i]);
                    assert(false);
                }
                assert(more == results_for(all, id));
                assert(r.out.subrange(j + 1, j + 1 + more.len()) =~= more);
            } else {
                lemma_results_have_id(all, ids[0]);
                assert(r.out[j] == more[j - n - 1]);
                reveal_strlit("assistant");
                reveal_strlit("tool");
                assert("assistant"@.len() != "tool"@.len());
                assert(false);
            }
        }
    }
}

proof fn lemma_sent_shape(item: ResponseItem, i: int)
    requires
        0 <= i < sent_as(item).len(),
    ensures
        result_id(sent_as(item)[i]) is None,
        call_ids(sent_as(item)[i]).len() <= 1,
{
    match item {
        ResponseItem::Message { role, content, .. } => {
            let text = message_text(content@)->Ok_0;
            lemma_shapes(role@, text, text);
        },
        ResponseItem::AgentMessage { content, .. } => {
            let text = agent_text(content@)->Ok_0;
            lemma_shapes("assistant"@, text, text);
        },
        ResponseItem::FunctionCall { name, arguments, call_id, .. } => {
            lemma_shapes(call_id@, name@, arguments@);
        },
        _ => {},
    }
}

proof fn lemma_all_sent_shape(input: Seq<ResponseItem>)
    ensures
        forall|i: int|
            0 <= i < all_sent_as(input).len() ==> result_id(
                #[trigger] all_sent_as(input)[i],
            ) is None && call_ids(all_sent_as(input)[i]).len() <= 1,
    decreases input.len(),
{
    if input.len() > 0 {
        let head = all_sent_as(input.drop_last());
        let sent = sent_as(input.last());
        lemma_all_sent_shape(input.drop_last());
        assert forall|i: int| 0 <= i < all_sent_as(input).len() implies result_id(
            #[trigger] all_sent_as(input)[i],
        ) is None && call_ids(all_sent_as(input)[i]).len() <= 1 by {
            if i < head.len() {
                assert(all_sent_as(input)[i] == head[i]);
            } else {
                assert(all_sent_as(input)[i] == sent[i - head.len()]);
                lemma_sent_shape(input.last(), i - head.len());
            }
        }
    }
}

proof fn lemma_makes(m: JsonView, id: Seq<char>)
    requires
        makes(m, id),
    ensures
        call_ids(m).contains(id),
{
    let cs = m.list_at("tool_calls"@)->Some_0;
    let ids = cs.map_values(|c: JsonView| c.text_at("id"@));
    assert(ids =~= seq![Some(id)]);
    reveal_with_fuel(present, 2);
    assert(ids.drop_last() =~= Seq::empty());
    assert(call_ids(m) =~= seq![id]);
    assert(seq![id][0] == id);
}

proof fn lemma_made(m: JsonView, id: Seq<char>)
    requires
        call_ids(m).contains(id),
        call_ids(m).len() <= 1,
    ensures
        call_ids(m) == seq![id],
{
    assert(call_ids(m)[0] == id);
    assert(call_ids(m) =~= seq![id]);
}

// ---- laws ----

/// What a request that is not refused says of its history. Apart from results, it says the
/// instructions and then, in their order, what each item is sent as. Of each call it says the
/// results that the history holds, in their order, and if one is awaited, behind them the words
/// that stand in for it. All results of a call stand right behind the first message that makes it.
pub proof fn law_chat_history_is_sent(instructions: Seq<char>, input: Seq<ResponseItem>)
    ensures
        chat_messages(instructions, input) matches Ok(ms) ==> {
            &&& plain_part(ms) == sent_instructions(instructions) + all_sent_as(input)
            &&& forall|id: Seq<char>| #[trigger]
                result_part(ms, id) == results_held(input, id) + (if awaits(input, id) {
                    seq![carrying(id, "[No output available yet]"@)]
                } else {
                    Seq::empty()
                })
            &&& forall|j: int, id: Seq<char>|
                #![trigger makes(ms[j], id)]
                0 <= j < ms.len() && makes(ms[j], id) && (forall|i: int|
                    0 <= i < j ==> !makes(#[trigger] ms[i], id)) ==> {
                    let rs = result_part(ms, id);
                    j + 1 + rs.len() <= ms.len() && ms.subrange(j + 1, j + 1 + rs.len()) == rs
                }
        },
{
    lemma_tracks(instructions, input);
    if let Ok(s) = scan_items(scan_start(instructions), input) {
        let all = filled(s, s.needing);
        let ms = reordered(all);
        lemma_filled(s, s.needing);
        law_reordering_keeps_all(all);
        lemma_reordered_without_orphans(all);
        lemma_parts(ms, Seq::empty());
        assert forall|id: Seq<char>| #[trigger]
            result_part(ms, id) == results_held(input, id) + (if awaits(input, id) {
                seq![carrying(id, "[No output available yet]"@)]
            } else {
                Seq::empty()
            }) by {
            lemma_parts(ms, id);
            assert(results_for(ms, id) == results_for(all, id));
            assert(results_for(s.messages, id) == results_held(input, id));
            assert(s.needing.contains(id) <==> awaits(input, id));
            assert(crate::connector::chat_req::placeholders(seq![id]) =~= seq![
                carrying(id, "[No output available yet]"@),
            ]);
        }
        let plain = bystanders(all);
        lemma_bystanders_have_none(all);
        lemma_all_sent_shape(input);
        lemma_shapes("system"@, instructions, instructions);
        let sys = sent_instructions(instructions);
        assert forall|i: int| 0 <= i < plain.len() implies call_ids(#[trigger] plain[i]).len()
            <= 1 by {
            if i < sys.len() {
                assert(plain[i] == sys[i]);
            } else {
                assert(plain[i] == all_sent_as(input)[i - sys.len()]);
            }
        }
        lemma_groups(all, plain);
        assert forall|j: int, id: Seq<char>|
            #![trigger makes(ms[j], id)]
            0 <= j < ms.len() && makes(ms[j], id) && (forall|i: int|
                0 <= i < j ==> !makes(#[trigger] ms[i], id)) implies ({
            let rs = result_part(ms, id);
            j + 1 + rs.len() <= ms.len() && ms.subrange(j + 1, j + 1 + rs.len()) == rs
        }) by {
            lemma_makes(ms[j], id);
            lemma_parts(ms, id);
            assert(results_for(ms, id) == results_for(all, id));
            assert forall|i: int| 0 <= i < j implies !call_ids(#[trigger] ms[i]).contains(id) by {
                if call_ids(ms[i]).contains(id) {
                    super::chat::lemma_callers_carry_none(ms[i]);
                    let p = |m: JsonView| result_id(m) is None;
                    ms.lemma_filter_contains(p, i);
                    let k = choose|k: int| 0 <= k < ms.filter(p).len() && ms.filter(p)[k] == ms[i];
                    assert(bystanders(ms)[k] == ms[i]);
                    assert(plain[k] == ms[i]);
                    lemma_caller_is_sent(instructions, input, k, id);
                    assert(makes(ms[i], id));
                }
            }
            assert(grouped_at(ms, all, j, id));
        }
    }
}

proof fn lemma_item_makes(item: ResponseItem, i: int, id: Seq<char>)
    requires
        0 <= i < sent_as(item).len(),
        call_ids(sent_as(item)[i]).contains(id),
    ensures
        makes(sent_as(item)[i], id),
{
    match item {
        ResponseItem::Message { role, content, .. } => {
            let text = message_text(content@)->Ok_0;
            lemma_shapes(role@, text, text);
        },
        ResponseItem::AgentMessage { content, .. } => {
            let text = agent_text(content@)->Ok_0;
            lemma_shapes("assistant"@, text, text);
        },
        ResponseItem::FunctionCall { name, arguments, call_id, .. } => {
            lemma_shapes(call_id@, name@, arguments@);
            let m = sent_as(item)[i];
            assert(seq![call_id@].contains(id) ==> id == call_id@);
            reveal_strlit("role");
            reveal_strlit("tool_calls");
            reveal_strlit("id");
            reveal_strlit("type");
            reveal_strlit("function");
            assert("role"@.len() == 4 && "tool_calls"@.len() == 10 && "id"@.len() == 2);
            assert("type"@.len() == 4 && "function"@.len() == 8);
            assert(m.text_at("role"@) == Some("assistant"@));
            let cs = m.list_at("tool_calls"@)->Some_0;
            assert(cs.len() == 1);
            assert(cs[0].text_at("id"@) == Some(call_id@));
        },
        _ => {},
    }
}

proof fn lemma_all_makes(input: Seq<ResponseItem>, i: int, id: Seq<char>)
    requires
        0 <= i < all_sent_as(input).len(),
        call_ids(all_sent_as(input)[i]).contains(id),
    ensures
        makes(all_sent_as(input)[i], id),
    decreases input.len(),
{
    let head = all_sent_as(input.drop_last());
    if i < head.len() {
        assert(all_sent_as(input)[i] == head[i]);
        lemma_all_makes(input.drop_last(), i, id);
    } else {
        assert(all_sent_as(input)[i] == sent_as(input.last())[i - head.len()]);
        lemma_item_makes(input.last(), i - head.len(), id);
    }
}

proof fn lemma_caller_is_sent(
    instructions: Seq<char>,
    input: Seq<ResponseItem>,
    k: int,
    id: Seq<char>,
)
    requires
        0 <= k < (sent_instructions(instructions) + all_sent_as(input)).len(),
        call_ids((sent_instructions(instructions) + all_sent_as(input))[k]).contains(id),
    ensures
        makes((sent_instructions(instructions) + all_sent_as(input))[k], id),
{
    let sys = sent_instructions(instructions);
    if k < sys.len() {
        lemma_shapes("system"@, instructions, instructions);
    } else {
        lemma_all_makes(input, k - sys.len(), id);
    }
}

/// A history is refused at the first item that cannot be sent, with the reason that belongs to that
/// item, whatever follows. A history without such an item is not refused.
pub proof fn law_chat_history_is_refused(
    instructions: Seq<char>,
    before: Seq<ResponseItem>,
    item: ResponseItem,
    behind: Seq<ResponseItem>,
)
    requires
        chat_messages(instructions, before) is Ok,
    ensures
        match chat_refusal(before, item) {
            Some(reason) => chat_messages(instructions, before.push(item) + behind) == Err::<
                Seq<JsonView>,
                Seq<char>,
            >(reason),
            None => chat_messages(instructions, before.push(item)) is Ok,
        },
        chat_messages(instructions, Seq::empty()) is Ok,
{
    let start = scan_start(instructions);
    lemma_tracks(instructions, before);
    let s = scan_items(start, before)->Ok_0;
    lemma_tracks_item(instructions, before, item, s);
    assert(before.push(item) + behind =~= before + (seq![item] + behind));
    assert(before.push(item) =~= before + seq![item]);
    lemma_scan_in_parts(start, before, seq![item] + behind);
    lemma_scan_in_parts(start, before, seq![item]);
    assert((seq![item] + behind).skip(1) =~= behind);
    assert(seq![item].skip(1) =~= Seq::<ResponseItem>::empty());
    reveal_with_fuel(scan_items, 2);
}

} // verus!
