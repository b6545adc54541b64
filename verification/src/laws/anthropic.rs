//! What holds of the messages of an Anthropic Messages request.

use crate::connector::anthropic_req::{
    anthropic_items_text, anthropic_messages, anthropic_turns, call_block, content_block, output_block, result_block,
    scan_item, scan_items, scan_start, text_block, turn_json, turn_role, use_block,
    with_agent_content, with_block, with_content, with_placeholders, Scan, Turn,
};
use super::chat::{leaves_no_trace, makes_call};
use super::lists::{lemma_others_contains, lemma_push_contains};
use crate::json::{parsed, JsonView};
use crate::protocol::{
    AgentMessageInputContent, ContentItem, FunctionCallOutputBody, ResponseItem,
};
use crate::text::others;
use vstd::prelude::*;

verus! {

// ---- blocks ----

/// Whether a block uses a tool in this call.
pub open spec fn is_use(b: JsonView, id: Seq<char>) -> bool {
    b.text_at("type"@) == Some("tool_use"@) && b.text_at("id"@) == Some(id)
}

/// Whether a block carries a result of this call.
pub open spec fn is_result(b: JsonView, id: Seq<char>) -> bool {
    b.text_at("type"@) == Some("tool_result"@) && b.text_at("tool_use_id"@) == Some(id)
}

/// Whether a block may stand in a turn of this role, and asks for no caching by itself.
pub open spec fn fits(role: Seq<char>, b: JsonView) -> bool {
    &&& b.get("cache_control"@) is None
    &&& role == "user"@ || role == "assistant"@
    &&& b.text_at("type"@) == Some("tool_use"@) ==> role == "assistant"@
    &&& b.text_at("type"@) == Some("tool_result"@) ==> role == "user"@
}

proof fn lemma_block_keys()
    ensures
        "type"@ != "text"@,
        "type"@ != "id"@,
        "type"@ != "name"@,
        "type"@ != "input"@,
        "type"@ != "tool_use_id"@,
        "type"@ != "content"@,
        "type"@ != "is_error"@,
        "id"@ != "name"@,
        "id"@ != "input"@,
        "tool_use_id"@ != "content"@,
        "tool_use_id"@ != "is_error"@,
        "cache_control"@ != "type"@,
        "cache_control"@ != "text"@,
        "cache_control"@ != "id"@,
        "cache_control"@ != "name"@,
        "cache_control"@ != "input"@,
        "cache_control"@ != "tool_use_id"@,
        "cache_control"@ != "content"@,
        "cache_control"@ != "is_error"@,
        "text"@ != "tool_use"@,
        "text"@ != "tool_result"@,
        "tool_use"@ != "tool_result"@,
        "user"@ != "assistant"@,
{
    reveal_strlit("type");
    reveal_strlit("text");
    reveal_strlit("id");
    reveal_strlit("name");
    reveal_strlit("input");
    reveal_strlit("tool_use_id");
    reveal_strlit("content");
    reveal_strlit("is_error");
    reveal_strlit("cache_control");
    reveal_strlit("tool_use");
    reveal_strlit("tool_result");
    reveal_strlit("user");
    reveal_strlit("assistant");
    assert("type"@.len() == 4 && "text"@.len() == 4 && "id"@.len() == 2 && "name"@.len() == 4);
    assert("input"@.len() == 5 && "tool_use_id"@.len() == 11 && "content"@.len() == 7);
    assert("is_error"@.len() == 8 && "cache_control"@.len() == 13 && "tool_use"@.len() == 8);
    assert("tool_result"@.len() == 11 && "user"@.len() == 4 && "assistant"@.len() == 9);
    assert("type"@[1] == 'y' && "text"@[1] == 'e');
    assert("type"@[0] == 't' && "name"@[0] == 'n');
}

proof fn lemma_text_block(text: Seq<char>, role: Seq<char>, id: Seq<char>)
    requires
        role == "user"@ || role == "assistant"@,
    ensures
        !is_use(text_block(text), id),
        !is_result(text_block(text), id),
        fits(role, text_block(text)),
{
    lemma_block_keys();
}

proof fn lemma_use_block(call_id: Seq<char>, name: Seq<char>, input: JsonView, id: Seq<char>)
    ensures
        is_use(use_block(call_id, name, input), id) <==> id == call_id,
        !is_result(use_block(call_id, name, input), id),
        fits("assistant"@, use_block(call_id, name, input)),
{
    lemma_block_keys();
}

proof fn lemma_result_block(call_id: Seq<char>, content: Seq<char>, failed: bool, id: Seq<char>)
    ensures
        !is_use(result_block(call_id, content, failed), id),
        is_result(result_block(call_id, content, failed), id) <==> id == call_id,
        fits("user"@, result_block(call_id, content, failed)),
{
    lemma_block_keys();
}

// ---- turns ----

/// Whether turns alternate between the two roles, none is empty, and every block fits its turn.
pub open spec fn well_formed(turns: Seq<Turn>) -> bool {
    &&& forall|i: int|
        #![trigger turns[i]]
        0 <= i < turns.len() ==> turns[i].blocks.len() > 0
    &&& forall|i: int, k: int|
        0 <= i < turns.len() && 0 <= k < turns[i].blocks.len() ==> fits(
            turns[i].role,
            #[trigger] turns[i].blocks[k],
        )
    &&& forall|i: int, j: int|
        0 <= i && j == i + 1 && j < turns.len() ==> (#[trigger] turns[i]).role != (
        #[trigger] turns[j]).role
}

/// All blocks of some turns, in order.
pub open spec fn all_blocks(turns: Seq<Turn>) -> Seq<JsonView>
    decreases turns.len(),
{
    if turns.len() == 0 {
        Seq::empty()
    } else {
        all_blocks(turns.drop_last()) + turns.last().blocks
    }
}

proof fn lemma_with_block(turns: Seq<Turn>, role: Seq<char>, b: JsonView)
    requires
        well_formed(turns),
        fits(role, b),
    ensures
        well_formed(with_block(turns, role, b)),
        all_blocks(with_block(turns, role, b)) == all_blocks(turns).push(b),
{
    let now = with_block(turns, role, b);
    if turns.len() > 0 && turns.last().role == role {
        let n = turns.len() - 1;
        assert(now.drop_last() =~= turns.drop_last());
        assert(now.last().blocks == turns.last().blocks.push(b));
        assert(all_blocks(now) =~= all_blocks(turns).push(b));
        assert forall|i: int, k: int|
            0 <= i < now.len() && 0 <= k < now[i].blocks.len() implies fits(
            now[i].role,
            #[trigger] now[i].blocks[k],
        ) by {
            if i < n {
                assert(now[i] == turns[i]);
                assert(fits(turns[i].role, turns[i].blocks[k]));
            } else if k < turns[n].blocks.len() {
                assert(now[i].blocks[k] == turns[n].blocks[k]);
                assert(fits(turns[n].role, turns[n].blocks[k]));
            }
        }
        assert forall|i: int, j: int| 0 <= i && j == i + 1 && j < now.len() implies (
        #[trigger] now[i]).role != (#[trigger] now[j]).role by {
            assert(turns[i].role != turns[j].role);
        }
        assert forall|i: int| #![trigger now[i]] 0 <= i < now.len() implies now[i].blocks.len()
            > 0 by {
            assert(turns[i].blocks.len() > 0);
        }
    } else {
        assert(now.drop_last() =~= turns);
        assert(all_blocks(now) =~= all_blocks(turns).push(b));
        assert forall|i: int, k: int|
            0 <= i < now.len() && 0 <= k < now[i].blocks.len() implies fits(
            now[i].role,
            #[trigger] now[i].blocks[k],
        ) by {
            if i < turns.len() {
                assert(now[i] == turns[i]);
                assert(fits(turns[i].role, turns[i].blocks[k]));
            }
        }
        assert forall|i: int, j: int| 0 <= i && j == i + 1 && j < now.len() implies (
        #[trigger] now[i]).role != (#[trigger] now[j]).role by {
            if j < turns.len() {
                assert(turns[i].role != turns[j].role);
            }
        }
        assert forall|i: int| #![trigger now[i]] 0 <= i < now.len() implies now[i].blocks.len()
            > 0 by {
            if i < turns.len() {
                assert(turns[i].blocks.len() > 0);
            }
        }
    }
}

// ---- calls and results ----

/// Whether this call is made before `end`.
pub open spec fn used_before(bs: Seq<JsonView>, id: Seq<char>, end: int) -> bool {
    exists|j: int| 0 <= j < end && j < bs.len() && is_use(#[trigger] bs[j], id)
}

/// Whether a result of this call comes behind `start`.
pub open spec fn answered_behind(bs: Seq<JsonView>, id: Seq<char>, start: int) -> bool {
    exists|k: int| start < k < bs.len() && 0 <= k && is_result(#[trigger] bs[k], id)
}

/// Whether every result comes behind the call that it belongs to.
pub open spec fn results_have_calls(bs: Seq<JsonView>) -> bool {
    forall|k: int, id: Seq<char>|
        0 <= k < bs.len() && #[trigger] is_result(bs[k], id) ==> used_before(bs, id, k)
}

/// Whether every call has a result behind it.
pub open spec fn calls_have_results(bs: Seq<JsonView>) -> bool {
    forall|j: int, id: Seq<char>|
        0 <= j < bs.len() && #[trigger] is_use(bs[j], id) ==> answered_behind(bs, id, j)
}

/// What holds of the history at every point.
spec fn scan_inv(s: Scan) -> bool {
    let bs = all_blocks(s.turns);
    &&& well_formed(s.turns)
    &&& results_have_calls(bs)
    &&& forall|id: Seq<char>| #[trigger] s.calls.contains(id) ==> used_before(bs, id, bs.len() as int)
    &&& forall|id: Seq<char>| #[trigger] s.needing.contains(id) ==> s.calls.contains(id)
    &&& forall|j: int, id: Seq<char>|
        0 <= j < bs.len() && #[trigger] is_use(bs[j], id) ==> s.needing.contains(id)
            || answered_behind(bs, id, j)
}

proof fn lemma_used_push(bs: Seq<JsonView>, b: JsonView, id: Seq<char>, end: int)
    requires
        used_before(bs, id, end),
    ensures
        used_before(bs.push(b), id, end),
{
    let j = choose|j: int| 0 <= j < end && j < bs.len() && is_use(#[trigger] bs[j], id);
    assert(bs.push(b)[j] == bs[j]);
}

proof fn lemma_answered_push(bs: Seq<JsonView>, b: JsonView, id: Seq<char>, start: int)
    requires
        answered_behind(bs, id, start),
    ensures
        answered_behind(bs.push(b), id, start),
{
    let k = choose|k: int| start < k < bs.len() && 0 <= k && is_result(#[trigger] bs[k], id);
    assert(bs.push(b)[k] == bs[k]);
}

/// A block that is neither a call nor a result changes nothing about calls and results.
proof fn lemma_neutral_block(s: Scan, role: Seq<char>, b: JsonView)
    requires
        scan_inv(s),
        fits(role, b),
        forall|id: Seq<char>| !(#[trigger] is_use(b, id)) && !is_result(b, id),
    ensures
        scan_inv(Scan { turns: with_block(s.turns, role, b), ..s }),
{
    let bs = all_blocks(s.turns);
    let now = bs.push(b);
    lemma_with_block(s.turns, role, b);
    assert forall|k: int, id: Seq<char>|
        0 <= k < now.len() && #[trigger] is_result(now[k], id) implies used_before(now, id, k) by {
        if k < bs.len() {
            assert(is_result(bs[k], id));
            lemma_used_push(bs, b, id, k);
        } else {
            assert(!is_use(b, id));
        }
    }
    assert forall|id: Seq<char>| #[trigger] s.calls.contains(id) implies used_before(
        now,
        id,
        now.len() as int,
    ) by {
        lemma_used_push(bs, b, id, bs.len() as int);
        let j = choose|j: int| 0 <= j < bs.len() && j < now.len() && is_use(#[trigger] now[j], id);
        assert(is_use(now[j], id));
    }
    assert forall|j: int, id: Seq<char>|
        0 <= j < now.len() && #[trigger] is_use(now[j], id) implies s.needing.contains(id)
        || answered_behind(now, id, j) by {
        if j < bs.len() {
            assert(is_use(bs[j], id));
            if !s.needing.contains(id) {
                lemma_answered_push(bs, b, id, j);
            }
        } else {
            assert(!is_use(b, id));
        }
    }
}

/// A call that needs a result from now on.
proof fn lemma_call_block(s: Scan, call_id: Seq<char>, b: JsonView)
    requires
        scan_inv(s),
        fits("assistant"@, b),
        forall|id: Seq<char>| #[trigger] is_use(b, id) <==> id == call_id,
        forall|id: Seq<char>| !#[trigger] is_result(b, id),
    ensures
        scan_inv(
            Scan {
                turns: with_block(s.turns, "assistant"@, b),
                calls: s.calls.push(call_id),
                needing: s.needing.push(call_id),
            },
        ),
{
    let bs = all_blocks(s.turns);
    let now = bs.push(b);
    let calls = s.calls.push(call_id);
    let needing = s.needing.push(call_id);
    lemma_with_block(s.turns, "assistant"@, b);
    assert(now[bs.len() as int] == b);
    assert(is_use(b, call_id));
    assert forall|k: int, id: Seq<char>|
        0 <= k < now.len() && #[trigger] is_result(now[k], id) implies used_before(now, id, k) by {
        if k < bs.len() {
            assert(is_result(bs[k], id));
            lemma_used_push(bs, b, id, k);
        }
    }
    assert forall|id: Seq<char>| #[trigger] calls.contains(id) implies used_before(
        now,
        id,
        now.len() as int,
    ) by {
        lemma_push_contains(s.calls, call_id, id);
        if id == call_id {
            assert(is_use(now[bs.len() as int], id));
        } else {
            assert(s.calls.contains(id));
            let j = choose|j: int|
                0 <= j < bs.len() && j < bs.len() && is_use(#[trigger] bs[j], id);
            assert(is_use(now[j], id));
        }
    }
    assert forall|id: Seq<char>| #[trigger] needing.contains(id) implies calls.contains(id) by {
        lemma_push_contains(s.needing, call_id, id);
        lemma_push_contains(s.calls, call_id, id);
        if id != call_id {
            assert(s.needing.contains(id));
        }
    }
    assert forall|j: int, id: Seq<char>|
        0 <= j < now.len() && #[trigger] is_use(now[j], id) implies needing.contains(id)
        || answered_behind(now, id, j) by {
        lemma_push_contains(s.needing, call_id, id);
        if j < bs.len() {
            assert(is_use(bs[j], id));
            if !s.needing.contains(id) {
                lemma_answered_push(bs, b, id, j);
            }
        }
    }
}

/// A result of a call that was made.
proof fn lemma_answer_block(s: Scan, call_id: Seq<char>, b: JsonView)
    requires
        scan_inv(s),
        s.calls.contains(call_id),
        fits("user"@, b),
        forall|id: Seq<char>| #[trigger] is_result(b, id) <==> id == call_id,
        forall|id: Seq<char>| !#[trigger] is_use(b, id),
    ensures
        scan_inv(
            Scan {
                turns: with_block(s.turns, "user"@, b),
                calls: s.calls,
                needing: others(s.needing, call_id),
            },
        ),
{
    let bs = all_blocks(s.turns);
    let now = bs.push(b);
    let needing = others(s.needing, call_id);
    lemma_with_block(s.turns, "user"@, b);
    lemma_others_contains(s.needing, call_id);
    assert(now[bs.len() as int] == b);
    assert(is_result(b, call_id));
    assert forall|k: int, id: Seq<char>|
        0 <= k < now.len() && #[trigger] is_result(now[k], id) implies used_before(now, id, k) by {
        if k < bs.len() {
            assert(is_result(bs[k], id));
            lemma_used_push(bs, b, id, k);
        } else {
            assert(id == call_id);
            lemma_used_push(bs, b, id, bs.len() as int);
        }
    }
    assert forall|id: Seq<char>| #[trigger] s.calls.contains(id) implies used_before(
        now,
        id,
        now.len() as int,
    ) by {
        let j = choose|j: int| 0 <= j < bs.len() && j < bs.len() && is_use(#[trigger] bs[j], id);
        assert(is_use(now[j], id));
    }
    assert forall|id: Seq<char>| #[trigger] needing.contains(id) implies s.calls.contains(id) by {
        assert(s.needing.contains(id));
    }
    assert forall|j: int, id: Seq<char>|
        0 <= j < now.len() && #[trigger] is_use(now[j], id) implies needing.contains(id)
        || answered_behind(now, id, j) by {
        if j < bs.len() {
            assert(is_use(bs[j], id));
            if id == call_id {
                assert(is_result(now[bs.len() as int], id));
            } else if s.needing.contains(id) {
                assert(needing.contains(id));
            } else {
                lemma_answered_push(bs, b, id, j);
            }
        } else {
            assert(!is_use(b, id));
        }
    }
}

proof fn lemma_content(s: Scan, role: Seq<char>, content: Seq<ContentItem>)
    requires
        scan_inv(s),
        role == "user"@ || role == "assistant"@,
    ensures
        with_content(s.turns, role, content) matches Ok(turns) ==> scan_inv(Scan { turns, ..s }),
    decreases content.len(),
{
    if content.len() > 0 {
        if let Ok(b) = content_block(content[0]) {
            assert forall|id: Seq<char>| !(#[trigger] is_use(b, id)) && !is_result(b, id) by {
                match content[0] {
                    ContentItem::InputText { text } => lemma_text_block(text@, role, id),
                    ContentItem::OutputText { text } => lemma_text_block(text@, role, id),
                    _ => {},
                }
            }
            match content[0] {
                ContentItem::InputText { text } => lemma_text_block(text@, role, role),
                ContentItem::OutputText { text } => lemma_text_block(text@, role, role),
                _ => {},
            }
            lemma_neutral_block(s, role, b);
            lemma_content(
                Scan { turns: with_block(s.turns, role, b), ..s },
                role,
                content.skip(1),
            );
        }
    }
}

proof fn lemma_agent_content(s: Scan, content: Seq<AgentMessageInputContent>)
    requires
        scan_inv(s),
    ensures
        with_agent_content(s.turns, content) matches Ok(turns) ==> scan_inv(Scan { turns, ..s }),
    decreases content.len(),
{
    if content.len() > 0 {
        if let AgentMessageInputContent::InputText { text } = content[0] {
            let b = text_block(text@);
            assert forall|id: Seq<char>| !(#[trigger] is_use(b, id)) && !is_result(b, id) by {
                lemma_text_block(text@, "assistant"@, id);
            }
            lemma_text_block(text@, "assistant"@, text@);
            lemma_neutral_block(s, "assistant"@, b);
            lemma_agent_content(
                Scan { turns: with_block(s.turns, "assistant"@, b), ..s },
                content.skip(1),
            );
        }
    }
}

proof fn lemma_scan_item(s: Scan, item: ResponseItem)
    requires
        scan_inv(s),
    ensures
        scan_item(s, item) matches Ok(t) ==> scan_inv(t),
{
    match item {
        ResponseItem::Message { role, content, .. } => lemma_content(s, turn_role(role@), content@),
        ResponseItem::AgentMessage { content, .. } => lemma_agent_content(s, content@),
        ResponseItem::FunctionCall { name, arguments, call_id, .. } => {
            if let Ok(b) = call_block(call_id@, name@, parsed(arguments@)) {
                let input = parsed(arguments@)->Ok_0;
                assert forall|id: Seq<char>| #[trigger] is_use(b, id) <==> id == call_id@ by {
                    lemma_use_block(call_id@, name@, input, id);
                }
                assert forall|id: Seq<char>| !#[trigger] is_result(b, id) by {
                    lemma_use_block(call_id@, name@, input, id);
                }
                lemma_use_block(call_id@, name@, input, call_id@);
                lemma_call_block(s, call_id@, b);
            }
        },
        ResponseItem::FunctionCallOutput { call_id, output, .. } => {
            if s.calls.contains(call_id@) {
                if let Ok(b) = output_block(call_id@, output) {
                    let text = match output.body {
                        FunctionCallOutputBody::Text(t) => t@,
                        FunctionCallOutputBody::ContentItems(items) => anthropic_items_text(
                            items@,
                        )->Ok_0,
                    };
                    let failed = output.success == Some(false);
                    assert forall|id: Seq<char>| #[trigger]
                        is_result(b, id) <==> id == call_id@ by {
                        lemma_result_block(call_id@, text, failed, id);
                    }
                    assert forall|id: Seq<char>| !#[trigger] is_use(b, id) by {
                        lemma_result_block(call_id@, text, failed, id);
                    }
                    lemma_result_block(call_id@, text, failed, call_id@);
                    lemma_answer_block(s, call_id@, b);
                }
            }
        },
        _ => {},
    }
}

proof fn lemma_scan_items(s: Scan, items: Seq<ResponseItem>)
    requires
        scan_inv(s),
    ensures
        scan_items(s, items) matches Ok(t) ==> scan_inv(t),
    decreases items.len(),
{
    if items.len() > 0 {
        lemma_scan_item(s, items[0]);
        if let Ok(next) = scan_item(s, items[0]) {
            lemma_scan_items(next, items.skip(1));
        }
    }
}

/// It does no harm to ask for more results, as long as they are results of calls.
proof fn lemma_more_needing(s: Scan, needing: Seq<Seq<char>>)
    requires
        scan_inv(s),
        forall|id: Seq<char>| #[trigger] s.needing.contains(id) ==> needing.contains(id),
        forall|id: Seq<char>| #[trigger] needing.contains(id) ==> s.calls.contains(id),
    ensures
        scan_inv(Scan { needing, ..s }),
{
    let bs = all_blocks(s.turns);
    assert forall|j: int, id: Seq<char>|
        0 <= j < bs.len() && #[trigger] is_use(bs[j], id) implies needing.contains(id)
        || answered_behind(bs, id, j) by {
        if s.needing.contains(id) {
            assert(needing.contains(id));
        }
    }
}

/// Every missing result is filled in.
proof fn lemma_placeholders(s: Scan)
    requires
        scan_inv(s),
    ensures
        ({
            let turns = with_placeholders(s.turns, s.needing);
            &&& well_formed(turns)
            &&& results_have_calls(all_blocks(turns))
            &&& calls_have_results(all_blocks(turns))
        }),
    decreases s.needing.len(),
{
    if s.needing.len() > 0 {
        let id0 = s.needing[0];
        let none = "[No output available yet]"@;
        let b = result_block(id0, none, false);
        assert(s.needing.contains(id0));
        assert forall|id: Seq<char>| #[trigger] is_result(b, id) <==> id == id0 by {
            lemma_result_block(id0, none, false, id);
        }
        assert forall|id: Seq<char>| !#[trigger] is_use(b, id) by {
            lemma_result_block(id0, none, false, id);
        }
        lemma_result_block(id0, none, false, id0);
        lemma_answer_block(s, id0, b);
        let next = Scan {
            turns: with_block(s.turns, "user"@, b),
            calls: s.calls,
            needing: s.needing.skip(1),
        };
        lemma_others_contains(s.needing, id0);
        assert forall|id: Seq<char>| #[trigger] next.needing.contains(id) implies s.calls.contains(
            id,
        ) by {
            let i = choose|i: int| 0 <= i < next.needing.len() && next.needing[i] == id;
            assert(s.needing[i + 1] == id);
            assert(s.needing.contains(id));
        }
        assert forall|id: Seq<char>| #[trigger]
            others(s.needing, id0).contains(id) implies next.needing.contains(id) by {
            assert(s.needing.contains(id) && id != id0);
            let i = choose|i: int| 0 <= i < s.needing.len() && s.needing[i] == id;
            assert(next.needing[i - 1] == id);
        }
        lemma_more_needing(
            Scan {
                turns: with_block(s.turns, "user"@, b),
                calls: s.calls,
                needing: others(s.needing, id0),
            },
            s.needing.skip(1),
        );
        lemma_placeholders(next);
    } else {
        assert forall|j: int, id: Seq<char>|
            0 <= j < all_blocks(s.turns).len() && #[trigger] is_use(
                all_blocks(s.turns)[j],
                id,
            ) implies answered_behind(all_blocks(s.turns), id, j) by {
            assert(!s.needing.contains(id));
        }
    }
}

proof fn lemma_scan_start()
    ensures
        scan_inv(scan_start()),
{
}

/// The turns of a request that is not refused are as the upstream asks for: they alternate between
/// the user and the assistant, none is empty, tools are used by the assistant and answered by the
/// user, and no block asks for caching by itself.
pub proof fn law_anthropic_turns_are_well_formed(input: Seq<ResponseItem>)
    ensures
        anthropic_turns(input) matches Ok(turns) ==> well_formed(turns),
{
    lemma_scan_start();
    lemma_scan_items(scan_start(), input);
    if let Ok(s) = scan_items(scan_start(), input) {
        lemma_placeholders(s);
    }
}

/// In a request that is not refused every call has a result behind it, if only one that stands in
/// for it, and every result comes behind its call.
pub proof fn law_anthropic_calls_and_results_pair_up(input: Seq<ResponseItem>)
    ensures
        anthropic_turns(input) matches Ok(turns) ==> calls_have_results(all_blocks(turns))
            && results_have_calls(all_blocks(turns)),
{
    lemma_scan_start();
    lemma_scan_items(scan_start(), input);
    if let Ok(s) = scan_items(scan_start(), input) {
        lemma_placeholders(s);
    }
}

// ---- growth ----

/// Turns followed by others; where the last has the role of the first that follows, the two are
/// one.
pub open spec fn glued(a: Seq<Turn>, b: Seq<Turn>) -> Seq<Turn> {
    if a.len() > 0 && b.len() > 0 && a.last().role == b[0].role {
        a.drop_last().push(Turn { role: b[0].role, blocks: a.last().blocks + b[0].blocks })
            + b.skip(1)
    } else {
        a + b
    }
}

proof fn lemma_glued_block(a: Seq<Turn>, b: Seq<Turn>, role: Seq<char>, x: JsonView)
    ensures
        with_block(glued(a, b), role, x) == glued(a, with_block(b, role, x)),
{
    let g = glued(a, b);
    let now = with_block(b, role, x);
    if b.len() == 0 {
        assert(g =~= a);
        assert(now =~= seq![Turn { role, blocks: seq![x] }]);
        assert(now.skip(1) =~= Seq::empty());
        if a.len() > 0 && a.last().role == role {
            assert(a.last().blocks.push(x) =~= a.last().blocks + seq![x]);
        }
        assert(with_block(g, role, x) =~= glued(a, now));
    } else {
        let merged = a.len() > 0 && a.last().role == b[0].role;
        assert(now[0].role == b[0].role);
        if b.last().role == role {
            if merged && b.len() == 1 {
                assert(g.last().blocks == a.last().blocks + b[0].blocks);
                assert((a.last().blocks + b[0].blocks).push(x) =~= a.last().blocks
                    + b[0].blocks.push(x));
                assert(now.skip(1) =~= Seq::empty());
                assert(b.skip(1) =~= Seq::empty());
                assert(with_block(g, role, x) =~= glued(a, now));
            } else {
                assert(g.last() == b.last());
                assert(with_block(g, role, x) =~= glued(a, now));
            }
        } else {
            if merged && b.len() == 1 {
                assert(b.skip(1) =~= Seq::empty());
                assert(g.last().role == b[0].role);
            } else {
                assert(g.last() == b.last());
            }
            assert(with_block(g, role, x) =~= glued(a, now));
        }
    }
}

/// A scan with some turns put before its own.
spec fn prefixed(a: Seq<Turn>, s: Scan) -> Scan {
    Scan { turns: glued(a, s.turns), ..s }
}

spec fn prefixed_result(a: Seq<Turn>, r: Result<Scan, Seq<char>>) -> Result<Scan, Seq<char>> {
    match r {
        Ok(s) => Ok(prefixed(a, s)),
        Err(reason) => Err(reason),
    }
}

spec fn glued_result(a: Seq<Turn>, r: Result<Seq<Turn>, Seq<char>>) -> Result<
    Seq<Turn>,
    Seq<char>,
> {
    match r {
        Ok(b) => Ok(glued(a, b)),
        Err(reason) => Err(reason),
    }
}

proof fn lemma_glued_content(
    a: Seq<Turn>,
    b: Seq<Turn>,
    role: Seq<char>,
    content: Seq<ContentItem>,
)
    ensures
        with_content(glued(a, b), role, content) == glued_result(
            a,
            with_content(b, role, content),
        ),
    decreases content.len(),
{
    if content.len() > 0 {
        if let Ok(x) = content_block(content[0]) {
            lemma_glued_block(a, b, role, x);
            lemma_glued_content(a, with_block(b, role, x), role, content.skip(1));
        }
    }
}

proof fn lemma_glued_agent_content(
    a: Seq<Turn>,
    b: Seq<Turn>,
    content: Seq<AgentMessageInputContent>,
)
    ensures
        with_agent_content(glued(a, b), content) == glued_result(
            a,
            with_agent_content(b, content),
        ),
    decreases content.len(),
{
    if content.len() > 0 {
        if let AgentMessageInputContent::InputText { text } = content[0] {
            lemma_glued_block(a, b, "assistant"@, text_block(text@));
            lemma_glued_agent_content(
                a,
                with_block(b, "assistant"@, text_block(text@)),
                content.skip(1),
            );
        }
    }
}

proof fn lemma_prefixed_item(a: Seq<Turn>, s: Scan, item: ResponseItem)
    ensures
        scan_item(prefixed(a, s), item) == prefixed_result(a, scan_item(s, item)),
{
    match item {
        ResponseItem::Message { role, content, .. } => {
            lemma_glued_content(a, s.turns, turn_role(role@), content@);
        },
        ResponseItem::AgentMessage { content, .. } => {
            lemma_glued_agent_content(a, s.turns, content@);
        },
        ResponseItem::FunctionCall { name, arguments, call_id, .. } => {
            if let Ok(b) = call_block(call_id@, name@, parsed(arguments@)) {
                lemma_glued_block(a, s.turns, "assistant"@, b);
            }
        },
        ResponseItem::FunctionCallOutput { call_id, output, .. } => {
            if let Ok(b) = output_block(call_id@, output) {
                lemma_glued_block(a, s.turns, "user"@, b);
            }
        },
        _ => {},
    }
}

proof fn lemma_prefixed_items(a: Seq<Turn>, s: Scan, items: Seq<ResponseItem>)
    ensures
        scan_items(prefixed(a, s), items) == prefixed_result(a, scan_items(s, items)),
    decreases items.len(),
{
    if items.len() > 0 {
        lemma_prefixed_item(a, s, items[0]);
        if let Ok(next) = scan_item(s, items[0]) {
            lemma_prefixed_items(a, next, items.skip(1));
        }
    }
}

proof fn lemma_glued_placeholders(a: Seq<Turn>, b: Seq<Turn>, needing: Seq<Seq<char>>)
    ensures
        with_placeholders(glued(a, b), needing) == glued(a, with_placeholders(b, needing)),
    decreases needing.len(),
{
    if needing.len() > 0 {
        let x = result_block(needing[0], "[No output available yet]"@, false);
        lemma_glued_block(a, b, "user"@, x);
        lemma_glued_placeholders(a, with_block(b, "user"@, x), needing.skip(1));
    }
}

/// A history is scanned part by part.
pub proof fn lemma_scan_in_parts(s: Scan, a: Seq<ResponseItem>, b: Seq<ResponseItem>)
    ensures
        scan_items(s, a + b) == match scan_items(s, a) {
            Ok(t) => scan_items(t, b),
            Err(reason) => Err(reason),
        },
    decreases a.len(),
{
    if a.len() == 0 {
        assert(a + b =~= b);
    } else {
        assert((a + b).skip(1) =~= a.skip(1) + b);
        if let Ok(next) = scan_item(s, a[0]) {
            lemma_scan_in_parts(next, a.skip(1), b);
        }
    }
}

/// Whether every call of a history has its result in it.
pub open spec fn all_answered(input: Seq<ResponseItem>) -> bool {
    scan_items(scan_start(), input) matches Ok(s) && s.needing.len() == 0
}

/// The turns of the items that follow a history, taken by themselves.
pub open spec fn turns_behind(input: Seq<ResponseItem>, more: Seq<ResponseItem>) -> Result<
    Seq<Turn>,
    Seq<char>,
> {
    match scan_items(scan_start(), input) {
        Err(reason) => Err(reason),
        Ok(s) => match scan_items(Scan { turns: Seq::empty(), ..s }, more) {
            Err(reason) => Err(reason),
            Ok(t) => Ok(with_placeholders(t.turns, t.needing)),
        },
    }
}

/// The turns of a history before missing results are filled in.
pub open spec fn turns_so_far(input: Seq<ResponseItem>) -> Seq<Turn> {
    (scan_items(scan_start(), input)->Ok_0).turns
}

/// When a conversation grows, the turns of its history stay what they were and those of the new
/// items follow, the first of them joined to the last of the old if the two have the same role.
/// Only results that stand in for missing ones do not stay: they always come last. Where none is
/// missing, the turns of the history are those of its request.
pub proof fn law_conversations_grow_at_the_end(input: Seq<ResponseItem>, more: Seq<ResponseItem>)
    requires
        scan_items(scan_start(), input) is Ok,
    ensures
        anthropic_turns(input + more) == match turns_behind(input, more) {
            Ok(new) => Ok(glued(turns_so_far(input), new)),
            Err(reason) => Err(reason),
        },
        all_answered(input) ==> anthropic_turns(input) == Ok::<Seq<Turn>, Seq<char>>(
            turns_so_far(input),
        ),
{
    let s = scan_items(scan_start(), input)->Ok_0;
    let alone = Scan { turns: Seq::empty(), ..s };
    lemma_scan_in_parts(scan_start(), input, more);
    assert(glued(s.turns, Seq::empty()) =~= s.turns);
    assert(prefixed(s.turns, alone) == s);
    lemma_prefixed_items(s.turns, alone, more);
    if let Ok(t) = scan_items(alone, more) {
        lemma_glued_placeholders(s.turns, t.turns, t.needing);
    }
}

/// Whether `now` starts with the messages of `before`, except that the last of those may have
/// grown.
pub open spec fn keeps_messages(before: Seq<JsonView>, now: Seq<JsonView>) -> bool {
    &&& before.len() <= now.len()
    &&& forall|i: int| 0 <= i < before.len() - 1 ==> #[trigger] now[i] == before[i]
}

/// When a conversation grows whose calls all have their results, its earlier messages stay the
/// same to the last byte, so that an upstream that keeps them can find them again. Only the last
/// one may still grow; it too stays the same if the new turns start under the other role.
pub proof fn law_earlier_messages_are_stable(input: Seq<ResponseItem>, more: Seq<ResponseItem>)
    requires
        all_answered(input),
    ensures
        anthropic_messages(input) is Ok,
        anthropic_messages(input + more) matches Ok(now) ==> keeps_messages(
            anthropic_messages(input)->Ok_0,
            now,
        ),
        ({
            let old = anthropic_turns(input)->Ok_0;
            turns_behind(input, more) matches Ok(new) ==> (old.len() == 0 || new.len() == 0
                || old.last().role != new[0].role ==> (anthropic_messages(
                input + more,
            ) matches Ok(now) && now.take(old.len() as int) == anthropic_messages(input)->Ok_0))
        }),
{
    law_conversations_grow_at_the_end(input, more);
    let old = anthropic_turns(input)->Ok_0;
    let before = anthropic_messages(input)->Ok_0;
    if let Ok(new) = turns_behind(input, more) {
        let turns = glued(old, new);
        let now = turns.map_values(|t: Turn| turn_json(t));
        assert(anthropic_messages(input + more) == Ok::<Seq<JsonView>, Seq<char>>(now));
        assert forall|i: int| 0 <= i < before.len() - 1 implies #[trigger] now[i] == before[i] by {
            assert(turns[i] == old[i]);
        }
        if old.len() == 0 || new.len() == 0 || old.last().role != new[0].role {
            assert(now.take(old.len() as int) =~= before);
        }
    }
}

// ---- what leaves no trace ----

proof fn lemma_calls_come_from_items(s: Scan, items: Seq<ResponseItem>, id: Seq<char>)
    requires
        !s.calls.contains(id),
        forall|i: int| 0 <= i < items.len() ==> !makes_call(#[trigger] items[i], id),
    ensures
        scan_items(s, items) matches Ok(t) ==> !t.calls.contains(id),
    decreases items.len(),
{
    if items.len() > 0 {
        if let Ok(next) = scan_item(s, items[0]) {
            assert(!makes_call(items[0], id));
            match items[0] {
                ResponseItem::FunctionCall { call_id, .. } => {
                    lemma_push_contains(s.calls, call_id@, id);
                },
                _ => {},
            }
            assert forall|i: int| 0 <= i < items.skip(1).len() implies !makes_call(
                #[trigger] items.skip(1)[i],
                id,
            ) by {
                assert(items.skip(1)[i] == items[i + 1]);
            }
            lemma_calls_come_from_items(next, items.skip(1), id);
        }
    }
}

/// An item that only concerns the client, and a result whose call does not come before it, leave
/// no trace in the request.
pub proof fn law_dropped_items_leave_no_trace(
    before: Seq<ResponseItem>,
    item: ResponseItem,
    behind: Seq<ResponseItem>,
)
    requires
        leaves_no_trace(before, item),
    ensures
        anthropic_messages(before + seq![item] + behind) == anthropic_messages(before + behind),
{
    let s = scan_start();
    lemma_scan_in_parts(s, before + seq![item], behind);
    lemma_scan_in_parts(s, before, seq![item]);
    lemma_scan_in_parts(s, before, behind);
    if let Ok(t) = scan_items(s, before) {
        if let ResponseItem::FunctionCallOutput { call_id, .. } = item {
            lemma_calls_come_from_items(s, before, call_id@);
        }
        assert(seq![item].skip(1) =~= Seq::<ResponseItem>::empty());
        reveal_with_fuel(scan_items, 2);
        assert(scan_items(t, seq![item]) == Ok::<Scan, Seq<char>>(t));
    }
}

} // verus!
