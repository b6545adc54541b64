//! What an Anthropic Messages request says of the history.

use super::anthropic::{law_anthropic_turns_are_well_formed, lemma_scan_in_parts};
use super::chat::makes_call;
use super::chat_history::is_called;
use super::lists::lemma_push_contains;
use crate::connector::anthropic_req::{
    anthropic_items_text, anthropic_messages, content_block,
    output_block, result_block, scan_item, scan_items, scan_start, text_block, turn_json,
    turn_role, use_block, with_agent_content, with_block, with_content, with_placeholders, Scan,
    Turn,
};
use crate::json::{parsed, JsonView};
use crate::protocol::{
    AgentMessageInputContent, ContentItem, FunctionCallOutputBody, ResponseItem,
};
use crate::text::others;
use vstd::prelude::*;

verus! {

// ---- what is seen of messages ----

/// The blocks of a message, each with the role of the message.
pub open spec fn spoken(m: JsonView) -> Seq<(Seq<char>, JsonView)> {
    m.list_at("content"@)->Some_0.map_values(
        |b: JsonView| (m.text_at("role"@)->Some_0, b),
    )
}

/// The blocks of messages in their order, each with the role of its message.
pub open spec fn all_spoken(ms: Seq<JsonView>) -> Seq<(Seq<char>, JsonView)>
    decreases ms.len(),
{
    if ms.len() == 0 {
        Seq::empty()
    } else {
        all_spoken(ms.drop_last()) + spoken(ms.last())
    }
}

// ---- what is owed to a history ----

/// A block of text.
pub open spec fn said(text: Seq<char>) -> JsonView {
    JsonView::Object(
        map!["type"@ => JsonView::Text("text"@), "text"@ => JsonView::Text(text)],
    )
}

/// The text of a piece of a message.
pub open spec fn piece_text(c: ContentItem) -> Seq<char> {
    match c {
        ContentItem::InputText { text } => text@,
        ContentItem::OutputText { text } => text@,
        ContentItem::InputImage { .. } => Seq::empty(),
    }
}

/// The pieces of a message, all spoken by one role.
pub open spec fn pieces_spoken(speaker: Seq<char>, content: Seq<ContentItem>) -> Seq<
    (Seq<char>, JsonView),
> {
    content.map_values(|c: ContentItem| (speaker, said(piece_text(c))))
}

/// The text of a piece of a message between agents.
pub open spec fn agent_piece_text(c: AgentMessageInputContent) -> Seq<char> {
    match c {
        AgentMessageInputContent::InputText { text } => text@,
        AgentMessageInputContent::EncryptedContent { .. } => Seq::empty(),
    }
}

/// The blocks that an item is sent as, each with the role that speaks it: only the assistant
/// speaks as itself, everyone else as the user.
pub open spec fn spoken_for(before: Seq<ResponseItem>, item: ResponseItem) -> Seq<
    (Seq<char>, JsonView),
> {
    match item {
        ResponseItem::Message { role, content, .. } => {
            let speaker = if role@ == "assistant"@ {
                "assistant"@
            } else {
                "user"@
            };
            pieces_spoken(speaker, content@)
        },
        ResponseItem::AgentMessage { content, .. } => content@.map_values(
            |c: AgentMessageInputContent| ("assistant"@, said(agent_piece_text(c))),
        ),
        ResponseItem::FunctionCall { name, arguments, call_id, .. } => seq![
            (
                "assistant"@,
                JsonView::Object(
                    map![
                        "type"@ => JsonView::Text("tool_use"@),
                        "id"@ => JsonView::Text(call_id@),
                        "name"@ => JsonView::Text(name@),
                        "input"@ => parsed(arguments@)->Ok_0,
                    ],
                ),
            ),
        ],
        ResponseItem::FunctionCallOutput { call_id, output, .. } => if is_called(before, call_id@) {
            seq![("user"@, output_block(call_id@, output)->Ok_0)]
        } else {
            Seq::empty()
        },
        _ => Seq::empty(),
    }
}

/// The blocks that a history is sent as, each with the role that speaks it.
pub open spec fn all_spoken_for(input: Seq<ResponseItem>) -> Seq<(Seq<char>, JsonView)>
    decreases input.len(),
{
    if input.len() == 0 {
        Seq::empty()
    } else {
        all_spoken_for(input.drop_last()) + spoken_for(input.drop_last(), input.last())
    }
}

/// Some calls without one of them.
pub open spec fn all_but(ids: Seq<Seq<char>>, x: Seq<char>) -> Seq<Seq<char>> {
    ids.filter(|id: Seq<char>| id != x)
}

/// The calls that wait for a result, in their order: a result answers all calls before it.
pub open spec fn waiting(input: Seq<ResponseItem>) -> Seq<Seq<char>>
    decreases input.len(),
{
    if input.len() == 0 {
        Seq::empty()
    } else {
        let before = waiting(input.drop_last());
        match input.last() {
            ResponseItem::FunctionCall { call_id, .. } => before.push(call_id@),
            ResponseItem::FunctionCallOutput { call_id, .. } => all_but(before, call_id@),
            _ => before,
        }
    }
}

/// A block that stands in for a missing result.
pub open spec fn stand_in(id: Seq<char>) -> (Seq<char>, JsonView) {
    (
        "user"@,
        JsonView::Object(
            map![
                "type"@ => JsonView::Text("tool_result"@),
                "tool_use_id"@ => JsonView::Text(id),
                "content"@ => JsonView::Text("[No output available yet]"@),
            ],
        ),
    )
}

/// Why a history is refused at an item, if it is.
pub open spec fn anthropic_refusal(before: Seq<ResponseItem>, item: ResponseItem) -> Option<
    Seq<char>,
> {
    match item {
        ResponseItem::Message { content, .. } => if exists|i: int|
            0 <= i < content@.len() && (#[trigger] content@[i]) is InputImage {
            Some("image input not supported in v1 anthropic connector (no capability flags)"@)
        } else {
            None
        },
        ResponseItem::AgentMessage { content, .. } => if exists|i: int|
            0 <= i < content@.len() && (#[trigger] content@[i]) is EncryptedContent {
            Some(
                "AgentMessage contains encrypted content (EncryptedContent), v1 anthropic connector cannot read it"@,
            )
        } else {
            None
        },
        ResponseItem::FunctionCall { name, namespace, arguments, .. } => if namespace is Some {
            Some(
                "namespaced function call '"@ + name@
                    + "' not supported in v1 anthropic connector"@,
            )
        } else {
            match parsed(arguments@) {
                Ok(_) => None,
                Err(why) => Some("FunctionCall arguments invalid JSON: "@ + why),
            }
        },
        ResponseItem::FunctionCallOutput { call_id, output, .. } => match output.body {
            FunctionCallOutputBody::ContentItems(items) => if is_called(before, call_id@) {
                match anthropic_items_text(items@) {
                    Ok(_) => None,
                    Err(reason) => Some(reason),
                }
            } else {
                None
            },
            FunctionCallOutputBody::Text(_) => None,
        },
        ResponseItem::Reasoning { .. } => None,
        ResponseItem::CompactionTrigger { .. } => None,
        ResponseItem::LocalShellCall { .. } => Some(
            "LocalShellCall"@ + " not supported in v1 anthropic connector"@,
        ),
        ResponseItem::ToolSearchCall { .. } => Some(
            "ToolSearchCall"@ + " not supported in v1 anthropic connector"@,
        ),
        ResponseItem::ToolSearchOutput { .. } => Some(
            "ToolSearchOutput"@ + " not supported in v1 anthropic connector"@,
        ),
        ResponseItem::WebSearchCall { .. } => Some(
            "WebSearchCall"@ + " not supported in v1 anthropic connector"@,
        ),
        ResponseItem::ImageGenerationCall { .. } => Some(
            "ImageGenerationCall"@ + " not supported in v1 anthropic connector"@,
        ),
        ResponseItem::CustomToolCall { .. } => Some(
            "CustomToolCall"@ + " not supported in v1 anthropic connector"@,
        ),
        ResponseItem::CustomToolCallOutput { .. } => Some(
            "CustomToolCallOutput"@ + " not supported in v1 anthropic connector"@,
        ),
        ResponseItem::Compaction { .. } => Some(
            "Compaction"@ + " not supported in v1 anthropic connector"@,
        ),
        ResponseItem::ContextCompaction { .. } => Some(
            "ContextCompaction"@ + " not supported in v1 anthropic connector"@,
        ),
        ResponseItem::Other => Some("Other"@ + " not supported in v1 anthropic connector"@),
    }
}

// ---- proofs ----

spec fn flat(turns: Seq<Turn>) -> Seq<(Seq<char>, JsonView)>
    decreases turns.len(),
{
    if turns.len() == 0 {
        Seq::empty()
    } else {
        flat(turns.drop_last()) + turn_spoken(turns.last())
    }
}

spec fn turn_spoken(t: Turn) -> Seq<(Seq<char>, JsonView)> {
    t.blocks.map_values(|b: JsonView| (t.role, b))
}

proof fn lemma_flat_block(turns: Seq<Turn>, role: Seq<char>, b: JsonView)
    ensures
        flat(with_block(turns, role, b)) == flat(turns).push((role, b)),
{
    let now = with_block(turns, role, b);
    if turns.len() > 0 && turns.last().role == role {
        assert(now.drop_last() =~= turns.drop_last());
        assert(turn_spoken(now.last()) =~= turn_spoken(turns.last()).push((role, b)));
        assert(flat(now) =~= flat(turns).push((role, b)));
    } else {
        assert(now.drop_last() =~= turns);
        assert(turn_spoken(now.last()) =~= seq![(role, b)]);
        assert(flat(now) =~= flat(turns).push((role, b)));
    }
}

proof fn lemma_flat_content(turns: Seq<Turn>, role: Seq<char>, content: Seq<ContentItem>)
    ensures
        match with_content(turns, role, content) {
            Ok(t) => {
                &&& flat(t) == flat(turns) + pieces_spoken(role, content)
                &&& forall|i: int| 0 <= i < content.len() ==> !((#[trigger] content[i]) is InputImage)
            },
            Err(reason) => {
                &&& reason
                    == "image input not supported in v1 anthropic connector (no capability flags)"@
                &&& exists|i: int| 0 <= i < content.len() && (#[trigger] content[i]) is InputImage
            },
        },
    decreases content.len(),
{
    if content.len() == 0 {
        assert(flat(turns) + pieces_spoken(role, content) =~= flat(turns));
    } else {
        let rest = content.skip(1);
        match content_block(content[0]) {
            Ok(b) => {
                assert(b == said(piece_text(content[0])));
                let next = with_block(turns, role, b);
                lemma_flat_block(turns, role, b);
                lemma_flat_content(next, role, rest);
                match with_content(next, role, rest) {
                    Ok(t) => {
                        assert(flat(next) + pieces_spoken(role, rest) =~= flat(turns)
                            + pieces_spoken(role, content));
                        assert forall|i: int| 0 <= i < content.len() implies !((
                        #[trigger] content[i]) is InputImage) by {
                            if i > 0 {
                                assert(rest[i - 1] == content[i]);
                            }
                        }
                    },
                    Err(_) => {
                        let i = choose|i: int|
                            0 <= i < rest.len() && (#[trigger] rest[i]) is InputImage;
                        assert(content[i + 1] == rest[i]);
                    },
                }
            },
            Err(_) => {
                assert(content[0] is InputImage);
            },
        }
    }
}

proof fn lemma_flat_agent_content(turns: Seq<Turn>, content: Seq<AgentMessageInputContent>)
    ensures
        match with_agent_content(turns, content) {
            Ok(t) => {
                &&& flat(t) == flat(turns) + content.map_values(
                    |c: AgentMessageInputContent| ("assistant"@, said(agent_piece_text(c))),
                )
                &&& forall|i: int|
                    0 <= i < content.len() ==> !((#[trigger] content[i]) is EncryptedContent)
            },
            Err(reason) => {
                &&& reason
                    == "AgentMessage contains encrypted content (EncryptedContent), v1 anthropic connector cannot read it"@
                &&& exists|i: int|
                    0 <= i < content.len() && (#[trigger] content[i]) is EncryptedContent
            },
        },
    decreases content.len(),
{
    let f = |c: AgentMessageInputContent| ("assistant"@, said(agent_piece_text(c)));
    if content.len() == 0 {
        assert(flat(turns) + content.map_values(f) =~= flat(turns));
    } else {
        let rest = content.skip(1);
        match content[0] {
            AgentMessageInputContent::InputText { text } => {
                let b = text_block(text@);
                let next = with_block(turns, "assistant"@, b);
                lemma_flat_block(turns, "assistant"@, b);
                lemma_flat_agent_content(next, rest);
                match with_agent_content(next, rest) {
                    Ok(t) => {
                        assert(flat(next) + rest.map_values(f) =~= flat(turns)
                            + content.map_values(f));
                        assert forall|i: int| 0 <= i < content.len() implies !((
                        #[trigger] content[i]) is EncryptedContent) by {
                            if i > 0 {
                                assert(rest[i - 1] == content[i]);
                            }
                        }
                    },
                    Err(_) => {
                        let i = choose|i: int|
                            0 <= i < rest.len() && (#[trigger] rest[i]) is EncryptedContent;
                        assert(content[i + 1] == rest[i]);
                    },
                }
            },
            _ => {
                assert(content[0] is EncryptedContent);
            },
        }
    }
}

proof fn lemma_flat_placeholders(turns: Seq<Turn>, needing: Seq<Seq<char>>)
    ensures
        flat(with_placeholders(turns, needing)) == flat(turns) + needing.map_values(
            |id: Seq<char>| stand_in(id),
        ),
    decreases needing.len(),
{
    let f = |id: Seq<char>| stand_in(id);
    if needing.len() == 0 {
        assert(flat(turns) + needing.map_values(f) =~= flat(turns));
    } else {
        let b = result_block(needing[0], "[No output available yet]"@, false);
        let next = with_block(turns, "user"@, b);
        lemma_flat_block(turns, "user"@, b);
        lemma_flat_placeholders(next, needing.skip(1));
        assert(("user"@, b) == stand_in(needing[0]));
        assert(flat(next) + needing.skip(1).map_values(f) =~= flat(turns) + needing.map_values(f));
    }
}

spec fn tracks(input: Seq<ResponseItem>, s: Scan) -> bool {
    &&& flat(s.turns) == all_spoken_for(input)
    &&& s.needing == waiting(input)
    &&& forall|id: Seq<char>| #[trigger] s.calls.contains(id) <==> is_called(input, id)
    &&& forall|id: Seq<char>| #[trigger] s.needing.contains(id) ==> is_called(input, id)
}

proof fn lemma_is_called_push(input: Seq<ResponseItem>, item: ResponseItem, id: Seq<char>)
    ensures
        is_called(input.push(item), id) <==> is_called(input, id) || makes_call(item, id),
{
    let now = input.push(item);
    if is_called(input, id) {
        let i = choose|i: int| 0 <= i < input.len() && makes_call(#[trigger] input[i], id);
        assert(makes_call(now[i], id));
    }
    assert(now[input.len() as int] == item);
    if is_called(now, id) {
        let i = choose|i: int| 0 <= i < now.len() && makes_call(#[trigger] now[i], id);
        if i < input.len() {
            assert(makes_call(input[i], id));
        }
    }
}

proof fn lemma_none_to_leave_out(s: Seq<Seq<char>>, x: Seq<char>)
    requires
        !s.contains(x),
    ensures
        all_but(s, x) == s,
    decreases s.len(),
{
    reveal(Seq::filter);
    if s.len() > 0 {
        let head = s.drop_last();
        assert(!head.contains(x)) by {
            if head.contains(x) {
                let i = choose|i: int| 0 <= i < head.len() && head[i] == x;
                assert(s[i] == x);
            }
        }
        assert(s[s.len() - 1] != x);
        lemma_none_to_leave_out(head, x);
        assert(head.push(s.last()) =~= s);
    }
}

proof fn lemma_same_others(s: Seq<Seq<char>>, x: Seq<char>)
    ensures
        others(s, x) == all_but(s, x),
    decreases s.len(),
{
    reveal(Seq::filter);
    if s.len() > 0 {
        lemma_same_others(s.drop_last(), x);
    }
}

proof fn lemma_tracks_item(input: Seq<ResponseItem>, item: ResponseItem, s: Scan)
    requires
        tracks(input, s),
    ensures
        match scan_item(s, item) {
            Ok(t) => anthropic_refusal(input, item) is None && tracks(input.push(item), t),
            Err(reason) => anthropic_refusal(input, item) == Some(reason),
        },
{
    let now = input.push(item);
    assert(now.drop_last() =~= input);
    assert forall|id: Seq<char>| is_called(now, id) <==> is_called(input, id) || makes_call(
        item,
        id,
    ) by {
        lemma_is_called_push(input, item, id);
    }
    let owed = spoken_for(input, item);
    let outcome = scan_item(s, item);
    match item {
        ResponseItem::Message { role, content, .. } => {
            lemma_flat_content(s.turns, turn_role(role@), content@);
        },
        ResponseItem::AgentMessage { content, .. } => {
            lemma_flat_agent_content(s.turns, content@);
        },
        ResponseItem::FunctionCall { name, namespace, arguments, call_id, .. } => {
            if let Ok(v) = parsed(arguments@) {
                let b = use_block(call_id@, name@, v);
                lemma_flat_block(s.turns, "assistant"@, b);
                assert(flat(s.turns) + owed =~= flat(s.turns).push(("assistant"@, b)));
                assert forall|id: Seq<char>| true implies (s.calls.push(call_id@).contains(id)
                    <==> s.calls.contains(id) || id == call_id@) && (s.needing.push(
                    call_id@,
                ).contains(id) <==> s.needing.contains(id) || id == call_id@) by {
                    lemma_push_contains(s.calls, call_id@, id);
                    lemma_push_contains(s.needing, call_id@, id);
                }
            }
            if let Ok(t) = outcome {
                assert(flat(t.turns) == all_spoken_for(now));
                assert(t.needing == waiting(now));
                assert forall|id: Seq<char>| #[trigger] t.calls.contains(id) <==> is_called(now, id) by {
                    assert(s.calls.contains(id) <==> is_called(input, id));
                }
                assert forall|id: Seq<char>| #[trigger] t.needing.contains(id) implies is_called(now, id) by {
                    assert(s.needing.contains(id) ==> is_called(input, id));
                }
                assert(tracks(now, t));
            } else {
                assert(anthropic_refusal(input, item) == Some(outcome->Err_0));
            }
        },
        ResponseItem::FunctionCallOutput { call_id, output, .. } => {
            assert(s.calls.contains(call_id@) <==> is_called(input, call_id@));
            lemma_same_others(s.needing, call_id@);
            if s.calls.contains(call_id@) {
                if let Ok(b) = output_block(call_id@, output) {
                    lemma_flat_block(s.turns, "user"@, b);
                    assert(flat(s.turns) + owed =~= flat(s.turns).push(("user"@, b)));
                    super::lists::lemma_others_contains(s.needing, call_id@);
                }
            } else {
                lemma_none_to_leave_out(s.needing, call_id@);
                assert(flat(s.turns) + owed =~= flat(s.turns));
            }
            if let Ok(t) = outcome {
                assert(flat(t.turns) == all_spoken_for(now));
                assert(t.needing == waiting(now));
                assert(tracks(now, t));
                assert(anthropic_refusal(input, item) is None);
            } else {
                assert(anthropic_refusal(input, item) == Some(outcome->Err_0));
            }
        },
        _ => {
            assert(flat(s.turns) + owed =~= flat(s.turns));
        },
    }
}

proof fn lemma_tracks(input: Seq<ResponseItem>)
    ensures
        scan_items(scan_start(), input) matches Ok(s) ==> tracks(input, s),
    decreases input.len(),
{
    if input.len() > 0 {
        let head = input.drop_last();
        lemma_tracks(head);
        assert(head + seq![input.last()] =~= input);
        lemma_scan_in_parts(scan_start(), head, seq![input.last()]);
        if let Ok(s) = scan_items(scan_start(), head) {
            lemma_tracks_item(head, input.last(), s);
            reveal_with_fuel(scan_items, 2);
            assert(seq![input.last()].skip(1) =~= Seq::<ResponseItem>::empty());
            assert(head.push(input.last()) =~= input);
        }
    }
}

proof fn lemma_turn_json(t: Turn)
    ensures
        turn_json(t).text_at("role"@) == Some(t.role),
        turn_json(t).list_at("content"@) == Some(t.blocks),
        spoken(turn_json(t)) == turn_spoken(t),
{
    reveal_strlit("role");
    reveal_strlit("content");
    assert("role"@.len() != "content"@.len());
    assert(spoken(turn_json(t)) =~= turn_spoken(t));
}

proof fn lemma_spoken_turns(turns: Seq<Turn>)
    ensures
        all_spoken(turns.map_values(|t: Turn| turn_json(t))) == flat(turns),
    decreases turns.len(),
{
    if turns.len() > 0 {
        let ms = turns.map_values(|t: Turn| turn_json(t));
        lemma_spoken_turns(turns.drop_last());
        assert(ms.drop_last() =~= turns.drop_last().map_values(|t: Turn| turn_json(t)));
        lemma_turn_json(turns.last());
    }
}

// ---- laws ----

/// What a request that is not refused says of its history: the blocks of each item in their order,
/// each spoken by its role, and behind them a block for each call that waits for a result. Its
/// messages hold nothing but a role and blocks, none is empty, and no two neighbours have the same
/// role.
pub proof fn law_anthropic_history_is_sent(input: Seq<ResponseItem>)
    ensures
        anthropic_messages(input) matches Ok(ms) ==> {
            &&& all_spoken(ms) == all_spoken_for(input) + waiting(input).map_values(
                |id: Seq<char>| stand_in(id),
            )
            &&& forall|i: int|
                #![trigger ms[i]]
                0 <= i < ms.len() ==> {
                    &&& ms[i].text_at("role"@) matches Some(role) && ms[i].list_at(
                        "content"@,
                    ) matches Some(blocks) && blocks.len() > 0 && ms[i] == JsonView::Object(
                        map![
                            "role"@ => JsonView::Text(role),
                            "content"@ => JsonView::List(blocks),
                        ],
                    )
                }
            &&& forall|i: int, j: int|
                0 <= i && j == i + 1 && j < ms.len() ==> (#[trigger] ms[i]).text_at("role"@) != (
                #[trigger] ms[j]).text_at("role"@)
        },
{
    lemma_tracks(input);
    law_anthropic_turns_are_well_formed(input);
    if let Ok(s) = scan_items(scan_start(), input) {
        let turns = with_placeholders(s.turns, s.needing);
        let ms = turns.map_values(|t: Turn| turn_json(t));
        lemma_flat_placeholders(s.turns, s.needing);
        lemma_spoken_turns(turns);
        assert forall|i: int|
            #![trigger ms[i]]
            0 <= i < ms.len() implies ms[i].text_at("role"@) == Some(turns[i].role)
            && ms[i].list_at("content"@) == Some(turns[i].blocks) && turns[i].blocks.len() > 0 by {
            lemma_turn_json(turns[i]);
        }
        assert forall|i: int, j: int| 0 <= i && j == i + 1 && j < ms.len() implies (
        #[trigger] ms[i]).text_at("role"@) != (#[trigger] ms[j]).text_at("role"@) by {
            assert(turns[i].role != turns[j].role);
        }
    }
}

/// A history is refused at the first item that cannot be sent, with the reason that belongs to that
/// item, whatever follows. A history without such an item is not refused.
pub proof fn law_anthropic_history_is_refused(
    before: Seq<ResponseItem>,
    item: ResponseItem,
    behind: Seq<ResponseItem>,
)
    requires
        anthropic_messages(before) is Ok,
    ensures
        match anthropic_refusal(before, item) {
            Some(reason) => anthropic_messages(before.push(item) + behind) == Err::<
                Seq<JsonView>,
                Seq<char>,
            >(reason),
            None => anthropic_messages(before.push(item)) is Ok,
        },
        anthropic_messages(Seq::empty()) is Ok,
{
    let start = scan_start();
    lemma_tracks(before);
    let s = scan_items(start, before)->Ok_0;
    lemma_tracks_item(before, item, s);
    assert(before.push(item) + behind =~= before + (seq![item] + behind));
    assert(before.push(item) =~= before + seq![item]);
    lemma_scan_in_parts(start, before, seq![item] + behind);
    lemma_scan_in_parts(start, before, seq![item]);
    assert((seq![item] + behind).skip(1) =~= behind);
    assert(seq![item].skip(1) =~= Seq::<ResponseItem>::empty());
    reveal_with_fuel(scan_items, 2);
}

} // verus!
