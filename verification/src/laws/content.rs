//! What holds of the text that content comes to.

use crate::connector::anthropic_req::{anthropic_items_text, output_block};
use crate::connector::chat_req::{agent_text, chat_items_text, message_text, output_text};
use crate::connector::content::items_text;
use crate::json::JsonView;
use crate::protocol::{
    AgentMessageInputContent, ContentItem, FunctionCallOutputBody, FunctionCallOutputContentItem,
    FunctionCallOutputPayload,
};
use vstd::prelude::*;

verus! {

/// One text behind another, unless one of them is refused; the first refusal counts.
pub open spec fn joined(a: Result<Seq<char>, Seq<char>>, b: Result<Seq<char>, Seq<char>>) -> Result<
    Seq<char>,
    Seq<char>,
> {
    match (a, b) {
        (Ok(x), Ok(y)) => Ok(x + y),
        (Err(reason), _) => Err(reason),
        (_, Err(reason)) => Err(reason),
    }
}

/// The text of a message holds all its pieces, in their order: what two runs of pieces come to is
/// the text of the first and then that of the second.
pub proof fn law_message_text_joins(a: Seq<ContentItem>, b: Seq<ContentItem>)
    ensures
        message_text(a + b) == joined(message_text(a), message_text(b)),
    decreases a.len(),
{
    if a.len() == 0 {
        assert(a + b =~= b);
        if let Ok(y) = message_text(b) {
            assert(Seq::<char>::empty() + y =~= y);
        }
    } else {
        assert((a + b).skip(1) =~= a.skip(1) + b);
        law_message_text_joins(a.skip(1), b);
        match a[0] {
            ContentItem::InputText { text } => {
                if let (Ok(x), Ok(y)) = (message_text(a.skip(1)), message_text(b)) {
                    assert(text@ + (x + y) =~= (text@ + x) + y);
                }
            },
            ContentItem::OutputText { text } => {
                if let (Ok(x), Ok(y)) = (message_text(a.skip(1)), message_text(b)) {
                    assert(text@ + (x + y) =~= (text@ + x) + y);
                }
            },
            _ => {},
        }
    }
}

/// A message of one piece of text comes to that text, an image is refused, and nothing comes to
/// the empty text.
pub proof fn law_message_text_of_one(c: ContentItem)
    ensures
        message_text(seq![c]) == match c {
            ContentItem::InputText { text } => Ok::<Seq<char>, Seq<char>>(text@),
            ContentItem::OutputText { text } => Ok(text@),
            ContentItem::InputImage { .. } => Err(
                "image input not supported in v1 chat connector (no capability flag)"@,
            ),
        },
        message_text(Seq::empty()) == Ok::<Seq<char>, Seq<char>>(Seq::empty()),
{
    reveal_with_fuel(message_text, 2);
    assert(seq![c].skip(1) =~= Seq::<ContentItem>::empty());
    match c {
        ContentItem::InputText { text } => {
            assert(text@ + Seq::<char>::empty() =~= text@);
        },
        ContentItem::OutputText { text } => {
            assert(text@ + Seq::<char>::empty() =~= text@);
        },
        _ => {},
    }
}

/// The text of a message between agents holds all its pieces, in their order.
pub proof fn law_agent_text_joins(
    a: Seq<AgentMessageInputContent>,
    b: Seq<AgentMessageInputContent>,
)
    ensures
        agent_text(a + b) == joined(agent_text(a), agent_text(b)),
    decreases a.len(),
{
    if a.len() == 0 {
        assert(a + b =~= b);
        if let Ok(y) = agent_text(b) {
            assert(Seq::<char>::empty() + y =~= y);
        }
    } else {
        assert((a + b).skip(1) =~= a.skip(1) + b);
        law_agent_text_joins(a.skip(1), b);
        if let AgentMessageInputContent::InputText { text } = a[0] {
            if let (Ok(x), Ok(y)) = (agent_text(a.skip(1)), agent_text(b)) {
                assert(text@ + (x + y) =~= (text@ + x) + y);
            }
        }
    }
}

/// A message between agents of one piece of text comes to that text, what is encrypted is refused,
/// and nothing comes to the empty text.
pub proof fn law_agent_text_of_one(c: AgentMessageInputContent)
    ensures
        agent_text(seq![c]) == match c {
            AgentMessageInputContent::InputText { text } => Ok::<Seq<char>, Seq<char>>(text@),
            AgentMessageInputContent::EncryptedContent { .. } => Err(
                "AgentMessage contains encrypted content (EncryptedContent), v1 chat connector cannot read it"@,
            ),
        },
        agent_text(Seq::empty()) == Ok::<Seq<char>, Seq<char>>(Seq::empty()),
{
    reveal_with_fuel(agent_text, 2);
    assert(seq![c].skip(1) =~= Seq::<AgentMessageInputContent>::empty());
    if let AgentMessageInputContent::InputText { text } = c {
        assert(text@ + Seq::<char>::empty() =~= text@);
    }
}

proof fn lemma_items_text_joins(
    a: Seq<FunctionCallOutputContentItem>,
    b: Seq<FunctionCallOutputContentItem>,
    image: Seq<char>,
    encrypted: Seq<char>,
)
    ensures
        items_text(a + b, image, encrypted) == joined(
            items_text(a, image, encrypted),
            items_text(b, image, encrypted),
        ),
    decreases a.len(),
{
    if a.len() == 0 {
        assert(a + b =~= b);
        if let Ok(y) = items_text(b, image, encrypted) {
            assert(Seq::<char>::empty() + y =~= y);
        }
    } else {
        assert((a + b).skip(1) =~= a.skip(1) + b);
        lemma_items_text_joins(a.skip(1), b, image, encrypted);
        if let FunctionCallOutputContentItem::InputText { text } = a[0] {
            if let (Ok(x), Ok(y)) = (
                items_text(a.skip(1), image, encrypted),
                items_text(b, image, encrypted),
            ) {
                assert(text@ + (x + y) =~= (text@ + x) + y);
            }
        }
    }
}

/// The text of a structured tool result holds all its pieces, in their order, for either protocol.
pub proof fn law_tool_result_text_joins(
    a: Seq<FunctionCallOutputContentItem>,
    b: Seq<FunctionCallOutputContentItem>,
)
    ensures
        chat_items_text(a + b) == joined(chat_items_text(a), chat_items_text(b)),
        anthropic_items_text(a + b) == joined(anthropic_items_text(a), anthropic_items_text(b)),
{
    lemma_items_text_joins(
        a,
        b,
        "tool result contains image content (InputImage), v1 chat connector does not support it"@,
        "tool result contains encrypted content (EncryptedContent), v1 chat connector does not support it"@,
    );
    lemma_items_text_joins(
        a,
        b,
        "tool result contains image content (InputImage), v1 anthropic connector not supported"@,
        "tool result contains encrypted content (EncryptedContent), v1 anthropic connector not supported"@,
    );
}

/// A structured tool result of one piece of text comes to that text, images and what is encrypted
/// are refused, and nothing comes to the empty text.
pub proof fn law_tool_result_text_of_one(c: FunctionCallOutputContentItem)
    ensures
        chat_items_text(seq![c]) == match c {
            FunctionCallOutputContentItem::InputText { text } => Ok::<Seq<char>, Seq<char>>(text@),
            FunctionCallOutputContentItem::InputImage { .. } => Err(
                "tool result contains image content (InputImage), v1 chat connector does not support it"@,
            ),
            FunctionCallOutputContentItem::EncryptedContent { .. } => Err(
                "tool result contains encrypted content (EncryptedContent), v1 chat connector does not support it"@,
            ),
        },
        anthropic_items_text(seq![c]) == match c {
            FunctionCallOutputContentItem::InputText { text } => Ok::<Seq<char>, Seq<char>>(text@),
            FunctionCallOutputContentItem::InputImage { .. } => Err(
                "tool result contains image content (InputImage), v1 anthropic connector not supported"@,
            ),
            FunctionCallOutputContentItem::EncryptedContent { .. } => Err(
                "tool result contains encrypted content (EncryptedContent), v1 anthropic connector not supported"@,
            ),
        },
        chat_items_text(Seq::empty()) == Ok::<Seq<char>, Seq<char>>(Seq::empty()),
        anthropic_items_text(Seq::empty()) == Ok::<Seq<char>, Seq<char>>(Seq::empty()),
{
    reveal_with_fuel(items_text, 2);
    assert(seq![c].skip(1) =~= Seq::<FunctionCallOutputContentItem>::empty());
    if let FunctionCallOutputContentItem::InputText { text } = c {
        assert(text@ + Seq::<char>::empty() =~= text@);
    }
}

/// A tool result is sent with its whole text. Only one that is known to have failed is marked: by
/// words before the text for a Chat Completions upstream, by a member of its own for an Anthropic
/// Messages upstream.
pub proof fn law_failed_results_are_marked(call_id: Seq<char>, output: FunctionCallOutputPayload)
    ensures
        ({
            let text = match output.body {
                FunctionCallOutputBody::Text(t) => Ok::<Seq<char>, Seq<char>>(t@),
                FunctionCallOutputBody::ContentItems(items) => chat_items_text(items@),
            };
            output_text(output) == match text {
                Ok(t) => Ok::<Seq<char>, Seq<char>>(
                    if output.success == Some(false) {
                        "[tool error] "@ + t
                    } else {
                        t
                    },
                ),
                Err(reason) => Err(reason),
            }
        }),
        ({
            let text = match output.body {
                FunctionCallOutputBody::Text(t) => Ok::<Seq<char>, Seq<char>>(t@),
                FunctionCallOutputBody::ContentItems(items) => anthropic_items_text(items@),
            };
            let sent = |t: Seq<char>|
                map![
                    "type"@ => JsonView::Text("tool_result"@),
                    "tool_use_id"@ => JsonView::Text(call_id),
                    "content"@ => JsonView::Text(t),
                ];
            output_block(call_id, output) == match text {
                Ok(t) => Ok::<JsonView, Seq<char>>(
                    JsonView::Object(
                        if output.success == Some(false) {
                            sent(t).insert("is_error"@, JsonView::Bool(true))
                        } else {
                            sent(t)
                        },
                    ),
                ),
                Err(reason) => Err(reason),
            }
        }),
{
}

} // verus!
