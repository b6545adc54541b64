//! The text of structured content.

use super::{spells, ConnError};
use crate::protocol::FunctionCallOutputContentItem;
use vstd::prelude::*;
use vstd::string::*;

verus! {

/// What precedes what follows, unless the latter is refused.
pub open spec fn after(head: Seq<char>, tail: Result<Seq<char>, Seq<char>>) -> Result<
    Seq<char>,
    Seq<char>,
> {
    match tail {
        Ok(t) => Ok(head + t),
        Err(reason) => Err(reason),
    }
}

/// What follows a join follows its parts in turn.
pub proof fn lemma_after(a: Seq<char>, b: Seq<char>, tail: Result<Seq<char>, Seq<char>>)
    ensures
        after(a, after(b, tail)) == after(a + b, tail),
{
    if let Ok(t) = tail {
        assert(a + (b + t) =~= (a + b) + t);
    }
}

/// Nothing precedes without a trace.
pub proof fn lemma_after_nothing(tail: Result<Seq<char>, Seq<char>>)
    ensures
        after(Seq::empty(), tail) == tail,
{
    if let Ok(t) = tail {
        assert(Seq::<char>::empty() + t =~= t);
    }
}

/// The text of a structured tool result, all pieces in one. The first piece that is not text
/// decides with what reason the result is refused.
pub open spec fn items_text(
    items: Seq<FunctionCallOutputContentItem>,
    image_reason: Seq<char>,
    encrypted_reason: Seq<char>,
) -> Result<Seq<char>, Seq<char>>
    decreases items.len(),
{
    if items.len() == 0 {
        Ok(Seq::empty())
    } else {
        match items[0] {
            FunctionCallOutputContentItem::InputText { text } => after(
                text@,
                items_text(items.skip(1), image_reason, encrypted_reason),
            ),
            FunctionCallOutputContentItem::InputImage { .. } => Err(image_reason),
            FunctionCallOutputContentItem::EncryptedContent { .. } => Err(encrypted_reason),
        }
    }
}

/// The text of a structured tool result, or the reason that belongs to its first piece that is not
/// text.
pub(crate) fn items_to_text(
    items: &Vec<FunctionCallOutputContentItem>,
    image_reason: &str,
    encrypted_reason: &str,
) -> (r: Result<String, ConnError>)
    ensures
        spells(r, items_text(items@, image_reason@, encrypted_reason@)),
{
    let mut text: String = String::new();
    let mut i: usize = 0;
    let ghost whole = items_text(items@, image_reason@, encrypted_reason@);
    proof {
        assert(items@.skip(0) =~= items@);
        lemma_after_nothing(whole);
        assert(text@ =~= Seq::empty());
    }
    while i < items.len()
        invariant
            i <= items@.len(),
            whole == items_text(items@, image_reason@, encrypted_reason@),
            whole == after(
                text@,
                items_text(items@.skip(i as int), image_reason@, encrypted_reason@),
            ),
        decreases items.len() - i,
    {
        assert(items@.skip(i as int).skip(1) =~= items@.skip(i + 1));
        let ghost before = text@;
        match &items[i] {
            FunctionCallOutputContentItem::InputText { text: t } => {
                text.append(t.as_str());
                proof {
                    lemma_after(
                        before,
                        t@,
                        items_text(items@.skip(i + 1), image_reason@, encrypted_reason@),
                    );
                }
            },
            FunctionCallOutputContentItem::InputImage { .. } => {
                return Err(ConnError::HardFail(image_reason.to_owned()));
            },
            FunctionCallOutputContentItem::EncryptedContent { .. } => {
                return Err(ConnError::HardFail(encrypted_reason.to_owned()));
            },
        }
        i += 1;
    }
    assert(text@ + Seq::<char>::empty() =~= text@);
    Ok(text)
}

} // verus!
