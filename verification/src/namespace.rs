//! Whether a request holds tools that no translated protocol can express.

use crate::json::{self, held, JsonView};
use crate::protocol::{ResponseItem, ResponsesApiRequest};
use crate::text::same;
use serde_json::Value;
use vstd::prelude::*;

verus! {

/// Whether a tool definition is that of a plain function.
pub open spec fn is_function_tool(t: JsonView) -> bool {
    t.text_at("type"@) == Some("function"@)
}

/// Whether an item calls a function of a namespace.
pub open spec fn is_namespaced_call(item: ResponseItem) -> bool {
    match item {
        ResponseItem::FunctionCall { namespace, .. } => namespace is Some,
        _ => false,
    }
}

/// Whether some tool definition is not that of a plain function, or some item calls a function of
/// a namespace.
pub open spec fn has_namespace_tools(req: ResponsesApiRequest) -> bool {
    ||| exists|i: int| 0 <= i < req.tools@.len() && !is_function_tool(held(#[trigger] req.tools@[i]))
    ||| exists|i: int| 0 <= i < req.input@.len() && is_namespaced_call(#[trigger] req.input@[i])
}

fn is_function(t: &Value) -> (r: bool)
    ensures
        r == is_function_tool(held(*t)),
{
    match json::text_at(t, "type") {
        Some(k) => same(k, "function"),
        None => false,
    }
}

fn calls_namespace(item: &ResponseItem) -> (r: bool)
    ensures
        r == is_namespaced_call(*item),
{
    match item {
        ResponseItem::FunctionCall { namespace, .. } => namespace.is_some(),
        _ => false,
    }
}

/// Whether the request holds tools that no translated protocol can express.
pub fn request_has_namespace_tools(req: &ResponsesApiRequest) -> (r: bool)
    ensures
        r == has_namespace_tools(*req),
{
    let mut i: usize = 0;
    while i < req.tools.len()
        invariant
            i <= req.tools@.len(),
            forall|j: int| 0 <= j < i ==> is_function_tool(held(#[trigger] req.tools@[j])),
        decreases req.tools.len() - i,
    {
        if !is_function(&req.tools[i]) {
            return true;
        }
        i += 1;
    }
    let mut k: usize = 0;
    while k < req.input.len()
        invariant
            k <= req.input@.len(),
            forall|j: int| 0 <= j < k ==> !is_namespaced_call(#[trigger] req.input@[j]),
            forall|j: int|
                0 <= j < req.tools@.len() ==> is_function_tool(held(#[trigger] req.tools@[j])),
        decreases req.input.len() - k,
    {
        if calls_namespace(&req.input[k]) {
            return true;
        }
        k += 1;
    }
    false
}

} // verus!
