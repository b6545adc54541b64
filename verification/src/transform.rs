//! The plugins that change requests.

use crate::pipeline::TransformPlugin;
use vstd::prelude::*;

verus! {

/// The plugins that are in use: there are none.
pub fn plugins() -> (r: Vec<Box<dyn TransformPlugin>>)
    ensures
        r@.len() == 0,
{
    Vec::new()
}

} // verus!
