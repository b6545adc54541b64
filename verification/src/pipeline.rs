//! Changes to a request before it is translated.

use crate::connector::ConnError;
use crate::protocol::ResponsesApiRequest;
use vstd::prelude::*;

verus! {

/// A change to a request in the Responses protocol, whatever protocol it is translated to.
pub trait TransformPlugin: Send + Sync {
    /// Whether the plugin may turn `before` into `after` and return `r`.
    spec fn may_turn(
        &self,
        before: ResponsesApiRequest,
        after: ResponsesApiRequest,
        r: Result<(), ConnError>,
    ) -> bool;

    /// Changes the request, or refuses it.
    fn transform(&self, req: &mut ResponsesApiRequest) -> (r: Result<(), ConnError>)
        ensures
            self.may_turn(*old(req), *final(req), r),
    ;
}

/// Whether the plugins, one after the other up to the first that fails, may turn `before` into
/// `after` and return `r`.
pub open spec fn may_run(
    plugins: Seq<Box<dyn TransformPlugin>>,
    before: ResponsesApiRequest,
    after: ResponsesApiRequest,
    r: Result<(), ConnError>,
) -> bool
    decreases plugins.len(),
{
    if plugins.len() == 0 {
        after == before && r is Ok
    } else {
        exists|mid: ResponsesApiRequest, first: Result<(), ConnError>| #[trigger]
            plugins[0].may_turn(before, mid, first) && match first {
                Ok(_) => may_run(plugins.skip(1), mid, after, r),
                Err(_) => after == mid && r == first,
            }
    }
}

/// Runs all plugins in order, up to the first that fails.
pub fn run_transforms(plugins: &[Box<dyn TransformPlugin>], req: &mut ResponsesApiRequest) -> (r:
    Result<(), ConnError>)
    ensures
        may_run(plugins@, *old(req), *final(req), r),
{
    assert(plugins@.skip(0) =~= plugins@);
    run_from(plugins, 0, req)
}

/// Runs the plugins from the place `i` on.
fn run_from(plugins: &[Box<dyn TransformPlugin>], i: usize, req: &mut ResponsesApiRequest) -> (r:
    Result<(), ConnError>)
    requires
        i <= plugins@.len(),
    ensures
        may_run(plugins@.skip(i as int), *old(req), *final(req), r),
    decreases plugins@.len() - i,
{
    if i == plugins.len() {
        return Ok(());
    }
    let ghost before = *req;
    let ghost rest = plugins@.skip(i as int);
    let first: Result<(), ConnError> = plugins[i].transform(req);
    let ghost mid = *req;
    assert(rest.skip(1) =~= plugins@.skip(i + 1));
    assert(rest[0].may_turn(before, mid, first));
    match first {
        Ok(_) => run_from(plugins, i + 1, req),
        Err(e) => Err(e),
    }
}

/// The plugins that are in use.
pub fn default_plugins() -> (r: Vec<Box<dyn TransformPlugin>>)
    ensures
        r@.len() == 0,
{
    crate::transform::plugins()
}

/// Without plugins a request stays as it is and is not refused.
pub proof fn law_no_plugins_change_nothing(
    plugins: Seq<Box<dyn TransformPlugin>>,
    before: ResponsesApiRequest,
    after: ResponsesApiRequest,
    r: Result<(), ConnError>,
)
    requires
        plugins.len() == 0,
    ensures
        may_run(plugins, before, after, r) <==> after == before && r is Ok,
{
}

} // verus!
