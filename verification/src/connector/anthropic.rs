//! The connector to Anthropic Messages upstreams.

use super::anthropic_req::build_anthropic_request;
use super::{Connector, EgressCtx};
use crate::config::Connector as ConnectorKind;
use crate::protocol::{ApiError, ResponsesApiRequest};
use serde_json::Value;
use vstd::prelude::*;

verus! {

/// The connector to Anthropic Messages upstreams.
#[derive(Debug)]
pub struct AnthropicConnector;

impl Connector for AnthropicConnector {
    open spec fn speaks(&self) -> ConnectorKind {
        ConnectorKind::Anthropic
    }

    fn kind(&self) -> (r: ConnectorKind) {
        ConnectorKind::Anthropic
    }

    fn body(&self, req: &ResponsesApiRequest, ctx: &EgressCtx) -> (r: Result<Value, ApiError>) {
        match build_anthropic_request(req, ctx) {
            Ok(v) => Ok(v),
            Err(e) => Err(ApiError::from(e)),
        }
    }
}

} // verus!
