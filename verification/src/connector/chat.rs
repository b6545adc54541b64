//! The connector to Chat Completions upstreams.

use super::chat_req::build_chat_request;
use super::{Connector, EgressCtx};
use crate::config::Connector as ConnectorKind;
use crate::protocol::{ApiError, ResponsesApiRequest};
use serde_json::Value;
use vstd::prelude::*;

verus! {

/// The connector to Chat Completions upstreams.
#[derive(Debug)]
pub struct ChatConnector;

impl Connector for ChatConnector {
    open spec fn speaks(&self) -> ConnectorKind {
        ConnectorKind::Chat
    }

    fn kind(&self) -> (r: ConnectorKind) {
        ConnectorKind::Chat
    }

    fn body(&self, req: &ResponsesApiRequest, ctx: &EgressCtx) -> (r: Result<Value, ApiError>) {
        match build_chat_request(req, ctx) {
            Ok(v) => Ok(v),
            Err(e) => Err(ApiError::from(e)),
        }
    }
}

} // verus!
