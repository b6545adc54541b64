//! Translation between the Responses protocol and other upstream protocols.
//!
//! A client that only speaks the Responses protocol hands its request to the switch. [`route`]
//! decides whether a configured provider takes it over, [`run`] and [`connector`] build the request
//! in the protocol of that provider, and [`sse`] turns the stream that comes back into the events
//! that the client expects.
//!
//! The library only computes: reading files and the environment, sending and receiving are left to
//! its callers.

pub mod config;
pub mod connector;
pub mod http;
pub mod json;
pub mod laws;
pub mod namespace;
pub mod order;
pub mod pipeline;
pub mod protocol;
pub mod purpose;
pub mod route;
pub mod run;
pub mod sse;
pub mod table;
pub mod testing;
pub mod text;
pub mod transform;

pub use config::{
    config_or_disabled, load_config, AuthKind, Config, ConfigError, Connector, ProviderCfg,
    RawProvider, RawSwitch,
};
pub use connector::{
    make_connector, ConnError, Connector as ConnectorTrait, EgressCtx, SseTranslator,
};
pub use http::{build_headers, default_path, egress_url, resolve_key, HttpError};
pub use namespace::request_has_namespace_tools;
pub use pipeline::{default_plugins, run_transforms, TransformPlugin};
pub use purpose::{purpose_from_source, Purpose};
pub use route::{enabled, route_in, route_request, Route};
