//! A verified JSON-RPC 2.0 dispatch core.
//!
//! Documents are modeled by [`value::Value`].  [`req`] and [`res`] hold the
//! two protocol envelopes and their rules, [`method`] the typed-callable
//! abstraction with positional and named parameter binding, [`server`] the
//! registry and the dispatch algorithm, [`json`] the JSON text reader and
//! writer, and [`store`] the per-call fill-once request cell.  The HTTP
//! transport binding lives outside the verified core and hands it parsed
//! values.

pub mod json;
pub mod method;
pub mod req;
pub mod res;
pub mod server;
pub mod store;
pub mod value;

pub use req::Request;
pub use res::{Builder, Error};
pub use value::Value;
