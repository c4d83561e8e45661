//! Connection and channel fabric of a multi-tenant real-time messaging server.
//!
//! The crate holds the state that a node keeps about its tenants (connections,
//! channels and presence), the per-connection protocol state machine, the
//! bookkeeping of cluster-wide queries, and the decisions that the server
//! process takes when it starts, serves and stops. Every function carries a
//! contract that Verus proves, but for one: the parser of the `http` crate is
//! called through a wrapper whose contract is taken on trust.

pub mod adapter;
pub mod aggregate;
pub mod app;
pub mod channel;
pub mod error;
pub mod history;
pub mod horizontal;
pub mod local_adapter;
pub mod model;
pub mod names;
pub mod namespace;
pub mod protocol;
pub mod redirect;
pub mod server;
pub mod text;
