//! The runtime fabric of a multi-tenant edge runtime for JavaScript
//! functions: the per-tenant key-value store, the request loop and runtime
//! slot of each tenant's worker, the reconciliation of apps against
//! deployments, request routing, and the marshalling of requests and
//! responses across the script boundary.
use vstd::prelude::*;

pub mod app;
pub mod auth;
pub mod config;
pub mod kv;
pub mod loader;
pub mod marshal;
pub mod router;
pub mod session;
pub mod slot;
pub mod text;
pub mod worker;

verus! {

} // verus!
