//! A tiered response cache for an HTTP caching proxy.
//!
//! The crate models the key/value vocabulary shared by every tier, the
//! `Cache-Control`-driven policy engine, the in-process tier, the wire
//! envelope of the distributed tier, the relational rows of the persistent
//! tier, and the per-request orchestration that decides where to read and
//! write.  Network and disk I/O live outside this library; the functions
//! here take and return plain values and are verified.

pub mod ascii;
pub mod model;
pub mod orchestrator;
pub mod wire;
pub mod hexcodec;
pub mod json;
pub mod laws;
pub mod lines;
pub mod local;
pub mod policy;
pub mod pool;
pub mod rows;
pub mod store;
