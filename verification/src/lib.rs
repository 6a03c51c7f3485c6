//! An append-only, topic-partitioned event log and the protocols layered on it:
//! polling, request/response correlation, duplex sessions, a continuous
//! transform stage, and single-shot run and replay.
//!
//! Items are only ever appended. Readers scan forward from a cursor that they
//! own; nothing here keeps process-wide state. Nothing here reads, writes,
//! sleeps or spawns either: the protocols are given what happened outside and
//! decide what is done next.

pub mod error;
pub mod item;
pub mod query;
pub mod store;
pub mod causal;
pub mod poll;
pub mod process;
pub mod call;
pub mod session;
pub mod transform;
pub mod run;
pub mod row;
pub mod text;
pub mod sse;
pub mod sse_laws;
pub mod ingest;
pub mod encoding;
