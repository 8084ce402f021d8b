//! A verified transcoder from sparse game-record header streams to
//! fixed-schema, comma-delimited rows.
//!
//! The library reconciles a per-record stream of (key, value) header events
//! against an ordered field schema, emits one delimited row per record with
//! missing fields left empty, and, in minified mode, rewrites well-known
//! fields through per-field transforms and static code tables. Reading the
//! event stream and moving bytes to a sink are left to the caller.

pub mod bytes;
pub mod laws;
pub mod names;
pub mod schema;
pub mod tables;
pub mod transform;
pub mod writer;
