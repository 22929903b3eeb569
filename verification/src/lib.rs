//! Inspection of log-store artifacts: a decoder for the chunk file format and
//! the planner and filters of the index query engine.

pub mod chunk;
pub mod codec;
pub mod common;
pub mod decode;
pub mod executor;
pub mod index;
pub mod push;
pub mod query;
pub mod resolve;
pub mod store;
pub mod text;
pub mod timerange;
pub mod varint;
