//! Marshalling core for a client of a schema-less, JSON-over-HTTP NoSQL
//! store: a flat entity codec, response extraction, continuation cursors,
//! and a pull-based pagination engine.

pub mod codec;
pub mod cursor;
pub mod engine;
pub mod error;
pub mod extract;
pub mod headers;
pub mod json;
pub mod outside;
pub mod requests;
pub mod wire;
