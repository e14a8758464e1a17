//! Comparison of two alignment record streams: a target mapping and a test
//! mapping of the same reads, paired by position in the stream.
pub mod bucket;
pub mod classify;
pub mod compare;
pub mod config;
pub mod laws;
pub mod parse;
pub mod record;
pub mod render;
pub mod text;
