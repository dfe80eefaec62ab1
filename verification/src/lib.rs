//! Verified incremental parser for the textual dump produced by a
//! filesystem block-inspection tool: a line-oriented state machine that
//! collects key/value metadata and decodes block-pointer records.

pub mod block;
pub mod kv;
pub mod num;
pub mod parser;
pub mod resolve;
pub mod text;
