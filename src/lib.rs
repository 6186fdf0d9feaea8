//! Parsing and building of PROXY protocol headers, versions 1 (text) and 2 (binary).
//!
//! Parsers borrow the header from the caller's buffer and never copy it; an incomplete
//! result tells a streaming caller to read more bytes and retry.

pub mod builder;
pub mod bytes;
pub mod header;
pub mod ip;
pub mod lemmas;
pub mod text;
pub mod v1;
pub mod v2;

pub use bytes::Stream;
pub use header::{HeaderResult, PartialResult, Version};
