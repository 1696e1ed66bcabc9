//! HTTP/1.
pub mod codec;
pub mod payload;
