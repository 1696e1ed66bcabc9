//! HTTP/2.
pub mod proto;
