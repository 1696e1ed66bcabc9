//! The HTTP/2 protocol state.
use vstd::prelude::*;

pub mod streams;

verus! {

/// The size of a flow-control window.
pub type WindowSize = u32;

/// The largest flow-control window.
pub const MAX_WINDOW_SIZE: WindowSize = 2147483647;

/// How many locally reset streams are remembered by default.
pub const DEFAULT_RESET_STREAM_MAX: usize = 10;

/// How long, in seconds, a locally reset stream is remembered by default.
pub const DEFAULT_RESET_STREAM_SECS: u64 = 30;

/// How many bytes of data may wait to be sent on a stream by default.
pub const DEFAULT_MAX_SEND_BUFFER_SIZE: usize = 409600;

} // verus!
