//! The settings the HTTP/2 streams of a connection start with.
use vstd::prelude::*;

use crate::h2::proto::WindowSize;

verus! {

/// What the streams of a connection are set up with.
#[derive(Debug)]
pub struct Config {
    /// Initial window size of locally initiated streams.
    pub local_init_window_sz: WindowSize,
    /// Initial maximum number of locally initiated streams, until the peer's settings
    /// say otherwise.
    pub initial_max_send_streams: usize,
    /// Most bytes of data to buffer per stream.
    pub local_max_buffer_size: usize,
    /// The id the next local stream starts with.
    pub local_next_stream_id: u32,
    /// Whether the local peer accepts push promises.
    pub local_push_enabled: bool,
    /// Whether the extended CONNECT protocol is enabled.
    pub extended_connect_protocol_enabled: bool,
    /// How long a locally reset stream ignores frames.
    pub local_reset_duration: std::time::Duration,
    /// Most locally reset streams kept at a time.
    pub local_reset_max: usize,
    /// Initial window size of remotely initiated streams.
    pub remote_init_window_sz: WindowSize,
    /// Most remotely initiated streams.
    pub remote_max_initiated: Option<usize>,
}

} // verus!
