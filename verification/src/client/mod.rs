//! The HTTP client: how it is set up, the keys its connections are pooled by, how it
//! picks the protocol of a connection, and the pool itself.
use std::rc::Rc;
use vstd::prelude::*;

use crate::common::header::HeaderMap;

pub mod connection;
pub mod connector;
pub mod key;
pub mod pool;
pub mod unified;

verus! {

/// Which protocol the client speaks.
#[derive(Clone, Copy, PartialEq, Eq, Structural, Debug)]
pub enum Proto {
    /// HTTP/1.1 only.
    Http1,
    /// HTTP/2 only.
    Http2,
    /// The version each request asks for.
    Auto,
}

impl Default for Proto {
    fn default() -> (r: Self)
        ensures
            r == Proto::Http1,
    {
        Proto::Http1
    }
}

/// The HTTP/2 settings a connection is opened with; `None` leaves the protocol's
/// default.
#[derive(Clone, Copy, Debug)]
pub struct H2Settings {
    pub max_frame_size: Option<u32>,
    pub max_send_buffer_size: Option<usize>,
    pub initial_window_size: Option<u32>,
    pub initial_connection_window_size: Option<u32>,
    pub max_concurrent_streams: Option<u32>,
}

/// No HTTP/2 setting set.
pub open spec fn unset_h2_settings() -> H2Settings {
    H2Settings {
        max_frame_size: None,
        max_send_buffer_size: None,
        initial_window_size: None,
        initial_connection_window_size: None,
        max_concurrent_streams: None,
    }
}

impl H2Settings {
    /// Nothing set.
    pub fn new() -> (r: Self)
        ensures
            r == unset_h2_settings(),
    {
        H2Settings {
            max_frame_size: None,
            max_send_buffer_size: None,
            initial_window_size: None,
            initial_connection_window_size: None,
            max_concurrent_streams: None,
        }
    }
}

/// What every connection of a client is set up with.
#[derive(Clone, Copy, Debug)]
pub struct ConnectionConfig {
    pub proto: Proto,
    pub h2_builder: H2Settings,
}

impl Default for ConnectionConfig {
    fn default() -> (r: Self)
        ensures
            r.proto == Proto::Http1,
            r.h2_builder == unset_h2_settings(),
    {
        ConnectionConfig { proto: Proto::Http1, h2_builder: H2Settings::new() }
    }
}

/// What a client is set up with: headers added to every request, how many idle
/// connections it keeps, and its connections' settings.
#[derive(Clone)]
pub struct ClientConfig {
    pub default_headers: Rc<HeaderMap>,
    pub max_idle_connections: usize,
    pub connection_config: ConnectionConfig,
}

impl Default for ClientConfig {
    fn default() -> (r: Self)
        ensures
            r.default_headers@ == Seq::<crate::common::header::EntryView>::empty(),
            r.max_idle_connections == 0,
            r.connection_config.proto == Proto::Http1,
            r.connection_config.h2_builder == unset_h2_settings(),
    {
        ClientConfig {
            default_headers: Rc::new(HeaderMap::new()),
            max_idle_connections: 0,
            connection_config: ConnectionConfig::default(),
        }
    }
}

/// Builds the configuration of a client, one setting at a time.
#[derive(Clone)]
pub struct Builder {
    client_config: ClientConfig,
}

impl Builder {
    /// The configuration built so far.
    pub closed spec fn config(self) -> ClientConfig {
        self.client_config
    }

    /// The default configuration.
    pub fn new() -> (r: Self)
        ensures
            r.config().default_headers@ == Seq::<crate::common::header::EntryView>::empty(),
            r.config().max_idle_connections == 0,
            r.config().connection_config.proto == Proto::Http1,
            r.config().connection_config.h2_builder == unset_h2_settings(),
    {
        Builder { client_config: ClientConfig::default() }
    }

    /// The configuration built.
    pub fn client_config(&self) -> (r: &ClientConfig)
        ensures
            *r == self.config(),
    {
        &self.client_config
    }

    /// Speak HTTP/1.1 only.
    pub fn http1_client(self) -> (r: Self)
        ensures
            r.config() == (ClientConfig {
                connection_config: ConnectionConfig { proto: Proto::Http1, ..self.config().connection_config },
                ..self.config()
            }),
    {
        let mut b = self;
        b.client_config.connection_config.proto = Proto::Http1;
        b
    }

    /// Speak HTTP/2 only.
    pub fn http2_client(self) -> (r: Self)
        ensures
            r.config() == (ClientConfig {
                connection_config: ConnectionConfig { proto: Proto::Http2, ..self.config().connection_config },
                ..self.config()
            }),
    {
        let mut b = self;
        b.client_config.connection_config.proto = Proto::Http2;
        b
    }

    /// Speak the version each request asks for.
    pub fn http_auto(self) -> (r: Self)
        ensures
            r.config() == (ClientConfig {
                connection_config: ConnectionConfig { proto: Proto::Auto, ..self.config().connection_config },
                ..self.config()
            }),
    {
        let mut b = self;
        b.client_config.connection_config.proto = Proto::Auto;
        b
    }

    /// Keep at most `conns` idle connections.
    pub fn max_idle_connections(self, conns: usize) -> (r: Self)
        ensures
            r.config() == (ClientConfig { max_idle_connections: conns, ..self.config() }),
    {
        let mut b = self;
        b.client_config.max_idle_connections = conns;
        b
    }

    /// The largest HTTP/2 frame to accept.
    pub fn http2_max_frame_size(self, sz: u32) -> (r: Self)
        ensures
            r.config() == (ClientConfig {
                connection_config: ConnectionConfig {
                    h2_builder: H2Settings { max_frame_size: Some(sz), ..self.config().connection_config.h2_builder },
                    ..self.config().connection_config
                },
                ..self.config()
            }),
    {
        let mut b = self;
        b.client_config.connection_config.h2_builder.max_frame_size = Some(sz);
        b
    }

    /// The most bytes of data buffered per HTTP/2 stream.
    pub fn http2_max_send_buf_size(self, sz: usize) -> (r: Self)
        ensures
            r.config() == (ClientConfig {
                connection_config: ConnectionConfig {
                    h2_builder: H2Settings {
                        max_send_buffer_size: Some(sz),
                        ..self.config().connection_config.h2_builder
                    },
                    ..self.config().connection_config
                },
                ..self.config()
            }),
    {
        let mut b = self;
        b.client_config.connection_config.h2_builder.max_send_buffer_size = Some(sz);
        b
    }

    /// Named for the most concurrently reset streams; the value given becomes the
    /// most bytes of data buffered per HTTP/2 stream.
    pub fn http2_max_concurrent_reset_streams(self, max: usize) -> (r: Self)
        ensures
            r.config() == (ClientConfig {
                connection_config: ConnectionConfig {
                    h2_builder: H2Settings {
                        max_send_buffer_size: Some(max),
                        ..self.config().connection_config.h2_builder
                    },
                    ..self.config().connection_config
                },
                ..self.config()
            }),
    {
        let mut b = self;
        b.client_config.connection_config.h2_builder.max_send_buffer_size = Some(max);
        b
    }

    /// The initial HTTP/2 window of each stream.
    pub fn http2_initial_stream_window_size(self, size: u32) -> (r: Self)
        ensures
            r.config() == (ClientConfig {
                connection_config: ConnectionConfig {
                    h2_builder: H2Settings {
                        initial_window_size: Some(size),
                        ..self.config().connection_config.h2_builder
                    },
                    ..self.config().connection_config
                },
                ..self.config()
            }),
    {
        let mut b = self;
        b.client_config.connection_config.h2_builder.initial_window_size = Some(size);
        b
    }

    /// The initial HTTP/2 window of the connection.
    pub fn http2_initial_connection_window_size(self, size: u32) -> (r: Self)
        ensures
            r.config() == (ClientConfig {
                connection_config: ConnectionConfig {
                    h2_builder: H2Settings {
                        initial_connection_window_size: Some(size),
                        ..self.config().connection_config.h2_builder
                    },
                    ..self.config().connection_config
                },
                ..self.config()
            }),
    {
        let mut b = self;
        b.client_config.connection_config.h2_builder.initial_connection_window_size = Some(size);
        b
    }

    /// The most concurrent HTTP/2 streams.
    pub fn http2_max_concurrent_streams(self, max: u32) -> (r: Self)
        ensures
            r.config() == (ClientConfig {
                connection_config: ConnectionConfig {
                    h2_builder: H2Settings {
                        max_concurrent_streams: Some(max),
                        ..self.config().connection_config.h2_builder
                    },
                    ..self.config().connection_config
                },
                ..self.config()
            }),
    {
        let mut b = self;
        b.client_config.connection_config.h2_builder.max_concurrent_streams = Some(max);
        b
    }
}

impl Default for Builder {
    fn default() -> (r: Self)
        ensures
            r.config().max_idle_connections == 0,
            r.config().connection_config.proto == Proto::Http1,
    {
        Builder::new()
    }
}

} // verus!
