//! Connectors: opening transport connections, and choosing the protocol spoken on one.
use vstd::prelude::*;

use crate::client::{ConnectionConfig, Proto};
use crate::common::header::Version;

verus! {

/// Opens TCP connections.
#[derive(Default, Clone, Copy, Debug)]
pub struct TcpConnector;

/// Opens Unix socket connections.
#[derive(Default, Clone, Copy, Debug)]
pub struct UnixConnector;

/// The protocol a connection speaks once it is open.
#[derive(Clone, Copy, PartialEq, Eq, Structural, Debug)]
pub enum ConnectionProto {
    Http1,
    Http2,
}

/// The protocol spoken on a connection for a request of `version`: the configured
/// one, or, in `Auto` mode, the request's (HTTP/1.1 or HTTP/2).
pub open spec fn protocol_for(proto: Proto, version: Version) -> ConnectionProto {
    match proto {
        Proto::Http1 => ConnectionProto::Http1,
        Proto::Http2 => ConnectionProto::Http2,
        Proto::Auto => if version == Version::Http2 {
            ConnectionProto::Http2
        } else {
            ConnectionProto::Http1
        },
    }
}

/// Sets up the HTTP protocol on transport connections.
#[derive(Clone, Copy)]
pub struct HttpConnector {
    conn_config: ConnectionConfig,
}

impl HttpConnector {
    /// The settings connections are set up with.
    pub closed spec fn config(self) -> ConnectionConfig {
        self.conn_config
    }

    pub fn new(conn_config: ConnectionConfig) -> (r: Self)
        ensures
            r.config() == conn_config,
    {
        HttpConnector { conn_config }
    }

    /// The settings connections are set up with.
    pub fn conn_config(&self) -> (r: &ConnectionConfig)
        ensures
            *r == self.config(),
    {
        &self.conn_config
    }

    /// The protocol a new connection for a request of `version` speaks. In `Auto`
    /// mode only HTTP/1.1 and HTTP/2 requests can be served.
    pub fn protocol(&self, version: Version) -> (r: ConnectionProto)
        requires
            self.config().proto == Proto::Auto ==> (version == Version::Http11 || version == Version::Http2),
        ensures
            r == protocol_for(self.config().proto, version),
    {
        match self.conn_config.proto {
            Proto::Http1 => ConnectionProto::Http1,
            Proto::Http2 => ConnectionProto::Http2,
            Proto::Auto => match version {
                Version::Http2 => ConnectionProto::Http2,
                _ => ConnectionProto::Http1,
            },
        }
    }
}

/// The law of the configured protocol: a connector set to HTTP/1 opens HTTP/1
/// connections and one set to HTTP/2 opens HTTP/2 connections, whatever the request's
/// version; in `Auto` mode an HTTP/2 request gets HTTP/2 and an HTTP/1.1 request HTTP/1.
pub proof fn lemma_configured_protocol(version: Version)
    ensures
        protocol_for(Proto::Http1, version) == ConnectionProto::Http1,
        protocol_for(Proto::Http2, version) == ConnectionProto::Http2,
        protocol_for(Proto::Auto, Version::Http2) == ConnectionProto::Http2,
        protocol_for(Proto::Auto, Version::Http11) == ConnectionProto::Http1,
{
}

} // verus!
