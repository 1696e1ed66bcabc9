//! The key a connection is pooled by: where it goes, and how.
use vstd::prelude::*;
use vstd::string::StrSliceExecFns;

use crate::client::unified::UnifiedTransportAddr;
use crate::common::header::Version;
use crate::common::uri::UriParts;
use vstd::std_specs::convert::FromSpecImpl;

verus! {

#[verifier::external_type_specification]
#[verifier::external_body]
pub struct ExInvalidDnsNameError(rustls::client::InvalidDnsNameError);

/// The name a TLS connection presents for the server.
#[derive(Clone, PartialEq, Eq, Debug)]
pub struct ServerName(pub String);

impl From<String> for ServerName {
    fn from(v: String) -> (r: Self) {
        ServerName(v)
    }
}

impl FromSpecImpl<String> for ServerName {
    open spec fn obeys_from_spec() -> bool {
        true
    }

    open spec fn from_spec(v: String) -> Self {
        ServerName(v)
    }
}

/// Whether `rustls` accepts `s` as a server name (a DNS name or an IP address).
pub uninterp spec fn is_server_name(s: Seq<char>) -> bool;

/// `rustls::ServerName::try_from(&str)`, for whether it accepts `s`: `Ok` exactly when
/// `is_server_name` holds; which names that is, is not stated further.
#[verifier::external_body]
fn check_server_name(s: &str) -> (r: Result<(), rustls::client::InvalidDnsNameError>)
    ensures
        r is Ok <==> is_server_name(s@),
{
    rustls::ServerName::try_from(s).map(|_| ())
}

/// Where a connection goes, and how: the host, the port, the HTTP version, and for TLS
/// the server name.
#[derive(Debug)]
pub struct Key {
    pub host: String,
    pub port: u16,
    pub version: Version,
    pub server_name: Option<ServerName>,
}

/// Why a URI gives no key.
#[derive(Debug)]
pub enum FromUriError {
    InvalidDnsName(rustls::client::InvalidDnsNameError),
    UnsupportScheme,
    NoAuthority,
}

/// A host as it names the server: an IPv6 literal without its brackets.
pub open spec fn unbracketed(h: Seq<char>) -> Seq<char> {
    if h.len() >= 2 && h[0] == '[' && h[h.len() - 1] == ']' {
        h.subrange(1, h.len() - 1)
    } else {
        h
    }
}

pub open spec fn http_scheme() -> Seq<u8> {
    seq![104u8, 116, 116, 112]
}

pub open spec fn https_scheme() -> Seq<u8> {
    seq![104u8, 116, 116, 112, 115]
}

/// Whether the scheme asks for TLS, and the port it defaults to: 80 for `http`, 443 with
/// TLS for `https`, else 0.
pub open spec fn scheme_defaults(scheme: Option<Seq<u8>>) -> (bool, u16) {
    if scheme == Some(http_scheme()) {
        (false, 80)
    } else if scheme == Some(https_scheme()) {
        (true, 443)
    } else {
        (false, 0)
    }
}

/// Whether `k` is the HTTP/1.1 key for `host` and `port`, presenting `server_name`
/// where one is given.
pub open spec fn key_is(k: Key, host: Seq<char>, server_name: Option<Seq<char>>, port: u16) -> bool {
    &&& k.host@ == host
    &&& k.port == port
    &&& k.version == Version::Http11
    &&& match server_name {
        Some(s) => k.server_name matches Some(n) && n.0@ == s,
        None => k.server_name is None,
    }
}

impl Key {
    /// The key of a host, a server name and a port (a tuple `(host, sni, port)` in
    /// other words), with HTTP/1.1; refused where the server name is not one.
    pub fn try_from_parts(host: &str, server_name: Option<&str>, port: u16) -> (r: Result<Key, rustls::client::InvalidDnsNameError>)
        ensures
            match server_name {
                Some(s) => r is Ok <==> is_server_name(s@),
                None => r is Ok,
            },
            r matches Ok(k) ==> key_is(k, host@, match server_name {
                Some(s) => Some(s@),
                None => None,
            }, port),
    {
        match server_name {
            None => Ok(Key { host: host.to_owned(), port, version: Version::Http11, server_name: None }),
            Some(s) => {
                match check_server_name(s) {
                    Ok(()) => {},
                    Err(e) => return Err(e),
                }
                Ok(Key { host: host.to_owned(), port, version: Version::Http11, server_name: Some(ServerName(s.to_owned())) })
            },
        }
    }

    /// The key of a URI: its host (an IPv6 literal without brackets) and port, the port
    /// defaulting by scheme (80 for `http`, 443 for `https`, else 0), with HTTP/1.1;
    /// an `https` key presents the host as its server name.
    pub fn try_from_uri(uri: &UriParts) -> (r: Result<Key, FromUriError>)
        ensures
            ({
                let (tls, default_port) = scheme_defaults(uri@.scheme);
                let port = match uri@.port {
                    Some(p) => p,
                    None => default_port,
                };
                match uri@.host {
                    None => r matches Err(FromUriError::NoAuthority),
                    Some(h) => {
                        let host = unbracketed(h);
                        if tls && !is_server_name(host) {
                            r matches Err(FromUriError::InvalidDnsName(_))
                        } else {
                            r matches Ok(k) && key_is(k, host, if tls {
                                Some(host)
                            } else {
                                None
                            }, port)
                        }
                    },
                }
            }),
    {
        let http: [u8; 4] = [104u8, 116, 116, 112];
        let https: [u8; 5] = [104u8, 116, 116, 112, 115];
        proof {
            assert(http@ =~= http_scheme());
            assert(https@ =~= https_scheme());
        }
        let (tls, default_port): (bool, u16) = match &uri.scheme {
            Some(s) => if crate::common::header::bytes_eq(s.as_slice(), http.as_slice()) {
                (false, 80)
            } else if crate::common::header::bytes_eq(s.as_slice(), https.as_slice()) {
                (true, 443)
            } else {
                (false, 0)
            },
            None => (false, 0),
        };
        let port: u16 = match uri.port {
            Some(p) => p,
            None => default_port,
        };
        let a: &str = match &uri.host {
            Some(a) => a.as_str(),
            None => return Err(FromUriError::NoAuthority),
        };
        let n = a.unicode_len();
        let host: &str = if n >= 2 && a.get_char(0) == '[' && a.get_char(n - 1) == ']' {
            a.substring_char(1, n - 1)
        } else {
            a
        };
        proof {
            assert(host@ == unbracketed(a@));
        }
        let sni = if tls {
            Some(host)
        } else {
            None
        };
        match Key::try_from_parts(host, sni, port) {
            Ok(k) => Ok(k),
            Err(e) => Err(FromUriError::InvalidDnsName(e)),
        }
    }

    /// Whether two keys name the same connection: the same host, port and version (the
    /// server name is not compared).
    pub fn same_key(&self, other: &Key) -> (r: bool)
        ensures
            r == (self.host@ == other.host@ && self.port == other.port && self.version == other.version),
    {
        self.host == other.host && self.port == other.port && self.version == other.version
    }

    /// The transport address: TCP with TLS where there is a server name, plain TCP
    /// otherwise.
    pub fn param(&self) -> (r: UnifiedTransportAddr)
        ensures
            match self.server_name {
                Some(sn) => r matches UnifiedTransportAddr::TcpTls(h, p, n) && h@ == self.host@ && p == self.port
                    && n.0@ == sn.0@,
                None => r matches UnifiedTransportAddr::Tcp(h, p) && h@ == self.host@ && p == self.port,
            },
    {
        match &self.server_name {
            Some(sn) => UnifiedTransportAddr::TcpTls(self.host.clone(), self.port, ServerName(sn.0.clone())),
            None => UnifiedTransportAddr::Tcp(self.host.clone(), self.port),
        }
    }

    /// The server name, if any.
    pub fn param_ref(&self) -> (r: &Option<ServerName>)
        ensures
            *r == self.server_name,
    {
        &self.server_name
    }
}

impl Clone for Key {
    fn clone(&self) -> (r: Self)
        ensures
            r.host@ == self.host@,
            r.port == self.port,
            r.version == self.version,
            r.server_name matches Some(n) ==> self.server_name matches Some(m) && n.0@ == m.0@,
            r.server_name is None <==> self.server_name is None,
    {
        Key {
            host: self.host.clone(),
            port: self.port,
            version: self.version,
            server_name: match &self.server_name {
                Some(sn) => Some(ServerName(sn.0.clone())),
                None => None,
            },
        }
    }
}

/// Something that names the HTTP version a connection speaks.
pub trait HttpVersion {
    /// The version it names.
    spec fn spec_version(&self) -> Version;

    fn get_version(&self) -> (r: Version)
        ensures
            r == self.spec_version(),
    ;
}

impl HttpVersion for Key {
    open spec fn spec_version(&self) -> Version {
        self.version
    }

    /// The version the connection speaks.
    fn get_version(&self) -> (r: Version) {
        self.version
    }
}

} // verus!
