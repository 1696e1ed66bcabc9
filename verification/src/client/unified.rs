//! Where a transport connection goes.
use vstd::prelude::*;

use crate::client::key::ServerName;

verus! {

#[verifier::external_type_specification]
#[verifier::external_body]
pub struct ExPathBuf(std::path::PathBuf);

/// A transport address: a TCP host and port or a Unix socket path, each with or
/// without TLS.
pub enum UnifiedTransportAddr {
    Tcp(String, u16),
    Unix(std::path::PathBuf),
    TcpTls(String, u16, ServerName),
    UnixTls(std::path::PathBuf, ServerName),
}

} // verus!
