//! The configuration surface: option records for the TCP listener, the TCP
//! clients, and the server, with the fixed defaults.

use vstd::prelude::*;

verus! {

/// The default port the server listens on.
pub const DEFAULT_PORT: u16 = 3001;

/// The default host the server binds and clients connect to.
pub fn default_host() -> (r: &'static str)
    ensures
        r@ == "127.0.0.1"@,
{
    "127.0.0.1"
}

/// Options for creating a TCP client.
#[derive(Debug, Clone)]
pub struct ClientOptions {
    /// The host to connect to.
    pub host: String,
    /// The port to connect on.
    pub port: u16,
}

/// Options for creating a TCP client.
#[derive(Debug, Clone)]
pub struct TcpClientOptions {
    /// The host to connect to.
    pub host: String,
    /// The port to connect on.
    pub port: u16,
}

/// Options for configuring the TCP listener.
#[derive(Debug, Clone)]
pub struct TcpListenerOptions {
    /// The host to bind to.
    pub host: String,
    /// The port to bind to.
    pub port: u16,
    /// Whether to signal the parent process once the listener is bound and
    /// ready to accept connections.
    pub signal_parent_ready: bool,
}

/// Options for configuring the TCP server.
#[derive(Debug, Clone)]
pub struct TcpServerOptions {
    /// The host to bind to.
    pub host: String,
    /// The port to bind to.
    pub port: u16,
    /// Whether to signal the parent process once the listener is bound.
    pub signal_parent_ready: bool,
}

} // verus!
