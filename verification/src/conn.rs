//! Plain-value models of the connections and errors that flow through the
//! acceptor.  The embedding I/O layer keys its live sockets by the `id`
//! fields carried here.

use vstd::prelude::*;

verus! {

/// An IP address, version 4 or 6.
#[derive(Clone, Copy, PartialEq, Eq, Structural, Debug)]
pub enum Ip {
    V4(u8, u8, u8, u8),
    V6(u16, u16, u16, u16, u16, u16, u16, u16),
}

/// A socket address: host plus port.
#[derive(Clone, Copy, PartialEq, Eq, Structural, Debug)]
pub struct NetAddr {
    pub ip: Ip,
    pub port: u16,
}

/// An accepted, not-yet-secured connection.  The `id` identifies the
/// underlying socket; the embedding layer never hands the same id out twice.
#[derive(Clone, Copy, PartialEq, Eq, Structural, Debug)]
pub struct RawConn {
    pub id: u64,
    pub peer: NetAddr,
}

/// A fully negotiated secure connection, ready for application-level I/O.
/// It carries the id and peer address of the raw connection it came from.
#[derive(Clone, Copy, PartialEq, Eq, Structural, Debug)]
pub struct SecureConn {
    pub id: u64,
    pub peer: NetAddr,
}

/// The classification an accept-time error falls under.
#[derive(Clone, Copy, PartialEq, Eq, Structural, Debug)]
pub enum AcceptErrorKind {
    ConnectionRefused,
    ConnectionAborted,
    ConnectionReset,
    /// Any other accept error, e.g. file-descriptor exhaustion.
    Other,
}

/// An accept-time error.  `code` is an opaque token under which the
/// embedding layer can keep the original error value, so that a fatal error
/// is propagated exactly as it occurred.
#[derive(Clone, Copy, PartialEq, Eq, Structural, Debug)]
pub struct AcceptError {
    pub kind: AcceptErrorKind,
    pub code: u64,
}

/// Whether an accept error is attributable to the remote peer rather than to
/// local resource state.
pub open spec fn connection_error(k: AcceptErrorKind) -> bool {
    k is ConnectionRefused || k is ConnectionAborted || k is ConnectionReset
}

/// Decides whether an accept error is per-connection.  If accepting fails
/// with such an error, the next connection in the backlog may already be
/// ready, so the acceptor retries immediately.  All other errors incur a
/// backoff before the next accept, which guards against tight-looping under
/// resource exhaustion.
pub fn is_connection_error(e: &AcceptError) -> (r: bool)
    ensures
        r == connection_error(e.kind),
{
    match e.kind {
        AcceptErrorKind::ConnectionRefused => true,
        AcceptErrorKind::ConnectionAborted => true,
        AcceptErrorKind::ConnectionReset => true,
        AcceptErrorKind::Other => false,
    }
}

/// An in-flight secure negotiation for one raw connection, together with the
/// socket-option snapshot taken when the connection was accepted.  Later
/// configuration changes do not affect it.
#[derive(Clone, Copy, Debug)]
pub struct Handshake {
    pub conn: RawConn,
    /// Keepalive idle time in milliseconds at accept time; `None` means
    /// keepalive is disabled on the socket.
    pub keepalive: Option<u64>,
    /// The no-delay flag at accept time.
    pub nodelay: bool,
}

} // verus!
