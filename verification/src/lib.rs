//! A fault-tolerant connection acceptor: it turns a listening socket into a
//! continuous sequence of fully negotiated secure connections.
//!
//! The verified core is the accept/handshake/backoff state machine: on each
//! drive step it drains completed handshakes first, then consults an optional
//! backoff timer, then pulls new raw connections from the listener and hands
//! each one to the secure-negotiation capability.  Accept errors are
//! classified into connection-level ones (retried immediately) and all others
//! (retried after a one-second backoff, or propagated as fatal when the
//! sleep-on-errors policy is switched off).
//!
//! The actual sockets, timers and TLS negotiations live outside this crate:
//! an embedding event loop performs each poll the machine asks for and hands
//! the outcome back as an [`acceptor::Event`].

pub mod acceptor;
pub mod conn;
pub mod laws;
