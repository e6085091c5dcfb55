use tls_accept::acceptor::{
    AcceptEvent, AddrIncoming, Directive, Event, HsEvent, Op, TimerEvent, BACKOFF_MILLIS,
};
use tls_accept::conn::{
    is_connection_error, AcceptError, AcceptErrorKind, Ip, NetAddr, RawConn,
};

fn local() -> NetAddr {
    NetAddr { ip: Ip::V4(127, 0, 0, 1), port: 8443 }
}

fn peer(n: u16) -> NetAddr {
    NetAddr { ip: Ip::V4(10, 0, 0, 9), port: n }
}

fn conn(id: u64, p: u16) -> RawConn {
    RawConn { id, peer: peer(p) }
}

fn resource_error(code: u64) -> AcceptError {
    AcceptError { kind: AcceptErrorKind::Other, code }
}

#[test]
fn new_acceptor_defaults() {
    let a = AddrIncoming::new(local());
    assert_eq!(a.local_addr(), local());
    assert_eq!(a.handshakes_in_flight(), 0);
    assert!(!a.is_terminated());
    assert!(!a.timeout_armed);
}

#[test]
fn local_addr_v6() {
    let addr = NetAddr { ip: Ip::V6(0, 0, 0, 0, 0, 0, 0, 1), port: 443 };
    let a = AddrIncoming::new(addr);
    assert_eq!(a.local_addr(), addr);
}

#[test]
fn connection_error_classification() {
    let refused = AcceptError { kind: AcceptErrorKind::ConnectionRefused, code: 0 };
    let aborted = AcceptError { kind: AcceptErrorKind::ConnectionAborted, code: 0 };
    let reset = AcceptError { kind: AcceptErrorKind::ConnectionReset, code: 0 };
    let other = AcceptError { kind: AcceptErrorKind::Other, code: 0 };
    assert!(is_connection_error(&refused));
    assert!(is_connection_error(&aborted));
    assert!(is_connection_error(&reset));
    assert!(!is_connection_error(&other));
}

/// A non-connection-level accept error arms the one-second backoff timer and
/// suspends the drive; after the timer expires, the next drive retries the
/// accept without resurfacing the stale error.
#[test]
fn backoff_after_resource_error() {
    let mut a = AddrIncoming::new(local());

    // drive 1: pool empty, listener errors with resource exhaustion
    let d = a.poll_step(Event::Pool(HsEvent::NotReady));
    assert!(matches!(d, Directive::Poll(Op::PollListener)));
    let d = a.poll_step(Event::Listener(AcceptEvent::Failed(resource_error(24))));
    assert!(matches!(d, Directive::Sleep(ms) if ms == BACKOFF_MILLIS));
    assert!(a.timeout_armed);

    // drive 2: timer still pending, so the acceptor waits
    let d = a.poll_step(Event::Pool(HsEvent::NotReady));
    assert!(matches!(d, Directive::Poll(Op::PollTimer)));
    let d = a.poll_step(Event::Timer(TimerEvent::Pending));
    assert!(matches!(d, Directive::Wait));
    assert!(a.timeout_armed);

    // drive 3: timer expired, accept is retried and succeeds
    let d = a.poll_step(Event::Pool(HsEvent::NotReady));
    assert!(matches!(d, Directive::Poll(Op::PollTimer)));
    let d = a.poll_step(Event::Timer(TimerEvent::Expired));
    assert!(matches!(d, Directive::Poll(Op::PollListener)));
    assert!(!a.timeout_armed);
    let d = a.poll_step(Event::Listener(AcceptEvent::Ready(conn(1, 50000))));
    assert!(matches!(d, Directive::Admit(h) if h.conn.id == 1));
    assert!(!a.is_terminated());
}

/// A broken timer is treated as expired: the acceptor fails open and retries
/// instead of stalling forever.
#[test]
fn timer_error_fails_open() {
    let mut a = AddrIncoming::new(local());
    a.poll_step(Event::Pool(HsEvent::NotReady));
    a.poll_step(Event::Listener(AcceptEvent::Failed(resource_error(24))));
    a.poll_step(Event::Pool(HsEvent::NotReady));
    let d = a.poll_step(Event::Timer(TimerEvent::TimerError));
    assert!(matches!(d, Directive::Poll(Op::PollListener)));
    assert!(!a.timeout_armed);
}

/// A connection-level error (peer reset) is retried immediately: within a
/// single drive invocation the acceptor goes on to accept the next
/// connection, without waiting and without arming a timer.
#[test]
fn connection_error_retried_immediately() {
    let mut a = AddrIncoming::new(local());
    let d = a.poll_step(Event::Pool(HsEvent::NotReady));
    assert!(matches!(d, Directive::Poll(Op::PollListener)));
    let reset = AcceptError { kind: AcceptErrorKind::ConnectionReset, code: 104 };
    let d = a.poll_step(Event::Listener(AcceptEvent::Failed(reset)));
    assert!(matches!(d, Directive::Poll(Op::PollListener)));
    assert!(!a.timeout_armed);
    let d = a.poll_step(Event::Listener(AcceptEvent::Ready(conn(2, 50001))));
    assert!(matches!(d, Directive::Admit(h) if h.conn.id == 2));
}

/// Each accepted connection snapshots the configuration of the moment it was
/// accepted; later configuration changes do not affect it.
#[test]
fn keepalive_snapshot_is_not_retroactive() {
    let mut a = AddrIncoming::new(local());
    a.set_keepalive(Some(5000));
    a.poll_step(Event::Pool(HsEvent::NotReady));
    let d = a.poll_step(Event::Listener(AcceptEvent::Ready(conn(1, 50000))));
    let first = match d {
        Directive::Admit(h) => h,
        _ => panic!("expected an admitted handshake"),
    };
    assert_eq!(first.keepalive, Some(5000));

    a.set_keepalive(None);
    let d = a.poll_step(Event::Listener(AcceptEvent::Ready(conn(2, 50001))));
    let second = match d {
        Directive::Admit(h) => h,
        _ => panic!("expected an admitted handshake"),
    };
    assert_eq!(first.keepalive, Some(5000));
    assert_eq!(second.keepalive, None);
}

/// The no-delay flag is snapshotted the same way.
#[test]
fn nodelay_snapshot_is_not_retroactive() {
    let mut a = AddrIncoming::new(local());
    a.set_nodelay(true);
    a.poll_step(Event::Pool(HsEvent::NotReady));
    let d = a.poll_step(Event::Listener(AcceptEvent::Ready(conn(1, 50000))));
    let first = match d {
        Directive::Admit(h) => h,
        _ => panic!("expected an admitted handshake"),
    };
    a.set_nodelay(false);
    assert!(first.nodelay);
}

/// With sleep-on-errors disabled, a non-connection-level accept error
/// terminates the sequence with that exact error and no timer is started.
/// Connection-level errors are still retried immediately.
#[test]
fn fatal_propagation_when_sleep_disabled() {
    let mut a = AddrIncoming::new(local());
    a.set_sleep_on_errors(false);
    let d = a.poll_step(Event::Pool(HsEvent::NotReady));
    assert!(matches!(d, Directive::Poll(Op::PollListener)));
    let reset = AcceptError { kind: AcceptErrorKind::ConnectionReset, code: 104 };
    let d = a.poll_step(Event::Listener(AcceptEvent::Failed(reset)));
    assert!(matches!(d, Directive::Poll(Op::PollListener)));
    let fatal = resource_error(24);
    let d = a.poll_step(Event::Listener(AcceptEvent::Failed(fatal)));
    match d {
        Directive::Fatal(e) => {
            assert_eq!(e.kind, AcceptErrorKind::Other);
            assert_eq!(e.code, 24);
        }
        _ => panic!("expected a fatal directive"),
    }
    assert!(!a.timeout_armed);
    assert!(a.is_terminated());
}

/// Ready handshakes are drained before any new accept attempt: while a
/// completed handshake sits in the pool, the drive yields it without ever
/// asking for a listener poll.
#[test]
fn drains_before_accepting() {
    let mut a = AddrIncoming::new(local());
    a.poll_step(Event::Pool(HsEvent::NotReady));
    a.poll_step(Event::Listener(AcceptEvent::Ready(conn(1, 50000))));
    a.poll_step(Event::Listener(AcceptEvent::NotReady));

    // next drive: the completed handshake is yielded straight away
    let d = a.poll_step(Event::Pool(HsEvent::Ready(1)));
    assert!(matches!(d, Directive::Yield(sc) if sc.id == 1));
    // and only once the pool reports nothing ready is the listener polled
    let d = a.poll_step(Event::Pool(HsEvent::NotReady));
    assert!(matches!(d, Directive::Poll(Op::PollListener)));
}

/// A connection is yielded at most once, and never if its negotiation
/// failed: of two admitted connections, the failed one is discarded and the
/// other is yielded exactly once, in completion order rather than accept
/// order.
#[test]
fn failed_handshake_is_discarded_not_yielded() {
    let mut a = AddrIncoming::new(local());
    a.poll_step(Event::Pool(HsEvent::NotReady));
    a.poll_step(Event::Listener(AcceptEvent::Ready(conn(1, 50000))));
    a.poll_step(Event::Listener(AcceptEvent::Ready(conn(2, 50001))));
    a.poll_step(Event::Listener(AcceptEvent::NotReady));
    assert_eq!(a.handshakes_in_flight(), 2);

    // the first connection's negotiation fails: logged and dropped
    let d = a.poll_step(Event::Pool(HsEvent::Failed(1)));
    assert!(matches!(d, Directive::Poll(Op::PollPool)));
    assert_eq!(a.handshakes_in_flight(), 1);
    assert!(!a.is_terminated());

    // the second one completes and is yielded; the pool is then empty
    let d = a.poll_step(Event::Pool(HsEvent::Ready(2)));
    assert!(matches!(d, Directive::Yield(sc) if sc.id == 2 && sc.peer == peer(50001)));
    assert_eq!(a.handshakes_in_flight(), 0);
}

/// One full pass: a client connects, its negotiation completes instantly,
/// and the acceptor yields exactly one secure connection whose peer address
/// matches the client's.
#[test]
fn single_connection_scenario() {
    let client = NetAddr { ip: Ip::V4(127, 0, 0, 1), port: 39604 };
    let mut a = AddrIncoming::new(NetAddr { ip: Ip::V4(127, 0, 0, 1), port: 45121 });
    assert_ne!(a.local_addr().port, 0);

    let d = a.poll_step(Event::Pool(HsEvent::NotReady));
    assert!(matches!(d, Directive::Poll(Op::PollListener)));
    let d = a.poll_step(Event::Listener(AcceptEvent::Ready(RawConn { id: 1, peer: client })));
    assert!(matches!(d, Directive::Admit(_)));
    let d = a.poll_step(Event::Listener(AcceptEvent::NotReady));
    assert!(matches!(d, Directive::Wait));

    let d = a.poll_step(Event::Pool(HsEvent::Ready(1)));
    match d {
        Directive::Yield(sc) => assert_eq!(sc.peer, client),
        _ => panic!("expected a yielded secure connection"),
    }
    assert_eq!(a.handshakes_in_flight(), 0);
    let d = a.poll_step(Event::Pool(HsEvent::NotReady));
    assert!(matches!(d, Directive::Poll(Op::PollListener)));
}
