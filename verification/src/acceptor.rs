//! The accept/handshake/backoff state machine.
//!
//! [`AddrIncoming`] is a purely reactive machine: it owns no sockets and no
//! timers, only the decision state.  An embedding event loop drives it by
//! performing each poll the machine asks for ([`Op`]) and handing the
//! outcome back ([`Event`]) to [`AddrIncoming::poll_step`], which answers
//! with the next [`Directive`].
//!
//! A drive invocation always begins by polling the handshake pool (the
//! machine is in [`Phase::Draining`] after every suspension), then consults
//! the backoff timer if one is armed, then pulls raw connections from the
//! listener until it has no more backlog.  The whole transition relation is
//! the spec function [`step_state`] / [`step_directive`], and `poll_step` is
//! proved to implement it exactly.

use vstd::prelude::*;

use crate::conn::{
    AcceptError, Handshake, NetAddr, RawConn, SecureConn, connection_error, is_connection_error,
};

verus! {

/// Milliseconds the acceptor backs off after a non-connection-level accept
/// error before it tries to accept again.
pub const BACKOFF_MILLIS: u64 = 1000;

/// Which sub-resource the acceptor examines next.
#[derive(Clone, Copy, PartialEq, Eq, Structural, Debug)]
pub enum Phase {
    /// Draining completed handshakes from the pool.
    Draining,
    /// The armed backoff timer must be consulted before accepting.
    CheckingBackoff,
    /// Pulling new raw connections from the listener.
    Accepting,
    /// A fatal error was propagated; the acceptor is terminated.
    Done,
}

/// Outcome of polling the handshake pool.
#[derive(Clone, Copy, Debug)]
pub enum HsEvent {
    /// The handshake for this connection id completed successfully.
    Ready(u64),
    /// The handshake for this connection id failed; the raw connection is
    /// discarded with it.
    Failed(u64),
    /// No handshake is ready right now (or the pool is empty).
    NotReady,
}

/// Outcome of polling the backoff timer.
#[derive(Clone, Copy, Debug)]
pub enum TimerEvent {
    Expired,
    Pending,
    /// The timer facility itself failed; treated as expired, so that a
    /// broken timer never stalls the acceptor (fail open).
    TimerError,
}

/// Outcome of a non-blocking accept on the listener.
#[derive(Clone, Copy, Debug)]
pub enum AcceptEvent {
    /// A raw connection was accepted.
    Ready(RawConn),
    /// The listener has no pending connection.
    NotReady,
    /// The accept call failed.
    Failed(AcceptError),
}

/// One outcome of the poll the machine last asked for.
#[derive(Clone, Copy, Debug)]
pub enum Event {
    Pool(HsEvent),
    Timer(TimerEvent),
    Listener(AcceptEvent),
}

/// A poll the embedding event loop must perform.
#[derive(Clone, Copy, PartialEq, Eq, Structural, Debug)]
pub enum Op {
    PollPool,
    PollTimer,
    PollListener,
}

/// What the embedding event loop must do after a step.
#[derive(Clone, Copy, Debug)]
pub enum Directive {
    /// Immediately poll this sub-resource and hand the outcome back.
    Poll(Op),
    /// Apply the snapshot's socket options to the just-accepted raw
    /// connection (best effort), start secure negotiation on it, then poll
    /// the listener again.
    Admit(Handshake),
    /// Arm the backoff timer for this many milliseconds, then suspend until
    /// it fires.
    Sleep(u64),
    /// A secure connection is ready for the caller; the drive step is over.
    Yield(SecureConn),
    /// Nothing is ready; suspend until a sub-resource signals readiness.
    Wait,
    /// Unrecoverable accept error; the acceptor is terminated.
    Fatal(AcceptError),
}

/// The abstract state of the acceptor.
#[verifier::ext_equal]
pub ghost struct ModelState {
    /// The resolved bound local address.
    pub addr: NetAddr,
    /// Whether non-connection-level accept errors are absorbed by a backoff
    /// (`true`, the default) or propagated as fatal (`false`).
    pub sleep_on_errors: bool,
    /// Keepalive idle time in milliseconds applied to newly accepted
    /// connections; `None` disables keepalive.
    pub tcp_keepalive_timeout: Option<u64>,
    /// No-delay flag applied to newly accepted connections.
    pub tcp_nodelay: bool,
    /// Whether a backoff timer is armed.  A single optional slot: arming
    /// replaces any previous timer, so at most one is ever active.
    pub timeout_armed: bool,
    /// The in-flight handshakes, each with its option snapshot.
    pub handshakes: Seq<Handshake>,
    pub phase: Phase,
}

/// No two in-flight handshakes are for the same raw connection.
pub open spec fn ids_distinct(hs: Seq<Handshake>) -> bool {
    forall|i: int, j: int| 0 <= i < j < hs.len() ==> hs[i].conn.id != hs[j].conn.id
}

/// Some in-flight handshake is for connection `id`.
pub open spec fn has_id(hs: Seq<Handshake>, id: u64) -> bool {
    exists|i: int| 0 <= i < hs.len() && hs[i].conn.id == id
}

/// The index of the handshake for connection `id` (unique when the ids are
/// distinct and `has_id` holds).
pub open spec fn hs_index(hs: Seq<Handshake>, id: u64) -> int {
    choose|i: int| 0 <= i < hs.len() && hs[i].conn.id == id
}

/// Well-formedness of the acceptor state.
pub open spec fn wf(m: ModelState) -> bool {
    &&& ids_distinct(m.handshakes)
    &&& m.phase is CheckingBackoff ==> m.timeout_armed
}

/// The state of a freshly constructed acceptor bound to `addr`.
pub open spec fn init_state(addr: NetAddr) -> ModelState {
    ModelState {
        addr: addr,
        sleep_on_errors: true,
        tcp_keepalive_timeout: None,
        tcp_nodelay: false,
        timeout_armed: false,
        handshakes: Seq::empty(),
        phase: Phase::Draining,
    }
}

/// Whether `ev` is an outcome the machine can be given in state `m`: it must
/// answer the poll the machine asked for, a settled handshake must be one of
/// the in-flight ones, and an accepted raw connection must be a socket not
/// already in flight.
pub open spec fn ev_ok(m: ModelState, ev: Event) -> bool {
    match ev {
        Event::Pool(pe) => m.phase is Draining && match pe {
            HsEvent::Ready(id) => has_id(m.handshakes, id),
            HsEvent::Failed(id) => has_id(m.handshakes, id),
            HsEvent::NotReady => true,
        },
        Event::Timer(_) => m.phase is CheckingBackoff,
        Event::Listener(ae) => m.phase is Accepting && match ae {
            AcceptEvent::Ready(c) => !has_id(m.handshakes, c.id),
            AcceptEvent::NotReady => true,
            AcceptEvent::Failed(_) => true,
        },
    }
}

/// The handshake created for a raw connection accepted in state `m`: it
/// snapshots the current configuration.
pub open spec fn admitted(m: ModelState, c: RawConn) -> Handshake {
    Handshake { conn: c, keepalive: m.tcp_keepalive_timeout, nodelay: m.tcp_nodelay }
}

/// The acceptor state after taking event `ev` in state `m`.
pub open spec fn step_state(m: ModelState, ev: Event) -> ModelState {
    match ev {
        Event::Pool(pe) => match pe {
            HsEvent::Ready(id) => ModelState {
                handshakes: m.handshakes.remove(hs_index(m.handshakes, id)),
                ..m
            },
            HsEvent::Failed(id) => ModelState {
                handshakes: m.handshakes.remove(hs_index(m.handshakes, id)),
                ..m
            },
            HsEvent::NotReady => if m.timeout_armed {
                ModelState { phase: Phase::CheckingBackoff, ..m }
            } else {
                ModelState { phase: Phase::Accepting, ..m }
            },
        },
        Event::Timer(te) => match te {
            TimerEvent::Pending => ModelState { phase: Phase::Draining, ..m },
            TimerEvent::Expired => ModelState {
                timeout_armed: false,
                phase: Phase::Accepting,
                ..m
            },
            TimerEvent::TimerError => ModelState {
                timeout_armed: false,
                phase: Phase::Accepting,
                ..m
            },
        },
        Event::Listener(ae) => match ae {
            AcceptEvent::Ready(c) => ModelState {
                handshakes: m.handshakes.push(admitted(m, c)),
                ..m
            },
            AcceptEvent::NotReady => ModelState { phase: Phase::Draining, ..m },
            AcceptEvent::Failed(e) => if connection_error(e.kind) {
                m
            } else if m.sleep_on_errors {
                ModelState { timeout_armed: true, phase: Phase::Draining, ..m }
            } else {
                ModelState { phase: Phase::Done, ..m }
            },
        },
    }
}

/// The directive the machine answers with after taking event `ev` in state
/// `m`.
pub open spec fn step_directive(m: ModelState, ev: Event) -> Directive {
    match ev {
        Event::Pool(pe) => match pe {
            HsEvent::Ready(id) => Directive::Yield(
                SecureConn {
                    id: id,
                    peer: m.handshakes[hs_index(m.handshakes, id)].conn.peer,
                },
            ),
            HsEvent::Failed(_) => Directive::Poll(Op::PollPool),
            HsEvent::NotReady => if m.timeout_armed {
                Directive::Poll(Op::PollTimer)
            } else {
                Directive::Poll(Op::PollListener)
            },
        },
        Event::Timer(te) => match te {
            TimerEvent::Pending => Directive::Wait,
            TimerEvent::Expired => Directive::Poll(Op::PollListener),
            TimerEvent::TimerError => Directive::Poll(Op::PollListener),
        },
        Event::Listener(ae) => match ae {
            AcceptEvent::Ready(c) => Directive::Admit(admitted(m, c)),
            AcceptEvent::NotReady => Directive::Wait,
            AcceptEvent::Failed(e) => if connection_error(e.kind) {
                Directive::Poll(Op::PollListener)
            } else if m.sleep_on_errors {
                Directive::Sleep(BACKOFF_MILLIS)
            } else {
                Directive::Fatal(e)
            },
        },
    }
}

/// Taking a well-formed step keeps the state well-formed.
pub proof fn lemma_step_preserves_wf(m: ModelState, ev: Event)
    requires
        wf(m),
        ev_ok(m, ev),
    ensures
        wf(step_state(m, ev)),
{
    match ev {
        Event::Pool(pe) => match pe {
            HsEvent::Ready(id) | HsEvent::Failed(id) => {
                let idx = hs_index(m.handshakes, id);
                let post = m.handshakes.remove(idx);
                assert forall|i: int, j: int| 0 <= i < j < post.len() implies post[i].conn.id
                    != post[j].conn.id by {
                    assert(post[i] == if i < idx {
                        m.handshakes[i]
                    } else {
                        m.handshakes[i + 1]
                    });
                    assert(post[j] == if j < idx {
                        m.handshakes[j]
                    } else {
                        m.handshakes[j + 1]
                    });
                }
            },
            HsEvent::NotReady => {},
        },
        Event::Timer(_) => {},
        Event::Listener(ae) => match ae {
            AcceptEvent::Ready(c) => {
                let post = m.handshakes.push(admitted(m, c));
                assert forall|i: int, j: int| 0 <= i < j < post.len() implies post[i].conn.id
                    != post[j].conn.id by {
                    if j == m.handshakes.len() as int {
                        assert(post[i] == m.handshakes[i]);
                        assert(!(m.handshakes[i].conn.id == c.id));
                    }
                }
            },
            AcceptEvent::NotReady => {},
            AcceptEvent::Failed(_) => {},
        },
    }
}

/// The acceptor's decision state.  See the module documentation for the
/// driving protocol.
pub struct AddrIncoming {
    pub addr: NetAddr,
    pub sleep_on_errors: bool,
    pub tcp_keepalive_timeout: Option<u64>,
    pub tcp_nodelay: bool,
    pub timeout_armed: bool,
    pub handshakes: Vec<Handshake>,
    pub phase: Phase,
}

impl View for AddrIncoming {
    type V = ModelState;

    open spec fn view(&self) -> ModelState {
        ModelState {
            addr: self.addr,
            sleep_on_errors: self.sleep_on_errors,
            tcp_keepalive_timeout: self.tcp_keepalive_timeout,
            tcp_nodelay: self.tcp_nodelay,
            timeout_armed: self.timeout_armed,
            handshakes: self.handshakes@,
            phase: self.phase,
        }
    }
}

impl AddrIncoming {
    /// Build the acceptor state for a listener whose resolved bound address
    /// is `addr`.  Sleeping on errors starts enabled, keepalive disabled,
    /// no-delay off, no timer armed, no handshake in flight.
    pub fn new(addr: NetAddr) -> (r: AddrIncoming)
        ensures
            r@ == init_state(addr),
            wf(r@),
    {
        let r = AddrIncoming {
            addr: addr,
            sleep_on_errors: true,
            tcp_keepalive_timeout: None,
            tcp_nodelay: false,
            timeout_armed: false,
            handshakes: Vec::new(),
            phase: Phase::Draining,
        };
        proof {
            assert(r@ =~= init_state(addr));
        }
        r
    }

    /// The local address the listener is bound to (with the OS-assigned port
    /// already resolved, when binding asked for port zero).
    pub fn local_addr(&self) -> (r: NetAddr)
        ensures
            r == self@.addr,
    {
        self.addr
    }

    /// Set whether TCP keepalive messages are enabled on subsequently
    /// accepted connections, and after what idle time (in milliseconds);
    /// `None` disables keepalive.  Connections already accepted or already
    /// negotiating keep the snapshot taken when they were accepted.
    pub fn set_keepalive(&mut self, keepalive: Option<u64>)
        ensures
            final(self)@ == (ModelState { tcp_keepalive_timeout: keepalive, ..old(self)@ }),
    {
        self.tcp_keepalive_timeout = keepalive;
    }

    /// Set the no-delay flag applied to subsequently accepted connections.
    /// Connections already accepted keep their snapshot.
    pub fn set_nodelay(&mut self, enabled: bool)
        ensures
            final(self)@ == (ModelState { tcp_nodelay: enabled, ..old(self)@ }),
    {
        self.tcp_nodelay = enabled;
    }

    /// Set whether to back off and retry on non-connection-level accept
    /// errors (the default) or to propagate them as fatal.
    pub fn set_sleep_on_errors(&mut self, val: bool)
        ensures
            final(self)@ == (ModelState { sleep_on_errors: val, ..old(self)@ }),
    {
        self.sleep_on_errors = val;
    }

    /// How many handshakes are in flight.
    pub fn handshakes_in_flight(&self) -> (n: usize)
        ensures
            n == self@.handshakes.len(),
    {
        self.handshakes.len()
    }

    /// Whether a fatal error has terminated the acceptor.
    pub fn is_terminated(&self) -> (r: bool)
        ensures
            r == (self@.phase is Done),
    {
        match self.phase {
            Phase::Done => true,
            _ => false,
        }
    }

    /// The position in the pool of the handshake for connection `id`.
    fn find_handshake(&self, id: u64) -> (idx: usize)
        requires
            wf(self@),
            has_id(self@.handshakes, id),
        ensures
            idx < self@.handshakes.len(),
            self@.handshakes[idx as int].conn.id == id,
            idx == hs_index(self@.handshakes, id),
    {
        let ghost hs = self@.handshakes;
        let n = self.handshakes.len();
        let mut i: usize = 0;
        while i < n
            invariant
                n == hs.len(),
                i <= n,
                hs == self@.handshakes,
                wf(self@),
                has_id(hs, id),
                forall|j: int| 0 <= j < i ==> hs[j].conn.id != id,
            decreases n - i,
        {
            if self.handshakes[i].conn.id == id {
                proof {
                    let k = hs_index(hs, id);
                    assert(0 <= k < hs.len() && hs[k].conn.id == id);
                    if k != i as int {
                        assert(false);
                    }
                }
                return i;
            }
            i = i + 1;
        }
        proof {
            let w = choose|j: int| 0 <= j < hs.len() && hs[j].conn.id == id;
            assert(hs[w].conn.id != id);
        }
        0
    }

    /// Take one step of the drive algorithm: `ev` answers the poll the
    /// machine asked for, and the returned directive says what to do next.
    /// The whole transition is pinned down by [`step_state`] and
    /// [`step_directive`].
    pub fn poll_step(&mut self, ev: Event) -> (d: Directive)
        requires
            wf(old(self)@),
            !(old(self)@.phase is Done),
            ev_ok(old(self)@, ev),
        ensures
            final(self)@ == step_state(old(self)@, ev),
            d == step_directive(old(self)@, ev),
            wf(final(self)@),
    {
        proof {
            lemma_step_preserves_wf(old(self)@, ev);
        }
        match ev {
            Event::Pool(pe) => match pe {
                HsEvent::Ready(id) => {
                    let idx = self.find_handshake(id);
                    let h = self.handshakes.remove(idx);
                    proof {
                        assert(self@ =~= step_state(old(self)@, ev));
                    }
                    Directive::Yield(SecureConn { id: id, peer: h.conn.peer })
                },
                HsEvent::Failed(id) => {
                    let idx = self.find_handshake(id);
                    self.handshakes.remove(idx);
                    proof {
                        assert(self@ =~= step_state(old(self)@, ev));
                    }
                    Directive::Poll(Op::PollPool)
                },
                HsEvent::NotReady => {
                    if self.timeout_armed {
                        self.phase = Phase::CheckingBackoff;
                        proof {
                            assert(self@ =~= step_state(old(self)@, ev));
                        }
                        Directive::Poll(Op::PollTimer)
                    } else {
                        self.phase = Phase::Accepting;
                        proof {
                            assert(self@ =~= step_state(old(self)@, ev));
                        }
                        Directive::Poll(Op::PollListener)
                    }
                },
            },
            Event::Timer(te) => match te {
                TimerEvent::Pending => {
                    self.phase = Phase::Draining;
                    proof {
                        assert(self@ =~= step_state(old(self)@, ev));
                    }
                    Directive::Wait
                },
                TimerEvent::Expired | TimerEvent::TimerError => {
                    self.timeout_armed = false;
                    self.phase = Phase::Accepting;
                    proof {
                        assert(self@ =~= step_state(old(self)@, ev));
                    }
                    Directive::Poll(Op::PollListener)
                },
            },
            Event::Listener(ae) => match ae {
                AcceptEvent::Ready(c) => {
                    let h = Handshake {
                        conn: c,
                        keepalive: self.tcp_keepalive_timeout,
                        nodelay: self.tcp_nodelay,
                    };
                    self.handshakes.push(h);
                    proof {
                        assert(self@ =~= step_state(old(self)@, ev));
                    }
                    Directive::Admit(h)
                },
                AcceptEvent::NotReady => {
                    self.phase = Phase::Draining;
                    proof {
                        assert(self@ =~= step_state(old(self)@, ev));
                    }
                    Directive::Wait
                },
                AcceptEvent::Failed(e) => {
                    if is_connection_error(&e) {
                        proof {
                            assert(self@ =~= step_state(old(self)@, ev));
                        }
                        Directive::Poll(Op::PollListener)
                    } else if self.sleep_on_errors {
                        self.timeout_armed = true;
                        self.phase = Phase::Draining;
                        proof {
                            assert(self@ =~= step_state(old(self)@, ev));
                        }
                        Directive::Sleep(BACKOFF_MILLIS)
                    } else {
                        self.phase = Phase::Done;
                        proof {
                            assert(self@ =~= step_state(old(self)@, ev));
                        }
                        Directive::Fatal(e)
                    }
                },
            },
        }
    }
}

} // verus!
