//! Laws of the accept/handshake/backoff machine, stated over whole runs.
//!
//! A run starts from a state `m` and takes a sequence of events, each of
//! which must be a valid outcome of the poll the machine asked for at that
//! point ([`valid_events`]).  The laws hold for every such run: at most one
//! backoff timer is ever active, no raw connection is yielded twice or after
//! a failed negotiation, and the listener is only polled after the handshake
//! pool reported nothing ready.

use vstd::prelude::*;

use crate::acceptor::{
    AcceptEvent, Directive, Event, HsEvent, ModelState, Op, ev_ok, has_id, hs_index,
    lemma_step_preserves_wf, step_directive, step_state, wf,
};
use crate::conn::Handshake;

verus! {

/// The state after taking the events of `es` in order, starting from `m`.
pub open spec fn run(m: ModelState, es: Seq<Event>) -> ModelState
    decreases es.len(),
{
    if es.len() == 0 {
        m
    } else {
        run(step_state(m, es[0]), es.skip(1))
    }
}

/// Every event of `es` is a valid outcome of the poll the machine asks for
/// at its point of the run, and the machine is not driven on after a fatal
/// error terminated it.
pub open spec fn valid_events(m: ModelState, es: Seq<Event>) -> bool
    decreases es.len(),
{
    es.len() == 0 || {
        &&& !(m.phase is Done)
        &&& ev_ok(m, es[0])
        &&& valid_events(step_state(m, es[0]), es.skip(1))
    }
}

/// The ids of the raw connections the listener handed out along `es`.
pub open spec fn accepted_ids(es: Seq<Event>) -> Seq<u64>
    decreases es.len(),
{
    if es.len() == 0 {
        Seq::empty()
    } else {
        let rest = accepted_ids(es.skip(1));
        match es[0] {
            Event::Listener(AcceptEvent::Ready(c)) => seq![c.id] + rest,
            _ => rest,
        }
    }
}

/// The ids of the connections yielded to the caller along `es`.
pub open spec fn yielded_ids(es: Seq<Event>) -> Seq<u64>
    decreases es.len(),
{
    if es.len() == 0 {
        Seq::empty()
    } else {
        let rest = yielded_ids(es.skip(1));
        match es[0] {
            Event::Pool(HsEvent::Ready(id)) => seq![id] + rest,
            _ => rest,
        }
    }
}

/// The ids of the connections whose negotiation failed along `es`.
pub open spec fn failed_ids(es: Seq<Event>) -> Seq<u64>
    decreases es.len(),
{
    if es.len() == 0 {
        Seq::empty()
    } else {
        let rest = failed_ids(es.skip(1));
        match es[0] {
            Event::Pool(HsEvent::Failed(id)) => seq![id] + rest,
            _ => rest,
        }
    }
}

/// None of the ids in `ids` has an in-flight handshake in `hs`.
pub open spec fn ids_fresh(hs: Seq<Handshake>, ids: Seq<u64>) -> bool {
    forall|x: u64| ids.contains(x) ==> !has_id(hs, x)
}

/// How many backoff timers are active in state `m`.
pub open spec fn timers_active(m: ModelState) -> nat {
    if m.timeout_armed {
        1
    } else {
        0
    }
}

/// At every instant of every run, the number of active backoff timers is
/// zero or one: the machine keeps its timer in a single optional slot, and
/// arming a timer replaces any previous one instead of adding to it.
pub proof fn lemma_at_most_one_timer(m: ModelState, es: Seq<Event>)
    ensures
        forall|k: int| 0 <= k <= es.len() ==> timers_active(run(m, es.take(k))) <= 1,
{
}

/// Prepending an element to a sequence: membership and freedom from
/// duplicates, spelled out for the run bookkeeping below.
proof fn lemma_cons_contains(a: u64, s: Seq<u64>)
    ensures
        forall|x: u64| #[trigger] (seq![a] + s).contains(x) <==> (x == a || s.contains(x)),
{
    let c = seq![a] + s;
    assert forall|x: u64| #[trigger] c.contains(x) <==> (x == a || s.contains(x)) by {
        if c.contains(x) {
            let i = choose|i: int| 0 <= i < c.len() && c[i] == x;
            if i > 0 {
                assert(s[i - 1] == x);
                assert(s.contains(x));
            }
        }
        if x == a {
            assert(c[0] == x);
            assert(c.contains(x));
        }
        if s.contains(x) {
            let i = choose|i: int| 0 <= i < s.len() && s[i] == x;
            assert(c[i + 1] == x);
            assert(c.contains(x));
        }
    }
}

proof fn lemma_cons_no_duplicates(a: u64, s: Seq<u64>)
    requires
        !s.contains(a),
        s.no_duplicates(),
    ensures
        (seq![a] + s).no_duplicates(),
{
    let c = seq![a] + s;
    assert forall|i: int, j: int|
        0 <= i < c.len() && 0 <= j < c.len() && i != j implies c[i] != c[j] by {
        if i == 0 {
            assert(c[j] == s[j - 1]);
            if s[j - 1] == a {
                assert(s.contains(a));
            }
        } else if j == 0 {
            assert(c[i] == s[i - 1]);
            if s[i - 1] == a {
                assert(s.contains(a));
            }
        } else {
            assert(c[i] == s[i - 1]);
            assert(c[j] == s[j - 1]);
        }
    }
}

proof fn lemma_cons_no_duplicates_rev(a: u64, s: Seq<u64>)
    requires
        (seq![a] + s).no_duplicates(),
    ensures
        !s.contains(a),
        s.no_duplicates(),
{
    let c = seq![a] + s;
    assert forall|i: int, j: int|
        0 <= i < s.len() && 0 <= j < s.len() && i != j implies s[i] != s[j] by {
        assert(c[i + 1] == s[i]);
        assert(c[j + 1] == s[j]);
    }
    if s.contains(a) {
        let i = choose|i: int| 0 <= i < s.len() && s[i] == a;
        assert(c[i + 1] == a);
        assert(c[0] == a);
        assert(false);
    }
}

/// The bookkeeping behind [`lemma_each_conn_yielded_at_most_once`]: along a
/// valid run whose accepted ids are distinct and fresh, the yielded and
/// failed ids are duplicate-free, disjoint, and drawn from the accepted
/// connections (or the handshakes already in flight at the start).
proof fn lemma_run_ids(m: ModelState, es: Seq<Event>)
    requires
        wf(m),
        valid_events(m, es),
        accepted_ids(es).no_duplicates(),
        ids_fresh(m.handshakes, accepted_ids(es)),
    ensures
        yielded_ids(es).no_duplicates(),
        failed_ids(es).no_duplicates(),
        forall|x: u64| yielded_ids(es).contains(x) ==> !failed_ids(es).contains(x),
        forall|x: u64|
            yielded_ids(es).contains(x) ==> has_id(m.handshakes, x) || accepted_ids(es).contains(
                x,
            ),
        forall|x: u64|
            failed_ids(es).contains(x) ==> has_id(m.handshakes, x) || accepted_ids(es).contains(x),
    decreases es.len(),
{
    if es.len() > 0 {
        let ev = es[0];
        let m1 = step_state(m, ev);
        let rest = es.skip(1);
        lemma_step_preserves_wf(m, ev);
        match ev {
            Event::Pool(HsEvent::Ready(id)) | Event::Pool(HsEvent::Failed(id)) => {
                let idx = hs_index(m.handshakes, id);
                assert(0 <= idx < m.handshakes.len() && m.handshakes[idx].conn.id == id);
                assert(m1.handshakes == m.handshakes.remove(idx));
                // after settling, the id has no in-flight handshake any more
                assert(!has_id(m1.handshakes, id)) by {
                    if has_id(m1.handshakes, id) {
                        let k = choose|k: int|
                            0 <= k < m1.handshakes.len() && m1.handshakes[k].conn.id == id;
                        if k < idx {
                            assert(m.handshakes[k].conn.id == id);
                        } else {
                            assert(m.handshakes[k + 1].conn.id == id);
                        }
                        assert(false);
                    }
                }
                // the pool only shrank
                assert forall|x: u64| has_id(m1.handshakes, x) implies has_id(
                    m.handshakes,
                    x,
                ) by {
                    let k = choose|k: int|
                        0 <= k < m1.handshakes.len() && m1.handshakes[k].conn.id == x;
                    if k < idx {
                        assert(m.handshakes[k].conn.id == x);
                    } else {
                        assert(m.handshakes[k + 1].conn.id == x);
                    }
                }
                assert(accepted_ids(es) == accepted_ids(rest));
                assert(ids_fresh(m1.handshakes, accepted_ids(rest)));
                lemma_run_ids(m1, rest);
                // the settled id was in flight, so it is not among the
                // accepted-later ids, nor among what the tail yields/fails
                assert(!accepted_ids(es).contains(id)) by {
                    if accepted_ids(es).contains(id) {
                        assert(!has_id(m.handshakes, id));
                        assert(false);
                    }
                }
                assert(!yielded_ids(rest).contains(id)) by {
                    if yielded_ids(rest).contains(id) {
                        assert(has_id(m1.handshakes, id) || accepted_ids(rest).contains(id));
                        assert(false);
                    }
                }
                assert(!failed_ids(rest).contains(id)) by {
                    if failed_ids(rest).contains(id) {
                        assert(has_id(m1.handshakes, id) || accepted_ids(rest).contains(id));
                        assert(false);
                    }
                }
                match ev {
                    Event::Pool(HsEvent::Ready(_)) => {
                        assert(yielded_ids(es) == seq![id] + yielded_ids(rest));
                        assert(failed_ids(es) == failed_ids(rest));
                        lemma_cons_contains(id, yielded_ids(rest));
                        lemma_cons_no_duplicates(id, yielded_ids(rest));
                    },
                    _ => {
                        assert(failed_ids(es) == seq![id] + failed_ids(rest));
                        assert(yielded_ids(es) == yielded_ids(rest));
                        lemma_cons_contains(id, failed_ids(rest));
                        lemma_cons_no_duplicates(id, failed_ids(rest));
                    },
                }
            },
            Event::Listener(AcceptEvent::Ready(c)) => {
                assert(accepted_ids(es) == seq![c.id] + accepted_ids(rest));
                lemma_cons_contains(c.id, accepted_ids(rest));
                lemma_cons_no_duplicates_rev(c.id, accepted_ids(rest));
                assert(m1.handshakes == m.handshakes.push(
                    crate::acceptor::admitted(m, c),
                ));
                // the grown pool stays fresh for the ids accepted later
                assert forall|x: u64| accepted_ids(rest).contains(x) implies !has_id(
                    m1.handshakes,
                    x,
                ) by {
                    assert(accepted_ids(es).contains(x));
                    assert(!has_id(m.handshakes, x));
                    if has_id(m1.handshakes, x) {
                        let k = choose|k: int|
                            0 <= k < m1.handshakes.len() && m1.handshakes[k].conn.id == x;
                        if k < m.handshakes.len() {
                            assert(m.handshakes[k].conn.id == x);
                            assert(false);
                        } else {
                            assert(x == c.id);
                            assert(false);
                        }
                    }
                }
                lemma_run_ids(m1, rest);
                assert(yielded_ids(es) == yielded_ids(rest));
                assert(failed_ids(es) == failed_ids(rest));
                // memberships carry over: anything in flight after the push
                // was in flight before or is the accepted connection itself
                assert forall|x: u64| yielded_ids(es).contains(x) implies has_id(
                    m.handshakes,
                    x,
                ) || accepted_ids(es).contains(x) by {
                    assert(has_id(m1.handshakes, x) || accepted_ids(rest).contains(x));
                    if has_id(m1.handshakes, x) {
                        let k = choose|k: int|
                            0 <= k < m1.handshakes.len() && m1.handshakes[k].conn.id == x;
                        if k < m.handshakes.len() {
                            assert(m.handshakes[k].conn.id == x);
                        } else {
                            assert(x == c.id);
                        }
                    }
                }
                assert forall|x: u64| failed_ids(es).contains(x) implies has_id(
                    m.handshakes,
                    x,
                ) || accepted_ids(es).contains(x) by {
                    assert(has_id(m1.handshakes, x) || accepted_ids(rest).contains(x));
                    if has_id(m1.handshakes, x) {
                        let k = choose|k: int|
                            0 <= k < m1.handshakes.len() && m1.handshakes[k].conn.id == x;
                        if k < m.handshakes.len() {
                            assert(m.handshakes[k].conn.id == x);
                        } else {
                            assert(x == c.id);
                        }
                    }
                }
            },
            _ => {
                assert(m1.handshakes == m.handshakes);
                assert(accepted_ids(es) == accepted_ids(rest));
                assert(yielded_ids(es) == yielded_ids(rest));
                assert(failed_ids(es) == failed_ids(rest));
                lemma_run_ids(m1, rest);
            },
        }
    }
}

/// A raw connection handed into the handshake pool is yielded to the caller
/// at most once, and never if its negotiation failed: in every valid run in
/// which the listener hands out distinct raw connections (none of them
/// already in flight at the start), the yielded connection ids contain no
/// duplicate and share no id with the failed handshakes.
pub proof fn lemma_each_conn_yielded_at_most_once(m: ModelState, es: Seq<Event>)
    requires
        wf(m),
        valid_events(m, es),
        accepted_ids(es).no_duplicates(),
        ids_fresh(m.handshakes, accepted_ids(es)),
    ensures
        yielded_ids(es).no_duplicates(),
        forall|x: u64| yielded_ids(es).contains(x) ==> !failed_ids(es).contains(x),
{
    lemma_run_ids(m, es);
}

/// `h` is either carried over unchanged from the handshakes in flight in
/// `m`, or is the one admitted by `ev` with `m`'s configuration snapshot.
pub open spec fn entry_carried_over(m: ModelState, ev: Event, h: Handshake) -> bool {
    ||| exists|i: int| 0 <= i < m.handshakes.len() && h == #[trigger] m.handshakes[i]
    ||| ev matches Event::Listener(AcceptEvent::Ready(c)) && h == crate::acceptor::admitted(m, c)
}

/// An accepted connection's socket-option snapshot is never revised: a step
/// only removes whole handshakes or admits a new one carrying the
/// configuration of the moment it was accepted, so no later configuration
/// change reaches a connection that is already negotiating.
pub proof fn lemma_snapshot_not_retroactive(m: ModelState, ev: Event)
    requires
        wf(m),
        ev_ok(m, ev),
    ensures
        forall|j: int|
            0 <= j < step_state(m, ev).handshakes.len() ==> entry_carried_over(
                m,
                ev,
                #[trigger] step_state(m, ev).handshakes[j],
            ),
{
    let post = step_state(m, ev).handshakes;
    match ev {
        Event::Pool(HsEvent::Ready(id)) | Event::Pool(HsEvent::Failed(id)) => {
            let idx = hs_index(m.handshakes, id);
            assert forall|j: int| 0 <= j < post.len() implies entry_carried_over(
                m,
                ev,
                post[j],
            ) by {
                if j < idx {
                    assert(post[j] == m.handshakes[j]);
                } else {
                    assert(post[j] == m.handshakes[j + 1]);
                }
            }
        },
        Event::Listener(AcceptEvent::Ready(c)) => {
            assert forall|j: int| 0 <= j < post.len() implies entry_carried_over(
                m,
                ev,
                post[j],
            ) by {
                if j < m.handshakes.len() {
                    assert(post[j] == m.handshakes[j]);
                }
            }
        },
        _ => {
            assert forall|j: int| 0 <= j < post.len() implies entry_carried_over(
                m,
                ev,
                post[j],
            ) by {
                assert(post[j] == m.handshakes[j]);
            }
        },
    }
}

/// The state after the first `k` events of `es`, starting from `m`.
pub open spec fn state_at(m: ModelState, es: Seq<Event>, k: int) -> ModelState
    decreases k,
{
    if k <= 0 {
        m
    } else {
        step_state(state_at(m, es, k - 1), es[k - 1])
    }
}

/// The directive the machine answers with at step `k` of the run.
pub open spec fn directive_at(m: ModelState, es: Seq<Event>, k: int) -> Directive {
    step_directive(state_at(m, es, k), es[k])
}

/// Whether a directive ends the drive invocation: the machine either has a
/// result (a yielded connection or a fatal error) or suspends.
pub open spec fn ends_invocation(d: Directive) -> bool {
    d is Wait || d is Sleep || d is Yield || d is Fatal
}

/// No step in `[a, b)` of the run ends its drive invocation.
pub open spec fn same_invocation(m: ModelState, es: Seq<Event>, a: int, b: int) -> bool {
    forall|k: int| a <= k < b ==> !ends_invocation(#[trigger] directive_at(m, es, k))
}

/// Stepping once and then running the tail reaches the same states.
proof fn lemma_state_at_shift(m: ModelState, es: Seq<Event>, k: int)
    requires
        1 <= k <= es.len(),
    ensures
        state_at(m, es, k) == state_at(step_state(m, es[0]), es.skip(1), k - 1),
    decreases k,
{
    let m1 = step_state(m, es[0]);
    let rest = es.skip(1);
    if k > 1 {
        lemma_state_at_shift(m, es, k - 1);
        assert(rest[k - 2] == es[k - 1]);
        assert(state_at(m, es, k) == step_state(state_at(m, es, k - 1), es[k - 1]));
        assert(state_at(m1, rest, k - 1) == step_state(state_at(m1, rest, k - 2), rest[k - 2]));
    } else {
        assert(state_at(m, es, 1) == step_state(state_at(m, es, 0), es[0]));
        assert(state_at(m, es, 0) == m);
        assert(state_at(m1, rest, 0) == m1);
    }
}

/// The search behind [`lemma_ready_handshakes_drained_first`].  Returns the
/// index of the drain gate, or `-1` when the run already started inside an
/// invocation that had passed its drain (a non-draining start phase).
proof fn find_drain_gate(m: ModelState, es: Seq<Event>, i: int) -> (j: int)
    requires
        wf(m),
        valid_events(m, es),
        0 <= i < es.len(),
        es[i] matches Event::Listener(_),
    ensures
        -1 <= j < i,
        j >= 0 ==> es[j] == Event::Pool(HsEvent::NotReady) && same_invocation(m, es, j + 1, i),
        j == -1 ==> !(m.phase is Draining) && same_invocation(m, es, 0, i),
    decreases i,
{
    if i == 0 {
        // a listener outcome is only valid in the accepting phase
        assert(m.phase is Accepting);
        -1
    } else {
        let m1 = step_state(m, es[0]);
        let rest = es.skip(1);
        lemma_step_preserves_wf(m, es[0]);
        assert(valid_events(m1, rest));
        assert(rest[i - 1] == es[i]);
        let j1 = find_drain_gate(m1, rest, i - 1);
        // carry the window over from the tail run to the full run
        assert forall|k: int| 1 <= k < i implies directive_at(m, es, k) == directive_at(
            m1,
            rest,
            k - 1,
        ) by {
            lemma_state_at_shift(m, es, k);
            assert(rest[k - 1] == es[k]);
        }
        if j1 >= 0 {
            assert(es[j1 + 1] == rest[j1]);
            assert(same_invocation(m, es, j1 + 2, i));
            j1 + 1
        } else {
            // the tail starts mid-invocation; the first step cannot have
            // ended it, or the tail would have started in `Draining` (or,
            // for a fatal error, the run would have stopped)
            assert(rest.len() > 0);
            assert(!(m1.phase is Done));
            assert(!ends_invocation(directive_at(m, es, 0))) by {
                if ends_invocation(step_directive(m, es[0])) {
                    assert(m1.phase is Draining || m1.phase is Done);
                }
            }
            if m.phase is Draining {
                // the only step out of the draining phase that does not end
                // the invocation is the pool's nothing-ready answer
                assert(es[0] == Event::Pool(HsEvent::NotReady));
                assert(same_invocation(m, es, 1, i));
                0
            } else {
                assert(same_invocation(m, es, 0, i));
                -1
            }
        }
    }
}

/// Ready handshakes are always drained before a new accept attempt is made
/// within the same drive invocation: in every valid run started at the
/// beginning of a drive invocation, each listener poll is preceded by the
/// handshake pool reporting nothing ready, with no step between the two
/// ending the invocation.  The returned index is that of the pool's
/// nothing-ready answer.
pub proof fn lemma_ready_handshakes_drained_first(m: ModelState, es: Seq<Event>, i: int) -> (j: int)
    requires
        wf(m),
        valid_events(m, es),
        m.phase is Draining,
        0 <= i < es.len(),
        es[i] matches Event::Listener(_),
    ensures
        0 <= j < i,
        es[j] == Event::Pool(HsEvent::NotReady),
        same_invocation(m, es, j + 1, i),
{
    let j = find_drain_gate(m, es, i);
    assert(j >= 0);
    j
}

/// In the draining phase the machine never admits a connection, and it asks
/// to poll the listener only on the pool's answer that nothing is ready,
/// with no backoff timer armed: ready handshakes are always drained before a
/// new accept attempt is made.
pub proof fn lemma_drain_before_accept(m: ModelState, ev: Event)
    requires
        wf(m),
        ev_ok(m, ev),
        m.phase is Draining,
    ensures
        step_directive(m, ev) == Directive::Poll(Op::PollListener) ==> (ev == Event::Pool(
            HsEvent::NotReady,
        ) && !m.timeout_armed),
        !(step_directive(m, ev) is Admit),
{
}

/// The accepting phase is entered only through the drain gate.  A step moves
/// the machine into `Accepting` only on the pool's nothing-ready answer or
/// out of the backoff check, the backoff check itself is reached only
/// through that same answer, listener outcomes are only taken in the
/// accepting phase, and every suspension or yield puts the machine back into
/// `Draining` — so each drive invocation drains ready handshakes first.
pub proof fn lemma_accepting_entered_after_drain(m: ModelState, ev: Event)
    requires
        wf(m),
        ev_ok(m, ev),
    ensures
        (!(m.phase is Accepting) && step_state(m, ev).phase is Accepting) ==> (ev == Event::Pool(
            HsEvent::NotReady,
        ) || m.phase is CheckingBackoff),
        (!(m.phase is CheckingBackoff) && step_state(m, ev).phase is CheckingBackoff) ==> ev
            == Event::Pool(HsEvent::NotReady),
        ev matches Event::Listener(_) ==> m.phase is Accepting,
        (step_directive(m, ev) is Wait || step_directive(m, ev) is Sleep || step_directive(m, ev)
            is Yield) ==> step_state(m, ev).phase is Draining,
{
}

} // verus!
