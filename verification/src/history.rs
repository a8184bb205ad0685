//! The history of protocol callbacks a reactor has issued, and the laws that
//! every history obeys.
//!
//! The reactor records each callback it decides on in a ghost sequence. For a
//! single peer, the recorded callbacks must spell a word of the automaton in
//! [`step_phase`]: `attempted` may open an outbound episode, `connected` may
//! open an inbound one or complete an outbound one, `received` repeats while
//! live, and `disconnected` closes the episode — at most once per episode. A
//! dial that fails synchronously reports a single `disconnected` for a peer
//! that was never registered.

use vstd::prelude::*;

use crate::addr::{Addr, Link};

verus! {

/// One protocol callback, as recorded in the reactor's history. Payloads
/// that do not affect the callback ordering (local addresses, byte counts,
/// disconnect reasons) are not recorded.
pub enum CallKind {
    /// `attempted(addr)`: an outbound dial was initiated.
    Attempted(Addr),
    /// `connected(addr, local_addr, link)`: a connection was established.
    Connected(Addr, Link),
    /// `received_bytes(addr, bytes)`: bytes were delivered.
    Received(Addr),
    /// `disconnected(addr, reason)`: the peer is gone.
    Disconnected(Addr),
}

/// Where a single peer stands in its callback life cycle.
pub enum Phase {
    /// Not registered.
    Idle,
    /// An outbound connect is in flight: `attempted` was delivered,
    /// `connected` was not.
    Dialing,
    /// Connected: bytes may be delivered.
    Live,
}

/// The peer a callback speaks of.
pub open spec fn call_addr(c: CallKind) -> Addr {
    match c {
        CallKind::Attempted(a) => a,
        CallKind::Connected(a, _) => a,
        CallKind::Received(a) => a,
        CallKind::Disconnected(a) => a,
    }
}

/// The per-peer callback automaton: which callback is allowed in which
/// phase, and where it leads. Callbacks about other peers leave the phase
/// unchanged; `None` marks a forbidden callback.
pub open spec fn step_phase(p: Phase, c: CallKind, a: Addr) -> Option<Phase> {
    if call_addr(c) != a {
        Some(p)
    } else {
        match (p, c) {
            (Phase::Idle, CallKind::Attempted(_)) => Some(Phase::Dialing),
            (Phase::Idle, CallKind::Connected(_, Link::Inbound)) => Some(Phase::Live),
            // A synchronously failing dial reports `disconnected` without
            // the peer ever having been registered.
            (Phase::Idle, CallKind::Disconnected(_)) => Some(Phase::Idle),
            (Phase::Dialing, CallKind::Connected(_, Link::Outbound)) => Some(Phase::Live),
            (Phase::Dialing, CallKind::Disconnected(_)) => Some(Phase::Idle),
            (Phase::Live, CallKind::Received(_)) => Some(Phase::Live),
            (Phase::Live, CallKind::Disconnected(_)) => Some(Phase::Idle),
            _ => None,
        }
    }
}

/// Runs the automaton over a whole history; `None` if any step was
/// forbidden.
pub open spec fn phase_of(h: Seq<CallKind>, a: Addr) -> Option<Phase>
    decreases h.len(),
{
    if h.len() == 0 {
        Some(Phase::Idle)
    } else {
        match phase_of(h.drop_last(), a) {
            Some(p) => step_phase(p, h.last(), a),
            None => None,
        }
    }
}

/// How many `attempted(a)` callbacks the history holds.
pub open spec fn count_attempted(h: Seq<CallKind>, a: Addr) -> nat
    decreases h.len(),
{
    if h.len() == 0 {
        0
    } else {
        count_attempted(h.drop_last(), a) + if h.last() == CallKind::Attempted(a) {
            1nat
        } else {
            0nat
        }
    }
}

/// How many `connected(a, .., link)` callbacks the history holds.
pub open spec fn count_connected(h: Seq<CallKind>, a: Addr, link: Link) -> nat
    decreases h.len(),
{
    if h.len() == 0 {
        0
    } else {
        count_connected(h.drop_last(), a, link) + if h.last() == CallKind::Connected(a, link) {
            1nat
        } else {
            0nat
        }
    }
}

/// How many `disconnected(a, ..)` callbacks the history holds.
pub open spec fn count_disconnected(h: Seq<CallKind>, a: Addr) -> nat
    decreases h.len(),
{
    if h.len() == 0 {
        0
    } else {
        count_disconnected(h.drop_last(), a) + if h.last() == CallKind::Disconnected(a) {
            1nat
        } else {
            0nat
        }
    }
}

/// How many `disconnected(a, ..)` callbacks were issued while the peer was
/// idle — that is, for dials that failed without the peer ever having been
/// registered.
pub open spec fn count_failed_dials(h: Seq<CallKind>, a: Addr) -> nat
    decreases h.len(),
{
    if h.len() == 0 {
        0
    } else {
        count_failed_dials(h.drop_last(), a) + if h.last() == CallKind::Disconnected(a)
            && phase_of(h.drop_last(), a) == Some(Phase::Idle) {
            1nat
        } else {
            0nat
        }
    }
}

/// One if the peer's current episode is still open, zero if it is idle.
pub open spec fn open_episode(p: Option<Phase>) -> nat {
    match p {
        Some(Phase::Idle) => 0,
        Some(Phase::Dialing) => 1,
        Some(Phase::Live) => 1,
        None => 0,
    }
}

/// One if the peer is currently dialing, zero otherwise.
pub open spec fn dialing(p: Option<Phase>) -> nat {
    match p {
        Some(Phase::Dialing) => 1,
        _ => 0,
    }
}

/// Extending a parsed history by one callback steps the automaton, for
/// every peer at once.
pub proof fn lemma_phase_push(h: Seq<CallKind>, c: CallKind)
    ensures
        forall|a: Addr| #[trigger] phase_of(h.push(c), a) == (match phase_of(h, a) {
            Some(p) => step_phase(p, c, a),
            None => None::<Phase>,
        }),
{
    assert(h.push(c).drop_last() =~= h);
    assert(h.push(c).last() == c);
}

/// Single disconnect. For any peer, the `disconnected` callbacks issued so
/// far, plus one for an episode still open, exactly balance the episodes
/// that were ever opened: dials attempted, inbound connections established,
/// and dials that failed synchronously. In particular, once every episode
/// is closed, each opening was answered by exactly one `disconnected`.
pub proof fn lemma_single_disconnect(h: Seq<CallKind>, a: Addr)
    requires
        phase_of(h, a) is Some,
    ensures
        count_disconnected(h, a) + open_episode(phase_of(h, a)) == count_attempted(h, a)
            + count_connected(h, a, Link::Inbound) + count_failed_dials(h, a),
    decreases h.len(),
{
    if h.len() != 0 {
        lemma_single_disconnect(h.drop_last(), a);
    }
}

/// No double connect. For any peer, `connected(a, .., Outbound)` is issued
/// at most once per `attempted(a)` — a dial currently in flight counts as
/// the pending use of its `attempted`.
pub proof fn lemma_no_double_connect(h: Seq<CallKind>, a: Addr)
    requires
        phase_of(h, a) is Some,
    ensures
        count_connected(h, a, Link::Outbound) + dialing(phase_of(h, a)) <= count_attempted(h, a),
    decreases h.len(),
{
    if h.len() != 0 {
        lemma_no_double_connect(h.drop_last(), a);
    }
}

/// A prefix of a parsed history parses too.
pub proof fn lemma_phase_prefix(h: Seq<CallKind>, a: Addr, n: int)
    requires
        phase_of(h, a) is Some,
        0 <= n <= h.len(),
    ensures
        phase_of(h.take(n), a) is Some,
    decreases h.len() - n,
{
    if n == h.len() {
        assert(h.take(n) =~= h);
    } else {
        lemma_phase_prefix(h, a, n + 1);
        assert(h.take(n + 1).drop_last() =~= h.take(n));
        assert(phase_of(h.take(n + 1), a) is Some);
    }
}

/// A peer in the dialing phase has an `attempted` on record.
pub proof fn lemma_dialing_has_attempt(h: Seq<CallKind>, a: Addr)
    requires
        phase_of(h, a) == Some(Phase::Dialing),
    ensures
        exists|i: int| 0 <= i < h.len() && h[i] == CallKind::Attempted(a),
    decreases h.len(),
{
    let prev = h.drop_last();
    if phase_of(prev, a) == Some(Phase::Dialing) {
        lemma_dialing_has_attempt(prev, a);
        let i = choose|i: int| 0 <= i < prev.len() && prev[i] == CallKind::Attempted(a);
        assert(h[i] == CallKind::Attempted(a));
    } else {
        assert(h.last() == CallKind::Attempted(a));
        assert(h[h.len() - 1] == CallKind::Attempted(a));
    }
}

/// Attempted precedes connected. Every `connected(a, .., Outbound)` in a
/// parsed history is preceded by an `attempted(a)`.
pub proof fn lemma_attempt_precedes_connect(h: Seq<CallKind>, a: Addr, j: int)
    requires
        phase_of(h, a) is Some,
        0 <= j < h.len(),
        h[j] == CallKind::Connected(a, Link::Outbound),
    ensures
        exists|i: int| 0 <= i < j && h[i] == CallKind::Attempted(a),
{
    lemma_phase_prefix(h, a, j + 1);
    assert(h.take(j + 1).drop_last() =~= h.take(j));
    assert(h.take(j + 1).last() == h[j]);
    assert(phase_of(h.take(j), a) == Some(Phase::Dialing));
    lemma_dialing_has_attempt(h.take(j), a);
    let i = choose|i: int|
        0 <= i < h.take(j).len() && h.take(j)[i] == CallKind::Attempted(a);
    assert(h[i] == CallKind::Attempted(a));
}

} // verus!
