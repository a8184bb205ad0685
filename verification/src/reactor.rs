//! The reactor state machine.
//!
//! A [`Reactor`] owns the model of everything the event loop mutates: the
//! peer table with each peer's link, connect-in-flight flag, poll
//! registration and write-interest bit; the timer wheel; and the receiving
//! ends of the command and shutdown channels. The embedding program performs
//! the operating-system work — polling, reading, writing, dialing — and
//! reports each outcome here as a plain value; the methods decide what
//! changes and which protocol callbacks to issue, and record those callbacks
//! in a ghost history that provably spells a legal word of the callback
//! automaton in [`crate::history`] for every peer.

use vstd::prelude::*;

use crate::addr::{Addr, Link};
use crate::history::{phase_of, lemma_phase_push, CallKind, Phase};
use crate::io::{
    DialStep, DisconnectReason, IntentStep, Io, IoErrorKind, ReadOutcome, ReadStep, WakerStep,
    WritableStep, WriteOutcome, WriteStep,
};
use crate::time::{
    deadlines_sorted, insert_sorted, num_expired, sat_add, TimeoutManager, WAIT_TIMEOUT_MS,
    max_ms, sat_sub,
};

verus! {

/// A receiving channel end, shared with producers on other threads.
#[verifier::external_type_specification]
#[verifier::external_body]
#[verifier::reject_recursive_types(T)]
pub struct ExReceiver<T>(crossbeam_channel::Receiver<T>);

/// Relies on `crossbeam_channel::Receiver::try_recv`: returns a pending
/// message if one is immediately available, without blocking. What comes
/// back depends on the producing threads, so nothing is promised of the
/// result.
#[verifier::external_body]
fn chan_try_recv<T>(r: &crossbeam_channel::Receiver<T>) -> Option<T> {
    r.try_recv().ok()
}

/// Relies on `crossbeam_channel::Receiver::len`: the number of messages in
/// the channel at some moment. Producers on other threads move it at any
/// time, so nothing is promised of the result.
#[verifier::external_body]
fn chan_len<T>(r: &crossbeam_channel::Receiver<T>) -> usize {
    r.len()
}

/// What the reactor tracks for one registered peer.
#[derive(Clone, Copy, PartialEq, Eq, Structural, Debug)]
pub struct PeerSlot {
    /// The connection's direction, fixed at registration.
    pub link: Link,
    /// An outbound connect is in flight: no writable readiness seen yet.
    pub connecting: bool,
    /// The peer's descriptor is registered with the poll registry. Cleared
    /// only when the descriptor turns out invalid.
    pub source: bool,
    /// The write-interest bit of the poll registration.
    pub write_interest: bool,
}

/// The slot of a freshly accepted peer: interest in both directions, as
/// registration asks for.
pub open spec fn inbound_slot() -> PeerSlot {
    PeerSlot { link: Link::Inbound, connecting: false, source: true, write_interest: true }
}

/// The slot of a freshly dialed peer: the connect is in flight until the
/// first writable readiness.
pub open spec fn outbound_slot() -> PeerSlot {
    PeerSlot { link: Link::Outbound, connecting: true, source: true, write_interest: true }
}

/// The slot with its write-interest bit set as given.
pub open spec fn with_write(s: PeerSlot, w: bool) -> PeerSlot {
    PeerSlot { write_interest: w, ..s }
}

/// The slot once its in-flight connect completed.
pub open spec fn settled(s: PeerSlot) -> PeerSlot {
    PeerSlot { connecting: false, ..s }
}

/// The slot once its poll registration was dropped as invalid.
pub open spec fn sourceless(s: PeerSlot) -> PeerSlot {
    PeerSlot { source: false, ..s }
}

/// The slot of the first entry carrying this address, if any.
pub open spec fn slot_lookup(s: Seq<(Addr, PeerSlot)>, a: Addr) -> Option<PeerSlot>
    decreases s.len(),
{
    if s.len() == 0 {
        None
    } else if s[0].0 == a {
        Some(s[0].1)
    } else {
        slot_lookup(s.drop_first(), a)
    }
}

/// Each address appears at most once.
pub open spec fn unique_addrs(s: Seq<(Addr, PeerSlot)>) -> bool {
    forall|i: int, j: int| 0 <= i < j < s.len() ==> s[i].0 != s[j].0
}

/// An empty lookup means no entry carries the address.
proof fn lemma_lookup_none(s: Seq<(Addr, PeerSlot)>, a: Addr)
    ensures
        (slot_lookup(s, a) is None) <==> (forall|i: int| 0 <= i < s.len() ==> s[i].0 != a),
    decreases s.len(),
{
    if s.len() > 0 {
        lemma_lookup_none(s.drop_first(), a);
        if slot_lookup(s, a) is None {
            assert forall|i: int| 0 <= i < s.len() implies s[i].0 != a by {
                if i > 0 {
                    assert(s.drop_first()[i - 1] == s[i]);
                }
            }
        } else {
            if s[0].0 != a {
                let i = choose|i: int|
                    0 <= i < s.drop_first().len() && s.drop_first()[i].0 == a;
                assert(s[i + 1].0 == a);
            }
        }
    }
}

/// A table without its first entry still has no duplicates.
proof fn lemma_unique_drop(s: Seq<(Addr, PeerSlot)>)
    requires
        unique_addrs(s),
        s.len() > 0,
    ensures
        unique_addrs(s.drop_first()),
{
    assert forall|p: int, q: int|
        0 <= p < q < s.drop_first().len() implies s.drop_first()[p].0 != s.drop_first()[
        q].0 by {
        assert(s.drop_first()[p] == s[p + 1]);
        assert(s.drop_first()[q] == s[q + 1]);
    }
}

/// In a table without duplicates, the lookup returns the entry at any index
/// that carries the address.
proof fn lemma_lookup_at(s: Seq<(Addr, PeerSlot)>, i: int)
    requires
        unique_addrs(s),
        0 <= i < s.len(),
    ensures
        slot_lookup(s, s[i].0) == Some(s[i].1),
    decreases i,
{
    if i > 0 {
        lemma_unique_drop(s);
        lemma_lookup_at(s.drop_first(), i - 1);
        assert(s.drop_first()[i - 1] == s[i]);
    }
}

/// Appending an entry for a new address: every other lookup is unchanged.
proof fn lemma_table_push(s: Seq<(Addr, PeerSlot)>, a: Addr, v: PeerSlot)
    requires
        unique_addrs(s),
        slot_lookup(s, a) is None,
    ensures
        unique_addrs(s.push((a, v))),
        forall|b: Addr| #[trigger] slot_lookup(s.push((a, v)), b) == if b == a {
            Some(v)
        } else {
            slot_lookup(s, b)
        },
    decreases s.len(),
{
    lemma_lookup_none(s, a);
    let t = s.push((a, v));
    assert forall|p: int, q: int| 0 <= p < q < t.len() implies t[p].0 != t[q].0 by {
        assert(t[p] == s[p]);
        if q < s.len() {
            assert(t[q] == s[q]);
        } else {
            assert(t[q] == (a, v));
            assert(s[p].0 != a);
        }
    }
    if s.len() == 0 {
        assert forall|b: Addr| #[trigger] slot_lookup(t, b) == if b == a {
            Some(v)
        } else {
            slot_lookup(s, b)
        } by {
            assert(t[0] == (a, v));
            assert(t.drop_first() =~= Seq::<(Addr, PeerSlot)>::empty());
            if b != a {
                assert(slot_lookup(t, b) == slot_lookup(t.drop_first(), b));
                assert(slot_lookup(t.drop_first(), b) is None);
                assert(slot_lookup(s, b) is None);
            }
        }
    } else {
        lemma_unique_drop(s);
        lemma_table_push(s.drop_first(), a, v);
        assert forall|b: Addr| #[trigger] slot_lookup(t, b) == if b == a {
            Some(v)
        } else {
            slot_lookup(s, b)
        } by {
            assert(t[0] == s[0]);
            assert(t.drop_first() =~= s.drop_first().push((a, v)));
            assert(slot_lookup(s.drop_first().push((a, v)), b) == if b == a {
                Some(v)
            } else {
                slot_lookup(s.drop_first(), b)
            });
            if s[0].0 == b {
                assert(s[0].0 != a);
                assert(slot_lookup(t, b) == Some(t[0].1));
                assert(slot_lookup(s, b) == Some(s[0].1));
            } else {
                assert(slot_lookup(t, b) == slot_lookup(t.drop_first(), b));
                assert(slot_lookup(s, b) == slot_lookup(s.drop_first(), b));
            }
        }
    }
}

/// Replacing the slot at one index: every other lookup is unchanged.
proof fn lemma_table_update(s: Seq<(Addr, PeerSlot)>, i: int, v: PeerSlot)
    requires
        unique_addrs(s),
        0 <= i < s.len(),
    ensures
        unique_addrs(s.update(i, (s[i].0, v))),
        forall|b: Addr| #[trigger] slot_lookup(s.update(i, (s[i].0, v)), b) == if b == s[i].0 {
            Some(v)
        } else {
            slot_lookup(s, b)
        },
    decreases i,
{
    let t = s.update(i, (s[i].0, v));
    assert forall|p: int, q: int| 0 <= p < q < t.len() implies t[p].0 != t[q].0 by {
        assert(t[p].0 == s[p].0);
        assert(t[q].0 == s[q].0);
    }
    if i == 0 {
        assert forall|b: Addr| #[trigger] slot_lookup(t, b) == if b == s[0].0 {
            Some(v)
        } else {
            slot_lookup(s, b)
        } by {
            assert(t[0] == (s[0].0, v));
            assert(t.drop_first() =~= s.drop_first());
            if b != s[0].0 {
                assert(slot_lookup(t, b) == slot_lookup(t.drop_first(), b));
                assert(slot_lookup(s, b) == slot_lookup(s.drop_first(), b));
            }
        }
    } else {
        lemma_unique_drop(s);
        lemma_table_update(s.drop_first(), i - 1, v);
        assert(s.drop_first()[i - 1] == s[i]);
        assert forall|b: Addr| #[trigger] slot_lookup(t, b) == if b == s[i].0 {
            Some(v)
        } else {
            slot_lookup(s, b)
        } by {
            assert(t[0] == s[0]);
            assert(t.drop_first() =~= s.drop_first().update(i - 1, (s[i].0, v)));
            assert(slot_lookup(s.drop_first().update(i - 1, (s[i].0, v)), b) == if b
                == s[i].0 {
                Some(v)
            } else {
                slot_lookup(s.drop_first(), b)
            });
            assert(s[0].0 != s[i].0);
            if s[0].0 == b {
                assert(slot_lookup(t, b) == Some(t[0].1));
                assert(slot_lookup(s, b) == Some(s[0].1));
            } else {
                assert(slot_lookup(t, b) == slot_lookup(t.drop_first(), b));
                assert(slot_lookup(s, b) == slot_lookup(s.drop_first(), b));
            }
        }
    }
}

/// Removing the entry at one index: every other lookup is unchanged.
proof fn lemma_table_remove(s: Seq<(Addr, PeerSlot)>, i: int)
    requires
        unique_addrs(s),
        0 <= i < s.len(),
    ensures
        unique_addrs(s.remove(i)),
        forall|b: Addr| #[trigger] slot_lookup(s.remove(i), b) == if b == s[i].0 {
            None
        } else {
            slot_lookup(s, b)
        },
    decreases i,
{
    let t = s.remove(i);
    assert forall|p: int, q: int| 0 <= p < q < t.len() implies t[p].0 != t[q].0 by {
        assert(t[p] == if p < i { s[p] } else { s[p + 1] });
        assert(t[q] == if q < i { s[q] } else { s[q + 1] });
    }
    lemma_unique_drop(s);
    if i == 0 {
        assert(t =~= s.drop_first());
        assert forall|j: int| 0 <= j < s.drop_first().len() implies s.drop_first()[j].0
            != s[0].0 by {
            assert(s.drop_first()[j] == s[j + 1]);
        }
        lemma_lookup_none(s.drop_first(), s[0].0);
        assert forall|b: Addr| #[trigger] slot_lookup(t, b) == if b == s[0].0 {
            None
        } else {
            slot_lookup(s, b)
        } by {
            if b != s[0].0 {
                assert(slot_lookup(s, b) == slot_lookup(s.drop_first(), b));
            }
        }
    } else {
        lemma_table_remove(s.drop_first(), i - 1);
        assert(s.drop_first()[i - 1] == s[i]);
        assert forall|b: Addr| #[trigger] slot_lookup(t, b) == if b == s[i].0 {
            None
        } else {
            slot_lookup(s, b)
        } by {
            assert(t[0] == s[0]);
            assert(t.drop_first() =~= s.drop_first().remove(i - 1));
            assert(slot_lookup(s.drop_first().remove(i - 1), b) == if b == s[i].0 {
                None
            } else {
                slot_lookup(s.drop_first(), b)
            });
            assert(s[0].0 != s[i].0);
            if s[0].0 == b {
                assert(slot_lookup(t, b) == Some(t[0].1));
                assert(slot_lookup(s, b) == Some(s[0].1));
            } else {
                assert(slot_lookup(t, b) == slot_lookup(t.drop_first(), b));
                assert(slot_lookup(s, b) == slot_lookup(s.drop_first(), b));
            }
        }
    }
}

/// A reactor that was coherent stays coherent when at most one peer's slot
/// changed, provided that peer also keeps its source if it stays.
proof fn lemma_coherent_update<C>(a: Reactor<C>, b: Reactor<C>, x: Addr)
    requires
        a.coherent(),
        forall|q: Addr| q != x ==> #[trigger] b.slot(q) == a.slot(q),
        b.is_peer(x) ==> b.has_source(x),
    ensures
        b.coherent(),
{
    assert forall|q: Addr| #[trigger] b.is_peer(q) implies b.has_source(q) by {
        if q != x {
            assert(b.slot(q) == a.slot(q));
            assert(a.is_peer(q));
        }
    }
}

/// A reactor that was coherent stays coherent when its peer table did not
/// change at all.
proof fn lemma_coherent_same<C>(a: Reactor<C>, b: Reactor<C>)
    requires
        a.coherent(),
        b.table() == a.table(),
    ensures
        b.coherent(),
{
    assert forall|q: Addr| #[trigger] b.is_peer(q) implies b.has_source(q) by {
        assert(a.is_peer(q));
    }
}

/// The waker-event decision: a pending shutdown message wins, and the loop
/// is told to return cleanly before any command is delivered; otherwise the
/// drained commands are handed to the protocol, in the order they were
/// received.
pub fn waker_step<C>(shutdown_pending: bool, commands: Vec<C>) -> (r: WakerStep<C>)
    ensures
        shutdown_pending ==> r is ShutDown,
        !shutdown_pending ==> r == WakerStep::Commands(commands),
{
    if shutdown_pending {
        WakerStep::ShutDown
    } else {
        WakerStep::Commands(commands)
    }
}

/// The reactor: the verified core of the event loop.
#[verifier::reject_recursive_types(C)]
pub struct Reactor<C> {
    peers: Vec<(Addr, PeerSlot)>,
    timeouts: TimeoutManager<()>,
    commands: crossbeam_channel::Receiver<C>,
    shutdown: crossbeam_channel::Receiver<()>,
    hist: Ghost<Seq<CallKind>>,
}

/// The two reactors hold the same peers, history and timers.
pub open spec fn same_state<C>(a: Reactor<C>, b: Reactor<C>) -> bool {
    &&& a.table() == b.table()
    &&& a.history() == b.history()
    &&& a.timer_entries() == b.timer_entries()
    &&& a.timer_gran() == b.timer_gran()
}

/// The two reactors agree on every peer but `x`, and on the timers.
pub open spec fn same_except<C>(a: Reactor<C>, b: Reactor<C>, x: Addr) -> bool {
    &&& forall|q: Addr| q != x ==> #[trigger] a.slot(q) == b.slot(q)
    &&& a.timer_entries() == b.timer_entries()
    &&& a.timer_gran() == b.timer_gran()
}

impl<C> Reactor<C> {
    /// The peer table: each registered address with its slot.
    pub closed spec fn table(self) -> Seq<(Addr, PeerSlot)> {
        self.peers@
    }

    /// Every protocol callback decided on so far, oldest first.
    pub closed spec fn history(self) -> Seq<CallKind> {
        self.hist@
    }

    /// The pending timer entries, earliest deadline first.
    pub closed spec fn timer_entries(self) -> Seq<((), u64)> {
        self.timeouts.entries()
    }

    /// The timer granularity, in milliseconds.
    pub closed spec fn timer_gran(self) -> u64 {
        self.timeouts.gran()
    }

    /// The slot registered for the address, if any.
    pub open spec fn slot(self, a: Addr) -> Option<PeerSlot> {
        slot_lookup(self.table(), a)
    }

    /// The address is a registered peer.
    pub open spec fn is_peer(self, a: Addr) -> bool {
        self.slot(a) is Some
    }

    /// The address has an outbound connect in flight.
    pub open spec fn is_connecting(self, a: Addr) -> bool {
        match self.slot(a) {
            Some(s) => s.connecting,
            None => false,
        }
    }

    /// The address is registered and still has its poll source.
    pub open spec fn has_source(self, a: Addr) -> bool {
        match self.slot(a) {
            Some(s) => s.source,
            None => false,
        }
    }

    /// The address is registered with its write-interest bit set.
    pub open spec fn write_interest(self, a: Addr) -> bool {
        match self.slot(a) {
            Some(s) => s.write_interest,
            None => false,
        }
    }

    /// The callback phase the peer ought to be in, read off the state.
    pub open spec fn state_phase(self, a: Addr) -> Phase {
        if self.is_connecting(a) {
            Phase::Dialing
        } else if self.is_peer(a) {
            Phase::Live
        } else {
            Phase::Idle
        }
    }

    /// Well-formedness: no duplicate peers, sorted timers, and — the causal
    /// ordering law — for every peer the recorded callbacks spell a legal
    /// word of the callback automaton, ending in the phase the current
    /// state shows.
    pub open spec fn wf(self) -> bool {
        &&& unique_addrs(self.table())
        &&& deadlines_sorted(self.timer_entries())
        &&& forall|a: Addr| #[trigger] phase_of(self.history(), a) == Some(self.state_phase(a))
    }

    /// Registration coherence: every registered peer still has its poll
    /// source. All reactor operations preserve this, except the removal of
    /// an invalid descriptor, which deliberately leaves the peer behind.
    pub open spec fn coherent(self) -> bool {
        forall|a: Addr| #[trigger] self.is_peer(a) ==> self.has_source(a)
    }

    /// A fresh reactor: no peers, no timers, nothing decided yet.
    pub fn new(
        granularity: u64,
        commands: crossbeam_channel::Receiver<C>,
        shutdown: crossbeam_channel::Receiver<()>,
    ) -> (r: Reactor<C>)
        ensures
            r.wf(),
            r.coherent(),
            r.table() == Seq::<(Addr, PeerSlot)>::empty(),
            r.history() == Seq::<CallKind>::empty(),
            r.timer_entries() == Seq::<((), u64)>::empty(),
            r.timer_gran() == granularity,
    {
        Reactor {
            peers: Vec::new(),
            timeouts: TimeoutManager::new(granularity),
            commands,
            shutdown,
            hist: Ghost(Seq::empty()),
        }
    }

    /// Find the peer's index in the table.
    fn find(&self, addr: Addr) -> (r: Option<usize>)
        requires
            unique_addrs(self.table()),
        ensures
            match r {
                Some(i) => i < self.table().len() && self.table()[i as int].0 == addr
                    && self.slot(addr) == Some(self.table()[i as int].1),
                None => self.slot(addr) is None,
            },
    {
        let mut i: usize = 0;
        while i < self.peers.len()
            invariant
                unique_addrs(self.table()),
                0 <= i <= self.table().len(),
                forall|j: int| 0 <= j < i ==> self.table()[j].0 != addr,
            decreases self.table().len() - i,
        {
            if self.peers[i].0 == addr {
                proof {
                    lemma_lookup_at(self.table(), i as int);
                }
                return Some(i);
            }
            i = i + 1;
        }
        proof {
            lemma_lookup_none(self.table(), addr);
        }
        None
    }

    /// Whether the address is a registered peer.
    pub fn has_peer(&self, addr: Addr) -> (r: bool)
        requires
            self.wf(),
        ensures
            r == self.is_peer(addr),
    {
        self.find(addr).is_some()
    }

    /// Whether the address has an outbound connect in flight.
    pub fn connecting(&self, addr: Addr) -> (r: bool)
        requires
            self.wf(),
        ensures
            r == self.is_connecting(addr),
    {
        match self.find(addr) {
            Some(i) => self.peers[i].1.connecting,
            None => false,
        }
    }

    /// Whether the peer's write-interest bit is set.
    pub fn wants_write(&self, addr: Addr) -> (r: bool)
        requires
            self.wf(),
        ensures
            r == self.write_interest(addr),
    {
        match self.find(addr) {
            Some(i) => self.peers[i].1.write_interest,
            None => false,
        }
    }

    /// The number of registered peers.
    pub fn peer_count(&self) -> (r: usize)
        ensures
            r == self.table().len(),
    {
        self.peers.len()
    }

    /// The number of pending timer entries.
    pub fn timer_count(&self) -> (r: usize)
        ensures
            r == self.timer_entries().len(),
    {
        self.timeouts.len()
    }

    /// The poll timeout for the next loop iteration: the time until the
    /// earliest deadline — floored by the granularity — or the idle ceiling
    /// if no timer is pending.
    pub fn poll_timeout(&self, now: u64) -> (r: u64)
        ensures
            r == if self.timer_entries().len() == 0 {
                WAIT_TIMEOUT_MS
            } else {
                max_ms(self.timer_gran(), sat_sub(self.timer_entries()[0].1, now))
            },
    {
        match self.timeouts.next(now) {
            Some(t) => t,
            None => WAIT_TIMEOUT_MS,
        }
    }

    /// The poll wait timed out: fire every timer whose deadline has come.
    /// Returns whether any fired, in which case the protocol's `wake()` is
    /// called — once for the whole wave; which timers fired is not
    /// reported.
    pub fn on_timed_out(&mut self, now: u64) -> (fired: bool)
        requires
            old(self).wf(),
        ensures
            final(self).wf(),
            old(self).coherent() ==> final(self).coherent(),
            final(self).table() == old(self).table(),
            final(self).history() == old(self).history(),
            final(self).timer_gran() == old(self).timer_gran(),
            final(self).timer_entries() == old(self).timer_entries().skip(
                num_expired(old(self).timer_entries(), now),
            ),
            forall|i: int| 0 <= i < final(self).timer_entries().len()
                ==> final(self).timer_entries()[i].1 > now,
            fired == (num_expired(old(self).timer_entries(), now) > 0),
    {
        let mut woken: Vec<()> = Vec::new();
        self.timeouts.wake(now, &mut woken);
        proof {
            crate::time::lemma_num_expired_bounds(old(self).timer_entries(), now);
            if old(self).coherent() {
                lemma_coherent_same(*old(self), *self);
            }
        }
        woken.len() > 0
    }

    /// A waker event: if a shutdown message is pending, the loop is told to
    /// return cleanly — commands left in the channel are dropped, as on
    /// shutdown everything is. Otherwise the commands pending at this
    /// moment are drained, to be fed to the protocol in order; a producer
    /// that sends later wakes the reactor again. What the two channels hold
    /// depends on the producing threads; given that, the decision is
    /// [`waker_step`], and the reactor's own state does not change.
    pub fn on_waker(&self) -> WakerStep<C> {
        let shutdown_pending = chan_try_recv(&self.shutdown).is_some();
        let mut cmds: Vec<C> = Vec::new();
        if !shutdown_pending {
            let pending = chan_len(&self.commands);
            let mut i: usize = 0;
            while i < pending
                decreases pending - i,
            {
                match chan_try_recv(&self.commands) {
                    Some(c) => cmds.push(c),
                    None => {
                        break;
                    },
                }
                i = i + 1;
            }
        }
        waker_step(shutdown_pending, cmds)
    }

    /// An inbound connection was accepted. The peer is registered with
    /// interest in both directions, and the protocol is told
    /// `connected(addr, local_addr, Inbound)`.
    pub fn accepted(&mut self, addr: Addr)
        requires
            old(self).wf(),
            !old(self).is_peer(addr),
        ensures
            final(self).wf(),
            old(self).coherent() ==> final(self).coherent(),
            same_except(*old(self), *final(self), addr),
            final(self).slot(addr) == Some(inbound_slot()),
            final(self).table().len() == old(self).table().len() + 1,
            final(self).history() == old(self).history().push(
                CallKind::Connected(addr, Link::Inbound),
            ),
    {
        let ghost oldt = self.peers@;
        let ghost oldh = self.hist@;
        self.peers.push(
            (addr, PeerSlot { link: Link::Inbound, connecting: false, source: true, write_interest: true }),
        );
        proof {
            self.hist@ = oldh.push(CallKind::Connected(addr, Link::Inbound));
            lemma_table_push(oldt, addr, inbound_slot());
            lemma_phase_push(oldh, CallKind::Connected(addr, Link::Inbound));
            if old(self).coherent() {
                lemma_coherent_update(*old(self), *self, addr);
            }
        }
    }

    /// A dial the reactor asked for succeeded: the stream is connecting.
    /// The peer is registered as in flight and the protocol is told
    /// `attempted(addr)`. A dial that raced an already registered address
    /// is ignored, since each address may be registered only once.
    pub fn dial_succeeded(&mut self, addr: Addr) -> (r: DialStep)
        requires
            old(self).wf(),
        ensures
            final(self).wf(),
            old(self).coherent() ==> final(self).coherent(),
            old(self).is_peer(addr) ==> r == DialStep::Ignored && same_state(
                *old(self),
                *final(self),
            ),
            !old(self).is_peer(addr) ==> {
                &&& r == DialStep::Started
                &&& same_except(*old(self), *final(self), addr)
                &&& final(self).slot(addr) == Some(outbound_slot())
                &&& final(self).history() == old(self).history().push(CallKind::Attempted(addr))
            },
    {
        let ghost oldt = self.peers@;
        let ghost oldh = self.hist@;
        if self.has_peer(addr) {
            DialStep::Ignored
        } else {
            self.peers.push(
                (addr, PeerSlot { link: Link::Outbound, connecting: true, source: true, write_interest: true }),
            );
            proof {
                self.hist@ = oldh.push(CallKind::Attempted(addr));
                lemma_table_push(oldt, addr, outbound_slot());
                lemma_phase_push(oldh, CallKind::Attempted(addr));
                if old(self).coherent() {
                    lemma_coherent_update(*old(self), *self, addr);
                }
            }
            DialStep::Started
        }
    }

    /// A dial the reactor asked for failed. `AlreadyExists` means the
    /// attempt is in flight on another socket and is ignored; any other
    /// error is reported to the protocol as `disconnected(addr,
    /// PeerConnectionError(err))` — the peer was never registered. An error
    /// that races an already registered address is ignored rather than
    /// reported, so the protocol's view of that peer stays intact.
    pub fn dial_failed(&mut self, addr: Addr, err: IoErrorKind) -> (r: DialStep)
        requires
            old(self).wf(),
        ensures
            final(self).wf(),
            old(self).coherent() ==> final(self).coherent(),
            final(self).table() == old(self).table(),
            final(self).timer_entries() == old(self).timer_entries(),
            final(self).timer_gran() == old(self).timer_gran(),
            err == IoErrorKind::AlreadyExists || old(self).is_peer(addr) ==> r
                == DialStep::Ignored && final(self).history() == old(self).history(),
            err != IoErrorKind::AlreadyExists && !old(self).is_peer(addr) ==> r
                == DialStep::Refused && final(self).history() == old(self).history().push(
                CallKind::Disconnected(addr),
            ),
    {
        let ghost oldh = self.hist@;
        if matches!(err, IoErrorKind::AlreadyExists) {
            DialStep::Ignored
        } else if self.has_peer(addr) {
            DialStep::Ignored
        } else {
            proof {
                self.hist@ = oldh.push(CallKind::Disconnected(addr));
                lemma_phase_push(oldh, CallKind::Disconnected(addr));
                if old(self).coherent() {
                    lemma_coherent_same(*old(self), *self);
                }
            }
            DialStep::Refused
        }
    }

    /// A peer socket reported writable. If the peer was connecting, its
    /// non-blocking connect just completed: the in-flight flag is cleared
    /// and the protocol must be told `connected(addr, local_addr,
    /// Outbound)` before anything else. Either way the protocol is then
    /// asked to write; the outcome comes back through
    /// [`Reactor::on_write_outcome`]. A peer no longer registered — a
    /// concurrent event in the same wave may have dropped it — is skipped.
    pub fn on_writable(&mut self, addr: Addr) -> (r: WritableStep)
        requires
            old(self).wf(),
        ensures
            final(self).wf(),
            old(self).coherent() ==> final(self).coherent(),
            !old(self).is_peer(addr) ==> r == WritableStep::Stale && same_state(
                *old(self),
                *final(self),
            ),
            old(self).is_peer(addr) ==> {
                &&& r == (WritableStep::Proceed {
                    newly_connected: old(self).is_connecting(addr),
                })
                &&& same_except(*old(self), *final(self), addr)
                &&& final(self).slot(addr) == match old(self).slot(addr) {
                    Some(s) => Some(settled(s)),
                    None => None,
                }
                &&& final(self).history() == if old(self).is_connecting(addr) {
                    old(self).history().push(CallKind::Connected(addr, Link::Outbound))
                } else {
                    old(self).history()
                }
            },
    {
        let ghost oldt = self.peers@;
        let ghost oldh = self.hist@;
        match self.find(addr) {
            None => WritableStep::Stale,
            Some(i) => {
                let s = self.peers[i].1;
                if s.connecting {
                    self.peers[i] = (addr, PeerSlot { connecting: false, ..s });
                    proof {
                        self.hist@ = oldh.push(CallKind::Connected(addr, Link::Outbound));
                        lemma_table_update(oldt, i as int, settled(s));
                        lemma_phase_push(oldh, CallKind::Connected(addr, Link::Outbound));
                        if old(self).coherent() {
                            assert(old(self).is_peer(addr));
                            lemma_coherent_update(*old(self), *self, addr);
                        }
                    }
                    WritableStep::Proceed { newly_connected: true }
                } else {
                    WritableStep::Proceed { newly_connected: false }
                }
            },
        }
    }

    /// The protocol wrote into the peer's socket; this is the outcome. A
    /// full drain clears the peer's write interest; `WouldBlock` or
    /// `WriteZero` — a partial drain — keeps it set, so the next writable
    /// readiness resumes the drain. Any other error drops the peer: the
    /// socket is shut down, the peer unregistered, and the protocol told
    /// `disconnected(addr, PeerConnectionError(err))`.
    pub fn on_write_outcome<D>(&mut self, addr: Addr, outcome: WriteOutcome) -> (r: WriteStep<D>)
        requires
            old(self).wf(),
        ensures
            final(self).wf(),
            final(self).timer_entries() == old(self).timer_entries(),
            final(self).timer_gran() == old(self).timer_gran(),
            !old(self).is_peer(addr) ==> r is Stale && same_state(*old(self), *final(self)),
            old(self).is_peer(addr) && final(self).is_peer(addr)
                ==> final(self).write_interest(addr) == crate::io::write_interest_step(
                outcome,
                old(self).write_interest(addr),
            ),
            old(self).is_peer(addr) ==> same_except(*old(self), *final(self), addr)
                && match outcome {
                WriteOutcome::Done => {
                    &&& r is Cleared
                    &&& !final(self).write_interest(addr)
                    &&& final(self).is_peer(addr)
                    &&& final(self).history() == old(self).history()
                },
                WriteOutcome::Failed(err) => if err == IoErrorKind::WouldBlock || err
                    == IoErrorKind::WriteZero {
                    &&& r is Pending
                    &&& final(self).write_interest(addr)
                    &&& final(self).is_peer(addr)
                    &&& final(self).history() == old(self).history()
                } else {
                    &&& r == WriteStep::<D>::Dropped(DisconnectReason::PeerConnectionError(err))
                    &&& !final(self).is_peer(addr)
                    &&& final(self).history() == old(self).history().push(
                        CallKind::Disconnected(addr),
                    )
                },
            },
            old(self).coherent() ==> final(self).coherent(),
    {
        let ghost oldt = self.peers@;
        let ghost oldh = self.hist@;
        match self.find(addr) {
            None => WriteStep::Stale,
            Some(i) => {
                let s = self.peers[i].1;
                match outcome {
                    WriteOutcome::Done => {
                        self.peers[i] = (addr, PeerSlot { write_interest: false, ..s });
                        proof {
                            lemma_table_update(oldt, i as int, with_write(s, false));
                            if old(self).coherent() {
                                assert(old(self).is_peer(addr));
                                lemma_coherent_update(*old(self), *self, addr);
                            }
                        }
                        WriteStep::Cleared
                    },
                    WriteOutcome::Failed(err) => {
                        if matches!(err, IoErrorKind::WouldBlock | IoErrorKind::WriteZero) {
                            self.peers[i] = (addr, PeerSlot { write_interest: true, ..s });
                            proof {
                                lemma_table_update(oldt, i as int, with_write(s, true));
                                if old(self).coherent() {
                                    assert(old(self).is_peer(addr));
                                    lemma_coherent_update(*old(self), *self, addr);
                                }
                            }
                            WriteStep::Pending
                        } else {
                            self.peers.remove(i);
                            proof {
                                self.hist@ = oldh.push(CallKind::Disconnected(addr));
                                lemma_table_remove(oldt, i as int);
                                lemma_phase_push(oldh, CallKind::Disconnected(addr));
                                if old(self).coherent() {
                                    lemma_coherent_update(*old(self), *self, addr);
                                }
                            }
                            WriteStep::Dropped(DisconnectReason::PeerConnectionError(err))
                        }
                    },
                }
            },
        }
    }

    /// A peer socket reported readable and one non-blocking read was made;
    /// this is the outcome. Bytes are delivered to the protocol via
    /// `received_bytes` — never an empty slice. A zero-byte read is the
    /// peer's orderly shutdown, any error but `WouldBlock` a failure:
    /// either way the peer is dropped and the protocol told `disconnected`
    /// with the fitting reason. `WouldBlock` is a tolerated spurious
    /// wakeup. A peer no longer registered is skipped.
    ///
    /// Bytes cannot arrive before the connect completed, so a writable
    /// event settling the connection is always handled first.
    pub fn on_readable<D>(&mut self, addr: Addr, outcome: ReadOutcome) -> (r: ReadStep<D>)
        requires
            old(self).wf(),
            match outcome {
                ReadOutcome::Data(n) => n > 0 ==> !old(self).is_connecting(addr),
                ReadOutcome::Failed(_) => true,
            },
        ensures
            final(self).wf(),
            final(self).timer_entries() == old(self).timer_entries(),
            final(self).timer_gran() == old(self).timer_gran(),
            !old(self).is_peer(addr) ==> r is Stale && same_state(*old(self), *final(self)),
            old(self).is_peer(addr) ==> same_except(*old(self), *final(self), addr)
                && match outcome {
                ReadOutcome::Data(n) => if n > 0 {
                    &&& r == ReadStep::<D>::Deliver(n)
                    &&& final(self).slot(addr) == old(self).slot(addr)
                    &&& final(self).history() == old(self).history().push(
                        CallKind::Received(addr),
                    )
                } else {
                    &&& r == ReadStep::<D>::Dropped(DisconnectReason::PeerDisconnected)
                    &&& !final(self).is_peer(addr)
                    &&& final(self).history() == old(self).history().push(
                        CallKind::Disconnected(addr),
                    )
                },
                ReadOutcome::Failed(err) => if err == IoErrorKind::WouldBlock {
                    &&& r is Nothing
                    &&& same_state(*old(self), *final(self))
                } else {
                    &&& r == ReadStep::<D>::Dropped(DisconnectReason::PeerConnectionError(err))
                    &&& !final(self).is_peer(addr)
                    &&& final(self).history() == old(self).history().push(
                        CallKind::Disconnected(addr),
                    )
                },
            },
            old(self).coherent() ==> final(self).coherent(),
    {
        let ghost oldt = self.peers@;
        let ghost oldh = self.hist@;
        match self.find(addr) {
            None => ReadStep::Stale,
            Some(i) => {
                match outcome {
                    ReadOutcome::Data(n) => {
                        if n > 0 {
                            proof {
                                self.hist@ = oldh.push(CallKind::Received(addr));
                                lemma_phase_push(oldh, CallKind::Received(addr));
                                if old(self).coherent() {
                                    lemma_coherent_same(*old(self), *self);
                                }
                            }
                            ReadStep::Deliver(n)
                        } else {
                            self.peers.remove(i);
                            proof {
                                self.hist@ = oldh.push(CallKind::Disconnected(addr));
                                lemma_table_remove(oldt, i as int);
                                lemma_phase_push(oldh, CallKind::Disconnected(addr));
                                if old(self).coherent() {
                                    lemma_coherent_update(*old(self), *self, addr);
                                }
                            }
                            ReadStep::Dropped(DisconnectReason::PeerDisconnected)
                        }
                    },
                    ReadOutcome::Failed(err) => {
                        if matches!(err, IoErrorKind::WouldBlock) {
                            ReadStep::Nothing
                        } else {
                            self.peers.remove(i);
                            proof {
                                self.hist@ = oldh.push(CallKind::Disconnected(addr));
                                lemma_table_remove(oldt, i as int);
                                lemma_phase_push(oldh, CallKind::Disconnected(addr));
                                if old(self).coherent() {
                                    lemma_coherent_update(*old(self), *self, addr);
                                }
                            }
                            ReadStep::Dropped(DisconnectReason::PeerConnectionError(err))
                        }
                    },
                }
            },
        }
    }

    /// A poll event flagged the peer's descriptor invalid: the registration
    /// drifted (a missed unregister, or a duplicate source). The poll
    /// source is dropped; the peer table is deliberately left alone. This
    /// is the one operation that trades registration coherence away, and
    /// it answers a bug worth logging.
    pub fn on_invalid(&mut self, addr: Addr)
        requires
            old(self).wf(),
        ensures
            final(self).wf(),
            final(self).history() == old(self).history(),
            final(self).timer_entries() == old(self).timer_entries(),
            final(self).timer_gran() == old(self).timer_gran(),
            same_except(*old(self), *final(self), addr),
            final(self).slot(addr) == match old(self).slot(addr) {
                Some(s) => Some(sourceless(s)),
                None => None,
            },
    {
        let ghost oldt = self.peers@;
        match self.find(addr) {
            None => {},
            Some(i) => {
                let s = self.peers[i].1;
                self.peers[i] = (addr, PeerSlot { source: false, ..s });
                proof {
                    lemma_table_update(oldt, i as int, sourceless(s));
                }
            },
        }
    }

    /// Enact one intent the protocol emitted, at the current time. Each
    /// intent is enacted exactly once, in emission order:
    ///
    /// - `Write(a)` raises the peer's write interest — data moves only when
    ///   the socket next reports writable;
    /// - `Connect(a)` asks the embedding program to dial;
    /// - `Disconnect(a, reason)` drops a registered peer and reports
    ///   `disconnected(a, reason)`; for an unknown or already removed
    ///   address it is a no-op, and no callback is issued;
    /// - `Wakeup(d)` schedules a timer at `now + d`, saturating;
    /// - `Event(e)` hands the event to the publisher.
    pub fn process_intent<E, D>(&mut self, intent: Io<E, D>, now: u64) -> (r: IntentStep<E, D>)
        requires
            old(self).wf(),
            old(self).timer_entries().len() < usize::MAX,
        ensures
            final(self).wf(),
            old(self).coherent() ==> final(self).coherent(),
            match intent {
                Io::Write(a) => {
                    &&& final(self).history() == old(self).history()
                    &&& final(self).timer_entries() == old(self).timer_entries()
                    &&& final(self).timer_gran() == old(self).timer_gran()
                    &&& if old(self).has_source(a) {
                        &&& r is SetWrite
                        &&& r == IntentStep::<E, D>::SetWrite(a)
                        &&& same_except(*old(self), *final(self), a)
                        &&& final(self).slot(a) == match old(self).slot(a) {
                            Some(s) => Some(with_write(s, true)),
                            None => None,
                        }
                    } else {
                        &&& r is Ignored
                        &&& same_state(*old(self), *final(self))
                    }
                },
                Io::Connect(a) => r == IntentStep::<E, D>::RequestDial(a) && same_state(
                    *old(self),
                    *final(self),
                ),
                Io::Disconnect(a, reason) => {
                    &&& final(self).timer_entries() == old(self).timer_entries()
                    &&& final(self).timer_gran() == old(self).timer_gran()
                    &&& if old(self).is_peer(a) {
                        &&& r == IntentStep::<E, D>::Dropped(a, reason)
                        &&& same_except(*old(self), *final(self), a)
                        &&& !final(self).is_peer(a)
                        &&& final(self).history() == old(self).history().push(
                            CallKind::Disconnected(a),
                        )
                    } else {
                        &&& r is Ignored
                        &&& same_state(*old(self), *final(self))
                    }
                },
                Io::Wakeup(d) => {
                    &&& r is Scheduled
                    &&& final(self).table() == old(self).table()
                    &&& final(self).history() == old(self).history()
                    &&& final(self).timer_gran() == old(self).timer_gran()
                    &&& final(self).timer_entries() == insert_sorted(
                        old(self).timer_entries(),
                        (),
                        sat_add(now, d),
                    )
                },
                Io::Event(e) => r == IntentStep::<E, D>::Publish(e) && same_state(
                    *old(self),
                    *final(self),
                ),
            },
    {
        let ghost oldt = self.peers@;
        let ghost oldh = self.hist@;
        match intent {
            Io::Write(a) => {
                match self.find(a) {
                    Some(i) => {
                        let s = self.peers[i].1;
                        if s.source {
                            self.peers[i] = (a, PeerSlot { write_interest: true, ..s });
                            proof {
                                lemma_table_update(oldt, i as int, with_write(s, true));
                                if old(self).coherent() {
                                    assert(old(self).is_peer(a));
                                    lemma_coherent_update(*old(self), *self, a);
                                }
                            }
                            IntentStep::SetWrite(a)
                        } else {
                            IntentStep::Ignored
                        }
                    },
                    None => IntentStep::Ignored,
                }
            },
            Io::Connect(a) => IntentStep::RequestDial(a),
            Io::Disconnect(a, reason) => {
                match self.find(a) {
                    Some(i) => {
                        self.peers.remove(i);
                        proof {
                            self.hist@ = oldh.push(CallKind::Disconnected(a));
                            lemma_table_remove(oldt, i as int);
                            lemma_phase_push(oldh, CallKind::Disconnected(a));
                            if old(self).coherent() {
                                lemma_coherent_update(*old(self), *self, a);
                            }
                        }
                        IntentStep::Dropped(a, reason)
                    },
                    None => IntentStep::Ignored,
                }
            },
            Io::Wakeup(d) => {
                let deadline = if now <= u64::MAX - d {
                    now + d
                } else {
                    u64::MAX
                };
                self.timeouts.register((), deadline);
                proof {
                    if old(self).coherent() {
                        lemma_coherent_same(*old(self), *self);
                    }
                }
                IntentStep::Scheduled
            },
            Io::Event(e) => IntentStep::Publish(e),
        }
    }

    /// Causal ordering: for every peer, the callbacks issued so far parse
    /// under the callback automaton — `attempted` only from idle,
    /// `connected` completing a dial or opening an inbound episode,
    /// `received` only while live, `disconnected` closing the episode —
    /// and the parse ends in the phase the reactor's tables show now.
    pub proof fn lemma_causal_ordering(self, a: Addr)
        requires
            self.wf(),
        ensures
            phase_of(self.history(), a) == Some(self.state_phase(a)),
    {
    }

    /// Single disconnect: for every peer, the `disconnected` callbacks
    /// issued so far — plus one if the peer is registered right now —
    /// exactly balance the dials attempted, the inbound connections
    /// established and the dials that failed synchronously.
    pub proof fn lemma_single_disconnect_holds(self, a: Addr)
        requires
            self.wf(),
        ensures
            crate::history::count_disconnected(self.history(), a) + if self.is_peer(a) {
                1nat
            } else {
                0nat
            } == crate::history::count_attempted(self.history(), a)
                + crate::history::count_connected(self.history(), a, Link::Inbound)
                + crate::history::count_failed_dials(self.history(), a),
    {
        crate::history::lemma_single_disconnect(self.history(), a);
    }

    /// No double connect: for every peer, `connected(a, .., Outbound)` was
    /// issued at most once per `attempted(a)`, a dial still in flight
    /// counting as the pending use of its `attempted`.
    pub proof fn lemma_no_double_connect_holds(self, a: Addr)
        requires
            self.wf(),
        ensures
            crate::history::count_connected(self.history(), a, Link::Outbound) + if self
                .is_connecting(a) {
                1nat
            } else {
                0nat
            } <= crate::history::count_attempted(self.history(), a),
    {
        crate::history::lemma_no_double_connect(self.history(), a);
    }

    /// Attempted precedes connected: every outbound `connected` in the
    /// history is preceded by an `attempted` for the same peer.
    pub proof fn lemma_attempt_precedes_connect_holds(self, a: Addr, j: int)
        requires
            self.wf(),
            0 <= j < self.history().len(),
            self.history()[j] == CallKind::Connected(a, Link::Outbound),
        ensures
            exists|i: int| 0 <= i < j && self.history()[i] == CallKind::Attempted(a),
    {
        crate::history::lemma_attempt_precedes_connect(self.history(), a, j);
    }
}

} // verus!
