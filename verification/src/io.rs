//! The values that cross the reactor's boundary: protocol intents, outcome
//! reports from the operating system, and the reactor's decisions.

use vstd::prelude::*;

use crate::addr::Addr;

verus! {

/// The kind of an I/O error, as the reactor's logic distinguishes them.
///
/// The embedding program translates the operating system's error kinds into
/// this type; kinds the reactor does not branch on are folded into `Other`.
#[derive(Clone, Copy, PartialEq, Eq, Structural, Debug)]
pub enum IoErrorKind {
    WouldBlock,
    WriteZero,
    AlreadyExists,
    TimedOut,
    ConnectionRefused,
    ConnectionReset,
    NotConnected,
    UnexpectedEof,
    Other,
}

/// Why a peer was disconnected.
#[derive(Debug)]
pub enum DisconnectReason<T> {
    /// The peer performed an orderly shutdown.
    PeerDisconnected,
    /// The underlying connection failed.
    PeerConnectionError(IoErrorKind),
    /// The protocol decided to disconnect, for its own reason.
    Protocol(T),
}

/// An intent emitted by the protocol state machine: an I/O action the
/// reactor is asked to perform. `E` is the protocol's event type, `D` its
/// disconnect-reason type.
#[derive(Debug)]
pub enum Io<E, D> {
    /// Bytes are queued for the peer: raise its write interest.
    Write(Addr),
    /// Open an outbound connection to the peer.
    Connect(Addr),
    /// Close and unregister the peer.
    Disconnect(Addr, DisconnectReason<D>),
    /// Ask for a wakeup after the given number of milliseconds.
    Wakeup(u64),
    /// Publish an event to subscribers.
    Event(E),
}

/// What one non-blocking read returned, reported by the embedding program.
#[derive(Clone, Copy, PartialEq, Eq, Structural, Debug)]
pub enum ReadOutcome {
    /// The read returned this many bytes; zero means orderly peer shutdown.
    Data(usize),
    /// The read failed with this error kind.
    Failed(IoErrorKind),
}

/// What one `write` call into the protocol's per-peer buffer returned.
#[derive(Clone, Copy, PartialEq, Eq, Structural, Debug)]
pub enum WriteOutcome {
    /// The buffer was fully drained.
    Done,
    /// The write failed with this error kind; `WouldBlock` and `WriteZero`
    /// mean a partial drain, anything else is fatal for the peer.
    Failed(IoErrorKind),
}

/// Whether a write error means a partial drain rather than a failure.
pub open spec fn partial_write(err: IoErrorKind) -> bool {
    err == IoErrorKind::WouldBlock || err == IoErrorKind::WriteZero
}

/// The peer's write-interest bit after one write outcome, as long as the
/// peer stays registered: a full drain clears it, a partial drain sets it.
pub open spec fn write_interest_step(outcome: WriteOutcome, cur: bool) -> bool {
    match outcome {
        WriteOutcome::Done => false,
        WriteOutcome::Failed(err) => if partial_write(err) {
            true
        } else {
            cur
        },
    }
}

/// The peer's write-interest bit after a run of write outcomes.
pub open spec fn write_interest_after(outs: Seq<WriteOutcome>, init: bool) -> bool
    decreases outs.len(),
{
    if outs.len() == 0 {
        init
    } else {
        write_interest_step(outs.last(), write_interest_after(outs.drop_last(), init))
    }
}

/// Backpressure: however many partial drains come in a row, the peer's
/// write interest stays set; one full drain clears it.
pub proof fn lemma_backpressure(outs: Seq<WriteOutcome>, init: bool)
    ensures
        (outs.len() > 0 && forall|i: int|
            0 <= i < outs.len() ==> ((#[trigger] outs[i]) matches WriteOutcome::Failed(e)
                && partial_write(e))) ==> write_interest_after(outs, init),
        (outs.len() > 0 && outs.last() == WriteOutcome::Done) ==> !write_interest_after(
            outs,
            init,
        ),
    decreases outs.len(),
{
    if outs.len() > 0 {
        lemma_backpressure(outs.drop_last(), init);
        assert(outs[outs.len() - 1] == outs.last());
        assert forall|i: int| 0 <= i < outs.drop_last().len() implies outs.drop_last()[i]
            == outs[i] by {}
    }
}

/// The reactor's decision for a readable peer event.
#[derive(Debug)]
pub enum ReadStep<D> {
    /// The peer is no longer registered: ignore the event.
    Stale,
    /// Nothing to do (a spurious wakeup).
    Nothing,
    /// Deliver the first `count` bytes read to the protocol via
    /// `received_bytes`; `count` is never zero.
    Deliver(usize),
    /// The peer was unregistered: shut the socket down and tell the
    /// protocol `disconnected` with this reason.
    Dropped(DisconnectReason<D>),
}

/// The reactor's decision after the protocol wrote into a peer's socket.
#[derive(Debug)]
pub enum WriteStep<D> {
    /// The peer is no longer registered: ignore the event.
    Stale,
    /// All queued bytes left: write interest was cleared; mirror that to
    /// the poll registry.
    Cleared,
    /// The drain was partial: write interest stays set.
    Pending,
    /// The peer was unregistered: shut the socket down and tell the
    /// protocol `disconnected` with this reason.
    Dropped(DisconnectReason<D>),
}

/// The reactor's decision on a writable peer event, before the protocol is
/// asked to write.
#[derive(Clone, Copy, PartialEq, Eq, Structural, Debug)]
pub enum WritableStep {
    /// The peer is no longer registered: ignore the event.
    Stale,
    /// Ask the protocol to write. If `newly_connected` is set, a
    /// non-blocking connect just completed: tell the protocol
    /// `connected(addr, local_addr, Outbound)` first.
    Proceed { newly_connected: bool },
}

/// How the reactor enacted one protocol intent.
#[derive(Debug)]
pub enum IntentStep<E, D> {
    /// Nothing to do (the peer was unknown, or the work was internal).
    Ignored,
    /// A wakeup was scheduled on the timer wheel.
    Scheduled,
    /// Raise write interest for the peer in the poll registry.
    SetWrite(Addr),
    /// Dial the peer, non-blocking, and report the outcome back through
    /// `dial_succeeded` or `dial_failed`.
    RequestDial(Addr),
    /// The peer was unregistered: shut the socket down and tell the
    /// protocol `disconnected` with this reason.
    Dropped(Addr, DisconnectReason<D>),
    /// Hand the event to the publisher.
    Publish(E),
}

/// The reactor's decision after a dial outcome was reported.
#[derive(Clone, Copy, PartialEq, Eq, Structural, Debug)]
pub enum DialStep {
    /// The peer was registered as connecting: tell the protocol
    /// `attempted(addr)`.
    Started,
    /// The dial failed: tell the protocol `disconnected(addr,
    /// PeerConnectionError(..))`. The peer was never registered.
    Refused,
    /// Nothing to do: the attempt was already in flight, or the address is
    /// already registered.
    Ignored,
}

/// The reactor's decision on a waker event.
#[derive(Debug)]
pub enum WakerStep<C> {
    /// A shutdown was requested: the event loop returns cleanly.
    ShutDown,
    /// Feed these commands to the protocol, in order.
    Commands(Vec<C>),
}

} // verus!
