use nakamoto_net_poll::addr::Addr;
use nakamoto_net_poll::io::{
    DialStep, DisconnectReason, IntentStep, Io, IoErrorKind, ReadOutcome, ReadStep, WakerStep,
    WritableStep, WriteOutcome, WriteStep,
};
use nakamoto_net_poll::reactor::{waker_step, Reactor};

type Event = u32;
type Reason = u32;
type Intent = Io<Event, Reason>;

fn addr(n: u16) -> Addr {
    Addr { ip: 0x7f_00_00_01, ipv6: false, port: n }
}

fn reactor() -> Reactor<u64> {
    let (_cmd_tx, cmd_rx) = crossbeam_channel::unbounded::<u64>();
    let (_shut_tx, shut_rx) = crossbeam_channel::unbounded::<()>();
    Reactor::new(1_000, cmd_rx, shut_rx)
}

#[test]
fn outbound_dial_to_unreachable() {
    // A connect intent asks for a dial; the dial is refused synchronously.
    // The only protocol call is `disconnected`, and the peer table stays
    // empty.
    let mut r = reactor();
    let a = addr(8333);
    let step = r.process_intent::<Event, Reason>(Io::Connect(a), 0);
    assert!(matches!(step, IntentStep::RequestDial(d) if d == a));
    let d = r.dial_failed(a, IoErrorKind::ConnectionRefused);
    assert_eq!(d, DialStep::Refused);
    assert_eq!(r.peer_count(), 0);
    assert!(!r.has_peer(a));
}

#[test]
fn dial_already_in_flight_is_ignored() {
    let mut r = reactor();
    let a = addr(8333);
    assert_eq!(r.dial_failed(a, IoErrorKind::AlreadyExists), DialStep::Ignored);
    assert_eq!(r.peer_count(), 0);
}

#[test]
fn inbound_then_orderly_close() {
    // An accepted client that immediately half-closes: `connected` then,
    // on the zero-byte read, `disconnected(PeerDisconnected)`.
    let mut r = reactor();
    let client = addr(50001);
    r.accepted(client);
    assert!(r.has_peer(client));
    assert!(!r.connecting(client));
    let step = r.on_readable::<Reason>(client, ReadOutcome::Data(0));
    assert!(matches!(step, ReadStep::Dropped(DisconnectReason::PeerDisconnected)));
    assert_eq!(r.peer_count(), 0);
}

#[test]
fn outbound_connect_completes_on_writable() {
    let mut r = reactor();
    let a = addr(9000);
    assert_eq!(r.dial_succeeded(a), DialStep::Started);
    assert!(r.connecting(a));
    // First writable readiness: the non-blocking connect completed.
    let step = r.on_writable(a);
    assert_eq!(step, WritableStep::Proceed { newly_connected: true });
    assert!(!r.connecting(a));
    // A later writable event does not announce the connection again.
    let step = r.on_writable(a);
    assert_eq!(step, WritableStep::Proceed { newly_connected: false });
}

#[test]
fn dial_success_for_registered_address_is_ignored() {
    let mut r = reactor();
    let a = addr(9000);
    r.accepted(a);
    assert_eq!(r.dial_succeeded(a), DialStep::Ignored);
    assert_eq!(r.peer_count(), 1);
}

#[test]
fn partial_write_keeps_interest_until_drained() {
    // A write intent raises interest; the drain blocks part-way, so the
    // interest stays; one full drain clears it. No disconnects.
    let mut r = reactor();
    let a = addr(7000);
    r.accepted(a);
    let step = r.process_intent::<Event, Reason>(Io::Write(a), 0);
    assert!(matches!(step, IntentStep::SetWrite(w) if w == a));
    assert!(r.wants_write(a));
    assert_eq!(r.on_writable(a), WritableStep::Proceed { newly_connected: false });
    let step = r.on_write_outcome::<Reason>(a, WriteOutcome::Failed(IoErrorKind::WouldBlock));
    assert!(matches!(step, WriteStep::Pending));
    assert!(r.wants_write(a));
    assert_eq!(r.on_writable(a), WritableStep::Proceed { newly_connected: false });
    let step = r.on_write_outcome::<Reason>(a, WriteOutcome::Done);
    assert!(matches!(step, WriteStep::Cleared));
    assert!(!r.wants_write(a));
    assert_eq!(r.peer_count(), 1);
}

#[test]
fn repeated_would_block_keeps_interest_set() {
    let mut r = reactor();
    let a = addr(7001);
    r.accepted(a);
    r.process_intent::<Event, Reason>(Io::Write(a), 0);
    for _ in 0..5 {
        let step = r.on_write_outcome::<Reason>(a, WriteOutcome::Failed(IoErrorKind::WouldBlock));
        assert!(matches!(step, WriteStep::Pending));
        assert!(r.wants_write(a));
    }
    let step = r.on_write_outcome::<Reason>(a, WriteOutcome::Failed(IoErrorKind::WriteZero));
    assert!(matches!(step, WriteStep::Pending));
    assert!(r.wants_write(a));
    let step = r.on_write_outcome::<Reason>(a, WriteOutcome::Done);
    assert!(matches!(step, WriteStep::Cleared));
    assert!(!r.wants_write(a));
}

#[test]
fn fatal_write_error_drops_the_peer() {
    let mut r = reactor();
    let a = addr(7002);
    r.accepted(a);
    let step = r.on_write_outcome::<Reason>(a, WriteOutcome::Failed(IoErrorKind::ConnectionReset));
    assert!(matches!(
        step,
        WriteStep::Dropped(DisconnectReason::PeerConnectionError(IoErrorKind::ConnectionReset))
    ));
    assert_eq!(r.peer_count(), 0);
}

#[test]
fn fatal_read_error_drops_the_peer() {
    let mut r = reactor();
    let a = addr(7003);
    r.accepted(a);
    let step = r.on_readable::<Reason>(a, ReadOutcome::Failed(IoErrorKind::ConnectionReset));
    assert!(matches!(
        step,
        ReadStep::Dropped(DisconnectReason::PeerConnectionError(IoErrorKind::ConnectionReset))
    ));
    assert_eq!(r.peer_count(), 0);
}

#[test]
fn read_would_block_is_tolerated() {
    let mut r = reactor();
    let a = addr(7004);
    r.accepted(a);
    let step = r.on_readable::<Reason>(a, ReadOutcome::Failed(IoErrorKind::WouldBlock));
    assert!(matches!(step, ReadStep::Nothing));
    assert!(r.has_peer(a));
}

#[test]
fn received_bytes_are_delivered_in_order() {
    let mut r = reactor();
    let a = addr(7005);
    r.accepted(a);
    assert!(matches!(r.on_readable::<Reason>(a, ReadOutcome::Data(192)), ReadStep::Deliver(192)));
    assert!(matches!(r.on_readable::<Reason>(a, ReadOutcome::Data(8)), ReadStep::Deliver(8)));
    assert!(r.has_peer(a));
}

#[test]
fn stale_events_are_skipped() {
    let mut r = reactor();
    let a = addr(7006);
    assert_eq!(r.on_writable(a), WritableStep::Stale);
    assert!(matches!(r.on_readable::<Reason>(a, ReadOutcome::Data(10)), ReadStep::Stale));
    assert!(matches!(r.on_write_outcome::<Reason>(a, WriteOutcome::Done), WriteStep::Stale));
}

#[test]
fn disconnect_intent_is_idempotent() {
    // Disconnecting an unknown or already removed peer is a no-op and
    // never reports `disconnected` again.
    let mut r = reactor();
    let a = addr(7007);
    r.accepted(a);
    let step =
        r.process_intent::<Event, Reason>(Io::Disconnect(a, DisconnectReason::Protocol(1)), 0);
    assert!(matches!(step, IntentStep::Dropped(d, DisconnectReason::Protocol(1)) if d == a));
    assert_eq!(r.peer_count(), 0);
    let step =
        r.process_intent::<Event, Reason>(Io::Disconnect(a, DisconnectReason::Protocol(1)), 0);
    assert!(matches!(step, IntentStep::Ignored));
    let step = r.process_intent::<Event, Reason>(
        Io::Disconnect(addr(9999), DisconnectReason::PeerDisconnected),
        0,
    );
    assert!(matches!(step, IntentStep::Ignored));
}

#[test]
fn write_intent_for_unknown_peer_is_ignored() {
    let mut r = reactor();
    let step = r.process_intent::<Event, Reason>(Io::Write(addr(1)), 0);
    assert!(matches!(step, IntentStep::Ignored));
}

#[test]
fn event_intents_are_published() {
    let mut r = reactor();
    let step = r.process_intent::<Event, Reason>(Io::Event(77), 0);
    assert!(matches!(step, IntentStep::Publish(77)));
}

#[test]
fn invalid_descriptor_drops_only_the_source() {
    // The poll registration goes; the peer table is deliberately left
    // alone, and later write intents find no source to set.
    let mut r = reactor();
    let a = addr(7008);
    r.accepted(a);
    r.on_invalid(a);
    assert!(r.has_peer(a));
    let step = r.process_intent::<Event, Reason>(Io::Write(a), 0);
    assert!(matches!(step, IntentStep::Ignored));
}

#[test]
fn timer_coalescing() {
    // Two wakeups 20ms apart with a 121ms granularity collapse into one
    // wave: one poll timeout inside [100, 121], one wake, nothing left.
    let (_c, cmd_rx) = crossbeam_channel::unbounded::<u64>();
    let (_s, shut_rx) = crossbeam_channel::unbounded::<()>();
    let mut r: Reactor<u64> = Reactor::new(121, cmd_rx, shut_rx);
    assert!(matches!(r.process_intent::<Event, Reason>(Io::Wakeup(100), 0), IntentStep::Scheduled));
    assert!(matches!(r.process_intent::<Event, Reason>(Io::Wakeup(120), 0), IntentStep::Scheduled));
    assert_eq!(r.timer_count(), 2);
    let timeout = r.poll_timeout(0);
    assert!(100 <= timeout && timeout <= 121);
    let woke = r.on_timed_out(timeout);
    assert!(woke);
    assert_eq!(r.timer_count(), 0);
    assert!(!r.on_timed_out(timeout));
}

#[test]
fn timers_never_fire_early() {
    let mut r = reactor();
    assert!(matches!(
        r.process_intent::<Event, Reason>(Io::Wakeup(500), 1_000),
        IntentStep::Scheduled
    ));
    assert!(!r.on_timed_out(1_499));
    assert_eq!(r.timer_count(), 1);
    assert!(r.on_timed_out(1_500));
    assert_eq!(r.timer_count(), 0);
}

#[test]
fn idle_poll_uses_the_ceiling() {
    let r = reactor();
    assert_eq!(r.poll_timeout(12345), nakamoto_net_poll::time::WAIT_TIMEOUT_MS);
}

#[test]
fn command_wake() {
    // A producer sends a command and wakes the reactor: the next waker
    // event hands the command over.
    let (cmd_tx, cmd_rx) = crossbeam_channel::unbounded::<u64>();
    let (_shut_tx, shut_rx) = crossbeam_channel::unbounded::<()>();
    let r: Reactor<u64> = Reactor::new(1_000, cmd_rx, shut_rx);
    cmd_tx.send(42).unwrap();
    match r.on_waker() {
        WakerStep::Commands(cmds) => assert_eq!(cmds, vec![42]),
        WakerStep::ShutDown => panic!("no shutdown was requested"),
    }
    match r.on_waker() {
        WakerStep::Commands(cmds) => assert!(cmds.is_empty()),
        WakerStep::ShutDown => panic!("no shutdown was requested"),
    }
}

#[test]
fn shutdown_wins_over_pending_commands() {
    // A shutdown message makes the loop return cleanly before any further
    // protocol call; peers stay registered.
    let (cmd_tx, cmd_rx) = crossbeam_channel::unbounded::<u64>();
    let (shut_tx, shut_rx) = crossbeam_channel::unbounded::<()>();
    let mut r: Reactor<u64> = Reactor::new(1_000, cmd_rx, shut_rx);
    r.accepted(addr(1));
    cmd_tx.send(7).unwrap();
    shut_tx.send(()).unwrap();
    assert!(matches!(r.on_waker(), WakerStep::ShutDown));
    assert_eq!(r.peer_count(), 1);
}

#[test]
fn waker_decision_hands_commands_over_in_order() {
    match waker_step::<u64>(false, vec![1, 2, 3]) {
        WakerStep::Commands(cmds) => assert_eq!(cmds, vec![1, 2, 3]),
        WakerStep::ShutDown => panic!("no shutdown was pending"),
    }
}

#[test]
fn waker_decision_lets_shutdown_win() {
    assert!(matches!(waker_step::<u64>(true, vec![7, 8]), WakerStep::ShutDown));
}
