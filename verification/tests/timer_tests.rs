use nakamoto_net_poll::time::{TimeoutManager, WAIT_TIMEOUT_MS};

#[test]
fn next_is_empty_on_fresh_queue() {
    let tm: TimeoutManager<u32> = TimeoutManager::new(0);
    assert_eq!(tm.next(0), None);
    assert_eq!(tm.len(), 0);
}

#[test]
fn next_counts_down_and_saturates() {
    let mut tm: TimeoutManager<u32> = TimeoutManager::new(0);
    tm.register(7, 150);
    assert_eq!(tm.next(0), Some(150));
    assert_eq!(tm.next(100), Some(50));
    assert_eq!(tm.next(150), Some(0));
    assert_eq!(tm.next(9_000), Some(0));
}

#[test]
fn next_is_floored_by_granularity() {
    let mut tm: TimeoutManager<u32> = TimeoutManager::new(1_000);
    tm.register(1, 150);
    assert_eq!(tm.next(0), Some(1_000));
    tm.register(2, 5_000);
    assert_eq!(tm.next(0), Some(1_000));
    // The head entry is due, so the wait stays at the granularity floor.
    assert_eq!(tm.next(3_000), Some(1_000));
    let mut woken: Vec<u32> = Vec::new();
    tm.wake(3_000, &mut woken);
    assert_eq!(woken, vec![1]);
    assert_eq!(tm.next(3_000), Some(2_000));
}

#[test]
fn wake_fires_in_deadline_order_and_only_when_due() {
    let mut tm: TimeoutManager<u32> = TimeoutManager::new(0);
    tm.register(3, 300);
    tm.register(1, 100);
    tm.register(2, 200);
    let mut woken: Vec<u32> = Vec::new();
    tm.wake(99, &mut woken);
    assert!(woken.is_empty());
    tm.wake(200, &mut woken);
    assert_eq!(woken, vec![1, 2]);
    assert_eq!(tm.len(), 1);
    tm.wake(10_000, &mut woken);
    assert_eq!(woken, vec![1, 2, 3]);
    assert_eq!(tm.len(), 0);
}

#[test]
fn equal_deadlines_fire_in_registration_order() {
    let mut tm: TimeoutManager<u32> = TimeoutManager::new(0);
    tm.register(10, 500);
    tm.register(11, 500);
    tm.register(12, 400);
    let mut woken: Vec<u32> = Vec::new();
    tm.wake(500, &mut woken);
    assert_eq!(woken, vec![12, 10, 11]);
}

#[test]
fn same_key_fires_once_per_registration() {
    let mut tm: TimeoutManager<u8> = TimeoutManager::new(0);
    tm.register(1, 100);
    tm.register(1, 200);
    let mut woken: Vec<u8> = Vec::new();
    tm.wake(100, &mut woken);
    assert_eq!(woken, vec![1]);
    assert_eq!(tm.len(), 1);
}

#[test]
fn wait_timeout_ceiling_is_one_hour() {
    assert_eq!(WAIT_TIMEOUT_MS, 60 * 60 * 1_000);
}
