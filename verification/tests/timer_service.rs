//! Tests for the timer multiplexer, driven by the simulated clock.

use kata_core::timer_service::{FakeTimer, HardwareTimer, KataTimerService, TimerServiceError};

fn fresh() -> KataTimerService<FakeTimer> {
    KataTimerService::new(FakeTimer::new())
}

#[test]
fn test_timer_ordering_drain_all() {
    let mut mux = fresh();
    // Three distinct (client, timer) pairs with durations 30, 10, 20 ms.
    assert_eq!(mux.add(1, 0, 30, false), Ok(()));
    assert_eq!(mux.timer.armed_alarm(), Some(30));
    assert_eq!(mux.add(1, 1, 10, false), Ok(()));
    assert_eq!(mux.timer.armed_alarm(), Some(10));
    assert_eq!(mux.add(2, 2, 20, false), Ok(()));
    assert_eq!(mux.timer.armed_alarm(), Some(10));

    mux.timer.advance_to(35);
    assert!(mux.timer.irq_pending());
    let fired = mux.service_interrupt();
    // Completions come in deadline order: 10 ms, 20 ms, 30 ms.
    assert_eq!(fired, vec![1, 2, 1]);
    assert!(!mux.timer.irq_pending());
    assert_eq!(mux.completed_timers(1), (1 << 1) | (1 << 0));
    assert_eq!(mux.completed_timers(2), 1 << 2);
}

#[test]
fn test_timer_ordering_incremental() {
    let mut mux = fresh();
    assert_eq!(mux.add(1, 0, 30, false), Ok(()));
    assert_eq!(mux.add(1, 1, 10, false), Ok(()));
    assert_eq!(mux.add(2, 2, 20, false), Ok(()));

    mux.timer.advance_to(12);
    assert_eq!(mux.service_interrupt(), vec![1]);
    // The alarm always reflects the soonest remaining deadline.
    assert_eq!(mux.timer.armed_alarm(), Some(20));
    assert_eq!(mux.completed_timers(1), 1 << 1);

    mux.timer.advance_to(22);
    assert_eq!(mux.service_interrupt(), vec![2]);
    assert_eq!(mux.timer.armed_alarm(), Some(30));
    assert_eq!(mux.completed_timers(2), 1 << 2);

    mux.timer.advance_to(31);
    assert_eq!(mux.service_interrupt(), vec![1]);
    assert_eq!(mux.completed_timers(1), 1 << 0);
}

#[test]
fn test_timer_due_exactly_now_fires() {
    let mut mux = fresh();
    assert_eq!(mux.add(1, 4, 10, false), Ok(()));
    mux.timer.advance_to(10);
    // A timer due exactly now fires in this interrupt, not the next.
    assert_eq!(mux.service_interrupt(), vec![1]);
    assert_eq!(mux.completed_timers(1), 1 << 4);
}

#[test]
fn test_timer_colliding_deadlines_keep_insertion_order() {
    let mut mux = fresh();
    assert_eq!(mux.add(1, 0, 10, false), Ok(()));
    assert_eq!(mux.add(2, 1, 10, false), Ok(()));
    mux.timer.advance_to(10);
    // Neither event is lost; ties fire in insertion order.
    assert_eq!(mux.service_interrupt(), vec![1, 2]);
    assert_eq!(mux.completed_timers(1), 1 << 0);
    assert_eq!(mux.completed_timers(2), 1 << 1);
}

#[test]
fn test_periodic_rearm() {
    let mut mux = fresh();
    assert_eq!(mux.add(1, 3, 5, true), Ok(()));
    assert_eq!(mux.timer.armed_alarm(), Some(5));

    mux.timer.advance_to(5);
    let fired = mux.service_interrupt();
    assert_eq!(fired, vec![1]);
    // After firing at t=5 the timer is pending again at t=10, with no
    // new add call: the alarm is armed for it.
    assert_eq!(mux.timer.armed_alarm(), Some(10));
    assert_eq!(mux.completed_timers(1), 1 << 3);

    mux.timer.advance_to(10);
    assert_eq!(mux.service_interrupt(), vec![1]);
    assert_eq!(mux.timer.armed_alarm(), Some(15));
    assert_eq!(mux.completed_timers(1), 1 << 3);

    // Still pending: it can be cancelled.
    assert_eq!(mux.cancel(1, 3), Ok(()));
    assert_eq!(mux.cancel(1, 3), Err(TimerServiceError::NoSuchTimer));
}

#[test]
fn test_oneshot_not_rearmed() {
    let mut mux = fresh();
    assert_eq!(mux.add(1, 2, 5, false), Ok(()));
    mux.timer.advance_to(5);
    assert_eq!(mux.service_interrupt(), vec![1]);
    // A one-shot timer is gone after it fires.
    assert_eq!(mux.cancel(1, 2), Err(TimerServiceError::NoSuchTimer));
    mux.timer.advance_to(20);
    assert_eq!(mux.service_interrupt(), Vec::<usize>::new());
    assert_eq!(mux.completed_timers(1), 1 << 2);
}

#[test]
fn test_completed_read_and_clear() {
    let mut mux = fresh();
    assert_eq!(mux.add(2, 7, 3, false), Ok(()));
    mux.timer.advance_to(4);
    mux.service_interrupt();
    // Read-and-clear: the full bitmask the first time, zero the second.
    assert_eq!(mux.completed_timers(2), 1 << 7);
    assert_eq!(mux.completed_timers(2), 0);
    // The other client's mask is untouched.
    assert_eq!(mux.completed_timers(1), 0);
}

#[test]
fn test_duplicate_rejected_until_cancelled() {
    let mut mux = fresh();
    assert_eq!(mux.add(1, 0, 10, false), Ok(()));
    assert_eq!(mux.add(1, 0, 99, true), Err(TimerServiceError::TimerAlreadyExists));
    // Another timer id or another client is fine.
    assert_eq!(mux.add(1, 1, 10, false), Ok(()));
    assert_eq!(mux.add(2, 0, 10, false), Ok(()));
    // After cancel the pair can be armed again.
    assert_eq!(mux.cancel(1, 0), Ok(()));
    assert_eq!(mux.add(1, 0, 7, false), Ok(()));
}

#[test]
fn test_duplicate_rejected_before_firing() {
    let mut mux = fresh();
    assert_eq!(mux.add(1, 5, 8, false), Ok(()));
    assert_eq!(mux.add(1, 5, 8, false), Err(TimerServiceError::TimerAlreadyExists));
    mux.timer.advance_to(8);
    mux.service_interrupt();
    // Once fired, the pair is free again.
    assert_eq!(mux.add(1, 5, 8, false), Ok(()));
}

#[test]
fn test_cancel_unknown() {
    let mut mux = fresh();
    assert_eq!(mux.cancel(1, 5), Err(TimerServiceError::NoSuchTimer));
    assert_eq!(mux.add(1, 5, 10, false), Ok(()));
    assert_eq!(mux.cancel(2, 5), Err(TimerServiceError::NoSuchTimer));
    assert_eq!(mux.cancel(1, 6), Err(TimerServiceError::NoSuchTimer));
    assert_eq!(mux.cancel(1, 5), Ok(()));
}

#[test]
fn test_interrupt_with_nothing_due() {
    let mut mux = fresh();
    assert_eq!(mux.add(1, 0, 10, false), Ok(()));
    mux.timer.advance_to(9);
    assert_eq!(mux.service_interrupt(), Vec::<usize>::new());
    assert_eq!(mux.completed_timers(1), 0);
    // The alarm still covers the pending timer.
    assert_eq!(mux.timer.armed_alarm(), Some(10));
}

#[test]
fn test_init_sets_up_the_device() {
    let mut mux = fresh();
    mux.timer.advance_to(42);
    mux.init();
    assert_eq!(mux.timer.now(), 0);
    assert_eq!(mux.timer.armed_alarm(), None);
    assert!(!mux.timer.irq_pending());
}

#[test]
fn test_fake_timer_deadline_arithmetic() {
    let mut timer = FakeTimer::new();
    assert_eq!(timer.deadline(25), 25);
    timer.advance_to(100);
    assert_eq!(timer.deadline(25), 125);
    assert_eq!(timer.now(), 100);
    timer.advance_to(u64::MAX);
    // The deadline saturates at the top of the counter domain.
    assert_eq!(timer.deadline(1), u64::MAX);
}
