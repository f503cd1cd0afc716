use env_worker::handoff::{Handoff, Turn};

/// A simulated two-party run: through startup, the initial snapshot, many
/// request/response cycles and shutdown, at no point do both sides report
/// the payload region writable.
#[test]
fn single_writer_through_full_run() {
    let mut h = Handoff::startup();
    let mut observed_both = false;
    let mut check = |h: &Handoff, both: &mut bool| {
        if h.coordinator_writable_now() && h.worker_writable_now() {
            *both = true;
        }
    };

    // Worker writes the initial reset snapshot, then announces it.
    check(&h, &mut observed_both);
    assert!(h.worker_writable_now());
    assert!(!h.coordinator_writable_now());
    h.worker_notify();
    check(&h, &mut observed_both);
    h.coordinator_receive();
    check(&h, &mut observed_both);

    // Many request/response cycles.
    for _ in 0..100 {
        assert!(h.coordinator_writable_now());
        assert!(!h.worker_writable_now());
        h.coordinator_signal();
        check(&h, &mut observed_both);
        assert!(!h.coordinator_writable_now());
        assert!(!h.worker_writable_now());
        h.worker_wake();
        check(&h, &mut observed_both);
        assert!(h.worker_writable_now());
        assert!(!h.coordinator_writable_now());
        h.worker_notify();
        check(&h, &mut observed_both);
        h.coordinator_receive();
        check(&h, &mut observed_both);
    }

    assert!(!observed_both);
    assert_eq!(h.turn, Turn::CoordinatorWriting);
}

/// While the event or the ready byte is in flight, neither side owns the
/// region.
#[test]
fn nobody_writes_in_flight() {
    let mut h = Handoff::startup();
    h.worker_notify();
    assert!(!h.worker_writable_now());
    assert!(!h.coordinator_writable_now());
    h.coordinator_receive();
    h.coordinator_signal();
    assert!(!h.worker_writable_now());
    assert!(!h.coordinator_writable_now());
}
