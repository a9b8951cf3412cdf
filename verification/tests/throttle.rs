use pluriview::throttle::ThrottleGate;

#[test]
fn first_frame_always_accepted() {
    let mut gate = ThrottleGate::new(30);
    assert!(gate.observe(123_456));
}

#[test]
fn frames_inside_interval_rejected() {
    // At 30 frames per second the interval is 33333 microseconds; a second
    // callback 10 milliseconds after the accepted one is dropped.
    let mut gate = ThrottleGate::new(30);
    assert!(gate.observe(1_000));
    assert!(!gate.observe(11_000));
    assert!(!gate.observe(21_000));
}

#[test]
fn frame_after_full_interval_accepted() {
    let mut gate = ThrottleGate::new(30);
    assert!(gate.observe(1_000));
    assert!(!gate.observe(11_000));
    assert!(gate.observe(34_333));
    assert!(!gate.observe(44_000));
}

#[test]
fn rejection_keeps_reference_point() {
    // Rejected callbacks do no rate accounting: acceptance is still measured
    // from the last accepted frame, not from the last callback.
    let mut gate = ThrottleGate::new(30);
    assert!(gate.observe(0));
    assert!(!gate.observe(33_332));
    assert!(gate.observe(33_333));
}

#[test]
fn one_hertz_interval() {
    let mut gate = ThrottleGate::new(1);
    assert!(gate.observe(0));
    assert!(!gate.observe(999_999));
    assert!(gate.observe(1_000_000));
}
