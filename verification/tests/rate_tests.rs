use mouse_poll_rate_tester::rate::PollRate;

#[test]
fn rate_order_is_exact() {
    let a = PollRate { intervals: 1, micros: 3 };
    let b = PollRate { intervals: 333_333, micros: 1_000_000 };
    assert!(b.is_below(&a));
    assert!(!a.is_below(&b));
    let c = PollRate { intervals: 2, micros: 6 };
    assert!(!a.is_below(&c));
    assert!(!c.is_below(&a));
}

#[test]
fn rate_thresholds() {
    let r = PollRate { intervals: 9, micros: 10_000 }; // 900 Hz exactly
    assert!(r.reaches(900));
    assert!(!r.reaches(901));
    assert!(PollRate::zero().reaches(0));
    assert!(!PollRate::zero().reaches(1));
    assert!(!PollRate::zero().is_positive());
    assert!(r.is_positive());
}

#[test]
fn extreme_rates_do_not_overflow() {
    let big = PollRate { intervals: u64::MAX, micros: 1 };
    let small = PollRate { intervals: 1, micros: u64::MAX };
    assert!(small.is_below(&big));
    assert!(big.reaches(u64::MAX));
    assert!(!small.reaches(1));
}
