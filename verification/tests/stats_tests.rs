use mouse_poll_rate_tester::rate::PollRate;
use mouse_poll_rate_tester::stats::PollRateStats;

fn rate(intervals: u64, micros: u64) -> PollRate {
    PollRate { intervals, micros }
}

#[test]
fn new_stats_are_empty() {
    let s = PollRateStats::new();
    assert!(s.event_times().is_empty());
    assert_eq!(s.current_poll_rate(), PollRate::zero());
    assert_eq!(s.max_poll_rate(), PollRate::zero());
    assert_eq!(s.min_poll_rate(), None);
    assert_eq!(s.total_events(), 0);
}

#[test]
fn single_event_measures_nothing() {
    let mut s = PollRateStats::new();
    assert_eq!(s.add_event(2_000_000, 2_000_000), None);
    assert_eq!(s.event_times(), &[2_000_000]);
    assert_eq!(s.current_poll_rate(), PollRate::zero());
    assert_eq!(s.total_events(), 1);
}

#[test]
fn two_events_a_millisecond_apart_measure_one_kilohertz() {
    let mut s = PollRateStats::new();
    s.add_event(2_000_000, 2_000_000);
    let r = s.add_event(2_001_000, 2_001_000);
    assert_eq!(r, Some(rate(1, 1000)));
    assert_eq!(s.current_poll_rate(), rate(1, 1000));
    assert_eq!(s.max_poll_rate(), rate(1, 1000));
    assert_eq!(s.min_poll_rate(), Some(rate(1, 1000)));
}

#[test]
fn ten_events_at_one_kilohertz() {
    let mut s = PollRateStats::new();
    let mut last = None;
    for i in 0..10u64 {
        let t = 5_000_000 + i * 1000;
        last = s.add_event(t, t);
    }
    assert_eq!(last, Some(rate(9, 9000)));
    assert_eq!(s.total_events(), 10);
    assert_eq!(s.event_times().len(), 10);
}

#[test]
fn events_a_second_old_fall_out_of_the_window() {
    let mut s = PollRateStats::new();
    s.add_event(2_000_000, 2_000_000);
    s.add_event(2_500_000, 2_500_000);
    // Exactly one second after the first event: the first is dropped.
    let r = s.add_event(3_000_000, 3_000_000);
    assert_eq!(s.event_times(), &[2_500_000, 3_000_000]);
    assert_eq!(r, Some(rate(1, 500_000)));
    let r = s.add_event(4_600_000, 4_600_000);
    assert_eq!(s.event_times(), &[4_600_000]);
    assert_eq!(r, None);
    // The last measured rate stays current when nothing new is measured.
    assert_eq!(s.current_poll_rate(), rate(1, 500_000));
    assert_eq!(s.total_events(), 4);
}

#[test]
fn event_at_clock_zero_is_not_kept() {
    let mut s = PollRateStats::new();
    s.add_event(0, 0);
    assert!(s.event_times().is_empty());
    assert_eq!(s.total_events(), 1);
}

#[test]
fn early_clock_keeps_everything_after_zero() {
    let mut s = PollRateStats::new();
    s.add_event(10, 10);
    let r = s.add_event(500_010, 500_010);
    assert_eq!(s.event_times(), &[10, 500_010]);
    assert_eq!(r, Some(rate(1, 500_000)));
}

#[test]
fn simultaneous_events_measure_nothing() {
    let mut s = PollRateStats::new();
    s.add_event(2_000_000, 2_000_000);
    let r = s.add_event(2_000_000, 2_000_000);
    assert_eq!(r, None);
    assert_eq!(s.event_times(), &[2_000_000, 2_000_000]);
    assert_eq!(s.max_poll_rate(), PollRate::zero());
}

#[test]
fn measuring_later_uses_only_the_last_second() {
    let mut s = PollRateStats::new();
    s.add_event(2_000_000, 2_000_000);
    s.add_event(2_001_000, 2_001_000);
    s.add_event(2_900_000, 2_900_000);
    // Measured at 3.0005 s only the events after 2.0005 s count.
    let r = s.recalculate(3_000_500);
    assert_eq!(r, Some(rate(1, 899_000)));
    assert_eq!(s.event_times(), &[2_000_000, 2_001_000, 2_900_000]);
    // Much later nothing is left to measure and nothing changes.
    let before_max = s.max_poll_rate();
    assert_eq!(s.recalculate(10_000_000), None);
    assert_eq!(s.current_poll_rate(), rate(1, 899_000));
    assert_eq!(s.max_poll_rate(), before_max);
    assert_eq!(s.total_events(), 3);
}

#[test]
fn highest_and_lowest_rates_are_kept() {
    let mut s = PollRateStats::new();
    s.add_event(2_000_000, 2_000_000);
    s.add_event(2_002_000, 2_002_000); // 500 Hz
    assert_eq!(s.max_poll_rate(), rate(1, 2000));
    assert_eq!(s.min_poll_rate(), Some(rate(1, 2000)));
    s.add_event(2_003_000, 2_003_000); // 2 over 3000: 666.7 Hz
    assert_eq!(s.max_poll_rate(), rate(2, 3000));
    assert_eq!(s.min_poll_rate(), Some(rate(1, 2000)));
    s.add_event(2_013_000, 2_013_000); // 3 over 13000: 230.8 Hz
    assert_eq!(s.current_poll_rate(), rate(3, 13000));
    assert_eq!(s.max_poll_rate(), rate(2, 3000));
    assert_eq!(s.min_poll_rate(), Some(rate(3, 13000)));
}

#[test]
fn equal_rate_keeps_the_earlier_extremes() {
    let mut s = PollRateStats::new();
    s.add_event(2_000_000, 2_000_000);
    s.add_event(2_001_000, 2_001_000); // 1 over 1000
    s.add_event(2_002_000, 2_002_000); // 2 over 2000, the same rate
    assert_eq!(s.current_poll_rate(), rate(2, 2000));
    assert_eq!(s.max_poll_rate(), rate(1, 1000));
    assert_eq!(s.min_poll_rate(), Some(rate(1, 1000)));
}

#[test]
fn measuring_twice_at_one_instant_is_stable() {
    let mut s = PollRateStats::new();
    s.add_event(2_000_000, 2_000_000);
    s.add_event(2_004_000, 2_004_000);
    s.add_event(2_005_000, 2_005_000);
    let first = s.recalculate(2_005_000);
    let (cur, max, min) = (s.current_poll_rate(), s.max_poll_rate(), s.min_poll_rate());
    let second = s.recalculate(2_005_000);
    assert_eq!(first, second);
    assert_eq!(s.current_poll_rate(), cur);
    assert_eq!(s.max_poll_rate(), max);
    assert_eq!(s.min_poll_rate(), min);
}

#[test]
fn lowest_rate_never_exceeds_highest() {
    let mut s = PollRateStats::new();
    let times = [1_000_000u64, 1_001_000, 1_004_000, 1_004_500, 1_020_000, 1_020_100];
    for t in times {
        s.add_event(t, t);
        if let Some(m) = s.min_poll_rate() {
            assert!(!s.max_poll_rate().is_below(&m));
        }
    }
    assert_eq!(s.total_events(), 6);
}

#[test]
fn out_of_order_events_are_accepted_while_they_can_be_measured() {
    let mut s = PollRateStats::new();
    s.add_event(3_000_000, 3_000_000);
    // Measured right away the window would run backwards.
    assert!(!s.accepts_event(1_000_000, 1_000_000));
    // Measured much later nothing is in the window, so the event is fine.
    assert!(s.accepts_event(1_000_000, 10_000_000));
    assert_eq!(s.add_event(1_000_000, 10_000_000), None);
    assert_eq!(s.event_times(), &[3_000_000, 1_000_000]);
    assert!(!s.can_measure(1_500_000));
    assert!(s.can_measure(3_000_000));
    assert!(s.can_measure(10_000_000));
    assert!(s.accepts_event(3_500_000, 3_500_000));
}

#[test]
fn every_event_is_counted_and_the_window_keeps_recent_ones() {
    let mut s = PollRateStats::new();
    for k in 1..=3000u64 {
        let t = 1_000_000 + k * 500;
        s.add_event(t, t);
        assert_eq!(s.total_events(), k);
        assert_eq!(*s.event_times().last().unwrap(), t);
        assert!(s.event_times().iter().all(|&x| x > t - 1_000_000 && x <= t));
    }
    // Every 500 microseconds for a second: 1999 earlier events stay.
    assert_eq!(s.event_times().len(), 2000);
    assert_eq!(s.current_poll_rate(), rate(1999, 999_500));
}
