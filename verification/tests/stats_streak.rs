use mbell::stats::Stats;

const D1: i64 = 19_700;

#[test]
fn first_ever_ring_starts_the_streak() {
    let mut s = Stats::default();
    s.record_bell(1_000, D1);
    assert_eq!(s.total_bells, 1);
    assert_eq!(s.days_active, 1);
    assert_eq!(s.current_streak, 1);
    assert_eq!(s.longest_streak, 1);
    assert_eq!(s.last_ring, Some(1_000));
    assert_eq!(s.last_active_date, Some(D1));
}

#[test]
fn streak_scenario_same_day_next_day_then_gap() {
    let mut s = Stats::default();
    s.record_bell(1_000, D1);
    assert_eq!((s.current_streak, s.days_active), (1, 1));

    // A further ring the same day leaves streak and active days unchanged.
    s.record_bell(2_000, D1);
    assert_eq!((s.current_streak, s.days_active), (1, 1));
    assert_eq!(s.total_bells, 2);

    // The next day extends the streak.
    s.record_bell(3_000, D1 + 1);
    assert_eq!((s.current_streak, s.days_active), (2, 2));
    assert_eq!(s.longest_streak, 2);

    // A gap restarts the streak but still counts the day.
    s.record_bell(4_000, D1 + 5);
    assert_eq!((s.current_streak, s.days_active), (1, 3));
    // The longest streak never decreases.
    assert_eq!(s.longest_streak, 2);
}

#[test]
fn longest_streak_never_decreases_across_a_sequence() {
    let mut s = Stats::default();
    let days = [D1, D1 + 1, D1 + 2, D1 + 9, D1 + 10, D1 + 20];
    let mut best = 0;
    for (i, day) in days.iter().enumerate() {
        s.record_bell(i as i64, *day);
        assert!(s.longest_streak >= best);
        best = s.longest_streak;
        assert!(s.current_streak <= s.longest_streak);
    }
    assert_eq!(s.longest_streak, 3);
    assert_eq!(s.current_streak, 1);
    assert_eq!(s.days_active, 6);
    assert_eq!(s.total_bells, 6);
}

#[test]
fn out_of_order_date_restarts_the_streak() {
    let mut s = Stats::default();
    s.record_bell(1_000, D1);
    s.record_bell(2_000, D1 + 1);
    assert_eq!(s.current_streak, 2);
    // A ring dated before the last activity counts as a broken streak.
    s.record_bell(3_000, D1 - 3);
    assert_eq!(s.current_streak, 1);
    assert_eq!(s.days_active, 3);
    assert_eq!(s.longest_streak, 2);
}

#[test]
fn reset_clears_the_record() {
    let mut s = Stats::default();
    s.record_bell(1_000, D1);
    s.record_bell(2_000, D1 + 1);
    s.reset();
    assert_eq!(s, Stats::default());
    assert_eq!(s.total_bells, 0);
    assert_eq!(s.last_ring, None);
    assert_eq!(s.last_active_date, None);
}
