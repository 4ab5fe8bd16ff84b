use iso8601_duration::{Duration, Magnitude, Quantity, Span};

fn whole(n: u32) -> Magnitude {
    Magnitude::from_whole(n)
}

fn parts(billionths: u64) -> Magnitude {
    Magnitude { billionths }
}

fn dur(y: u32, mo: u32, d: u32, h: u32, mi: u32, s: u32) -> Duration {
    Duration::new(whole(y), whole(mo), whole(d), whole(h), whole(mi), whole(s))
}

fn q(billionths: u128) -> Option<Quantity> {
    Some(Quantity { billionths })
}

fn as_f64(x: Option<Quantity>) -> f64 {
    x.unwrap().billionths as f64 / 1e9
}

#[test]
fn new_keeps_the_six_magnitudes() {
    let d = Duration::new(whole(1), whole(2), whole(3), whole(4), whole(5), parts(6_500_000_000));
    assert_eq!(d.year, whole(1));
    assert_eq!(d.month, whole(2));
    assert_eq!(d.day, whole(3));
    assert_eq!(d.hour, whole(4));
    assert_eq!(d.minute, whole(5));
    assert_eq!(d.second.billionths, 6_500_000_000);
}

#[test]
fn magnitudes_split_into_whole_and_fraction() {
    let m = parts(12_345_678_901);
    assert_eq!(m.whole(), 12);
    assert_eq!(m.fraction(), 345_678_901);
    assert!(Magnitude::zero().is_zero());
    assert!(!m.is_zero());
    assert_eq!(Magnitude::from_whole(u32::MAX).billionths, 4_294_967_295_000_000_000);
    let x = Quantity { billionths: 7_000_000_001 };
    assert_eq!(x.whole(), 7);
    assert_eq!(x.fraction(), 1);
}

#[test]
fn unit_mismatch_gives_nothing() {
    let d = dur(1, 0, 0, 0, 0, 30);
    assert_eq!(d.num_days(), None);
    assert_eq!(d.num_years(), None);
    assert_eq!(d.num_seconds(), None);
    assert_eq!(d.num_months(), None);
    assert_eq!(d.num_weeks(), None);
    assert_eq!(d.num_hours(), None);
    assert_eq!(d.num_minutes(), None);
    assert_eq!(d.to_std(), None);
    assert_eq!(d.to_chrono(), None);
}

#[test]
fn years_and_months_measure_the_calendar_part() {
    let d = dur(2, 6, 0, 0, 0, 0);
    assert_eq!(d.num_years(), q(2_500_000_000));
    assert_eq!(d.num_months(), q(30_000_000_000));
    assert_eq!(as_f64(d.num_years()), 2.5);
    assert_eq!(as_f64(d.num_months()), 30.0);
}

#[test]
fn a_twelfth_is_rounded_down_to_a_billionth() {
    let d = dur(0, 1, 0, 0, 0, 0);
    assert_eq!(d.num_years(), q(83_333_333));
    assert_eq!(dur(0, 4, 0, 0, 0, 0).num_years(), q(333_333_333));
}

#[test]
fn days_are_left_out_of_years_and_months() {
    let d = dur(1, 1, 20, 0, 0, 0);
    assert_eq!(d.num_months(), q(13_000_000_000));
    assert_eq!(d.num_years(), q(1_083_333_333));
    assert_eq!(d.num_days(), None);
}

#[test]
fn a_time_component_leaves_years_undefined() {
    assert_eq!(dur(1, 0, 0, 1, 0, 0).num_years(), None);
    assert_eq!(dur(1, 0, 0, 0, 1, 0).num_months(), None);
    assert_eq!(dur(0, 0, 0, 0, 0, 1).num_years(), None);
    assert_eq!(dur(0, 0, 5, 0, 0, 0).num_years(), q(0));
}

#[test]
fn a_calendar_component_leaves_fixed_units_undefined() {
    assert_eq!(dur(0, 1, 0, 0, 0, 0).num_days(), None);
    assert_eq!(dur(1, 0, 0, 0, 0, 0).num_hours(), None);
    assert_eq!(dur(0, 1, 1, 0, 0, 0).num_seconds(), None);
}

#[test]
fn fixed_units_are_weighted_sums() {
    let d = dur(0, 0, 1, 2, 3, 4);
    assert_eq!(d.num_seconds(), q(93_784_000_000_000));
    assert_eq!(d.num_minutes(), q(1_563_066_666_666));
    assert_eq!(d.num_hours(), q(26_051_111_111));
    assert_eq!(d.num_days(), q(1_085_462_962));
    assert_eq!(d.num_weeks(), q(155_066_137));
    assert_eq!(as_f64(d.num_seconds()), 93784.0);
}

#[test]
fn whole_units_convert_exactly() {
    let d = dur(0, 0, 14, 0, 0, 0);
    assert_eq!(d.num_weeks(), q(2_000_000_000));
    assert_eq!(d.num_days(), q(14_000_000_000));
    assert_eq!(d.num_hours(), q(336_000_000_000));
    assert_eq!(d.num_minutes(), q(20_160_000_000_000));
    assert_eq!(d.num_seconds(), q(1_209_600_000_000_000));
}

#[test]
fn the_zero_duration_measures_zero() {
    let d = dur(0, 0, 0, 0, 0, 0);
    assert_eq!(d.num_years(), q(0));
    assert_eq!(d.num_months(), q(0));
    assert_eq!(d.num_weeks(), q(0));
    assert_eq!(d.num_seconds(), q(0));
    assert_eq!(d.to_std(), Some(Span { seconds: 0, nanos: 0 }));
}

#[test]
fn the_largest_magnitudes_do_not_overflow() {
    let top = parts(u64::MAX);
    let d = Duration::new(top, top, top, top, top, top);
    assert_eq!(d.num_years(), None);
    let fixed = Duration::new(parts(0), parts(0), top, top, top, top);
    assert_eq!(fixed.num_seconds(), q(u64::MAX as u128 * 90_061));
    assert_eq!(
        fixed.to_std(),
        Some(Span { seconds: 1_661_332_218_022_355, nanos: 927_998_515 })
    );
    let calendar = Duration::new(top, top, parts(0), parts(0), parts(0), parts(0));
    assert_eq!(calendar.num_months(), q(u64::MAX as u128 * 13));
    assert_eq!(calendar.num_years(), q(u64::MAX as u128 + (u64::MAX / 12) as u128));
}

#[test]
fn a_fixed_duration_becomes_seconds_and_nanoseconds() {
    let d = Duration::parse("P10DT10H10M10.5S").unwrap();
    assert_eq!(d.to_std(), Some(Span { seconds: 900_610, nanos: 500_000_000 }));
    assert_eq!(d.to_chrono(), Some(Span { seconds: 900_610, nanos: 500_000_000 }));
    let std = d.to_std().map(|s| std::time::Duration::new(s.seconds, s.nanos)).unwrap();
    assert_eq!(std.as_millis(), 900_610_500);
}

#[test]
fn a_duration_with_years_has_no_fixed_length() {
    let d = Duration::parse("P10Y10M10DT10H10M10S").unwrap();
    assert_eq!(d.to_std(), None);
    assert_eq!(d.to_chrono(), None);
    assert_eq!(d.num_seconds(), None);
    let fixed = Duration { year: Magnitude::zero(), month: Magnitude::zero(), ..d };
    assert_eq!(fixed.to_std(), Some(Span { seconds: 900_610, nanos: 0 }));
    assert_eq!(fixed.num_seconds(), q(900_610_000_000_000));
}

#[test]
fn spans_split_nanoseconds() {
    assert_eq!(Span::from_nanos(0), Span { seconds: 0, nanos: 0 });
    assert_eq!(Span::from_nanos(999_999_999), Span { seconds: 0, nanos: 999_999_999 });
    assert_eq!(Span::from_nanos(1_000_000_000), Span { seconds: 1, nanos: 0 });
    assert_eq!(
        Span::from_nanos(u64::MAX as u128 * 1_000_000_000 + 5),
        Span { seconds: u64::MAX, nanos: 5 }
    );
}
