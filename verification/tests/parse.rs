use iso8601_duration::{Duration, ErrorKind, Magnitude, ParseDurationError};

fn whole(n: u32) -> Magnitude {
    Magnitude::from_whole(n)
}

fn parts(billionths: u64) -> Magnitude {
    Magnitude { billionths }
}

fn as_f32(m: Magnitude) -> f32 {
    (m.billionths as f64 / 1e9) as f32
}

fn dur(y: u32, mo: u32, d: u32, h: u32, mi: u32, s: u32) -> Duration {
    Duration::new(whole(y), whole(mo), whole(d), whole(h), whole(mi), whole(s))
}

fn failure(input: &str) -> (usize, ErrorKind) {
    let e: ParseDurationError = Duration::parse(input).unwrap_err();
    assert_eq!(e.input, input);
    (e.position, e.kind)
}

#[test]
fn parses_days_and_hours() {
    assert_eq!(Duration::parse("P23DT23H"), Ok(dur(0, 0, 23, 23, 0, 0)));
}

#[test]
fn parses_every_component() {
    assert_eq!(Duration::parse("P3Y6M4DT12H30M5S"), Ok(dur(3, 6, 4, 12, 30, 5)));
}

#[test]
fn parses_a_fractional_year() {
    let d = Duration::parse("P0.5Y").unwrap();
    let half = Duration { year: parts(500_000_000), ..dur(0, 0, 0, 0, 0, 0) };
    assert_eq!(d, half);
    assert_eq!(as_f32(d.year), 0.5);
}

#[test]
fn parses_two_fractions() {
    let d = Duration::parse("P0.5Y0.5M").unwrap();
    assert_eq!(as_f32(d.year), 0.5);
    assert_eq!(as_f32(d.month), 0.5);
    assert_eq!(d.day, whole(0));
    assert!(!d.year.is_zero() && d.hour.is_zero());
}

#[test]
fn parses_weeks_as_days() {
    assert_eq!(Duration::parse("P12W"), Ok(dur(0, 0, 84, 0, 0, 0)));
}

#[test]
fn rejects_the_documented_bad_texts() {
    assert!(Duration::parse("PT").is_err());
    assert!(Duration::parse("P12WT12H30M5S").is_err());
    assert!(Duration::parse("P0.5S0.5M").is_err());
    assert!(Duration::parse("P0.5A").is_err());
}

#[test]
fn order_is_enforced() {
    assert_eq!(failure("P1D1Y"), (3, ErrorKind::Trailing));
    assert_eq!(Duration::parse("P1Y1D"), Ok(dur(1, 0, 1, 0, 0, 0)));
}

#[test]
fn time_order_is_enforced() {
    assert_eq!(failure("PT1S1H"), (4, ErrorKind::Trailing));
    assert_eq!(failure("PT1M1H"), (4, ErrorKind::Trailing));
    assert_eq!(Duration::parse("PT1H1S"), Ok(dur(0, 0, 0, 1, 0, 1)));
}

#[test]
fn a_designator_is_taken_once() {
    assert_eq!(failure("P1Y2Y"), (3, ErrorKind::Trailing));
    assert_eq!(failure("PT1H2H"), (4, ErrorKind::Trailing));
    assert_eq!(failure("P1DT1HT1M"), (6, ErrorKind::Trailing));
}

#[test]
fn weeks_stand_alone() {
    assert_eq!(failure("P1WT1H"), (3, ErrorKind::Trailing));
    assert_eq!(failure("P1W1D"), (3, ErrorKind::Trailing));
    assert_eq!(failure("P1Y1W"), (3, ErrorKind::Trailing));
    let d = Duration::parse("P1W").unwrap();
    assert_eq!(d, dur(0, 0, 7, 0, 0, 0));
    let half = Duration::parse("P1.5W").unwrap();
    assert_eq!(half.day, parts(10_500_000_000));
    assert_eq!(as_f32(half.day), 10.5);
}

#[test]
fn empty_durations_are_rejected() {
    assert_eq!(failure("PT"), (2, ErrorKind::Empty));
    assert_eq!(failure("P"), (1, ErrorKind::Empty));
}

#[test]
fn both_separators_are_read() {
    let comma = Duration::parse("P0,5Y").unwrap();
    let point = Duration::parse("P0.5Y").unwrap();
    assert_eq!(comma, point);
    assert_eq!(as_f32(comma.year), 0.5);
    assert_eq!(Duration::parse("PT1,25S"), Duration::parse("PT1.25S"));
    assert_eq!(Duration::parse("P2,5W"), Duration::parse("P2.5W"));
}

#[test]
fn a_missing_prefix_is_no_match() {
    assert_eq!(failure(""), (0, ErrorKind::NoMatch));
    assert_eq!(failure("1Y"), (0, ErrorKind::NoMatch));
    assert_eq!(failure("p1Y"), (0, ErrorKind::NoMatch));
    assert_eq!(failure(" P1Y"), (0, ErrorKind::NoMatch));
}

#[test]
fn an_unknown_designator_leaves_nothing() {
    assert_eq!(failure("P0.5A"), (1, ErrorKind::Empty));
    assert_eq!(failure("P1"), (1, ErrorKind::Empty));
    assert_eq!(failure("PT5"), (2, ErrorKind::Empty));
    assert_eq!(failure("PY"), (1, ErrorKind::Empty));
}

#[test]
fn designators_are_upper_case() {
    assert_eq!(failure("P1y"), (1, ErrorKind::Empty));
    assert_eq!(failure("P1Dt1H"), (3, ErrorKind::Trailing));
    assert_eq!(failure("P1w"), (1, ErrorKind::Empty));
}

#[test]
fn a_time_component_needs_the_time_mark() {
    assert_eq!(failure("P1H"), (1, ErrorKind::Empty));
    assert_eq!(failure("P1S"), (1, ErrorKind::Empty));
    assert_eq!(Duration::parse("P1M"), Ok(dur(0, 1, 0, 0, 0, 0)));
    assert_eq!(Duration::parse("PT1M"), Ok(dur(0, 0, 0, 0, 1, 0)));
    assert_eq!(Duration::parse("P1MT1M"), Ok(dur(0, 1, 0, 0, 1, 0)));
}

#[test]
fn a_date_with_an_empty_time_part_is_trailing_free() {
    assert_eq!(Duration::parse("P1DT"), Ok(dur(0, 0, 1, 0, 0, 0)));
}

#[test]
fn a_value_needs_digits_on_both_sides_of_the_separator() {
    assert_eq!(failure("P1.Y"), (1, ErrorKind::Empty));
    assert_eq!(failure("P.5Y"), (1, ErrorKind::Empty));
    assert_eq!(failure("P1.2.3Y"), (1, ErrorKind::Empty));
    assert_eq!(failure("P-1Y"), (1, ErrorKind::Empty));
    assert_eq!(failure("P+1Y"), (1, ErrorKind::Empty));
    assert_eq!(failure("P1e3Y"), (1, ErrorKind::Empty));
}

#[test]
fn fractions_are_read_to_nine_digits() {
    let d = Duration::parse("PT0.123456789S").unwrap();
    assert_eq!(d.second, parts(123_456_789));
    let longer = Duration::parse("PT0.1234567891999S").unwrap();
    assert_eq!(longer.second, parts(123_456_789));
    let short = Duration::parse("PT0.000000001S").unwrap();
    assert_eq!(short.second, parts(1));
    let lost = Duration::parse("PT0.0000000001S").unwrap();
    assert_eq!(lost, dur(0, 0, 0, 0, 0, 0));
}

#[test]
fn leading_zeros_count_for_nothing() {
    assert_eq!(Duration::parse("P007D"), Ok(dur(0, 0, 7, 0, 0, 0)));
    assert_eq!(Duration::parse("P0Y"), Ok(dur(0, 0, 0, 0, 0, 0)));
}

#[test]
fn too_large_a_value_is_the_largest_magnitude() {
    let top = parts(u64::MAX);
    assert_eq!(Duration::parse("P18446744073.709551615Y").unwrap().year, top);
    assert_eq!(Duration::parse("P18446744073.709551616Y").unwrap().year, top);
    assert_eq!(Duration::parse("P18446744074Y").unwrap().year, top);
    assert_eq!(Duration::parse("P99999999999999999999999999999999999999999Y").unwrap().year, top);
    assert_eq!(
        Duration::parse("P18446744073.709551614Y").unwrap().year,
        parts(u64::MAX - 1)
    );
    assert_eq!(Duration::parse("P18446744073W").unwrap().day, top);
    assert_eq!(
        Duration::parse("P2635249153W").unwrap().day,
        parts(18_446_744_071_000_000_000)
    );
}

#[test]
fn other_bytes_are_no_part_of_a_duration() {
    assert_eq!(failure("P1Y\u{e9}"), (3, ErrorKind::Trailing));
    assert_eq!(failure("P\u{661}Y"), (1, ErrorKind::Empty));
    assert_eq!(failure("\u{e9}P1Y"), (0, ErrorKind::NoMatch));
    assert_eq!(failure("P1D "), (3, ErrorKind::Trailing));
}

#[test]
fn a_text_is_read_through_from_str() {
    let d: Duration = "P1Y2M".parse().unwrap();
    assert_eq!(d, dur(1, 2, 0, 0, 0, 0));
    let e = "P1Y2".parse::<Duration>().unwrap_err();
    assert_eq!(
        e,
        ParseDurationError { input: "P1Y2".to_string(), position: 3, kind: ErrorKind::Trailing }
    );
}

#[test]
fn bytes_are_read_as_texts_are() {
    let r = iso8601_duration::grammar::parse_bytes(b"P1DT1H");
    assert_eq!(r, Ok(dur(0, 0, 1, 1, 0, 0)));
    let e = iso8601_duration::grammar::parse_bytes(b"PT").unwrap_err();
    assert_eq!((e.position, e.kind), (2, ErrorKind::Empty));
}

#[test]
fn every_choice_of_components_in_order_is_read() {
    let names = ["Y", "M", "D", "H", "M", "S"];
    for chosen in 1u32..64 {
        let mut text = String::from("P");
        let mut values = [0u32; 6];
        for i in 0..6 {
            if i == 3 && chosen >> 3 != 0 {
                text.push('T');
            }
            if chosen & (1 << i) != 0 {
                values[i] = i as u32 + 2;
                text.push_str(&values[i].to_string());
                text.push_str(names[i]);
            }
        }
        let d = dur(values[0], values[1], values[2], values[3], values[4], values[5]);
        assert_eq!(Duration::parse(&text), Ok(d), "{}", text);
    }
}

#[test]
fn two_components_out_of_order_leave_the_second() {
    let date = ["Y", "M", "D"];
    let time = ["H", "M", "S"];
    for later in 1..3 {
        for earlier in 0..later {
            let text = format!("P1{}2{}", date[later], date[earlier]);
            assert_eq!(failure(&text), (3, ErrorKind::Trailing), "{}", text);
            let text = format!("PT1{}2{}", time[later], time[earlier]);
            assert_eq!(failure(&text), (4, ErrorKind::Trailing), "{}", text);
        }
    }
    assert_eq!(failure("PT1H1D"), (4, ErrorKind::Trailing));
    assert_eq!(failure("P1DT1H1D"), (6, ErrorKind::Trailing));
}

#[test]
fn a_value_is_worth_its_digits() {
    let d = Duration::parse("P12.5Y").unwrap();
    assert_eq!(d.year, parts(12_500_000_000));
    assert_eq!(d.year.whole(), 12);
    assert_eq!(d.year.fraction(), 500_000_000);
    let e = Duration::parse("PT0,05S").unwrap();
    assert_eq!(e.second, parts(50_000_000));
    assert_eq!(as_f32(e.second), 0.05);
}
