use iso8601_duration::{Duration, Magnitude};

fn whole(n: u32) -> Magnitude {
    Magnitude::from_whole(n)
}

fn parts(billionths: u64) -> Magnitude {
    Magnitude { billionths }
}

fn dur(y: u32, mo: u32, d: u32, h: u32, mi: u32, s: u32) -> Duration {
    Duration::new(whole(y), whole(mo), whole(d), whole(h), whole(mi), whole(s))
}

#[test]
fn test_serde() {
    let s = "\"P3Y6M4DT12H30M5S\"";
    let text: String = serde_json::from_str(s).unwrap();
    let d: Duration = text.parse().unwrap();
    assert_eq!(serde_json::to_string(&d.to_string()).unwrap(), s);
}

#[test]
fn every_component_is_written_in_order() {
    assert_eq!(dur(3, 6, 4, 12, 30, 5).to_string(), "P3Y6M4DT12H30M5S");
}

#[test]
fn zero_components_are_left_out() {
    assert_eq!(dur(0, 0, 23, 23, 0, 0).to_string(), "P23DT23H");
    assert_eq!(dur(1, 0, 0, 0, 0, 0).to_string(), "P1Y");
    assert_eq!(dur(0, 1, 0, 0, 0, 0).to_string(), "P1M");
    assert_eq!(dur(0, 0, 0, 0, 1, 0).to_string(), "PT1M");
    assert_eq!(dur(0, 0, 0, 0, 0, 1).to_string(), "PT1S");
    assert_eq!(dur(1, 0, 0, 0, 0, 1).to_string(), "P1YT1S");
}

#[test]
fn the_zero_duration_is_a_bare_prefix() {
    assert_eq!(dur(0, 0, 0, 0, 0, 0).to_string(), "P");
    assert!(Duration::parse(&dur(0, 0, 0, 0, 0, 0).to_string()).is_err());
}

#[test]
fn fractions_are_written_with_a_point() {
    let half = Duration::new(parts(500_000_000), whole(0), whole(0), whole(0), whole(0), whole(0));
    assert_eq!(half.to_string(), "P0.5Y");
    let d = Duration::new(
        whole(0),
        whole(0),
        parts(10_500_000_000),
        whole(0),
        whole(0),
        parts(1),
    );
    assert_eq!(d.to_string(), "P10.5DT0.000000001S");
    let inner = Duration { month: parts(1_050_000_000), ..dur(0, 0, 0, 0, 0, 0) };
    assert_eq!(inner.to_string(), "P1.05M");
    let tenth = Duration::new(whole(0), whole(0), whole(0), parts(100_000_000), whole(0), whole(0));
    assert_eq!(tenth.to_string(), "PT0.1H");
}

#[test]
fn the_largest_magnitude_is_written_in_full() {
    let d = Duration::new(whole(0), whole(0), whole(0), whole(0), whole(0), parts(u64::MAX));
    assert_eq!(d.to_string(), "PT18446744073.709551615S");
}

#[test]
fn bytes_and_string_agree() {
    let d = dur(3, 6, 4, 12, 30, 5);
    assert_eq!(d.to_bytes(), d.to_string().into_bytes());
    assert_eq!(d.to_bytes(), b"P3Y6M4DT12H30M5S".to_vec());
}

#[test]
fn reading_the_text_gives_the_duration_back() {
    let samples = [
        dur(3, 6, 4, 12, 30, 5),
        dur(0, 0, 0, 0, 0, 1),
        dur(0, 0, 0, 0, 7, 0),
        dur(0, 7, 0, 0, 0, 0),
        dur(0, 7, 0, 0, 7, 0),
        dur(1, 0, 0, 0, 0, 0),
        dur(0, 0, 84, 0, 0, 0),
        Duration { year: parts(500_000_000), month: parts(250_000_000), ..dur(0, 0, 1, 0, 0, 0) },
        Duration::new(
            parts(u64::MAX),
            parts(u64::MAX - 1),
            parts(1_000_000_001),
            parts(999_999_999),
            parts(10),
            parts(123_456_789_012),
        ),
    ];
    for d in samples {
        assert_eq!(Duration::parse(&d.to_string()), Ok(d));
        assert_eq!(iso8601_duration::grammar::parse_bytes(&d.to_bytes()), Ok(d));
    }
}

#[test]
fn canonical_texts_are_written_back_as_they_are() {
    let texts =
        ["P3Y6M4DT12H30M5S", "P0.5Y", "PT0.25S", "P1M", "PT1M", "P1YT0.000000001S", "P84D"];
    for text in texts {
        assert_eq!(Duration::parse(text).unwrap().to_string(), text);
    }
}

#[test]
fn other_texts_are_written_back_in_canonical_form() {
    assert_eq!(Duration::parse("P12W").unwrap().to_string(), "P84D");
    assert_eq!(Duration::parse("P0,5Y").unwrap().to_string(), "P0.5Y");
    assert_eq!(Duration::parse("P0Y1D").unwrap().to_string(), "P1D");
    assert_eq!(Duration::parse("P01.50D").unwrap().to_string(), "P1.5D");
    assert_eq!(Duration::parse("P1DT").unwrap().to_string(), "P1D");
}
