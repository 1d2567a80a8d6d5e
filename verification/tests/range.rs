use ailly::range::{LineRange, LineRangeError};

fn from_json(json: &str) -> Result<LineRange, LineRangeError> {
    let v: serde_json::Value = serde_json::from_str(json).unwrap();
    let start = v["start"].as_u64().unwrap() as u32;
    let end = v["end"].as_u64().unwrap() as u32;
    LineRange::try_from(start..end)
}

#[test]
fn deserialize_happy_path_canonicalizes_to_zero_indexed_half_open() {
    let range = from_json(r#"{"start":1,"end":3}"#).expect("valid range");
    assert_eq!(range.0, 0..3);
    assert_eq!(range.start_one_indexed(), 1);
    assert_eq!(range.end_one_indexed(), 3);
}

#[test]
fn deserialize_rejects_start_zero() {
    let err = from_json(r#"{"start":0,"end":3}"#).expect_err("must reject start == 0");
    assert!(err.message().contains("start must be >= 1"), "error names InvalidStart: {}", err.message());
}

#[test]
fn deserialize_rejects_end_before_start() {
    let err = from_json(r#"{"start":5,"end":2}"#).expect_err("must reject end < start");
    assert!(
        err.message().contains("end 2 must be >= start 5"),
        "error names InvalidOrder: {}",
        err.message()
    );
}

#[test]
fn deserialize_single_line_range() {
    let range = from_json(r#"{"start":7,"end":7}"#).expect("valid single-line range");
    assert_eq!(range.0, 6..7);
}

#[test]
fn try_from_range_constructs_line_range_from_one_indexed_inclusive() {
    let range = LineRange::try_from(2u32..5u32).expect("valid range");
    assert_eq!(range.0, 1..5);
    assert_eq!(range.start_one_indexed(), 2);
    assert_eq!(range.end_one_indexed(), 5);
}

#[test]
fn try_from_range_rejects_start_zero() {
    let err = LineRange::try_from(0u32..3u32).expect_err("must reject start == 0");
    assert!(matches!(err, LineRangeError::InvalidStart));
}

#[test]
fn try_from_range_rejects_end_before_start() {
    let reversed = std::ops::Range::<u32> { start: 5, end: 2 };
    let err = LineRange::try_from(reversed).expect_err("must reject end < start");
    assert!(matches!(err, LineRangeError::InvalidOrder { start: 5, end: 2 }));
}

#[test]
fn line_range_error_messages_match_their_variants() {
    assert_eq!(LineRangeError::InvalidStart.message(), "line range start must be >= 1");
    assert_eq!(
        LineRangeError::InvalidOrder { start: 10, end: 4 }.message(),
        "line range end 4 must be >= start 10"
    );
}
