use warg::timestamp::{deserialize, serialize, Timestamp, TimestampError};

fn ts(secs: i64, nanos: u32) -> Timestamp {
    Timestamp { secs, nanos }
}

#[test]
fn serializes_seconds_and_plain_nanoseconds() {
    assert_eq!(serialize(&ts(1_600_000_000, 5)).unwrap(), "1600000000.5");
    assert_eq!(serialize(&ts(0, 0)).unwrap(), "0.0");
    assert_eq!(serialize(&ts(5, 7)).unwrap(), "5.7");
    assert_eq!(serialize(&ts(12, 999_999_999)).unwrap(), "12.999999999");
    assert_eq!(serialize(&ts(i64::MAX, 10)).unwrap(), "9223372036854775807.10");
}

#[test]
fn serialize_rejects_time_before_epoch() {
    assert_eq!(serialize(&ts(-1, 0)), Err(TimestampError::BeforeEpoch));
    assert_eq!(serialize(&ts(-1, 999_999_999)), Err(TimestampError::BeforeEpoch));
}

#[test]
fn round_trip_keeps_timestamp() {
    for t in [ts(0, 0), ts(1, 1), ts(1_700_000_123, 456_789), ts(i64::MAX, 999_999_999)] {
        let text = serialize(&t).unwrap();
        assert_eq!(deserialize(&text), Ok(t));
    }
}

#[test]
fn deserialize_rejects_malformed_text() {
    assert_eq!(deserialize("abc"), Err(TimestampError::MissingSeparator));
    assert_eq!(deserialize("5"), Err(TimestampError::MissingSeparator));
    assert_eq!(deserialize(""), Err(TimestampError::MissingSeparator));
    assert_eq!(deserialize("5.abc"), Err(TimestampError::InvalidNanos));
    assert_eq!(deserialize("5."), Err(TimestampError::InvalidNanos));
    assert_eq!(deserialize("5.1.2"), Err(TimestampError::InvalidNanos));
    assert_eq!(deserialize("x.5"), Err(TimestampError::InvalidSeconds));
    assert_eq!(deserialize(".5"), Err(TimestampError::InvalidSeconds));
    assert_eq!(deserialize("-1.0"), Err(TimestampError::InvalidSeconds));
    assert_eq!(deserialize("18446744073709551616.0"), Err(TimestampError::InvalidSeconds));
    assert_eq!(deserialize("1.4294967296"), Err(TimestampError::InvalidNanos));
}

#[test]
fn deserialize_accepts_plus_sign_and_leading_zeros() {
    assert_eq!(deserialize("+5.+7"), Ok(ts(5, 7)));
    assert_eq!(deserialize("007.000000001"), Ok(ts(7, 1)));
}

#[test]
fn deserialize_carries_whole_seconds_from_nanoseconds() {
    assert_eq!(deserialize("1.2000000000"), Ok(ts(3, 0)));
    assert_eq!(deserialize("0.4294967295"), Ok(ts(4, 294_967_295)));
}

#[test]
fn deserialize_rejects_seconds_beyond_range() {
    assert_eq!(deserialize("9223372036854775808.0"), Err(TimestampError::OutOfRange));
    assert_eq!(deserialize("9223372036854775807.1000000000"), Err(TimestampError::OutOfRange));
    assert_eq!(deserialize("9223372036854775807.999999999"), Ok(ts(i64::MAX, 999_999_999)));
}
