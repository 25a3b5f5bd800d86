use maison::time::{make_delay, proto_ts_to_delay, Timestamp};

const NOW: i128 = 1_700_000_000_123_456_789;

#[test]
fn make_delay_splits_seconds_and_nanos() {
    let ts = make_delay(NOW, 2_000_000_000).unwrap();
    assert_eq!(ts, Timestamp { seconds: 1_700_000_002, nanos: 123_456_789 });
}

#[test]
fn make_delay_before_epoch_is_none() {
    assert_eq!(make_delay(-5_000_000_000, 1_000_000_000), None);
}

#[test]
fn make_delay_beyond_range_is_none() {
    let d: u128 = (u64::MAX as u128) * 1_000_000_000;
    assert_eq!(make_delay(NOW, d), None);
}

#[test]
fn delay_roundtrip() {
    let ts = make_delay(NOW, 45 * 60 * 1_000_000_000).unwrap();
    assert_eq!(proto_ts_to_delay(Some(ts), NOW), Some(45 * 60 * 1_000_000_000));
}

#[test]
fn delay_of_past_or_present_is_none() {
    let ts = Timestamp { seconds: 1_700_000_000, nanos: 123_456_789 };
    assert_eq!(proto_ts_to_delay(Some(ts), NOW), None);
    let past = Timestamp { seconds: 1_600_000_000, nanos: 0 };
    assert_eq!(proto_ts_to_delay(Some(past), NOW), None);
    assert_eq!(proto_ts_to_delay(None, NOW), None);
}

#[test]
fn delay_of_negative_fields_is_none() {
    assert_eq!(proto_ts_to_delay(Some(Timestamp { seconds: -1, nanos: 0 }), NOW), None);
    assert_eq!(proto_ts_to_delay(Some(Timestamp { seconds: 1_800_000_000, nanos: -1 }), NOW), None);
}

#[test]
fn delay_with_carrying_nanos() {
    let ts = Timestamp { seconds: 1_700_000_000, nanos: 2_000_000_000 };
    assert_eq!(proto_ts_to_delay(Some(ts), NOW), Some(1_876_543_211));
}

#[test]
fn delay_of_unrepresentable_timestamp_is_none() {
    let ts = Timestamp { seconds: i64::MAX, nanos: 1_000_000_000 };
    assert_eq!(proto_ts_to_delay(Some(ts), NOW), None);
}
