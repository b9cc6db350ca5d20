use chrono::{FixedOffset, SecondsFormat, TimeZone, Utc};
use pbjson_types::error::ErrorKind;
use pbjson_types::timestamp::Timestamp;

fn text_of(seconds: i64, nanos: i32) -> String {
    Timestamp { seconds, nanos }.serialize().unwrap()
}

#[test]
fn test_date() {
    let datetime = FixedOffset::east_opt(5 * 3600)
        .unwrap()
        .with_ymd_and_hms(2016, 11, 8, 21, 7, 9)
        .unwrap();
    let encoded = datetime.to_rfc3339();
    let utc: chrono::DateTime<Utc> = datetime.into();
    let utc_encoded = utc.to_rfc3339_opts(SecondsFormat::Secs, true);

    let a: Timestamp = Timestamp::deserialize(&encoded).unwrap();
    assert_eq!(a.seconds, utc.timestamp());
    assert_eq!(a.nanos, utc.timestamp_subsec_nanos() as i32);

    let encoded = serde_json::to_string(&a.serialize().unwrap()).unwrap();
    assert_eq!(encoded, format!("\"{}\"", utc_encoded));
}

#[test]
fn test_date_in_plain_values() {
    let a = Timestamp::deserialize("2016-11-08T21:07:09+05:00").unwrap();
    assert_eq!(a, Timestamp { seconds: 1_478_621_229, nanos: 0 });
    assert_eq!(a.serialize().unwrap(), "2016-11-08T16:07:09Z");
}

#[test]
fn serialize_whole_second() {
    assert_eq!(text_of(1_431_680_400, 0), "2015-05-15T09:00:00Z");
    assert_eq!(text_of(1_431_684_000, 0), "2015-05-15T10:00:00Z");
    assert_eq!(text_of(0, 0), "1970-01-01T00:00:00Z");
}

#[test]
fn serialize_fraction_without_trailing_zeros() {
    assert_eq!(text_of(1_431_680_400, 123_456_789), "2015-05-15T09:00:00.123456789Z");
    assert_eq!(text_of(0, 120_000_000), "1970-01-01T00:00:00.12Z");
    assert_eq!(text_of(0, 500_000_000), "1970-01-01T00:00:00.5Z");
    assert_eq!(text_of(0, 1), "1970-01-01T00:00:00.000000001Z");
    assert_eq!(text_of(0, 1_000), "1970-01-01T00:00:00.000001Z");
    assert_eq!(text_of(0, 999_999_999), "1970-01-01T00:00:00.999999999Z");
}

#[test]
fn serialize_pads_every_field() {
    assert_eq!(text_of(-62_167_219_200, 0), "0000-01-01T00:00:00Z");
    assert_eq!(text_of(-62_135_596_800 + 3_723, 0), "0001-01-01T01:02:03Z");
    assert_eq!(text_of(951_782_400, 0), "2000-02-29T00:00:00Z");
}

#[test]
fn serialize_before_the_epoch() {
    assert_eq!(text_of(-1, 0), "1969-12-31T23:59:59Z");
    assert_eq!(text_of(-1, 999_999_999), "1969-12-31T23:59:59.999999999Z");
    assert_eq!(text_of(-86_400, 0), "1969-12-31T00:00:00Z");
}

#[test]
fn serialize_takes_the_instant_of_a_value_that_is_not_normalized() {
    assert_eq!(text_of(1, 1_000_000_000), "1970-01-01T00:00:02Z");
    assert_eq!(text_of(0, -1), "1969-12-31T23:59:59.999999999Z");
    assert_eq!(text_of(10, -2_000_000_000), "1970-01-01T00:00:08Z");
    assert_eq!(text_of(0, i32::MAX), "1970-01-01T00:00:02.147483647Z");
    assert_eq!(text_of(0, i32::MIN), "1969-12-31T23:59:57.852516352Z");
}

#[test]
fn serialize_limits() {
    assert_eq!(text_of(253_402_300_799, 999_999_999), "9999-12-31T23:59:59.999999999Z");
    assert_eq!(text_of(253_402_300_800, -1), "9999-12-31T23:59:59.999999999Z");

    let after = Timestamp { seconds: 253_402_300_800, nanos: 0 }.serialize().unwrap_err();
    assert_eq!(after.kind, ErrorKind::ConversionOverflow);
    assert_eq!(after.message, "timestamp was not in range");

    let before = Timestamp { seconds: -377_705_116_801, nanos: 999_999_999 }
        .serialize()
        .unwrap_err();
    assert_eq!(before.kind, ErrorKind::ConversionOverflow);

    let widest = Timestamp { seconds: i64::MAX, nanos: i32::MAX }.serialize().unwrap_err();
    assert_eq!(widest.kind, ErrorKind::ConversionOverflow);
    let narrowest = Timestamp { seconds: i64::MIN, nanos: i32::MIN }.serialize().unwrap_err();
    assert_eq!(narrowest.kind, ErrorKind::ConversionOverflow);
}

#[test]
fn serialize_has_no_text_for_a_negative_year() {
    let last = Timestamp { seconds: -62_167_219_201, nanos: 999_999_999 }.serialize().unwrap_err();
    assert_eq!(last.kind, ErrorKind::Format);
    assert_eq!(
        last.message,
        "The year component cannot be formatted into the requested format."
    );

    let first = Timestamp { seconds: -377_705_116_800, nanos: 0 }.serialize().unwrap_err();
    assert_eq!(first.kind, ErrorKind::Format);

    assert_eq!(text_of(-62_167_219_201, 1_000_000_000), "0000-01-01T00:00:00Z");
}

#[test]
fn deserialize_utc() {
    assert_eq!(
        Timestamp::deserialize("2015-05-15T09:00:00Z").unwrap(),
        Timestamp { seconds: 1_431_680_400, nanos: 0 }
    );
    assert_eq!(
        Timestamp::deserialize("2015-05-15T09:00:00.123456789Z").unwrap(),
        Timestamp { seconds: 1_431_680_400, nanos: 123_456_789 }
    );
    assert_eq!(
        Timestamp::deserialize("1970-01-01T00:00:00Z").unwrap(),
        Timestamp { seconds: 0, nanos: 0 }
    );
    assert_eq!(
        Timestamp::deserialize("1969-12-31T23:59:59.5Z").unwrap(),
        Timestamp { seconds: -1, nanos: 500_000_000 }
    );
}

#[test]
fn deserialize_other_spellings_of_one_instant() {
    let expected = Timestamp { seconds: 1_431_680_400, nanos: 120_000_000 };
    assert_eq!(Timestamp::deserialize("2015-05-15T09:00:00.12Z").unwrap(), expected);
    assert_eq!(Timestamp::deserialize("2015-05-15T09:00:00.120Z").unwrap(), expected);
    assert_eq!(Timestamp::deserialize("2015-05-15T09:00:00.120000000Z").unwrap(), expected);
    assert_eq!(Timestamp::deserialize("2015-05-15T09:00:00.12+00:00").unwrap(), expected);
    assert_eq!(Timestamp::deserialize("2015-05-15T11:00:00.12+02:00").unwrap(), expected);
    assert_eq!(Timestamp::deserialize("2015-05-14T23:30:00.12-09:30").unwrap(), expected);
    assert_eq!(Timestamp::deserialize("2015-05-15T09:00:00.12z").unwrap(), expected);
    assert_eq!(Timestamp::deserialize("2015-05-15 09:00:00.12Z").unwrap(), expected);
    assert_eq!(expected.serialize().unwrap(), "2015-05-15T09:00:00.12Z");
}

#[test]
fn deserialize_with_an_offset_at_the_limits() {
    assert_eq!(
        Timestamp::deserialize("9999-12-31T23:59:59-01:00").unwrap(),
        Timestamp { seconds: 253_402_300_799 + 3_600, nanos: 0 }
    );
    assert_eq!(
        Timestamp::deserialize("0000-01-01T00:00:00+01:00").unwrap(),
        Timestamp { seconds: -62_167_219_200 - 3_600, nanos: 0 }
    );
}

#[test]
fn deserialize_malformed() {
    let error = Timestamp::deserialize("not-a-date").unwrap_err();
    assert_eq!(error.kind, ErrorKind::Parse);
    assert_eq!(error.message, "the 'year' component could not be parsed");
}

#[test]
fn deserialize_rejections() {
    for text in [
        "",
        "2015-05-15",
        "2015-05-15T09:00:00",
        "2015-05-15T09:00Z",
        "2015-13-15T09:00:00Z",
        "2015-02-29T09:00:00Z",
        "2015-05-15T24:00:00Z",
        "2015-05-15T09:60:00Z",
        "2015-05-15T09:00:00.Z",
        "2015-05-15T09:00:00Z ",
        " 2015-05-15T09:00:00Z",
        "2015-05-15T09:00:00+24:00",
        "15-05-15T09:00:00Z",
        "+2015-05-15T09:00:00Z",
    ] {
        let error = Timestamp::deserialize(text).unwrap_err();
        assert_eq!(error.kind, ErrorKind::Parse);
        assert!(!error.message.is_empty());
    }
    assert_eq!(
        Timestamp::deserialize("2015-05-15T09:00:00Zx").unwrap_err().message,
        "unexpected trailing characters; the end of input was expected"
    );
    assert_eq!(
        Timestamp::deserialize("2015-02-29T09:00:00Z").unwrap_err().message,
        "day was not in range"
    );
}

#[test]
fn round_trip_of_normalized_values() {
    for seconds in [
        -62_167_219_200_i64,
        -1_000_000_000,
        -86_401,
        -1,
        0,
        1,
        59,
        86_399,
        951_782_400,
        1_431_680_400,
        1_478_621_229,
        4_102_444_800,
        253_402_300_799,
    ] {
        for nanos in [0_i32, 1, 10, 999, 123_456_789, 500_000_000, 999_999_990, 999_999_999] {
            let ts = Timestamp { seconds, nanos };
            let text = ts.serialize().unwrap();
            assert_eq!(Timestamp::deserialize(&text).unwrap(), ts);
        }
    }
}

#[test]
fn round_trip_normalizes_what_was_not() {
    let ts = Timestamp { seconds: 1, nanos: 1_000_000_000 };
    let back = Timestamp::deserialize(&ts.serialize().unwrap()).unwrap();
    assert_ne!(back, ts);
    assert_eq!(back, Timestamp { seconds: 2, nanos: 0 });
}

#[test]
fn text_is_canonical_after_a_round_trip() {
    let ts = Timestamp::deserialize("2016-11-08T21:07:09.500+05:00").unwrap();
    assert_eq!(ts.serialize().unwrap(), "2016-11-08T16:07:09.5Z");
}

#[test]
fn deserialize_leap_second() {
    assert_eq!(
        Timestamp::deserialize("2016-12-31T23:59:60Z").unwrap(),
        Timestamp { seconds: 1_483_228_799, nanos: 999_999_999 }
    );
    assert_eq!(
        Timestamp::deserialize("2016-12-31T15:59:60-08:00").unwrap(),
        Timestamp { seconds: 1_483_228_799, nanos: 999_999_999 }
    );
    let error = Timestamp::deserialize("2016-12-31T12:00:60Z").unwrap_err();
    assert_eq!(error.kind, ErrorKind::Parse);
    assert_eq!(error.message, "second was not in range");
}

#[test]
fn deserialize_more_than_nine_decimals() {
    assert_eq!(
        Timestamp::deserialize("2015-05-15T09:00:00.1234567891234Z").unwrap(),
        Timestamp { seconds: 1_431_680_400, nanos: 123_456_789 }
    );
}
