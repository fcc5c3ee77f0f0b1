use serde_json::Value;
use upload_server::calendar::{civil_from_days, days_from_civil};
use upload_server::timestamp::{parse_rfc3339_millis, parse_timestamp, parse_ts_param};

#[test]
fn days_are_counted_from_1970() {
    assert_eq!(days_from_civil(1970, 1, 1), 0);
    assert_eq!(days_from_civil(1970, 2, 1), 31);
    assert_eq!(days_from_civil(1969, 12, 31), -1);
    assert_eq!(days_from_civil(2000, 3, 1), 11017);
    assert_eq!(days_from_civil(0, 1, 1), -719528);
    assert_eq!(days_from_civil(2026, 9, 1), 20697);
    assert_eq!(days_from_civil(-400, 3, 1), -719468 - 146097);
    assert_eq!(days_from_civil(1970, 13, 1), 365);
    assert_eq!(days_from_civil(1970, 1, 9_000_000_000_000_000_000), 8_999_999_999_999_999_999);
    let m: i64 = 1 << 55;
    assert_eq!(days_from_civil(0, m, 1), (153 * (m - 3) + 2) / 5 - 719468);
}

#[test]
fn dates_come_back_from_their_days() {
    assert_eq!(civil_from_days(0), (1970, 1, 1));
    assert_eq!(civil_from_days(-1), (1969, 12, 31));
    assert_eq!(civil_from_days(11016), (2000, 2, 29));
    assert_eq!(civil_from_days(-719528), (0, 1, 1));
    let mut days = -800_000;
    while days < 800_000 {
        let (y, m, d) = civil_from_days(days);
        assert_eq!(days_from_civil(y as i64, m as i64, d as i64), days);
        days += 397;
    }
}

#[test]
fn consecutive_days_have_consecutive_numbers() {
    assert_eq!(days_from_civil(2023, 2, 28) + 1, days_from_civil(2023, 3, 1));
    assert_eq!(days_from_civil(2024, 2, 28) + 2, days_from_civil(2024, 3, 1));
    assert_eq!(days_from_civil(1900, 2, 28) + 1, days_from_civil(1900, 3, 1));
    assert_eq!(days_from_civil(1999, 12, 31) + 1, days_from_civil(2000, 1, 1));
}

#[test]
fn timestamps_in_utc() {
    assert_eq!(parse_rfc3339_millis("1970-01-01T00:00:00Z"), Ok(0));
    assert_eq!(parse_rfc3339_millis("2026-09-01T12:00:00Z"), Ok(1_788_264_000_000));
    assert_eq!(parse_rfc3339_millis("2026-09-01T12:00:00z"), Ok(1_788_264_000_000));
    assert_eq!(parse_rfc3339_millis("1969-12-31T23:59:59Z"), Ok(-1000));
    assert_eq!(parse_rfc3339_millis("0000-01-01T00:00:00Z"), Ok(-62_167_219_200_000));
    assert_eq!(parse_rfc3339_millis("9999-12-31T23:59:59.999Z"), Ok(253_402_300_799_999));
}

#[test]
fn zones_shift_the_instant() {
    assert_eq!(parse_rfc3339_millis("2026-09-01T20:00:00+08:00"), Ok(1_788_264_000_000));
    assert_eq!(parse_rfc3339_millis("2026-09-01T06:30:00-05:30"), Ok(1_788_264_000_000));
    assert_eq!(parse_rfc3339_millis("1970-01-01T00:00:00.5+00:01"), Ok(-59_500));
}

#[test]
fn fractions_are_cut_to_milliseconds() {
    assert_eq!(parse_rfc3339_millis("1970-01-01T00:00:00.1Z"), Ok(100));
    assert_eq!(parse_rfc3339_millis("1970-01-01T00:00:00.12Z"), Ok(120));
    assert_eq!(parse_rfc3339_millis("1970-01-01T00:00:00.123Z"), Ok(123));
    assert_eq!(parse_rfc3339_millis("1970-01-01T00:00:00.123999999Z"), Ok(123));
    assert!(parse_rfc3339_millis("1970-01-01T00:00:00.1234567890Z").is_err());
    assert!(parse_rfc3339_millis("1970-01-01T00:00:00.Z").is_err());
}

#[test]
fn other_texts_are_no_timestamps() {
    let cases = [
        "",
        "1970-01-01",
        "1970-01-01T00:00:00",
        "1970-01-01 00:00:00Z",
        "1970/01/01T00:00:00Z",
        "1970-00-01T00:00:00Z",
        "1970-13-01T00:00:00Z",
        "1970-01-00T00:00:00Z",
        "1970-01-32T00:00:00Z",
        "2023-02-29T00:00:00Z",
        "2024-02-30T00:00:00Z",
        "2024-04-31T00:00:00Z",
        "1970-01-01T24:00:00Z",
        "1970-01-01T00:60:00Z",
        "1970-01-01T00:00:60Z",
        "1970-01-01T-1:00:00Z",
        "+970-01-01T00:00:00Z",
        "1970-01-01T00:00:00Zx",
        "1970-01-01T00:00:00+0800",
        "1970-01-01T00:00:00+24:00",
        "1970-01-01T00:00:00+00:60",
        "1970-01-01T00:00:00+08:0",
        "1970-01-01T00:00:00X",
        "\u{661}970-01-01T00:00:00Z",
    ];
    for text in cases {
        assert_eq!(
            parse_rfc3339_millis(text),
            Err(format!("invalid RFC3339 timestamp: {:?}", text))
        );
    }
    assert_eq!(parse_rfc3339_millis("2024-02-29T00:00:00Z"), Ok(1_709_164_800_000));
}

#[test]
fn parameters_may_be_seconds() {
    assert_eq!(parse_ts_param("12"), Ok(12_000));
    assert_eq!(parse_ts_param("+12"), Ok(12_000));
    assert_eq!(parse_ts_param("-12"), Ok(-12_000));
    assert_eq!(parse_ts_param("000"), Ok(0));
    assert_eq!(parse_ts_param("9223372036854775"), Ok(9_223_372_036_854_775_000));
    assert_eq!(parse_ts_param("9223372036854776"), Err("timestamp out of range".to_string()));
    assert_eq!(parse_ts_param("-9223372036854775808"), Err("timestamp out of range".to_string()));
    assert_eq!(
        parse_ts_param("9223372036854775808"),
        Err("invalid RFC3339 timestamp: \"9223372036854775808\"".to_string())
    );
    assert_eq!(parse_ts_param("-"), Err("invalid RFC3339 timestamp: \"-\"".to_string()));
    assert_eq!(parse_ts_param("1970-01-01T00:00:01Z"), Ok(1000));
}

#[test]
fn timestamps_of_entries() {
    let parse = |text: &str| parse_timestamp(&serde_json::from_str::<Value>(text).unwrap());
    assert_eq!(parse("7"), Ok(7000));
    assert_eq!(parse("-7"), Ok(-7000));
    assert_eq!(parse("\"1970-01-01T00:00:07Z\""), Ok(7000));
    assert_eq!(parse("\"7\""), Err("invalid RFC3339 timestamp: \"7\"".to_string()));
    assert_eq!(parse("7.0"), Err("must be an integer count of seconds".to_string()));
    assert_eq!(
        parse("18446744073709551615"),
        Err("must be an integer count of seconds".to_string())
    );
    assert_eq!(parse("-9223372036854775808"), Err("timestamp out of range".to_string()));
    assert_eq!(
        parse("[7]"),
        Err("must be an RFC3339 string or unix seconds number".to_string())
    );
}

#[test]
fn later_dates_have_larger_numbers() {
    let dates = [(-1, 12, 31), (0, 2, 29), (0, 3, 1), (1999, 12, 31), (2000, 1, 1), (2000, 2, 1)];
    let days: Vec<i64> = dates.iter().map(|d| days_from_civil(d.0, d.1, d.2)).collect();
    assert!(days.windows(2).all(|w| w[0] < w[1]));
}

#[test]
fn queries_and_entries_read_timestamps_alike() {
    assert_eq!(parse_ts_param("77"), parse_timestamp(&Value::from(77)));
    for text in ["2026-09-01T12:00:00.5+08:00", "nonsense"] {
        assert_eq!(parse_ts_param(text), parse_timestamp(&Value::from(text)));
    }
}
