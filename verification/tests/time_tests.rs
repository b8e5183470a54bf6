//! The temporal codec against the clock crate and against fixed
//! instants.

use xmp::time::{civil_from_days, days_from_civil, format_timestamp, timestamp, timestamp_offset};

#[test]
pub fn rfc3999_localtime() {
    let t = chrono::Local::now();
    let t_string = t.to_rfc3339();
    let ts = timestamp(&t_string).unwrap();
    assert_eq!(t.timestamp(), ts);
}

#[test]
pub fn rfc3999_utctime() {
    let t = chrono::Utc::now();
    let t_string = t.to_rfc3339();
    let ts = timestamp(&t_string).unwrap();
    assert_eq!(t.timestamp(), ts);
}

#[test]
pub fn timezone_plus() {
    let sometime = "2022-04-30T11:37:36.93+04:00";
    let t1 = chrono::DateTime::parse_from_rfc3339(sometime)
        .unwrap()
        .timestamp();
    let t2 = timestamp(sometime).unwrap();
    assert_eq!(t1, t2)
}

#[test]
pub fn timezone_minus() {
    let sometime = "2022-04-30T11:37:36.93-04:00";
    let t1 = chrono::DateTime::parse_from_rfc3339(sometime)
        .unwrap()
        .timestamp();
    let t2 = timestamp(sometime).unwrap();
    assert_eq!(t1, t2)
}

#[test]
pub fn timezone() {
    let sometime = "2020-05-18T14:57:37.87-04:00";
    let t1 = chrono::DateTime::parse_from_rfc3339(sometime)
        .unwrap()
        .timestamp();
    let t2 = timestamp_offset(sometime).unwrap();
    assert_eq!(t1, t2.0);
    assert_eq!(t2.1.unwrap(), -4 * 3600);

    let sometime = "2020-05-18T14:57:37.87-05:15";
    let t1 = chrono::DateTime::parse_from_rfc3339(sometime)
        .unwrap()
        .timestamp();
    let t2 = timestamp_offset(sometime).unwrap();
    assert_eq!(t1, t2.0);
    assert_eq!(t2.1.unwrap(), -(5 * 3600 + 15 * 60));

    let sometime = "2020-05-18T14:57:37.87+05:30";
    let t1 = chrono::DateTime::parse_from_rfc3339(sometime)
        .unwrap()
        .timestamp();
    let t2 = timestamp_offset(sometime).unwrap();
    assert_eq!(t1, t2.0);
    assert_eq!(t2.1.unwrap(), 5 * 3600 + 30 * 60);
}

#[test]
fn parse_matches_iso8601_crate_forms() {
    // the same strings through the reference grammar implementation
    for s in [
        "2022-04-30T11:37:36Z",
        "20220430T113736+0200",
        "2022-W17-6T11:37:36-03:30",
        "2022-120T23:59:59.999+00:00",
    ] {
        let dt = iso8601::datetime(s).unwrap();
        let ours = timestamp_offset(s);
        assert!(ours.is_some(), "{s} should parse");
        // spot check the field reading against the reference parser
        match dt.date {
            iso8601::Date::YMD { year, .. } => assert!(year == 2022),
            iso8601::Date::Week { year, .. } => assert!(year == 2022),
            iso8601::Date::Ordinal { year, .. } => assert!(year == 2022),
        }
    }
}

#[test]
fn parse_rejects_bad_calendar_values() {
    assert_eq!(timestamp("2021-02-29T00:00:00Z"), None); // not a leap year
    assert_eq!(timestamp("2022-04-31T00:00:00Z"), None); // April has 30 days
    assert_eq!(timestamp("2022-04-30T24:00:00Z"), None); // hour 24 rejected
    assert_eq!(timestamp("2022-04-30T10:00:60Z"), None); // leap second rejected
    assert_eq!(timestamp("2022-04-30T10:00:00+24:30"), None); // offset a day or more
    assert_eq!(timestamp("not a date"), None);
    // a zone the grammar cannot read is not part of the match and is
    // ignored as trailing input, exactly as the reference grammar's
    // convenience entry point ignores it
    assert_eq!(timestamp("2022-04-30T10:00:00+25:00"), Some(1651312800));
}

#[test]
fn parse_exact_values() {
    // a known instant
    assert_eq!(timestamp("1970-01-01T00:00:00Z"), Some(0));
    assert_eq!(timestamp("1970-01-01T01:00:00+01:00"), Some(0));
    assert_eq!(timestamp("2001-09-09T01:46:40Z"), Some(1_000_000_000));
    // zero offset reads as "no offset recorded"
    assert_eq!(
        timestamp_offset("2022-04-30T11:00:00+00:00"),
        Some((1651316400, None))
    );
    assert_eq!(
        timestamp_offset("2022-04-30T11:00:00Z"),
        Some((1651316400, None))
    );
}

#[test]
fn format_exact_values() {
    assert_eq!(format_timestamp(0, 0), "1970-01-01T00:00:00+00:00");
    assert_eq!(format_timestamp(1651333056, 0), "2022-04-30T15:37:36+00:00");
    assert_eq!(
        format_timestamp(1651333056, 4 * 3600),
        "2022-04-30T19:37:36+04:00"
    );
    assert_eq!(
        format_timestamp(1651333056, -(5 * 3600 + 15 * 60)),
        "2022-04-30T10:22:36-05:15"
    );
}

#[test]
fn format_parse_round_trip() {
    // the round trip law on concrete values
    for (t, off) in [
        (0i64, 0i64),
        (1651333056, 4 * 3600),
        (1651333056, -(5 * 3600 + 15 * 60)),
        (-62167219200, 0),
        (253402300799, 0),
    ] {
        let s = format_timestamp(t, off);
        let (t2, off2) = timestamp_offset(&s).unwrap();
        assert_eq!(t2, t, "instant must survive {s}");
        assert_eq!(off2, if off != 0 { Some(off) } else { None });
    }
}

#[test]
fn civil_conversions_agree() {
    for days in [-719528i64, -1, 0, 1, 19477, 2932896] {
        let (y, m, d) = civil_from_days(days);
        assert_eq!(days_from_civil(y, m as u8, d as u8), days);
    }
    assert_eq!(civil_from_days(0), (1970, 1, 1));
    assert_eq!(civil_from_days(19477), (2023, 4, 30));
    assert_eq!(civil_from_days(-719528), (0, 1, 1));
}
