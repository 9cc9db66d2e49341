//! Human-friendly numbers, durations and timestamps.

use std::time::Duration;

use diskdrift::scanner::Elapsed;

use diskdrift::output::human::{date_short, datetime_ms, duration, duration_parts_text, local_or_unknown, number};
use chrono::TimeZone;

#[test]
fn number_groups_thousands() {
    assert_eq!(number(0), "0");
    assert_eq!(number(999), "999");
    assert_eq!(number(1_000), "1,000");
    assert_eq!(number(423_817), "423,817");
    assert_eq!(number(1_000_000_000), "1,000,000,000");
}

#[test]
fn duration_formats() {
    assert_eq!(duration(Elapsed::from_millis(500)), "0.500s");
    assert_eq!(duration(Elapsed::new(8, 300_000_000)), "8.3s");
    assert_eq!(duration(Elapsed::new(83, 0)), "1m 23s");
}

#[test]
fn datetime_has_expected_shape() {
    let out = datetime_ms(1_609_459_200_084, local_offset(1_609_459_200_084));
    assert_eq!(out.len(), "YYYY-MM-DD HH:MM:SS".len());
    let b = out.as_bytes();
    assert_eq!(b[4], b'-');
    assert_eq!(b[7], b'-');
    assert_eq!(b[10], b' ');
    assert_eq!(b[13], b':');
    assert_eq!(b[16], b':');
}

#[test]
fn short_dates_are_month_and_day() {
    let out = date_short(1_609_459_200_084, local_offset(1_609_459_200_084));
    assert_eq!(out.len(), "Sep 09".len());
    assert_eq!(out.as_bytes()[3], b' ');
    assert_eq!(local_or_unknown(None), "unknown");
    assert_eq!(local_or_unknown(Some("x".to_string())), "x");
}

#[test]
fn durations_match_float_formatting() {
    for (secs, nanos) in [
        (0u64, 0u32),
        (0, 1),
        (0, 62_500_000),
        (0, 499_999),
        (0, 500_000),
        (0, 999_999_999),
        (0, 123_456_789),
        (1, 0),
        (1, 950_000_000),
        (7, 250_000_000),
        (59, 999_999_999),
        (59, 949_999_999),
        (60, 0),
        (3_725, 5),
    ] {
        let expected = {
            let d = Duration::new(secs, nanos);
            let s = d.as_secs_f64();
            if s < 1.0 {
                format!("{s:.3}s")
            } else if s < 60.0 {
                format!("{s:.1}s")
            } else {
                format!("{}m {}s", secs / 60, secs % 60)
            }
        };
        assert_eq!(duration_parts_text(secs, nanos), expected, "secs {secs} nanos {nanos}");
    }
}

#[test]
fn local_timestamps_have_the_documented_shape() {
    let t = diskdrift::output::human::datetime_ms(1_757_340_003_000, local_offset(1_757_340_003_000));
    let b = t.as_bytes();
    assert_eq!(t.len(), 19);
    for i in [0, 1, 2, 3, 5, 6, 8, 9, 11, 12, 14, 15, 17, 18] {
        assert!(b[i].is_ascii_digit(), "{t}");
    }
    assert_eq!((b[4], b[7], b[10], b[13], b[16]), (b'-', b'-', b' ', b':', b':'));
    let d = diskdrift::output::human::date_short(1_757_340_003_000, local_offset(1_757_340_003_000));
    assert_eq!(d.len(), 6);
    let months = ["Jan", "Feb", "Mar", "Apr", "May", "Jun", "Jul", "Aug", "Sep", "Oct", "Nov", "Dec"];
    assert!(months.contains(&&d[0..3]), "{d}");
    assert_eq!(&d[3..4], " ");
    assert!(d[4..].bytes().all(|c| c.is_ascii_digit()));
}

#[test]
fn timestamps_outside_the_calendar_render_unknown() {
    assert_eq!(diskdrift::output::human::datetime_ms(i64::MIN, local_offset(i64::MIN)), "unknown");
    assert_eq!(diskdrift::output::human::date_short(i64::MAX, local_offset(i64::MAX)), "unknown");
}

#[test]
fn elapsed_carries_whole_seconds_and_truncates_milliseconds() {
    let e = Elapsed::new(1, 2_500_000_000);
    assert_eq!((e.as_secs(), e.subsec_nanos()), (3, 500_000_000));
    assert_eq!(duration(e), "3.5s");
    assert_eq!(Elapsed::new(2, 1_999_999).millis_u64(), 2001);
    assert_eq!(Elapsed::new(u64::MAX, 0).millis_u64(), u64::MAX.wrapping_mul(1000));
}

/// The machine's local offset at `ms`, as the program computes it.
fn local_offset(ms: i64) -> Option<i32> {
    chrono::DateTime::from_timestamp_millis(ms)
        .map(|dt| chrono::Local.offset_from_utc_datetime(&dt.naive_utc()).local_minus_utc())
}

#[test]
fn labels_are_the_instant_at_the_given_offset() {
    assert_eq!(datetime_ms(1_609_459_200_084, Some(0)), "2021-01-01 00:00:00");
    assert_eq!(datetime_ms(1_609_459_200_084, Some(-3600)), "2020-12-31 23:00:00");
    assert_eq!(datetime_ms(1_609_459_200_084, Some(19_800)), "2021-01-01 05:30:00");
    assert_eq!(date_short(1_609_459_200_084, Some(0)), "Jan 01");
    assert_eq!(date_short(1_609_459_200_084, Some(-1)), "Dec 31");
    assert_eq!(datetime_ms(0, None), "unknown");
    assert_eq!(datetime_ms(0, Some(86_400)), "unknown");
}
