use diskdrift::error::WhyBigError;
use diskdrift::since::{human_ago, parse, DurationSecs};

#[test]
fn parses_all_units() {
    assert_eq!(parse("30m").unwrap().0, 30 * 60);
    assert_eq!(parse("24h").unwrap().0, 24 * 3600);
    assert_eq!(parse("7d").unwrap().0, 7 * 86_400);
    assert_eq!(parse("4w").unwrap().0, 4 * 604_800);
    assert_eq!(parse(" 2d ").unwrap().0, 2 * 86_400);
}

#[test]
fn rejects_bad_inputs() {
    for bad in [
        "",
        "0d",
        "-7d",
        "7",
        "d",
        "1y",
        "1mo",
        "abc",
        "1.5d",
        "999999999999999999999d",
    ] {
        assert!(parse(bad).is_err(), "{bad:?} must be rejected");
    }
}

#[test]
fn huge_duration_saturates_ms() {
    // A legal-but-huge value must not overflow when converting to ms.
    let ok = DurationSecs(i64::MAX / 1000);
    let _ = ok.as_ms();
}

#[test]
fn human_wording() {
    assert_eq!(human_ago(7 * 86_400), "7 days ago");
    assert_eq!(human_ago(86_400), "1 day ago");
    assert_eq!(human_ago(2 * 3600), "2 hours ago");
    assert_eq!(human_ago(30 * 60), "30 minutes ago");
    assert_eq!(human_ago(4 * 604_800), "4 weeks ago");
}

#[test]
fn as_ms_multiplies_and_saturates_on_overflow() {
    assert_eq!(DurationSecs(90).as_ms(), 90_000);
    assert_eq!(DurationSecs(i64::MAX).as_ms(), i64::MAX);
    assert_eq!(DurationSecs(i64::MAX / 1000).as_ms(), (i64::MAX / 1000) * 1000);
}

#[test]
fn plus_sign_and_unicode_spaces_follow_integer_parsing_and_trim() {
    assert_eq!(parse("+3h").unwrap().0, 3 * 3600);
    assert_eq!(parse("\u{3000}5m\t").unwrap().0, 300);
    assert!(parse("+-3h").is_err());
    assert!(parse("+h").is_err());
}

#[test]
fn bad_duration_carries_the_trimmed_input() {
    let err = parse("  1y ").unwrap_err();
    match &err {
        diskdrift::error::WhyBigError::BadDuration(s) => assert_eq!(s, "1y"),
        other => panic!("unexpected {other:?}"),
    }
    assert!(err.message().contains("`1y`"));
}

#[test]
fn overflowing_product_is_rejected() {
    // Fits i64 as a number, but not once multiplied by the unit.
    assert!(parse("9223372036854775807m").is_err());
    assert_eq!(parse("9223372036854775807").is_err(), true);
    assert_eq!(parse("15250284452471w").unwrap().0, 15250284452471 * 604_800);
    assert!(parse("15250284452472w").is_err());
}

#[test]
fn odd_second_counts_fall_back_to_minutes() {
    assert_eq!(human_ago(604_800), "7 days ago");
    assert_eq!(human_ago(90), "1 minute ago");
    assert_eq!(human_ago(0), "1 minute ago");
    assert_eq!(human_ago(-120), "1 minute ago");
    assert_eq!(human_ago(3600), "1 hour ago");
    assert_eq!(human_ago(14 * 86_400), "2 weeks ago");
}

#[test]
fn non_ascii_suffix_is_a_bad_duration() {
    assert!(matches!(parse("7日"), Err(WhyBigError::BadDuration(t)) if t == "7日"));
    assert!(matches!(parse(" 5µ "), Err(WhyBigError::BadDuration(t)) if t == "5µ"));
}

#[test]
fn milliseconds_saturate_at_both_bounds() {
    assert_eq!(DurationSecs(i64::MAX / 1000).as_ms(), 9_223_372_036_854_775_000);
    assert_eq!(DurationSecs(i64::MAX).as_ms(), i64::MAX);
    assert_eq!(DurationSecs(i64::MIN).as_ms(), i64::MIN);
    assert_eq!(DurationSecs(-7).as_ms(), -7000);
}
