use diskdrift::output::size;
use diskdrift::output::size::format_signed;

#[test]
fn boundaries() {
    assert_eq!(size::format(0), "0 B");
    assert_eq!(size::format(1), "1 B");
    assert_eq!(size::format(1023), "1023 B");
    assert_eq!(size::format(1024), "1.0 KB");
    assert_eq!(size::format(1024 * 1024), "1.0 MB");
    assert_eq!(size::format(1024 * 1024 * 1024), "1.0 GB");
}

#[test]
fn representative_values() {
    assert_eq!(size::format(238_720_000_000), "222.3 GB");
    assert_eq!(size::format(730 * 1024 * 1024), "730.0 MB");
    assert_eq!(size::format(17_400_000_000), "16.2 GB");
}

#[test]
fn large_does_not_overflow_units() {
    // Still formats, clamps at PB.
    assert_eq!(size::format(u64::MAX), "16384.0 PB");
}

#[test]
fn matches_float_formatting_on_sample_values() {
    for b in [
        1024u64, 1280, 1535, 1536, 2047, 3686, 3789, 4096, 8000, 1_048_575, 1_048_576,
        123_456_789, 9_007_199_254_740_993, 18_014_398_509_481_985, 1_152_921_504_606_846_976,
        u64::MAX - 1,
    ] {
        let mut value = b as f64;
        let mut idx = 0;
        let units = ["B", "KB", "MB", "GB", "TB", "PB"];
        while value >= 1024.0 && idx < units.len() - 1 {
            value /= 1024.0;
            idx += 1;
        }
        assert_eq!(size::format(b), format!("{value:.1} {}", units[idx]), "bytes {b}");
    }
}

#[test]
fn signed_deltas_carry_their_sign() {
    assert_eq!(format_signed(0), "0 B");
    assert_eq!(format_signed(4198), "+4.1 KB");
    assert_eq!(format_signed(-300), "-300 B");
    assert_eq!(format_signed(-(u64::MAX as i128)), "-16384.0 PB");
}
