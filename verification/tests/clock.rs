use vaultx::clock::{chrono_now, chrono_now_pub, days_to_ymd, format_unix_iso, is_leap};

#[test]
fn leap_years() {
    assert!(is_leap(2000));
    assert!(is_leap(2024));
    assert!(!is_leap(1900));
    assert!(!is_leap(2023));
    assert!(is_leap(0));
    assert!(is_leap(-4));
}

#[test]
fn days_since_epoch_to_dates() {
    assert_eq!(days_to_ymd(0), (1970, 1, 1));
    assert_eq!(days_to_ymd(31), (1970, 2, 1));
    assert_eq!(days_to_ymd(59), (1970, 3, 1));
    assert_eq!(days_to_ymd(364), (1970, 12, 31));
    assert_eq!(days_to_ymd(365), (1971, 1, 1));
    assert_eq!(days_to_ymd(11016), (2000, 2, 29));
    assert_eq!(days_to_ymd(11017), (2000, 3, 1));
    assert_eq!(days_to_ymd(20088), (2024, 12, 31));
    assert_eq!(days_to_ymd(2932896), (9999, 12, 31));
}

#[test]
fn iso_timestamps() {
    assert_eq!(format_unix_iso(0), "1970-01-01T00:00:00.000Z");
    assert_eq!(format_unix_iso(1_700_000_000), "2023-11-14T22:13:20.000Z");
    assert_eq!(format_unix_iso(951_782_400 + 3661), "2000-02-29T01:01:01.000Z");
    assert_eq!(format_unix_iso(253_402_300_799), "9999-12-31T23:59:59.000Z");
    assert_eq!(format_unix_iso(253_402_300_800), "10000-01-01T00:00:00.000Z");
}

#[test]
fn now_is_an_iso_timestamp() {
    for t in [chrono_now(), chrono_now_pub()] {
        let b = t.as_bytes();
        assert_eq!(b.len(), 24, "{t}");
        assert!(t.ends_with(".000Z"));
        assert_eq!((b[4], b[7], b[10], b[13], b[16]), (b'-', b'-', b'T', b':', b':'));
        assert!(t.as_str() >= "2024-01-01T00:00:00.000Z");
    }
}
