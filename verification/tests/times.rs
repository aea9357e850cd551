use std::str::FromStr;
use std::time::Duration;

use uhlc::NTP64;

#[test]
fn ntp64_parts() {
    let t = NTP64((1u64 << 32) + (1u64 << 31) + 1);
    assert_eq!(t.as_secs(), 1);
    assert_eq!(t.subsec_nanos(), 500_000_000);
    assert_eq!(t.as_u64(), 0x1_8000_0001);

    let d = t.to_duration();
    assert_eq!(d, Duration::new(1, 500_000_000));
}

#[test]
fn ntp64_from_duration() {
    // The conversion scales nanoseconds to the 32-bit fraction and rounds
    // one unit up.
    assert_eq!(
        NTP64::from_duration(Duration::new(1, 500_000_000)).as_u64(),
        (1u64 << 32) + (1u64 << 31) + 1
    );
    assert_eq!(NTP64::from_duration(Duration::new(0, 0)).as_u64(), 1);
    assert_eq!(
        NTP64::from_secs_nanos(0, 500_000_000).as_u64(),
        (1u64 << 31) + 1
    );
}

#[test]
fn ntp64_decimal_round_trip() {
    for v in [0u64, 1, 9, 10, 1234567890123456789, u64::MAX] {
        let t = NTP64(v);
        let s = t.to_string();
        assert_eq!(NTP64::from_str(&s).unwrap(), t);
    }
    assert_eq!(NTP64(0).to_string(), "0");
    assert_eq!(NTP64(u64::MAX).to_string(), "18446744073709551615");
}

#[test]
fn ntp64_decimal_errors() {
    assert_eq!(
        NTP64::from_str("abc").unwrap_err().cause,
        "Invalid unsigned decimal"
    );
    NTP64::from_str("").unwrap_err();
    NTP64::from_str("-1").unwrap_err();
    NTP64::from_str("12 3").unwrap_err();
    // One above u64::MAX overflows.
    NTP64::from_str("18446744073709551616").unwrap_err();
}

#[test]
fn ntp64_rfc3339() {
    // The epoch formats to the fixed nanosecond-precision form.
    assert_eq!(
        NTP64(0).to_string_rfc3339_lossy(),
        "1970-01-01T00:00:00.000000000Z"
    );

    // Parsing scales and rounds one fraction unit up, as from_duration does.
    let t = NTP64::parse_rfc3339("1970-01-01T00:00:00Z").unwrap();
    assert_eq!(t.as_u64(), 1);
    let t = NTP64::parse_rfc3339("1970-01-01T00:00:01.5Z").unwrap();
    assert_eq!(t.as_u64(), (1u64 << 32) + (1u64 << 31) + 1);

    assert_eq!(
        NTP64::parse_rfc3339("not a time").unwrap_err().cause,
        "Invalid RFC 3339 time"
    );
    // A time beyond the representable 32-bit seconds is rejected rather
    // than wrapped.
    assert_eq!(
        NTP64::parse_rfc3339("2107-01-01T00:00:00Z").unwrap_err().cause,
        "Time out of range"
    );
}

#[test]
fn ntp64_rfc3339_round_trip_is_close() {
    // The RFC 3339 form is lossy: formatting rounds the fraction down to
    // nanoseconds and parsing rounds one unit up, so a round trip lands
    // within a few fraction units of the original.
    for v in [
        0x1_0000_0000u64,
        0x1_8000_0001,
        0x1234_5678_9abc_def0 & 0x0000_00ff_ffff_ffff,
        (1u64 << 32) + 12345,
    ] {
        let t = NTP64(v);
        let back = NTP64::parse_rfc3339(&t.to_string_rfc3339_lossy()).unwrap();
        let diff = back.as_u64().abs_diff(t.as_u64());
        assert!(diff <= 8, "round trip moved {} by {}", v, diff);
    }
}

#[test]
fn ntp64_to_system_time() {
    let t = NTP64::from_duration(Duration::from_secs(10));
    let st = t.to_system_time();
    let d = st.duration_since(std::time::UNIX_EPOCH).unwrap();
    assert_eq!(d.as_secs(), 10);
}

#[test]
fn ntp64_arithmetic() {
    assert_eq!(NTP64(5).add(NTP64(7)), NTP64(12));
    assert_eq!(NTP64(12).sub(NTP64(7)), NTP64(5));
    let half = NTP64::from_secs_nanos(0, 500_000_000);
    assert_eq!(half.add(half), NTP64((1u64 << 32) + 2));
}
