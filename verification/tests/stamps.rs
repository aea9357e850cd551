use std::str::FromStr;
use std::time::Duration;

use uhlc::{system_time_clock, HLCBuilder, Timestamp, ID, NTP64};

#[test]
fn test_timestamp() {
    let id1: ID = ID::try_from_le_bytes(&[0x01]).unwrap();
    let id2: ID = ID::try_from_le_bytes(&[0x02]).unwrap();

    let ts1_epoch = Timestamp::new(Default::default(), id1);
    assert_eq!(ts1_epoch.get_time().to_system_time(), std::time::UNIX_EPOCH);
    assert_eq!(ts1_epoch.get_id(), &id1);

    let ts2_epoch = Timestamp::new(Default::default(), id2);
    assert_eq!(ts2_epoch.get_time().to_system_time(), std::time::UNIX_EPOCH);
    assert_eq!(ts2_epoch.get_id(), &id2);

    // Two timestamps with the same time but different identifiers are
    // distinct and ordered.
    assert_ne!(ts1_epoch, ts2_epoch);
    assert!(ts1_epoch < ts2_epoch);

    let now = system_time_clock();
    let ts1_now = Timestamp::new(now, id1);
    let ts2_now = Timestamp::new(now, id2);
    assert_ne!(ts1_now, ts2_now);
    assert!(ts1_now < ts2_now);

    assert!(ts1_epoch < ts1_now);
    assert!(ts2_epoch < ts2_now);

    let s = ts1_now.to_string();
    assert_eq!(ts1_now, s.parse().unwrap());

    let diff = ts1_now.get_diff_duration(&ts2_now);
    assert_eq!(diff, Duration::from_secs(0));
}

#[test]
fn bijective_to_string() {
    let mut hlc = HLCBuilder::new().with_id(ID::rand()).build();
    for _ in 1..10000 {
        let now_ts = hlc.new_timestamp();
        assert_eq!(now_ts, Timestamp::from_str(&now_ts.to_string()).unwrap());
    }
}

#[test]
fn timestamp_string_exact() {
    let t = Timestamp::new(NTP64(7386690599959157260), ID::try_from_u128(0x33).unwrap());
    assert_eq!(t.to_string(), "7386690599959157260/33");
    assert_eq!(Timestamp::from_str("7386690599959157260/33").unwrap(), t);
}

#[test]
fn timestamp_rfc3339_forms() {
    let id = ID::try_from_u128(0x33).unwrap();
    let t = Timestamp::new(NTP64(0), id);
    assert_eq!(
        t.to_string_rfc3339_lossy(),
        "1970-01-01T00:00:00.000000000Z/33"
    );

    let parsed = Timestamp::parse_rfc3339("1970-01-01T00:00:00Z/33").unwrap();
    assert_eq!(parsed.get_time().as_u64(), 1);
    assert_eq!(parsed.get_id(), &id);

    // A generated timestamp survives the lossy form up to a few fraction
    // units.
    let mut hlc = HLCBuilder::new().with_id(id).build();
    let ts = hlc.new_timestamp();
    let back = Timestamp::parse_rfc3339(&ts.to_string_rfc3339_lossy()).unwrap();
    assert_eq!(back.get_id(), ts.get_id());
    let diff = back.get_time().as_u64().abs_diff(ts.get_time().as_u64());
    assert!(diff <= 8);
}

#[test]
fn timestamp_parse_errors() {
    assert_eq!(
        Timestamp::from_str("123456").unwrap_err().cause,
        "No '/' found in String"
    );
    assert_eq!(
        Timestamp::from_str("12a/33").unwrap_err().cause,
        "Invalid unsigned decimal"
    );
    assert_eq!(
        Timestamp::from_str("123/0bcd").unwrap_err().cause,
        "Leading 0s are not valid"
    );
    assert_eq!(
        Timestamp::from_str("123/").unwrap_err().cause,
        "Empty strings are not valid"
    );
    Timestamp::parse_rfc3339("123/33").unwrap_err();
    Timestamp::parse_rfc3339("1970-01-01T00:00:00Z").unwrap_err();
}
