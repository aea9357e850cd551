use std::time::Duration;

use uhlc::{monotonic_time_clock, zero_clock, HLCBuilder, Timestamp, ZeroClock, ID, NTP64};

fn is_sorted(vec: &[Timestamp]) -> bool {
    let mut it = vec.iter();
    let mut ts = it.next().unwrap();
    for next in it {
        if next <= ts {
            return false;
        };
        ts = next;
    }
    true
}

#[test]
fn hlc_parallel() {
    // Four engines generate timestamps in interleaved rounds, each engine
    // forwarding every output into the next engine, as concurrent tasks
    // would; every series must be strictly increasing and all timestamps
    // pairwise distinct.
    const NB_TIME: usize = 10000;
    let id0: ID = ID::try_from_le_bytes(&[0x01]).unwrap();
    let id1: ID = ID::try_from_le_bytes(&[0x02]).unwrap();
    let id2: ID = ID::try_from_le_bytes(&[0x03]).unwrap();
    let id3: ID = ID::try_from_le_bytes(&[0x04]).unwrap();
    let mut hlc0 = HLCBuilder::new().with_id(id0).build();
    let mut hlc1 = HLCBuilder::new().with_id(id1).build();
    let mut hlc2 = HLCBuilder::new().with_id(id2).build();
    let mut hlc3 = HLCBuilder::new().with_id(id3).build();

    let mut times0: Vec<Timestamp> = Vec::with_capacity(NB_TIME);
    let mut times1: Vec<Timestamp> = Vec::with_capacity(NB_TIME);
    let mut times2: Vec<Timestamp> = Vec::with_capacity(NB_TIME);
    let mut times3: Vec<Timestamp> = Vec::with_capacity(NB_TIME);
    for _ in 0..NB_TIME {
        let ts = hlc0.new_timestamp();
        assert!(hlc1.update_with_timestamp(&ts).is_ok());
        times0.push(ts);
        let ts = hlc1.new_timestamp();
        assert!(hlc2.update_with_timestamp(&ts).is_ok());
        times1.push(ts);
        let ts = hlc2.new_timestamp();
        assert!(hlc3.update_with_timestamp(&ts).is_ok());
        times2.push(ts);
        let ts = hlc3.new_timestamp();
        assert!(hlc0.update_with_timestamp(&ts).is_ok());
        times3.push(ts);
    }

    // Each engine's own series is strictly increasing.
    assert!(is_sorted(&times0));
    assert!(is_sorted(&times1));
    assert!(is_sorted(&times2));
    assert!(is_sorted(&times3));

    // No duplicate among all the timestamps.
    let mut all_times: Vec<Timestamp> = times0
        .into_iter()
        .chain(times1)
        .chain(times2)
        .chain(times3)
        .collect::<Vec<Timestamp>>();
    assert_eq!(NB_TIME * 4, all_times.len());
    all_times.sort();
    all_times.dedup();
    assert_eq!(NB_TIME * 4, all_times.len());
}

#[test]
fn hlc_update_with_timestamp() {
    let id: ID = ID::rand();
    let mut hlc = HLCBuilder::new().with_id(id).build();

    // Updating with an old timestamp does not break the engine.
    let past_ts = Timestamp::new(Default::default(), id);
    let now_ts = hlc.new_timestamp();
    assert!(hlc.update_with_timestamp(&past_ts).is_ok());
    assert!(hlc.new_timestamp() > now_ts);

    // Updating with a timestamp exceeding the drift bound is refused.
    let now_ts = hlc.new_timestamp();
    let future_time = now_ts.get_time().add(NTP64::from_duration(Duration::from_millis(1000)));
    let future_ts = Timestamp::new(future_time, id);
    assert!(hlc.update_with_timestamp(&future_ts).is_err())
}

#[test]
fn hlc_zero_clock_is_incremental() {
    // With the zero clock the engine is fully deterministic: the physical
    // reading never advances, so every generate step increments the
    // logical counter by one.  Past 16 steps the counter deliberately
    // carries into the time bits and the series keeps counting.
    let id = ID::try_from_u128(0x33).unwrap();
    let mut hlc = HLCBuilder::new().with_id(id).with_clock(ZeroClock).build();
    for expected in 1u64..=40 {
        let ts = hlc.new_timestamp();
        assert_eq!(ts.get_time().as_u64(), expected);
        assert_eq!(ts.get_id(), &id);
    }
}

#[test]
fn hlc_causal_catch_up() {
    // Once B has merged a timestamp of A, everything B generates afterwards
    // exceeds it.
    let ida = ID::try_from_u128(0xa).unwrap();
    let idb = ID::try_from_u128(0xb).unwrap();
    let mut a = HLCBuilder::new().with_id(ida).with_clock(ZeroClock).build();
    let mut b = HLCBuilder::new().with_id(idb).with_clock(ZeroClock).build();

    for _ in 0..100 {
        a.new_timestamp();
    }
    let ts_a = a.new_timestamp();
    assert_eq!(ts_a.get_time().as_u64(), 101);

    assert!(b.update_with_timestamp(&ts_a).is_ok());
    let ts_b = b.new_timestamp();
    assert!(ts_b > ts_a);
    // B jumped one past the merged time, then incremented once.
    assert_eq!(ts_b.get_time().as_u64(), 103);
}

#[test]
fn hlc_drift_rejection() {
    // With the smallest configurable drift bound and a frozen physical
    // clock, a far-future timestamp is rejected and the engine state is
    // left unchanged.
    let id = ID::try_from_u128(0x33).unwrap();
    let peer = ID::try_from_u128(0x44).unwrap();
    let mut hlc = HLCBuilder::new()
        .with_id(id)
        .with_clock(ZeroClock)
        .with_max_delta(Duration::from_secs(0))
        .build();

    let ts1 = hlc.new_timestamp();
    assert_eq!(ts1.get_time().as_u64(), 1);

    let far = Timestamp::new(NTP64(1 << 32), peer);
    let err = hlc.update_with_timestamp(&far).unwrap_err();
    assert_eq!(err.id, peer);
    assert_eq!(err.msg_time, NTP64(1 << 32));
    assert_eq!(err.delta, *hlc.get_delta());
    assert_eq!(err.now, NTP64(0));

    // The engine state is unchanged: the next timestamp continues the
    // incremental series instead of following the rejected time.
    let ts2 = hlc.new_timestamp();
    assert_eq!(ts2.get_time().as_u64(), 2);

    // An incoming time within the bound is accepted.
    let near = Timestamp::new(NTP64(1), peer);
    assert!(hlc.update_with_timestamp(&near).is_ok());
}

#[test]
fn monotonic_clock_sanity() {
    let t1 = monotonic_time_clock();
    let t2 = monotonic_time_clock();
    assert!(t2 >= t1);
    let mut hlc = HLCBuilder::new()
        .with_id(ID::rand())
        .with_clock(uhlc::MonotonicClock)
        .build();
    let ts1 = hlc.new_timestamp();
    let ts2 = hlc.new_timestamp();
    assert!(ts2 > ts1);
}

#[test]
fn builder_configuration() {
    // The default drift bound is 500 ms: half of the 32-bit fraction span,
    // rounded one unit up.
    let hlc = HLCBuilder::new().build();
    assert_eq!(hlc.get_delta().as_u64(), (1u64 << 31) + 1);

    let id = ID::try_from_u128(7).unwrap();
    let hlc = HLCBuilder::new()
        .with_id(id)
        .with_max_delta(Duration::from_millis(1000))
        .build();
    assert_eq!(*hlc.get_id(), id);
    assert_eq!(hlc.get_delta().as_u64(), (1u64 << 32) + 1);

    assert_eq!(zero_clock().as_u64(), 0);
}

#[test]
fn hlc_default() {
    // The default engine generates strictly increasing timestamps and
    // accepts timestamps of another default engine.
    let mut hlc: uhlc::HLC<uhlc::SystemClock> = Default::default();
    let ts1 = hlc.new_timestamp();
    let ts2 = hlc.new_timestamp();
    assert!(ts2 > ts1);

    let mut hlc2: uhlc::HLC<uhlc::SystemClock> = Default::default();
    let other_ts = hlc2.new_timestamp();
    assert!(hlc.update_with_timestamp(&other_ts).is_ok());
    let ts3 = hlc.new_timestamp();
    assert!(ts3 > ts2);
    assert!(ts3 > other_ts);
}
