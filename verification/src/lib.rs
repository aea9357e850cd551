//! A unique hybrid logical clock (HLC).
//!
//! The clock combines a physical time reading with a small logical counter
//! packed into the low-order bits of a 64-bit fixed-point time value, and
//! stamps every produced value with a node identifier.  Timestamps produced
//! anywhere in a distributed system are then totally ordered and unique,
//! without a central time source: an engine's times never decrease, a
//! generated timestamp is strictly above everything the engine has produced
//! or merged, and an incoming timestamp too far ahead of the local physical
//! clock is rejected.

use vstd::prelude::*;

use core::time::Duration;

pub mod digits;
pub mod id;
pub mod ntp64;
pub mod timestamp;

pub use id::{ParseIDError, SizeError, ID};
pub use ntp64::{ParseNTP64Error, NTP64};
pub use timestamp::{ParseTimestampError, Timestamp};

use crate::ntp64::{duration_as_secs, duration_subsec_nanos, spec_ntp64_from, MAX_NB_SEC};
use crate::timestamp::{lemma_ts_lt_by_time, spec_ts_lt};

verus! {

/// The size in bits of the logical counter packed into the low-order bits
/// of an `NTP64` time held by a clock engine.
pub const CSIZE: u8 = 4;

/// Bit mask of the logical-counter part of a 64-bit time value: the low
/// `CSIZE` bits.
pub const CMASK: u64 = 0xF;

/// Bit mask of the physical part of a 64-bit time value: everything above
/// the low `CSIZE` bits.
pub const LMASK: u64 = 0xFFFF_FFFF_FFFF_FFF0;

/// Default maximum accepted drift of an incoming timestamp, in
/// milliseconds.
pub const DEFAULT_DELTA_MS: u64 = 500;

/// A time with its logical-counter bits cleared: rounded down to a
/// multiple of the counter span of 16.
pub open spec fn spec_masked(t: u64) -> u64 {
    (t - (t % 16)) as u64
}

/// Clearing the low `CSIZE` bits with the mask is exactly rounding down to
/// a multiple of the counter span.
proof fn lemma_mask_is_and(t: u64)
    by (bit_vector)
    ensures
        t & LMASK == t - (t % 16),
{
}

/// Masking a value keeps it within one counter span below, masked values
/// are multiples of the counter span, and masking is idempotent.
proof fn lemma_mask_props(t: u64)
    ensures
        spec_masked(t) <= t,
        t < spec_masked(t) + 16,
        spec_masked(spec_masked(t)) == spec_masked(t),
        spec_masked(t) % 16 == 0,
{
    vstd::arithmetic::div_mod::lemma_fundamental_div_mod(t as int, 16);
    vstd::arithmetic::div_mod::lemma_mod_multiples_basic((t / 16) as int, 16);
    assert(spec_masked(t) == 16 * (t / 16));
}

/// A strictly greater masked value is strictly greater than the whole other
/// value: masked values differ by at least a counter span.
proof fn lemma_mask_gt(a: u64, b: u64)
    requires
        spec_masked(a) > spec_masked(b),
    ensures
        spec_masked(a) > b,
{
    vstd::arithmetic::div_mod::lemma_fundamental_div_mod(a as int, 16);
    vstd::arithmetic::div_mod::lemma_fundamental_div_mod(b as int, 16);
    assert(spec_masked(a) == 16 * (a / 16));
    assert(spec_masked(b) == 16 * (b / 16));
}

/// The engine time after a generate step at physical reading `now`: the
/// masked fresh reading if it moved past the last tick, else the last time
/// plus one, counting in the logical counter bits.
pub open spec fn spec_generate_next(last: u64, now: u64) -> u64 {
    if spec_masked(now) > spec_masked(last) {
        spec_masked(now)
    } else {
        (last + 1) as u64
    }
}

/// Whether an incoming time is rejected for drift: it is ahead of the
/// masked physical reading by more than `delta`.
pub open spec fn spec_merge_rejects(delta: u64, now: u64, msg: u64) -> bool {
    msg > spec_masked(now) && msg - spec_masked(now) > delta
}

/// The engine time after an accepted merge: the greatest of the masked
/// reading, the incoming time and the last time — taken as is when the
/// reading wins, one above the incoming time when it wins (so the merged
/// state never collides with it), and one above the last time otherwise.
pub open spec fn spec_merge_next(last: u64, now: u64, msg: u64) -> u64 {
    let n = spec_masked(now);
    if n >= msg && n >= last {
        n
    } else if msg >= last {
        (msg + 1) as u64
    } else {
        (last + 1) as u64
    }
}

/// Monotonicity: a generate step strictly increases the engine time, for
/// every physical reading — fresh, stalled or jumped backward.
pub proof fn lemma_generate_monotonic(last: u64, now: u64)
    requires
        last < u64::MAX,
    ensures
        spec_generate_next(last, now) > last,
{
    lemma_mask_props(now);
    lemma_mask_props(last);
    if spec_masked(now) > spec_masked(last) {
        lemma_mask_gt(now, last);
    }
}

/// An accepted merge never decreases the engine time and reaches at least
/// the incoming time.
pub proof fn lemma_merge_catches_up(last: u64, now: u64, msg: u64)
    requires
        last < u64::MAX,
        msg < u64::MAX,
    ensures
        spec_merge_next(last, now, msg) >= last,
        spec_merge_next(last, now, msg) >= msg,
{
}

/// Causal catch-up: once a merge has brought the engine time to at least an
/// incoming timestamp's time, every timestamp generated after it — whose
/// time is strictly greater — exceeds the incoming one in the total order,
/// whatever the identifiers.
pub proof fn lemma_causal_catch_up(incoming: Timestamp, merged: u64, produced: Timestamp)
    requires
        merged >= incoming.spec_time().0,
        produced.spec_time().0 > merged,
    ensures
        spec_ts_lt(incoming, produced),
{
    lemma_ts_lt_by_time(incoming, produced);
}

/// Drift rejection with a zero bound: an incoming time is rejected exactly
/// when it is strictly ahead of the masked physical reading.
pub proof fn lemma_zero_delta_rejects(now: u64, msg: u64)
    ensures
        spec_merge_rejects(0, now, msg) <==> msg > spec_masked(now),
{
}

/// A capability returning the current physical time.
///
/// The time it returns need not be monotonic and carries no promise at all:
/// the engine compensates for stalled or backward readings.
pub trait Clock {
    /// The current physical time.
    fn now(&mut self) -> NTP64;
}

/// Relies on `SystemTime::now` and `duration_since`: the current wall-clock
/// time as whole seconds and sub-second nanoseconds since the epoch of
/// 1970-01-01, the nanoseconds below one billion; a clock before the epoch
/// reads as the epoch.
#[verifier::external_body]
fn wall_clock_secs_nanos() -> (r: (u64, u32))
    ensures
        r.1 < 1_000_000_000,
{
    match std::time::SystemTime::now().duration_since(std::time::UNIX_EPOCH) {
        Ok(d) => (d.as_secs(), d.subsec_nanos()),
        Err(_) => (0, 0),
    }
}

/// Relies on nix's `clock_gettime(CLOCK_MONOTONIC)`: the monotonic clock
/// reading as whole seconds and sub-second nanoseconds since an unspecified
/// start, the nanoseconds below one billion; a failed read reads as zero.
#[verifier::external_body]
fn monotonic_clock_secs_nanos() -> (r: (u64, u32))
    ensures
        r.1 < 1_000_000_000,
{
    match nix::time::clock_gettime(nix::time::ClockId::CLOCK_MONOTONIC) {
        Ok(ts) => (ts.tv_sec() as u64, ts.tv_nsec() as u32),
        Err(_) => (0, 0),
    }
}

/// A physical clock relying on the system wall clock, as an [`NTP64`]
/// relative to the epoch of 1970-01-01.  This is the default clock of an
/// engine.  A reading beyond the representable seconds saturates to the
/// greatest representable time; the upward rounding keeps every reading
/// non-zero.
pub fn system_time_clock() -> (r: NTP64)
    ensures
        r.0 >= 1,
{
    let (secs, nanos) = wall_clock_secs_nanos();
    let secs = if secs > MAX_NB_SEC {
        MAX_NB_SEC
    } else {
        secs
    };
    NTP64::from_secs_nanos(secs, nanos)
}

/// A physical clock relying on the monotonic system clock.
///
/// Its readings are relative to an unspecified start (likely the host
/// boot), so times produced with it on different hosts are not comparable.
/// A reading beyond the representable seconds saturates to the greatest
/// representable time; the upward rounding keeps every reading non-zero.
pub fn monotonic_time_clock() -> (r: NTP64)
    ensures
        r.0 >= 1,
{
    let (secs, nanos) = monotonic_clock_secs_nanos();
    let secs = if secs > MAX_NB_SEC {
        MAX_NB_SEC
    } else {
        secs
    };
    NTP64::from_secs_nanos(secs, nanos)
}

/// A dummy clock that always returns zero.
///
/// With it an engine produces purely incremental timestamps starting from
/// zero, which suits environments without a wall clock.
pub fn zero_clock() -> (r: NTP64)
    ensures
        r.0 == 0,
{
    NTP64(0)
}

/// The wall clock as a [`Clock`] capability: [`system_time_clock`].
#[derive(Clone, Copy, Debug)]
pub struct SystemClock;

impl Clock for SystemClock {
    fn now(&mut self) -> NTP64 {
        system_time_clock()
    }
}

/// The monotonic clock as a [`Clock`] capability: [`monotonic_time_clock`].
#[derive(Clone, Copy, Debug)]
pub struct MonotonicClock;

impl Clock for MonotonicClock {
    fn now(&mut self) -> NTP64 {
        monotonic_time_clock()
    }
}

/// The zero clock as a [`Clock`] capability: [`zero_clock`].
#[derive(Clone, Copy, Debug)]
pub struct ZeroClock;

impl Clock for ZeroClock {
    fn now(&mut self) -> NTP64 {
        zero_clock()
    }
}

/// The error of merging a timestamp whose time exceeds the local physical
/// reading by more than the configured bound; it carries the offending
/// identifier, the configured bound, the incoming time and the masked local
/// reading.  The engine state is left unchanged.
#[derive(Debug, Clone, Copy, PartialEq, Eq)]
pub struct DriftRejected {
    pub id: ID,
    pub delta: NTP64,
    pub msg_time: NTP64,
    pub now: NTP64,
}

/// A hybrid logical clock engine generating [`Timestamp`]s.
///
/// The engine owns one mutable value, the last observed time, which never
/// decreases across generated and merged timestamps; its identifier and
/// drift bound are fixed at construction.
pub struct HLC<C> {
    id: ID,
    clock: C,
    delta: NTP64,
    last_time: NTP64,
}

impl<C> HLC<C> {
    /// The identifier this engine stamps its timestamps with.
    pub closed spec fn spec_id(&self) -> ID {
        self.id
    }

    /// The configured maximum accepted drift.
    pub closed spec fn spec_delta(&self) -> NTP64 {
        self.delta
    }

    /// The last observed time.
    pub closed spec fn spec_last_time(&self) -> NTP64 {
        self.last_time
    }

    /// The physical clock capability.
    pub closed spec fn spec_clock(&self) -> C {
        self.clock
    }

    /// The engine's identifier.
    pub fn get_id(&self) -> (r: &ID)
        ensures
            *r == self.spec_id(),
    {
        &self.id
    }

    /// The engine's maximum accepted drift.
    pub fn get_delta(&self) -> (r: &NTP64)
        ensures
            *r == self.spec_delta(),
    {
        &self.delta
    }
}

impl<C: Clock> HLC<C> {
    /// Generates a timestamp from the given physical reading.
    ///
    /// The reading's counter bits are masked off; if the masked reading
    /// moved past the last observed tick it is adopted, else the logical
    /// counter in the last time's low bits advances by one.  Either way the
    /// engine time strictly increases.  A burst of more than 2^`CSIZE`
    /// steps within one physical tick deliberately carries the counter into
    /// the time bits: the time runs slightly ahead rather than stall.
    pub fn new_timestamp_at(&mut self, now: NTP64) -> (ts: Timestamp)
        requires
            old(self).spec_last_time().0 < u64::MAX,
        ensures
            final(self).spec_id() == old(self).spec_id(),
            final(self).spec_delta() == old(self).spec_delta(),
            final(self).spec_clock() == old(self).spec_clock(),
            final(self).spec_last_time().0 == spec_generate_next(
                old(self).spec_last_time().0,
                now.0,
            ),
            final(self).spec_last_time().0 > old(self).spec_last_time().0,
            ts.spec_time() == final(self).spec_last_time(),
            ts.spec_id() == final(self).spec_id(),
    {
        proof {
            lemma_generate_monotonic(self.last_time.0, now.0);
            lemma_mask_is_and(now.0);
            lemma_mask_is_and(self.last_time.0);
        }
        let now_m = now.0 & LMASK;
        if now_m > (self.last_time.0 & LMASK) {
            self.last_time = NTP64(now_m);
        } else {
            self.last_time = NTP64(self.last_time.0 + 1);
        }
        Timestamp::new(self.last_time, self.id)
    }

    /// Generates a new timestamp from the engine's own clock.
    ///
    /// The produced timestamp carries this engine's identifier and a time
    /// strictly greater than every time this engine has produced or merged
    /// before, so successive timestamps of one engine strictly increase.
    pub fn new_timestamp(&mut self) -> (ts: Timestamp)
        requires
            old(self).spec_last_time().0 < u64::MAX,
        ensures
            final(self).spec_id() == old(self).spec_id(),
            final(self).spec_delta() == old(self).spec_delta(),
            final(self).spec_last_time().0 > old(self).spec_last_time().0,
            ts.spec_time() == final(self).spec_last_time(),
            ts.spec_id() == final(self).spec_id(),
    {
        let now = self.clock.now();
        self.new_timestamp_at(now)
    }

    /// Merges an incoming timestamp given a physical reading.
    ///
    /// The incoming time is rejected, and the engine left unchanged, exactly
    /// when it exceeds the masked reading by more than the configured drift
    /// bound.  On success the engine time becomes the greatest of the masked
    /// reading, the incoming time and the last time, strictly above the
    /// incoming time whenever the engine had to catch up to it.
    pub fn update_with_timestamp_at(&mut self, timestamp: &Timestamp, now: NTP64) -> (r: Result<
        (),
        DriftRejected,
    >)
        requires
            old(self).spec_last_time().0 < u64::MAX,
            timestamp.spec_time().0 < u64::MAX,
        ensures
            final(self).spec_id() == old(self).spec_id(),
            final(self).spec_delta() == old(self).spec_delta(),
            final(self).spec_clock() == old(self).spec_clock(),
            r is Ok <==> !spec_merge_rejects(
                old(self).spec_delta().0,
                now.0,
                timestamp.spec_time().0,
            ),
            r is Ok ==> final(self).spec_last_time().0 == spec_merge_next(
                old(self).spec_last_time().0,
                now.0,
                timestamp.spec_time().0,
            ),
            r is Ok ==> final(self).spec_last_time().0 >= old(self).spec_last_time().0
                && final(self).spec_last_time().0 >= timestamp.spec_time().0,
            r matches Err(e) ==> *final(self) == *old(self) && e == (DriftRejected {
                id: timestamp.spec_id(),
                delta: old(self).spec_delta(),
                msg_time: timestamp.spec_time(),
                now: NTP64(spec_masked(now.0)),
            }),
    {
        proof {
            lemma_mask_is_and(now.0);
        }
        let now_m = now.0 & LMASK;
        let msg_time = timestamp.get_time().0;
        if msg_time > now_m && msg_time - now_m > self.delta.0 {
            Err(
                DriftRejected {
                    id: *timestamp.get_id(),
                    delta: self.delta,
                    msg_time: *timestamp.get_time(),
                    now: NTP64(now_m),
                },
            )
        } else {
            let last = self.last_time.0;
            if now_m >= msg_time && now_m >= last {
                self.last_time = NTP64(now_m);
            } else if msg_time >= last {
                self.last_time = NTP64(msg_time + 1);
            } else {
                self.last_time = NTP64(last + 1);
            }
            Ok(())
        }
    }

    /// Merges an incoming timestamp, typically produced by another engine,
    /// reading this engine's own clock.
    ///
    /// An incoming time within the drift bound of zero — at most the bound
    /// itself — is accepted whatever the clock returned.  On success the
    /// engine time reaches at least the incoming time while never
    /// decreasing, so every timestamp generated afterwards exceeds the
    /// merged one.  On rejection the engine state is unchanged and the
    /// error's fields witness the rejection: the incoming time exceeds the
    /// masked reading by more than the bound.
    pub fn update_with_timestamp(&mut self, timestamp: &Timestamp) -> (r: Result<
        (),
        DriftRejected,
    >)
        requires
            old(self).spec_last_time().0 < u64::MAX,
            timestamp.spec_time().0 < u64::MAX,
        ensures
            final(self).spec_id() == old(self).spec_id(),
            final(self).spec_delta() == old(self).spec_delta(),
            timestamp.spec_time().0 <= old(self).spec_delta().0 ==> r is Ok,
            r is Ok ==> final(self).spec_last_time().0 >= old(self).spec_last_time().0
                && final(self).spec_last_time().0 >= timestamp.spec_time().0,
            r matches Err(e) ==> final(self).spec_last_time() == old(self).spec_last_time()
                && e.id == timestamp.spec_id() && e.delta == old(self).spec_delta()
                && e.msg_time == timestamp.spec_time() && spec_masked(e.now.0) == e.now.0
                && e.msg_time.0 > e.now.0 && e.msg_time.0 - e.now.0 > e.delta.0,
    {
        let now = self.clock.now();
        let r = self.update_with_timestamp_at(timestamp, now);
        proof {
            lemma_mask_props(now.0);
        }
        r
    }
}

impl Default for HLC<SystemClock> {
    /// An engine with a random identifier, the system wall clock, and the
    /// default drift bound; its last observed time starts at zero.
    fn default() -> (r: Self)
        ensures
            r.spec_last_time().0 == 0,
            r.spec_delta().0 == spec_ntp64_from(0, 500_000_000),
    {
        HLCBuilder::new().build()
    }
}

/// The builder of an [`HLC`] engine.
pub struct HLCBuilder<C> {
    hlc: HLC<C>,
}

impl HLCBuilder<SystemClock> {
    /// A builder with the default configuration: a random identifier, the
    /// system wall clock as physical clock, a maximum drift of
    /// [`DEFAULT_DELTA_MS`] milliseconds, and a last observed time of zero.
    pub fn new() -> (r: HLCBuilder<SystemClock>)
        ensures
            r.spec_hlc().spec_last_time().0 == 0,
            r.spec_hlc().spec_delta().0 == spec_ntp64_from(0, 500_000_000),
    {
        let delta = NTP64::from_secs_nanos(
            DEFAULT_DELTA_MS / 1000,
            ((DEFAULT_DELTA_MS % 1000) * 1_000_000) as u32,
        );
        HLCBuilder { hlc: HLC { id: ID::rand(), clock: SystemClock, delta, last_time: NTP64(0) } }
    }
}

impl Default for HLCBuilder<SystemClock> {
    /// The same default configuration as [`HLCBuilder::new`].
    fn default() -> (r: Self)
        ensures
            r.spec_hlc().spec_last_time().0 == 0,
            r.spec_hlc().spec_delta().0 == spec_ntp64_from(0, 500_000_000),
    {
        HLCBuilder::new()
    }
}

impl<C> HLCBuilder<C> {
    /// The engine being configured.
    pub closed spec fn spec_hlc(&self) -> HLC<C> {
        self.hlc
    }

    /// Configures a specific identifier for the engine to be created.  It
    /// must be unique in the system.
    pub fn with_id(self, id: ID) -> (r: HLCBuilder<C>)
        ensures
            r.spec_hlc().spec_id() == id,
            r.spec_hlc().spec_delta() == self.spec_hlc().spec_delta(),
            r.spec_hlc().spec_last_time() == self.spec_hlc().spec_last_time(),
            r.spec_hlc().spec_clock() == self.spec_hlc().spec_clock(),
    {
        HLCBuilder { hlc: HLC { id, ..self.hlc } }
    }

    /// Configures a specific physical clock for the engine to be created.
    ///
    /// The clock's times need not be monotonic: where a reading has not
    /// moved past the engine's last observed tick, the engine advances its
    /// logical counter instead.
    pub fn with_clock<D>(self, clock: D) -> (r: HLCBuilder<D>)
        ensures
            r.spec_hlc().spec_id() == self.spec_hlc().spec_id(),
            r.spec_hlc().spec_delta() == self.spec_hlc().spec_delta(),
            r.spec_hlc().spec_last_time() == self.spec_hlc().spec_last_time(),
            r.spec_hlc().spec_clock() == clock,
    {
        HLCBuilder {
            hlc: HLC {
                id: self.hlc.id,
                clock,
                delta: self.hlc.delta,
                last_time: self.hlc.last_time,
            },
        }
    }

    /// Configures the maximum drift accepted when merging an incoming
    /// timestamp; the duration must fit the representable seconds.
    pub fn with_max_delta(self, delta: Duration) -> (r: HLCBuilder<C>)
        requires
            duration_as_secs(delta) <= MAX_NB_SEC,
        ensures
            r.spec_hlc().spec_delta().0 == spec_ntp64_from(
                duration_as_secs(delta) as int,
                duration_subsec_nanos(delta) as int,
            ),
            r.spec_hlc().spec_id() == self.spec_hlc().spec_id(),
            r.spec_hlc().spec_last_time() == self.spec_hlc().spec_last_time(),
            r.spec_hlc().spec_clock() == self.spec_hlc().spec_clock(),
    {
        let d = NTP64::from_duration(delta);
        HLCBuilder { hlc: HLC { delta: d, ..self.hlc } }
    }

    /// The configured engine.
    pub fn build(self) -> (r: HLC<C>)
        ensures
            r == self.spec_hlc(),
    {
        self.hlc
    }
}

} // verus!
