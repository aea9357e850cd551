//! 64-bit fixed-point time.
//!
//! An [`NTP64`] packs a time into one unsigned 64-bit value: the high 32
//! bits count whole seconds, the low 32 bits the fraction of a second.  When
//! such a value is held by a clock engine, its lowest [`crate::CSIZE`] bits
//! double as a logical counter.  The canonical text form is the plain
//! decimal integer, which converts back and forth without loss; an RFC 3339
//! form is offered for display and is lossy.

use vstd::arithmetic::div_mod::lemma_div_is_ordered;
use vstd::prelude::*;

use core::time::Duration;
use std::time::SystemTime;

use crate::digits::{
    all_dec_digits, dec_digits, dec_value, parse_dec_u64, push_dec_digits,
};

verus! {

/// Greatest number of whole seconds representable in the 32-bit seconds
/// part of an [`NTP64`].
pub const MAX_NB_SEC: u64 = 0xFFFF_FFFF;

/// Number of fraction units per second: 2 to the power 32.
pub const FRAC_PER_SEC: u64 = 0x1_0000_0000;

/// Number of nanoseconds per second.
pub const NANO_PER_SEC: u64 = 1_000_000_000;

#[verifier::external_type_specification]
#[verifier::external_body]
pub struct ExSystemTime(SystemTime);

/// The whole-second part of a `Duration`.
pub uninterp spec fn duration_as_secs(d: Duration) -> u64;

/// The sub-second part of a `Duration`, in nanoseconds.
pub uninterp spec fn duration_subsec_nanos(d: Duration) -> u32;

/// Relies on `Duration::new`: a sub-second nanosecond argument carries
/// nothing into the seconds, so the two parts are stored as given.
pub assume_specification [ Duration::new ](secs: u64, nanos: u32) -> (r: Duration)
    requires
        nanos < 1_000_000_000,
    ensures
        duration_as_secs(r) == secs,
        duration_subsec_nanos(r) == nanos,
;

/// Relies on `Duration::as_secs`: the whole-second part of the duration.
pub assume_specification [ Duration::as_secs ](d: &Duration) -> (r: u64)
    ensures
        r == duration_as_secs(*d),
;

/// Relies on `Duration::subsec_nanos`: the sub-second part of the duration,
/// always below one billion.
pub assume_specification [ Duration::subsec_nanos ](d: &Duration) -> (r: u32)
    ensures
        r == duration_subsec_nanos(*d),
        r < 1_000_000_000,
;

/// Relies on `SystemTime`'s addition of a `Duration`: the instant that much
/// after the epoch of 1970-01-01.  The addition panics when the result is
/// not representable, so the seconds are kept within the 32-bit range of
/// this library's times, far below any platform's ceiling.
#[verifier::external_body]
fn unix_epoch_plus(d: Duration) -> SystemTime
    requires
        duration_as_secs(d) <= MAX_NB_SEC,
{
    std::time::UNIX_EPOCH + d
}

/// The RFC 3339 text, with nine fractional digits, of the instant `secs`
/// whole seconds and `nanos` nanoseconds after the epoch of 1970-01-01.
pub uninterp spec fn rfc3339_of(secs: u64, nanos: u32) -> Seq<char>;

/// Relies on humantime's `format_rfc3339_nanos`: its output depends on the
/// two arguments alone, and formatting cannot fail below the year 9999,
/// far above the representable seconds.  The output holds only digits and
/// the separators `-`, `T`, `:`, `.`, `Z`, so never a slash; and
/// humantime's `parse_rfc3339` reads the printed calendar date and the
/// nine fraction digits back to the same instant.
#[verifier::external_body]
fn format_rfc3339_secs_nanos(secs: u64, nanos: u32) -> (r: String)
    requires
        secs <= 0xFFFF_FFFF,
        nanos < 1_000_000_000,
    ensures
        r@ == rfc3339_of(secs, nanos),
        forall|i: int| 0 <= i < r@.len() ==> r@[i] != '/',
        rfc3339_parse_of(r@) == Some((secs, nanos)),
{
    let t = std::time::UNIX_EPOCH + Duration::new(secs, nanos);
    format!("{}", humantime::format_rfc3339_nanos(t))
}

/// The instant an RFC 3339 string denotes, as whole seconds and sub-second
/// nanoseconds after the epoch of 1970-01-01, or `None` where the string is
/// not a valid RFC 3339 time.
pub uninterp spec fn rfc3339_parse_of(s: Seq<char>) -> Option<(u64, u32)>;

/// Relies on humantime's `parse_rfc3339`: its result depends on the string
/// alone, an accepted instant never precedes the epoch, and the nanosecond
/// part it reads is below one billion.
#[verifier::external_body]
fn parse_rfc3339_secs_nanos(s: &str) -> (r: Option<(u64, u32)>)
    ensures
        r == rfc3339_parse_of(s@),
        r matches Some(p) ==> p.1 < 1_000_000_000,
{
    match humantime::parse_rfc3339(s) {
        Ok(t) => match t.duration_since(std::time::UNIX_EPOCH) {
            Ok(d) => Some((d.as_secs(), d.subsec_nanos())),
            Err(_) => None,
        },
        Err(_) => None,
    }
}

/// A time in the 64-bit fixed-point format of RFC 5905: 32 bits of whole
/// seconds, then 32 bits of second fraction.
///
/// The value defines no epoch of its own; only [`NTP64::to_system_time`]
/// and the RFC 3339 text forms read it as relative to 1970-01-01.
#[derive(Copy, Clone, PartialEq, Eq, PartialOrd, Ord, Hash, Debug)]
pub struct NTP64(pub u64);

/// The error of parsing an [`NTP64`] from a malformed string.
#[derive(Debug, Clone, PartialEq, Eq)]
pub struct ParseNTP64Error {
    pub cause: String,
}

/// The fixed-point value of `secs` whole seconds and `nanos` nanoseconds:
/// the nanoseconds are scaled to the 32-bit fraction and the result is
/// deliberately rounded one unit up, so that a value derived from a
/// duration is strictly greater than every value the duration covers.
pub open spec fn spec_ntp64_from(secs: int, nanos: int) -> int {
    secs * 0x1_0000_0000 + (nanos * 0x1_0000_0000) / 1_000_000_000 + 1
}

impl NTP64 {
    /// This time as its raw 64-bit fixed-point value.
    pub fn as_u64(&self) -> (r: u64)
        ensures
            r == self.0,
    {
        self.0
    }

    /// The 32-bit whole-seconds part.
    pub fn as_secs(&self) -> (r: u32)
        ensures
            r == self.0 / FRAC_PER_SEC,
    {
        proof {
            lemma_div_is_ordered(self.0 as int, u64::MAX as int, FRAC_PER_SEC as int);
        }
        (self.0 / FRAC_PER_SEC) as u32
    }

    /// The 32-bit fraction-of-second part, scaled to nanoseconds, so always
    /// below one billion.
    pub fn subsec_nanos(&self) -> (r: u32)
        ensures
            r == (self.0 % FRAC_PER_SEC) * NANO_PER_SEC / (FRAC_PER_SEC as int),
            r < NANO_PER_SEC,
    {
        let frac = self.0 % FRAC_PER_SEC;
        proof {
            assert(frac < FRAC_PER_SEC);
            assert(frac * NANO_PER_SEC <= (FRAC_PER_SEC - 1) * NANO_PER_SEC) by (nonlinear_arith)
                requires
                    frac <= FRAC_PER_SEC - 1,
            ;
            lemma_div_is_ordered(
                (frac * NANO_PER_SEC) as int,
                ((FRAC_PER_SEC - 1) * NANO_PER_SEC) as int,
                FRAC_PER_SEC as int,
            );
        }
        ((frac * NANO_PER_SEC) / FRAC_PER_SEC) as u32
    }

    /// The sum of two fixed-point times; overflow past 64 bits is a
    /// programming error, ruled out by the precondition.
    pub fn add(self, other: NTP64) -> (r: NTP64)
        requires
            self.0 + other.0 <= u64::MAX,
        ensures
            r.0 == self.0 + other.0,
    {
        NTP64(self.0 + other.0)
    }

    /// The difference of two fixed-point times; the caller must keep
    /// `other` at or below `self`, as underflow is a programming error.
    pub fn sub(self, other: NTP64) -> (r: NTP64)
        requires
            other.0 <= self.0,
        ensures
            r.0 == self.0 - other.0,
    {
        NTP64(self.0 - other.0)
    }

    /// This time as a `Duration` since whatever epoch it is relative to,
    /// rounded down to the nearest representable nanosecond.
    pub fn to_duration(self) -> (r: Duration)
        ensures
            duration_as_secs(r) == self.0 / FRAC_PER_SEC,
            duration_subsec_nanos(r) == (self.0 % FRAC_PER_SEC) * NANO_PER_SEC / (FRAC_PER_SEC as int),
    {
        Duration::new(self.as_secs() as u64, self.subsec_nanos())
    }

    /// This time as a `SystemTime`, read as relative to the epoch of
    /// 1970-01-01.
    pub fn to_system_time(self) -> SystemTime {
        proof {
            lemma_div_is_ordered(self.0 as int, u64::MAX as int, FRAC_PER_SEC as int);
        }
        unix_epoch_plus(self.to_duration())
    }

    /// Builds the fixed-point value of `secs` whole seconds plus `nanos`
    /// nanoseconds, rounded one fraction unit up.
    pub fn from_secs_nanos(secs: u64, nanos: u32) -> (r: NTP64)
        requires
            secs <= MAX_NB_SEC,
            nanos < NANO_PER_SEC,
        ensures
            r.0 == spec_ntp64_from(secs as int, nanos as int),
    {
        proof {
            assert(secs * FRAC_PER_SEC <= MAX_NB_SEC * FRAC_PER_SEC) by (nonlinear_arith)
                requires
                    secs <= MAX_NB_SEC,
            ;
            assert((nanos as u64) * FRAC_PER_SEC <= (NANO_PER_SEC - 1) * FRAC_PER_SEC)
                by (nonlinear_arith)
                requires
                    nanos <= NANO_PER_SEC - 1,
            ;
            lemma_div_is_ordered(
                ((nanos as u64) * FRAC_PER_SEC) as int,
                ((NANO_PER_SEC - 1) * FRAC_PER_SEC) as int,
                NANO_PER_SEC as int,
            );
        }
        NTP64(secs * FRAC_PER_SEC + ((nanos as u64) * FRAC_PER_SEC) / NANO_PER_SEC + 1)
    }

    /// Builds the fixed-point value of a duration, rounded one fraction
    /// unit up; the duration must fit the 32-bit seconds part.
    pub fn from_duration(d: Duration) -> (r: NTP64)
        requires
            duration_as_secs(d) <= MAX_NB_SEC,
        ensures
            r.0 == spec_ntp64_from(duration_as_secs(d) as int, duration_subsec_nanos(d) as int),
    {
        Self::from_secs_nanos(d.as_secs(), d.subsec_nanos())
    }

    /// The canonical text of this time: its raw value in decimal.
    pub fn to_string(&self) -> (r: String)
        ensures
            r@ == dec_digits(self.0 as nat),
    {
        let mut out = String::new();
        push_dec_digits(self.0, &mut out);
        proof {
            assert(out@ =~= dec_digits(self.0 as nat));
        }
        out
    }

    /// Parses the canonical decimal text back into a time; together with
    /// [`NTP64::to_string`] this conversion is lossless.
    pub fn parse_dec(s: &str) -> (r: Result<NTP64, ParseNTP64Error>)
        ensures
            r is Ok <==> s@.len() >= 1 && all_dec_digits(s@) && dec_value(s@) <= u64::MAX,
            r matches Ok(t) ==> t.0 == dec_value(s@),
            r matches Err(e) ==> e.cause@ == "Invalid unsigned decimal"@,
    {
        match parse_dec_u64(s) {
            Some(v) => Ok(NTP64(v)),
            None => Err(ParseNTP64Error { cause: String::from_str("Invalid unsigned decimal") }),
        }
    }

    /// This time in RFC 3339 text with nanosecond precision, read as
    /// relative to the epoch of 1970-01-01; the fraction below one
    /// nanosecond is lost.  The text holds no slash, and parsing it back
    /// recovers the same whole seconds and nanoseconds.
    pub fn to_string_rfc3339_lossy(&self) -> (r: String)
        ensures
            r@ == rfc3339_of(
                (self.0 / FRAC_PER_SEC) as u32 as u64,
                ((self.0 % FRAC_PER_SEC) * NANO_PER_SEC / (FRAC_PER_SEC as int)) as u32,
            ),
            forall|i: int| 0 <= i < r@.len() ==> r@[i] != '/',
            rfc3339_parse_of(r@) == Some(
                (
                    (self.0 / FRAC_PER_SEC) as u32 as u64,
                    ((self.0 % FRAC_PER_SEC) * NANO_PER_SEC / (FRAC_PER_SEC as int)) as u32,
                ),
            ),
    {
        format_rfc3339_secs_nanos(self.as_secs() as u64, self.subsec_nanos())
    }

    /// Parses an RFC 3339 time into a fixed-point value, rounded one
    /// fraction unit up; fails on text that is not a valid RFC 3339 time
    /// and on times whose seconds exceed the 32-bit seconds part.
    pub fn parse_rfc3339(s: &str) -> (r: Result<NTP64, ParseNTP64Error>)
        ensures
            r is Ok <==> (rfc3339_parse_of(s@) matches Some(p) && p.0 <= MAX_NB_SEC),
            r matches Ok(t) ==> (rfc3339_parse_of(s@) matches Some(p) && t.0 == spec_ntp64_from(
                p.0 as int,
                p.1 as int,
            )),
            r matches Err(e) ==> e.cause@ == (if rfc3339_parse_of(s@) is None {
                "Invalid RFC 3339 time"@
            } else {
                "Time out of range"@
            }),
    {
        match parse_rfc3339_secs_nanos(s) {
            None => Err(ParseNTP64Error { cause: String::from_str("Invalid RFC 3339 time") }),
            Some((secs, nanos)) => {
                if secs > MAX_NB_SEC {
                    Err(ParseNTP64Error { cause: String::from_str("Time out of range") })
                } else {
                    Ok(Self::from_secs_nanos(secs, nanos))
                }
            },
        }
    }
}

/// The lossy RFC 3339 round trip of a time value lands within a few
/// fraction units of the original: formatting rounds the fraction down to
/// whole nanoseconds and parsing rounds one unit up, so the reparsed value
/// is at most one unit above and four units below the original.
pub proof fn lemma_rfc3339_time_round_trip_close(t: u64)
    ensures
        ({
            let secs = (t / FRAC_PER_SEC) as u32 as u64;
            let nanos = ((t % FRAC_PER_SEC) * NANO_PER_SEC / (FRAC_PER_SEC as int)) as u32;
            let back = spec_ntp64_from(secs as int, nanos as int);
            t - 4 <= back <= t + 1
        }),
{
    let fi = FRAC_PER_SEC as int;
    let ki = NANO_PER_SEC as int;
    let q = (t / FRAC_PER_SEC) as int;
    let f = (t % FRAC_PER_SEC) as int;
    vstd::arithmetic::div_mod::lemma_fundamental_div_mod(t as int, fi);
    lemma_div_is_ordered(t as int, u64::MAX as int, fi);
    let fk = f * ki;
    let n = fk / fi;
    vstd::arithmetic::div_mod::lemma_fundamental_div_mod(fk, fi);
    let r1 = fk % fi;
    assert(fk == fi * n + r1);
    assert(0 <= r1 < fi);
    assert(fk <= (fi - 1) * ki) by (nonlinear_arith)
        requires
            f <= fi - 1,
            fk == f * ki,
            ki > 0,
    ;
    lemma_div_is_ordered(fk, (fi - 1) * ki, fi);
    assert(n <= ((FRAC_PER_SEC - 1) * NANO_PER_SEC) as int / fi);
    assert(n < ki);
    let nf = n * fi;
    let f2 = nf / ki;
    vstd::arithmetic::div_mod::lemma_fundamental_div_mod(nf, ki);
    let r2 = nf % ki;
    assert(nf == ki * f2 + r2);
    assert(0 <= r2 < ki);
    assert(nf == fi * n) by (nonlinear_arith)
        requires
            nf == n * fi,
    ;
    assert(ki * f2 + r2 == f * ki - r1);
    assert(ki * (f - f2) == r1 + r2) by (nonlinear_arith)
        requires
            ki * f2 + r2 == f * ki - r1,
    ;
    assert(r1 + r2 < fi + ki);
    assert(fi + ki < 6 * ki);
    assert(0 <= f - f2 <= 5) by (nonlinear_arith)
        requires
            ki * (f - f2) == r1 + r2,
            0 <= r1 + r2,
            r1 + r2 < 6 * ki,
            ki > 0,
    ;
    assert(spec_ntp64_from(q, n) == q * fi + f2 + 1);
    assert(t == fi * q + f);
    assert(q * fi == fi * q) by (nonlinear_arith);
}

impl Default for NTP64 {
    /// The zero time.
    fn default() -> (r: Self)
        ensures
            r.0 == 0,
    {
        NTP64(0)
    }
}

impl core::str::FromStr for NTP64 {
    type Err = ParseNTP64Error;

    /// Parses the canonical decimal form, as [`NTP64::parse_dec`] does.
    fn from_str(s: &str) -> Result<NTP64, ParseNTP64Error> {
        NTP64::parse_dec(s)
    }
}

} // verus!
