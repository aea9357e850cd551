//! Timestamps: an ordered pair of a time and a node identifier.
//!
//! Two timestamps produced in the same physical tick by two nodes are still
//! totally ordered: the order is by time first, with the identifier as the
//! tie break.  The canonical text form is `"<time>/<id>"` with the time in
//! decimal, which converts back and forth without loss; an RFC 3339 time
//! form is offered for display and is lossy.

use vstd::prelude::*;

use core::time::Duration;

use crate::digits::{
    all_dec_digits, all_hex_digits, dec_digits, dec_value, find_char, hex_digits, hex_value,
    lemma_dec_digits_props, lemma_find_char, lemma_hex_digits_props,
};
use crate::id::{
    le_bytes16, le_value, lemma_le_bytes16_of_le_value, lemma_le_value_bound, lemma_pow256_16,
    spec_parse_id_cause, ID,
};
use crate::ntp64::{
    duration_as_secs, duration_subsec_nanos, rfc3339_of, rfc3339_parse_of, spec_ntp64_from,
    FRAC_PER_SEC, MAX_NB_SEC, NANO_PER_SEC, NTP64,
};

verus! {

/// A timestamp: a fixed-point time stamped with the identifier of the clock
/// engine that produced it.
///
/// The derived order compares the time first and breaks ties by the
/// identifier, so timestamps from different engines never compare equal.
#[derive(Copy, Clone, PartialEq, Eq, PartialOrd, Ord, Hash, Debug)]
pub struct Timestamp {
    time: NTP64,
    id: ID,
}

/// The error of parsing a [`Timestamp`] from a malformed string.
#[derive(Debug, Clone, PartialEq, Eq)]
pub struct ParseTimestampError {
    pub cause: String,
}

/// Lexicographic order on two identifier buffers, from the first byte up.
pub open spec fn id_buf_lt(a: Seq<u8>, b: Seq<u8>) -> bool
    decreases a.len(),
{
    if b.len() == 0 {
        false
    } else if a.len() == 0 {
        true
    } else if a[0] != b[0] {
        a[0] < b[0]
    } else {
        id_buf_lt(a.drop_first(), b.drop_first())
    }
}

/// The strict total order of timestamps: by time, then by identifier
/// buffer.
pub open spec fn spec_ts_lt(a: Timestamp, b: Timestamp) -> bool {
    a.spec_time().0 < b.spec_time().0 || (a.spec_time().0 == b.spec_time().0 && id_buf_lt(
        a.spec_id()@,
        b.spec_id()@,
    ))
}

/// Two distinct byte sequences of equal length are lexicographically
/// ordered one way or the other.
pub proof fn lemma_id_buf_lt_total(a: Seq<u8>, b: Seq<u8>)
    requires
        a.len() == b.len(),
        a != b,
    ensures
        id_buf_lt(a, b) || id_buf_lt(b, a),
    decreases a.len(),
{
    if a.len() == 0 {
        assert(a =~= b);
    } else if a[0] == b[0] {
        if a.drop_first() == b.drop_first() {
            assert forall|i: int| 0 <= i < a.len() implies a[i] == b[i] by {
                if i > 0 {
                    assert(a[i] == a.drop_first()[i - 1]);
                    assert(b[i] == b.drop_first()[i - 1]);
                }
            }
            assert(a =~= b);
        }
        lemma_id_buf_lt_total(a.drop_first(), b.drop_first());
    }
}

/// The lexicographic order never relates a sequence to itself.
pub proof fn lemma_id_buf_lt_irreflexive(a: Seq<u8>)
    ensures
        !id_buf_lt(a, a),
    decreases a.len(),
{
    if a.len() > 0 {
        lemma_id_buf_lt_irreflexive(a.drop_first());
    }
}

/// The lexicographic order is transitive.
pub proof fn lemma_id_buf_lt_transitive(a: Seq<u8>, b: Seq<u8>, c: Seq<u8>)
    requires
        id_buf_lt(a, b),
        id_buf_lt(b, c),
    ensures
        id_buf_lt(a, c),
    decreases a.len(),
{
    if a.len() > 0 && a[0] == b[0] && b[0] == c[0] {
        lemma_id_buf_lt_transitive(a.drop_first(), b.drop_first(), c.drop_first());
    }
}

/// The timestamp order is a strict order: irreflexive and transitive; with
/// [`lemma_ts_lt_total`] it is a strict total order.
pub proof fn lemma_ts_lt_strict(a: Timestamp, b: Timestamp, c: Timestamp)
    ensures
        !spec_ts_lt(a, a),
        spec_ts_lt(a, b) && spec_ts_lt(b, c) ==> spec_ts_lt(a, c),
{
    lemma_id_buf_lt_irreflexive(a.spec_id()@);
    if spec_ts_lt(a, b) && spec_ts_lt(b, c) && a.spec_time().0 == b.spec_time().0
        && b.spec_time().0 == c.spec_time().0 {
        lemma_id_buf_lt_transitive(a.spec_id()@, b.spec_id()@, c.spec_id()@);
    }
}

impl Timestamp {
    /// The time of this timestamp.
    pub closed spec fn spec_time(&self) -> NTP64 {
        self.time
    }

    /// The identifier of the engine that produced this timestamp.
    pub closed spec fn spec_id(&self) -> ID {
        self.id
    }

    /// The canonical text of this timestamp: the decimal time, a slash, and
    /// the hexadecimal identifier.
    pub open spec fn spec_string(&self) -> Seq<char> {
        dec_digits(self.spec_time().0 as nat) + seq!['/'] + hex_digits(le_value(self.spec_id()@))
    }

    /// Whether `s` is a well-formed canonical timestamp string: a decimal
    /// time that fits 64 bits, the first slash, and a canonical hexadecimal
    /// identifier.
    pub open spec fn spec_valid_string(s: Seq<char>) -> bool {
        match find_char(s, '/') {
            Some(i) => {
                let t = s.subrange(0, i);
                let h = s.subrange(i + 1, s.len() as int);
                &&& t.len() >= 1
                &&& all_dec_digits(t)
                &&& dec_value(t) <= u64::MAX
                &&& h.len() >= 1
                &&& h[0] != '0'
                &&& all_hex_digits(h)
                &&& hex_value(h) <= u128::MAX
            },
            None => false,
        }
    }

    /// Creates a timestamp from a time and an engine identifier.
    pub fn new(time: NTP64, id: ID) -> (r: Timestamp)
        ensures
            r.spec_time() == time,
            r.spec_id() == id,
    {
        Timestamp { time, id }
    }

    /// The time of this timestamp.
    pub fn get_time(&self) -> (r: &NTP64)
        ensures
            *r == self.spec_time(),
    {
        &self.time
    }

    /// The identifier of this timestamp.
    pub fn get_id(&self) -> (r: &ID)
        ensures
            *r == self.spec_id(),
    {
        &self.id
    }

    /// The difference of the two times as a duration; the caller must keep
    /// `other` at or below `self`.
    pub fn get_diff_duration(&self, other: &Timestamp) -> (r: Duration)
        requires
            other.spec_time().0 <= self.spec_time().0,
        ensures
            ({
                let d = (self.spec_time().0 - other.spec_time().0) as u64;
                &&& duration_as_secs(r) == d / FRAC_PER_SEC
                &&& duration_subsec_nanos(r) == (d % FRAC_PER_SEC) * NANO_PER_SEC / (
                FRAC_PER_SEC as int)
            }),
    {
        NTP64(self.time.0 - other.time.0).to_duration()
    }

    /// Parses the canonical text form `"<decimal time>/<hex id>"`, splitting
    /// at the first slash; together with [`Timestamp::to_string`] this
    /// conversion is lossless.
    pub fn parse(s: &str) -> (r: Result<Timestamp, ParseTimestampError>)
        ensures
            r is Ok <==> Self::spec_valid_string(s@),
            r matches Ok(ts) ==> (find_char(s@, '/') matches Some(i) && ts.spec_time().0
                == dec_value(s@.subrange(0, i)) && ts.spec_id()@ == le_bytes16(
                hex_value(s@.subrange(i + 1, s@.len() as int)),
            )),
            r matches Err(e) ==> e.cause@ == (match find_char(s@, '/') {
                None => "No '/' found in String"@,
                Some(i) => {
                    let t = s@.subrange(0, i);
                    if !(t.len() >= 1 && all_dec_digits(t) && dec_value(t) <= u64::MAX) {
                        "Invalid unsigned decimal"@
                    } else {
                        spec_parse_id_cause(s@.subrange(i + 1, s@.len() as int))
                    }
                },
            }),
    {
        let (found, i) = find_slash(s);
        if !found {
            return Err(
                ParseTimestampError { cause: String::from_str("No '/' found in String") },
            );
        }
        let n = s.unicode_len();
        let tpart = s.substring_char(0, i);
        let hpart = s.substring_char(i + 1, n);
        let time = match NTP64::parse_dec(tpart) {
            Ok(t) => t,
            Err(e) => {
                return Err(ParseTimestampError { cause: e.cause });
            },
        };
        let id = match ID::parse_hex(hpart) {
            Ok(id) => id,
            Err(e) => {
                return Err(ParseTimestampError { cause: e.cause });
            },
        };
        Ok(Timestamp::new(time, id))
    }

    /// This timestamp with its time in RFC 3339 text, `"<rfc3339>/<hex
    /// id>"`; the time text loses the fraction below one nanosecond.
    ///
    /// The display form parses back with [`Timestamp::parse_rfc3339`]: the
    /// first slash sits right after the time text, which reads back as the
    /// same whole seconds and nanoseconds, and the rest reads back as this
    /// timestamp's identifier.
    pub fn to_string_rfc3339_lossy(&self) -> (r: String)
        ensures
            r@ == rfc3339_of(
                (self.spec_time().0 / FRAC_PER_SEC) as u32 as u64,
                ((self.spec_time().0 % FRAC_PER_SEC) * NANO_PER_SEC / (FRAC_PER_SEC as int)) as u32,
            ) + seq!['/'] + hex_digits(le_value(self.spec_id()@)),
            ({
                let secs = (self.spec_time().0 / FRAC_PER_SEC) as u32 as u64;
                let nanos = ((self.spec_time().0 % FRAC_PER_SEC) * NANO_PER_SEC / (
                FRAC_PER_SEC as int)) as u32;
                let tlen = rfc3339_of(secs, nanos).len() as int;
                let h = r@.subrange(tlen + 1, r@.len() as int);
                &&& find_char(r@, '/') == Some(tlen)
                &&& r@.subrange(0, tlen) == rfc3339_of(secs, nanos)
                &&& rfc3339_parse_of(rfc3339_of(secs, nanos)) == Some((secs, nanos))
                &&& secs <= MAX_NB_SEC
                &&& h.len() >= 1
                &&& h[0] != '0'
                &&& all_hex_digits(h)
                &&& hex_value(h) <= u128::MAX
                &&& le_bytes16(hex_value(h)) == self.spec_id()@
            }),
    {
        let tstr = self.time.to_string_rfc3339_lossy();
        let mut out = tstr;
        out.append("/");
        let ids = self.id.to_string();
        out.append(ids.as_str());
        proof {
            use_type_invariant(&self.id);
            reveal_strlit("/");
            let secs = (self.spec_time().0 / FRAC_PER_SEC) as u32 as u64;
            let nanos = ((self.spec_time().0 % FRAC_PER_SEC) * NANO_PER_SEC / (
            FRAC_PER_SEC as int)) as u32;
            let tpart = rfc3339_of(secs, nanos);
            let v = le_value(self.spec_id()@);
            let hpart = hex_digits(v);
            assert(out@ =~= tpart + seq!['/'] + hpart);
            self.spec_id().lemma_wf();
            lemma_hex_digits_props(v);
            lemma_le_value_bound(self.spec_id()@);
            lemma_pow256_16();
            lemma_le_bytes16_of_le_value(self.spec_id()@);
            let tlen = tpart.len() as int;
            assert(out@[tlen] == '/');
            assert forall|j: int| 0 <= j < tlen implies out@[j] != '/' by {
                assert(out@[j] == tpart[j]);
            }
            lemma_find_char(out@, '/');
            match find_char(out@, '/') {
                Some(k) => {
                    if k < tlen {
                        assert(out@[k] != '/');
                    }
                    if k > tlen {
                        assert(out@[tlen] != '/');
                    }
                    assert(k == tlen);
                },
                None => {
                    assert(out@[tlen] != '/');
                },
            }
            assert(out@.subrange(0, tlen) =~= tpart);
            assert(out@.subrange(tlen + 1, out@.len() as int) =~= hpart);
        }
        out
    }

    /// Parses the display form `"<rfc3339 time>/<hex id>"`, splitting at the
    /// first slash; the time is rounded one fraction unit up as in
    /// [`NTP64::parse_rfc3339`].
    pub fn parse_rfc3339(s: &str) -> (r: Result<Timestamp, ParseTimestampError>)
        ensures
            r is Ok <==> (find_char(s@, '/') matches Some(i) && {
                let t = s@.subrange(0, i);
                let h = s@.subrange(i + 1, s@.len() as int);
                &&& (rfc3339_parse_of(t) matches Some(p) && p.0 <= MAX_NB_SEC)
                &&& h.len() >= 1
                &&& h[0] != '0'
                &&& all_hex_digits(h)
                &&& hex_value(h) <= u128::MAX
            }),
            r matches Ok(ts) ==> (find_char(s@, '/') matches Some(i)
                && (rfc3339_parse_of(s@.subrange(0, i)) matches Some(p) && ts.spec_time().0
                == spec_ntp64_from(p.0 as int, p.1 as int)) && ts.spec_id()@ == le_bytes16(
                hex_value(s@.subrange(i + 1, s@.len() as int)),
            )),
    {
        let (found, i) = find_slash(s);
        if !found {
            return Err(
                ParseTimestampError { cause: String::from_str("No '/' found in String") },
            );
        }
        let n = s.unicode_len();
        let tpart = s.substring_char(0, i);
        let hpart = s.substring_char(i + 1, n);
        let time = match NTP64::parse_rfc3339(tpart) {
            Ok(t) => t,
            Err(e) => {
                return Err(ParseTimestampError { cause: e.cause });
            },
        };
        let id = match ID::parse_hex(hpart) {
            Ok(id) => id,
            Err(e) => {
                return Err(ParseTimestampError { cause: e.cause });
            },
        };
        Ok(Timestamp::new(time, id))
    }

    /// The canonical text of this timestamp, `"<decimal time>/<hex id>"`.
    pub fn to_string(&self) -> (r: String)
        ensures
            r@ == self.spec_string(),
    {
        let mut out = String::new();
        crate::digits::push_dec_digits(self.time.0, &mut out);
        out.append("/");
        let ids = self.id.to_string();
        out.append(ids.as_str());
        proof {
            reveal_strlit("/");
            assert(out@ =~= self.spec_string());
        }
        out
    }
}

/// Locates the first slash of `s`: returns whether one exists and, if so,
/// its index.
fn find_slash(s: &str) -> (r: (bool, usize))
    ensures
        r.0 ==> find_char(s@, '/') == Some(r.1 as int) && r.1 < s@.len(),
        !r.0 ==> find_char(s@, '/') is None,
{
    let n = s.unicode_len();
    let mut i: usize = 0;
    while i < n && s.get_char(i) != '/'
        invariant
            i <= n,
            n == s@.len(),
            forall|j: int| 0 <= j < i ==> s@[j] != '/',
        decreases n - i,
    {
        i = i + 1;
    }
    proof {
        lemma_find_char(s@, '/');
        if i < n {
            match find_char(s@, '/') {
                Some(k) => {
                    if k < i {
                        assert(s@[k] != '/');
                    }
                    if k > i {
                        assert(s@[i as int] != '/');
                    }
                    assert(k == i);
                },
                None => {
                    assert(s@[i as int] != '/');
                },
            }
        }
    }
    (i < n, i)
}

/// A timestamp with a strictly greater time is strictly greater, whatever
/// the identifiers.
pub proof fn lemma_ts_lt_by_time(a: Timestamp, b: Timestamp)
    requires
        a.spec_time().0 < b.spec_time().0,
    ensures
        spec_ts_lt(a, b),
{
}

/// Timestamps of two different engines are never equal: distinct identifier
/// buffers make distinct, ordered timestamps.
pub proof fn lemma_distinct_ids(a: Timestamp, b: Timestamp)
    requires
        a.spec_id().inv(),
        b.spec_id().inv(),
        a.spec_id()@ != b.spec_id()@,
    ensures
        a != b,
        spec_ts_lt(a, b) || spec_ts_lt(b, a),
{
    a.spec_id().lemma_wf();
    b.spec_id().lemma_wf();
    lemma_id_buf_lt_total(a.spec_id()@, b.spec_id()@);
    if a == b {
        assert(a.spec_id()@ == b.spec_id()@);
    }
}

/// The order of timestamps is total: two distinct timestamps are strictly
/// ordered one way or the other.
pub proof fn lemma_ts_lt_total(a: Timestamp, b: Timestamp)
    requires
        a.spec_id().inv(),
        b.spec_id().inv(),
        a != b,
    ensures
        spec_ts_lt(a, b) || spec_ts_lt(b, a),
{
    if a.spec_time().0 == b.spec_time().0 {
        if a.spec_id()@ == b.spec_id()@ {
            ID::lemma_eq(a.spec_id(), b.spec_id());
            assert(a.spec_time() == b.spec_time());
            assert(a == b);
        }
        lemma_distinct_ids(a, b);
    }
}

/// Uniqueness: two timestamps are distinct whenever they carry different
/// identifier buffers (they came from different engines) or different
/// times (one engine never reuses a time).
pub proof fn lemma_timestamp_unique(a: Timestamp, b: Timestamp)
    requires
        a.spec_id().inv(),
        b.spec_id().inv(),
        a.spec_id()@ != b.spec_id()@ || a.spec_time().0 != b.spec_time().0,
    ensures
        a != b,
{
    if a.spec_id()@ != b.spec_id()@ {
        lemma_distinct_ids(a, b);
    } else if a == b {
        assert(a.spec_time() == b.spec_time());
    }
}

/// The canonical text of a timestamp is a well-formed timestamp string: its
/// first slash sits right after the decimal time, which reads back as the
/// time value, and the rest reads back as the identifier's value.
pub proof fn lemma_format_valid(ts: Timestamp)
    requires
        ts.spec_id().inv(),
    ensures
        Timestamp::spec_valid_string(ts.spec_string()),
        find_char(ts.spec_string(), '/') == Some(
            dec_digits(ts.spec_time().0 as nat).len() as int,
        ),
        ({
            let s = ts.spec_string();
            let i = dec_digits(ts.spec_time().0 as nat).len() as int;
            &&& dec_value(s.subrange(0, i)) == ts.spec_time().0
            &&& hex_value(s.subrange(i + 1, s.len() as int)) == le_value(ts.spec_id()@)
        }),
{
    let t = dec_digits(ts.spec_time().0 as nat);
    let h = hex_digits(le_value(ts.spec_id()@));
    let s = ts.spec_string();
    let i = t.len() as int;
    lemma_dec_digits_props(ts.spec_time().0 as nat);
    ts.spec_id().lemma_wf();
    lemma_hex_digits_props(le_value(ts.spec_id()@));
    lemma_le_value_bound(ts.spec_id()@);
    lemma_pow256_16();
    assert(s.len() == t.len() + 1 + h.len());
    assert(s[i] == '/');
    assert forall|j: int| 0 <= j < i implies s[j] != '/' by {
        assert(s[j] == t[j]);
    }
    lemma_find_char(s, '/');
    match find_char(s, '/') {
        Some(k) => {
            if k < i {
                assert(s[k] != '/');
            }
            if k > i {
                assert(s[i] != '/');
            }
            assert(k == i);
        },
        None => {
            assert(s[i] != '/');
        },
    }
    assert(s.subrange(0, i) =~= t);
    assert(s.subrange(i + 1, s.len() as int) =~= h);
}

/// String round trip: parsing the canonical text of a timestamp yields the
/// timestamp itself.  `parsed` stands for what [`Timestamp::parse`] ensures
/// of its result on that text.
pub proof fn lemma_string_round_trip(ts: Timestamp, parsed: Timestamp)
    requires
        ts.spec_id().inv(),
        parsed.spec_id().inv(),
        ({
            let s = ts.spec_string();
            let i = dec_digits(ts.spec_time().0 as nat).len() as int;
            &&& parsed.spec_time().0 == dec_value(s.subrange(0, i))
            &&& parsed.spec_id()@ == le_bytes16(hex_value(s.subrange(i + 1, s.len() as int)))
        }),
    ensures
        parsed == ts,
{
    lemma_format_valid(ts);
    ts.spec_id().lemma_wf();
    lemma_le_bytes16_of_le_value(ts.spec_id()@);
    assert(parsed.spec_id()@ == ts.spec_id()@);
    ID::lemma_eq(parsed.spec_id(), ts.spec_id());
    assert(parsed.spec_time().0 == ts.spec_time().0);
    assert(parsed.spec_time() == ts.spec_time());
}

impl core::str::FromStr for Timestamp {
    type Err = ParseTimestampError;

    /// Parses the canonical decimal form, as [`Timestamp::parse`] does.
    fn from_str(s: &str) -> Result<Timestamp, ParseTimestampError> {
        Timestamp::parse(s)
    }
}

} // verus!
