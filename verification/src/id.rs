//! Compact node identifiers.
//!
//! An [`ID`] is a non-zero value of 1 to 16 significant bytes, kept in a
//! fixed little-endian 16-byte buffer together with an explicit significant
//! length, so that it can be copied on the stack and embedded in every
//! timestamp.  The canonical text form is minimal lowercase hexadecimal.

use vstd::arithmetic::div_mod::{
    lemma_div_denominator, lemma_fundamental_div_mod, lemma_fundamental_div_mod_converse,
};
use vstd::prelude::*;

use rand::Rng;

use crate::digits::{
    all_hex_digits, hex_digits, hex_value, lemma_hex_value_nonzero, parse_hex_u128,
    push_hex_digits,
};

verus! {

/// The value of a little-endian byte sequence.
pub open spec fn le_value(s: Seq<u8>) -> nat
    decreases s.len(),
{
    if s.len() == 0 {
        0
    } else {
        (s[0] + 256 * le_value(s.drop_first())) as nat
    }
}

/// 256 raised to the power `e`.
pub open spec fn pow256(e: nat) -> nat
    decreases e,
{
    if e == 0 {
        1
    } else {
        256 * pow256((e - 1) as nat)
    }
}

/// The 16-byte little-endian encoding of a value below 256^16.
pub open spec fn le_bytes16(v: nat) -> Seq<u8> {
    Seq::new(16, |i: int| ((v / pow256(i as nat)) % 256) as u8)
}

/// `s` padded with zero bytes to a length of 16.
pub open spec fn pad16(s: Seq<u8>) -> Seq<u8>
    recommends
        s.len() <= 16,
{
    s + Seq::new((16 - s.len()) as nat, |i: int| 0u8)
}

/// The concrete value of 256^16: one above `u128::MAX`.
pub proof fn lemma_pow256_16()
    ensures
        pow256(16) == 0x1_0000_0000_0000_0000_0000_0000_0000_0000,
{
    reveal_with_fuel(pow256, 17);
}

pub proof fn lemma_pow256_pos(e: nat)
    ensures
        pow256(e) >= 1,
    decreases e,
{
    if e > 0 {
        lemma_pow256_pos((e - 1) as nat);
    }
}

pub proof fn lemma_pow256_monotone(a: nat, b: nat)
    requires
        a <= b,
    ensures
        pow256(a) <= pow256(b),
    decreases b,
{
    if a < b {
        lemma_pow256_monotone(a, (b - 1) as nat);
        lemma_pow256_pos((b - 1) as nat);
    }
}

/// A little-endian byte sequence encodes a value below 256 to the power of
/// its length.
pub proof fn lemma_le_value_bound(s: Seq<u8>)
    ensures
        le_value(s) < pow256(s.len()),
    decreases s.len(),
{
    if s.len() > 0 {
        lemma_le_value_bound(s.drop_first());
    }
}

/// A byte sequence has value zero exactly when all its bytes are zero.
pub proof fn lemma_le_value_zero(s: Seq<u8>)
    ensures
        le_value(s) == 0 <==> (forall|i: int| 0 <= i < s.len() ==> s[i] == 0),
    decreases s.len(),
{
    if s.len() > 0 {
        lemma_le_value_zero(s.drop_first());
        assert forall|i: int| 0 <= i < s.drop_first().len() implies s.drop_first()[i] == s[i + 1] by {}
        if le_value(s) == 0 {
            assert(s[0] == 0 && le_value(s.drop_first()) == 0);
            assert forall|i: int| 0 <= i < s.len() implies s[i] == 0 by {
                if i > 0 {
                    assert(s.drop_first()[i - 1] == 0);
                }
            }
        } else {
            if forall|i: int| 0 <= i < s.len() ==> s[i] == 0 {
                assert(s[0] == 0);
                assert forall|i: int| 0 <= i < s.drop_first().len() implies s.drop_first()[i] == 0 by {
                    assert(s[i + 1] == 0);
                }
            }
        }
    }
}

/// Each byte of a little-endian sequence can be read back from its value by
/// division and remainder.
pub proof fn lemma_le_value_extract(s: Seq<u8>, i: int)
    requires
        0 <= i < s.len(),
    ensures
        (le_value(s) / pow256(i as nat)) % 256 == s[i],
    decreases i,
{
    let v = le_value(s) as int;
    let rest = le_value(s.drop_first()) as int;
    assert(v == 256 * rest + s[0]);
    lemma_fundamental_div_mod_converse(v, 256, rest, s[0] as int);
    assert(v / 256 == rest);
    assert(v % 256 == s[0]);
    if i == 0 {
        assert(pow256(0) == 1);
        assert(v / 1 == v) by {
            vstd::arithmetic::div_mod::lemma_div_basics(v);
        }
    } else {
        lemma_le_value_extract(s.drop_first(), i - 1);
        lemma_pow256_pos((i - 1) as nat);
        lemma_div_denominator(v, 256, pow256((i - 1) as nat) as int);
        assert(v / (256 * pow256((i - 1) as nat) as int) == rest / pow256((i - 1) as nat) as int);
        assert(pow256(i as nat) == 256 * pow256((i - 1) as nat));
        assert(s.drop_first()[i - 1] == s[i]);
    }
}

/// Encoding the value of a 16-byte sequence gives back the same bytes.
pub proof fn lemma_le_bytes16_of_le_value(s: Seq<u8>)
    requires
        s.len() == 16,
    ensures
        le_bytes16(le_value(s)) == s,
{
    assert forall|i: int| 0 <= i < 16 implies le_bytes16(le_value(s))[i] == s[i] by {
        lemma_le_value_extract(s, i);
    }
    assert(le_bytes16(le_value(s)) =~= s);
}

/// A non-zero value below 256^n has a non-zero byte among its first `n`
/// little-endian bytes.
pub proof fn lemma_nonzero_has_nonzero_byte(v: nat, n: nat)
    requires
        1 <= v < pow256(n),
    ensures
        exists|i: nat| i < n && (v / pow256(i)) % 256 != 0,
    decreases n,
{
    if n == 0 {
    } else if v % 256 != 0 {
        assert(pow256(0) == 1);
        assert(v / pow256(0) == v) by {
            vstd::arithmetic::div_mod::lemma_div_basics(v as int);
        }
        assert((v / pow256(0)) % 256 != 0);
        assert(0 < n && (v / pow256(0)) % 256 != 0);
    } else {
        let w = v / 256;
        lemma_fundamental_div_mod(v as int, 256);
        assert(v == 256 * w + v % 256);
        assert(w >= 1);
        assert(w < pow256((n - 1) as nat)) by {
            lemma_pow256_pos((n - 1) as nat);
            assert(v == 256 * w);
            if w >= pow256((n - 1) as nat) {
                assert(256 * w >= 256 * pow256((n - 1) as nat)) by (nonlinear_arith)
                    requires
                        w >= pow256((n - 1) as nat),
                ;
            }
        }
        lemma_nonzero_has_nonzero_byte(w, (n - 1) as nat);
        let i = choose|i: nat| i < n - 1 && (w / pow256(i)) % 256 != 0;
        lemma_pow256_pos(i);
        lemma_div_denominator(v as int, 256, pow256(i) as int);
        assert(v as int / (256 * pow256(i) as int) == w as int / pow256(i) as int);
        assert(pow256((i + 1) as nat) == 256 * pow256(i));
        assert(i + 1 < n && (v / pow256((i + 1) as nat)) % 256 != 0);
    }
}

/// An identifier for a clock engine, at most 16 bytes.
///
/// The identifier is a non-zero value stored little-endian in a fixed
/// 16-byte buffer, together with the number of significant bytes, so a value
/// has constant memory size and can live on the stack.  Equality, order and
/// hash all follow the buffer: the derived order compares the little-endian
/// buffer bytes from index 0 upward, which is the canonical order of this
/// type.
#[derive(Copy, Clone, PartialEq, Eq, PartialOrd, Ord, Hash, Debug)]
pub struct ID {
    bytes: [u8; 16],
    size: u8,
}

/// The error of building an [`ID`] from more than 16 bytes, or from a
/// zero value; the payload is the offending byte count, 0 for a zero value.
#[derive(Debug, Clone, Copy, PartialEq, Eq)]
pub struct SizeError(pub usize);

/// The error of parsing an [`ID`] from a malformed hexadecimal string.
#[derive(Debug, Clone, PartialEq, Eq)]
pub struct ParseIDError {
    pub cause: String,
}

/// Relies on rand's `OsRng.gen_range(1..u128::MAX)`: a value drawn from the
/// given non-empty range, so at least 1 and below `u128::MAX`.
#[verifier::external_body]
fn random_nonzero_u128() -> (r: u128)
    ensures
        1 <= r < u128::MAX,
{
    rand::rngs::OsRng.gen_range(1..u128::MAX)
}

impl View for ID {
    type V = Seq<u8>;

    closed spec fn view(&self) -> Seq<u8> {
        self.bytes@
    }
}

impl ID {
    /// The maximum size of a little-endian-encoded identifier, in bytes.
    pub const MAX_SIZE: usize = 16;

    /// Validity of an identifier: the stored significant length is between
    /// 1 and 16, the byte just below it is non-zero, and everything above it
    /// is zero.  Every constructed identifier satisfies it.
    #[verifier::type_invariant]
    pub closed spec fn inv(self) -> bool {
        &&& 1 <= self.size <= 16
        &&& self.bytes@[self.size as int - 1] != 0
        &&& forall|i: int| self.size <= i < 16 ==> self.bytes@[i] == 0
    }

    /// The number of significant bytes of the little-endian encoding.
    pub closed spec fn spec_size(&self) -> nat {
        self.size as nat
    }

    /// What validity gives of the buffer: 16 bytes, a non-zero byte right
    /// below the significant length, zeros above it, and so a non-zero
    /// value.
    pub proof fn lemma_wf(&self)
        requires
            self.inv(),
        ensures
            self@.len() == 16,
            1 <= self.spec_size() <= 16,
            self@[self.spec_size() as int - 1] != 0,
            forall|i: int| self.spec_size() <= i < 16 ==> self@[i] == 0,
            le_value(self@) != 0,
    {
        lemma_le_value_zero(self@);
    }

    /// Two identifiers with the same buffer are the same identifier.
    pub proof fn lemma_eq(a: ID, b: ID)
        requires
            a.inv(),
            b.inv(),
            a@ == b@,
        ensures
            a == b,
    {
        if a.size < b.size {
            assert(a.bytes@[b.size as int - 1] == 0);
        }
        if b.size < a.size {
            assert(b.bytes@[a.size as int - 1] == 0);
        }
        assert(a.bytes =~= b.bytes);
    }

    /// The size of this [`ID`] in bytes, i.e. the number of significant
    /// bytes of its little-endian encoding.
    pub fn size(&self) -> (r: usize)
        ensures
            r == self.spec_size(),
            1 <= r <= 16,
            self@[r as int - 1] != 0,
            forall|i: int| r <= i < 16 ==> self@[i] == 0,
    {
        proof {
            use_type_invariant(self);
        }
        self.size as usize
    }

    /// This identifier as its full 16-byte little-endian buffer.
    pub fn to_le_bytes(&self) -> (r: [u8; 16])
        ensures
            r@ == self@,
    {
        self.bytes
    }

    /// Builds the identifier with the given buffer, locating the significant
    /// length.
    fn make(bytes: [u8; 16]) -> (r: ID)
        requires
            le_value(bytes@) != 0,
        ensures
            r@ == bytes@,
    {
        let mut j: usize = 16;
        while j > 0 && bytes[j - 1] == 0
            invariant
                j <= 16,
                forall|k: int| j <= k < 16 ==> bytes@[k] == 0,
            decreases j,
        {
            j = j - 1;
        }
        proof {
            lemma_le_value_zero(bytes@);
            if j == 0 {
                assert(forall|k: int| 0 <= k < 16 ==> bytes@[k] == 0);
                assert(false);
            }
        }
        ID { bytes, size: j as u8 }
    }

    /// Generates a random identifier, uniform over the non-zero values that
    /// fit in 16 bytes.
    pub fn rand() -> ID {
        let v = random_nonzero_u128();
        Self::from_nonzero_u128(v)
    }

    /// Builds the identifier of a non-zero value.
    fn from_nonzero_u128(v: u128) -> (r: ID)
        requires
            v != 0,
        ensures
            r@ == le_bytes16(v as nat),
    {
        let mut bytes: [u8; 16] = [0; 16];
        let mut tmp: u128 = v;
        let mut i: usize = 0;
        proof {
            assert(pow256(0) == 1);
            assert(v as int / 1 == v as int) by {
                vstd::arithmetic::div_mod::lemma_div_basics(v as int);
            }
        }
        while i < 16
            invariant
                i <= 16,
                tmp == v as nat / pow256(i as nat),
                forall|k: int| 0 <= k < i ==> bytes@[k] == le_bytes16(v as nat)[k],
            decreases 16 - i,
        {
            bytes[i] = (tmp % 256) as u8;
            proof {
                lemma_pow256_pos(i as nat);
                lemma_div_denominator(v as int, pow256(i as nat) as int, 256);
                assert(pow256((i + 1) as nat) == 256 * pow256(i as nat));
                assert((pow256(i as nat) * 256) as int == pow256((i + 1) as nat) as int) by {
                    assert(pow256(i as nat) * 256 == 256 * pow256(i as nat)) by (nonlinear_arith);
                }
            }
            tmp = tmp / 256;
            i = i + 1;
        }
        proof {
            assert(bytes@ =~= le_bytes16(v as nat));
            lemma_le_value_bound(le_bytes16(v as nat));
            lemma_pow256_16();
            lemma_nonzero_has_nonzero_byte(v as nat, 16);
            let w = choose|k: nat| k < 16 && ((v as nat / pow256(k)) % 256) != 0;
            assert(bytes@[w as int] != 0);
            lemma_le_value_zero(bytes@);
        }
        Self::make(bytes)
    }

    /// Builds an identifier from a non-zero value that fits in 16 bytes;
    /// fails with `SizeError(0)` on zero.
    pub fn try_from_u128(v: u128) -> (r: Result<ID, SizeError>)
        ensures
            r is Ok <==> v != 0,
            r matches Ok(id) ==> id@ == le_bytes16(v as nat),
            r matches Err(e) ==> e == SizeError(0usize),
    {
        if v == 0 {
            Err(SizeError(0))
        } else {
            Ok(Self::from_nonzero_u128(v))
        }
    }

    /// Decodes an identifier from a little-endian byte slice of 1 to 16
    /// bytes.
    ///
    /// Fails with `SizeError(len)` on a longer slice and with `SizeError(0)`
    /// on a slice whose value is zero (the empty slice included); otherwise
    /// the identifier's buffer is the slice padded with zero bytes.
    pub fn try_from_le_bytes(slice: &[u8]) -> (r: Result<ID, SizeError>)
        ensures
            r is Ok <==> slice@.len() <= 16 && le_value(slice@) != 0,
            r matches Ok(id) ==> id@ == pad16(slice@),
            r matches Err(e) ==> e == (if slice@.len() > 16 {
                SizeError(slice@.len() as usize)
            } else {
                SizeError(0usize)
            }),
    {
        let n = slice.len();
        if n > 16 {
            return Err(SizeError(n));
        }
        let mut bytes: [u8; 16] = [0; 16];
        let mut nonzero = false;
        let mut i: usize = 0;
        while i < n
            invariant
                i <= n <= 16,
                n == slice@.len(),
                forall|k: int| 0 <= k < i ==> bytes@[k] == slice@[k],
                forall|k: int| i <= k < 16 ==> bytes@[k] == 0,
                nonzero <==> exists|k: int| 0 <= k < i && slice@[k] != 0,
            decreases n - i,
        {
            let b = slice[i];
            bytes[i] = b;
            if b != 0 {
                nonzero = true;
            }
            i = i + 1;
        }
        proof {
            assert(bytes@ =~= pad16(slice@));
            lemma_le_value_zero(slice@);
            lemma_le_value_zero(bytes@);
        }
        if !nonzero {
            proof {
                assert(forall|k: int| 0 <= k < n ==> slice@[k] == 0);
            }
            return Err(SizeError(0));
        }
        proof {
            let k = choose|k: int| 0 <= k < n && slice@[k] != 0;
            assert(bytes@[k] != 0);
        }
        Ok(Self::make(bytes))
    }
}

/// Round trip of the little-endian byte encoding: a sequence of 1 to 16
/// bytes with a non-zero value decodes to an identifier whose first bytes
/// are exactly the input, so re-encoding reproduces the sequence.
pub proof fn lemma_le_bytes_round_trip(s: Seq<u8>, id: ID)
    requires
        1 <= s.len() <= 16,
        le_value(s) != 0,
        id@ == pad16(s),
    ensures
        id@.subrange(0, s.len() as int) == s,
{
    assert(id@.subrange(0, s.len() as int) =~= s);
}

/// The cause text of each way a hexadecimal identifier string is rejected.
pub open spec fn spec_parse_id_cause(s: Seq<char>) -> Seq<char> {
    if s.len() == 0 {
        "Empty strings are not valid"@
    } else if s[0] == '0' {
        "Leading 0s are not valid"@
    } else {
        "Invalid lowercase hexadecimal"@
    }
}

impl ID {
    /// Parses an identifier from its canonical hexadecimal form: minimal
    /// lowercase hexadecimal, so non-empty, without a leading zero, and at
    /// most 32 digits.
    pub fn parse_hex(s: &str) -> (r: Result<ID, ParseIDError>)
        ensures
            r is Ok <==> s@.len() >= 1 && s@[0] != '0' && all_hex_digits(s@) && hex_value(s@)
                <= u128::MAX,
            r matches Ok(id) ==> id@ == le_bytes16(hex_value(s@)),
            r matches Err(e) ==> e.cause@ == spec_parse_id_cause(s@),
    {
        let n = s.unicode_len();
        if n == 0 {
            return Err(ParseIDError { cause: String::from_str("Empty strings are not valid") });
        }
        let c0 = s.get_char(0);
        if c0 == '0' {
            return Err(ParseIDError { cause: String::from_str("Leading 0s are not valid") });
        }
        match parse_hex_u128(s) {
            None => Err(ParseIDError { cause: String::from_str("Invalid lowercase hexadecimal") }),
            Some(v) => {
                proof {
                    lemma_hex_value_nonzero(s@);
                }
                Ok(Self::from_nonzero_u128(v))
            },
        }
    }

    /// The canonical text of this identifier: minimal lowercase hexadecimal
    /// of its value.
    pub fn to_string(&self) -> (r: String)
        ensures
            r@ == hex_digits(le_value(self@)),
    {
        proof {
            use_type_invariant(self);
        }
        let mut acc: u128 = 0;
        let mut i: usize = 16;
        proof {
            assert(self@.skip(16) =~= Seq::<u8>::empty());
        }
        while i > 0
            invariant
                i <= 16,
                self@.len() == 16,
                acc == le_value(self@.skip(i as int)),
            decreases i,
        {
            i = i - 1;
            let b = self.bytes[i];
            proof {
                assert(self@.skip(i as int).drop_first() =~= self@.skip(i as int + 1));
                assert(self@.skip(i as int)[0] == self@[i as int]);
                lemma_le_value_bound(self@.skip(i as int + 1));
                assert(self@.skip(i as int + 1).len() == 15 - i);
                lemma_pow256_monotone((15 - i) as nat, 15);
                lemma_pow256_16();
                assert(pow256(16) == 256 * pow256(15));
            }
            acc = 256 * acc + (b as u128);
        }
        proof {
            assert(self@.skip(0) =~= self@);
        }
        let mut out = String::new();
        push_hex_digits(acc, &mut out);
        proof {
            assert(out@ =~= hex_digits(le_value(self@)));
        }
        out
    }
}

impl core::str::FromStr for ID {
    type Err = ParseIDError;

    /// Parses the canonical hexadecimal form, as [`ID::parse_hex`] does.
    fn from_str(s: &str) -> Result<ID, ParseIDError> {
        ID::parse_hex(s)
    }
}

} // verus!
