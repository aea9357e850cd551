//! Decimal and hexadecimal text for unsigned values.
//!
//! The spec functions here define the canonical digit strings of a number
//! (most significant digit first, lowercase hexadecimal) and the value of a
//! digit string; the executable functions produce and consume such strings
//! and are verified against those definitions.

use vstd::prelude::*;

verus! {

/// Whether `c` is one of the decimal digits `0`..`9`.
pub open spec fn is_dec_digit(c: char) -> bool {
    48 <= c as u32 <= 57
}

/// Whether `c` is a lowercase hexadecimal digit `0`..`9` or `a`..`f`.
pub open spec fn is_hex_digit(c: char) -> bool {
    is_dec_digit(c) || 97 <= c as u32 <= 102
}

/// The numeric value of a decimal or lowercase hexadecimal digit.
pub open spec fn digit_val(c: char) -> nat {
    if 97 <= c as u32 {
        (c as u32 - 87) as nat
    } else {
        (c as u32 - 48) as nat
    }
}

/// The digit character of a value below 16, lowercase for 10..15.
pub open spec fn digit_char(d: nat) -> char {
    if d == 0 {
        '0'
    } else if d == 1 {
        '1'
    } else if d == 2 {
        '2'
    } else if d == 3 {
        '3'
    } else if d == 4 {
        '4'
    } else if d == 5 {
        '5'
    } else if d == 6 {
        '6'
    } else if d == 7 {
        '7'
    } else if d == 8 {
        '8'
    } else if d == 9 {
        '9'
    } else if d == 10 {
        'a'
    } else if d == 11 {
        'b'
    } else if d == 12 {
        'c'
    } else if d == 13 {
        'd'
    } else if d == 14 {
        'e'
    } else {
        'f'
    }
}

proof fn lemma_digit_char_props(d: nat)
    requires
        d < 16,
    ensures
        is_hex_digit(digit_char(d)),
        digit_val(digit_char(d)) == d,
        d < 10 ==> is_dec_digit(digit_char(d)),
        digit_char(d) != '/',
        d >= 1 ==> digit_char(d) != '0',
{
}

/// The canonical decimal digit string of `v`, most significant digit first.
pub open spec fn dec_digits(v: nat) -> Seq<char>
    decreases v,
{
    if v < 10 {
        seq![digit_char(v)]
    } else {
        dec_digits(v / 10).push(digit_char(v % 10))
    }
}

/// The canonical lowercase hexadecimal digit string of `v`, most significant
/// digit first.
pub open spec fn hex_digits(v: nat) -> Seq<char>
    decreases v,
{
    if v < 16 {
        seq![digit_char(v)]
    } else {
        hex_digits(v / 16).push(digit_char(v % 16))
    }
}

/// The value of a decimal digit string.
pub open spec fn dec_value(s: Seq<char>) -> nat
    decreases s.len(),
{
    if s.len() == 0 {
        0
    } else {
        dec_value(s.drop_last()) * 10 + digit_val(s.last())
    }
}

/// The value of a lowercase hexadecimal digit string.
pub open spec fn hex_value(s: Seq<char>) -> nat
    decreases s.len(),
{
    if s.len() == 0 {
        0
    } else {
        hex_value(s.drop_last()) * 16 + digit_val(s.last())
    }
}

/// Whether every character of `s` is a decimal digit.
pub open spec fn all_dec_digits(s: Seq<char>) -> bool {
    forall|i: int| 0 <= i < s.len() ==> is_dec_digit(#[trigger] s[i])
}

/// Whether every character of `s` is a lowercase hexadecimal digit.
pub open spec fn all_hex_digits(s: Seq<char>) -> bool {
    forall|i: int| 0 <= i < s.len() ==> is_hex_digit(#[trigger] s[i])
}

/// The canonical decimal string of a value is a non-empty, slash-free digit
/// string that evaluates back to the value.
pub proof fn lemma_dec_digits_props(v: nat)
    ensures
        dec_digits(v).len() >= 1,
        all_dec_digits(dec_digits(v)),
        dec_value(dec_digits(v)) == v,
        forall|i: int| 0 <= i < dec_digits(v).len() ==> (#[trigger] dec_digits(v)[i]) != '/',
        v >= 1 ==> dec_digits(v)[0] != '0',
    decreases v,
{
    if v < 10 {
        lemma_digit_char_props(v);
        assert(dec_digits(v) =~= seq![digit_char(v)]);
        assert(dec_digits(v).drop_last() =~= Seq::<char>::empty());
        assert(dec_value(Seq::<char>::empty()) == 0);
        assert(dec_digits(v).last() == digit_char(v));
    } else {
        lemma_dec_digits_props(v / 10);
        lemma_digit_char_props(v % 10);
        let s = dec_digits(v);
        let p = dec_digits(v / 10);
        assert(s == p.push(digit_char(v % 10)));
        assert(s.drop_last() =~= p);
        assert(s.last() == digit_char(v % 10));
        assert(dec_value(s) == (v / 10) * 10 + v % 10);
        assert((v / 10) * 10 + v % 10 == v) by {
            vstd::arithmetic::div_mod::lemma_fundamental_div_mod(v as int, 10);
        }
        assert(v / 10 >= 1);
        assert(s[0] == p[0]);
        assert forall|i: int| 0 <= i < s.len() implies is_dec_digit(#[trigger] s[i]) && s[i] != '/' by {
            if i < p.len() {
                assert(s[i] == p[i]);
            } else {
                assert(s[i] == digit_char(v % 10));
            }
        }
    }
}

/// The canonical hexadecimal string of a value is a non-empty, slash-free
/// hex-digit string that evaluates back to the value, and has no leading
/// zero when the value is non-zero.
pub proof fn lemma_hex_digits_props(v: nat)
    ensures
        hex_digits(v).len() >= 1,
        all_hex_digits(hex_digits(v)),
        hex_value(hex_digits(v)) == v,
        forall|i: int| 0 <= i < hex_digits(v).len() ==> (#[trigger] hex_digits(v)[i]) != '/',
        v >= 1 ==> hex_digits(v)[0] != '0',
    decreases v,
{
    if v < 16 {
        lemma_digit_char_props(v);
        assert(hex_digits(v) =~= seq![digit_char(v)]);
        assert(hex_digits(v).drop_last() =~= Seq::<char>::empty());
        assert(hex_value(Seq::<char>::empty()) == 0);
        assert(hex_digits(v).last() == digit_char(v));
    } else {
        lemma_hex_digits_props(v / 16);
        lemma_digit_char_props(v % 16);
        let s = hex_digits(v);
        let p = hex_digits(v / 16);
        assert(s == p.push(digit_char(v % 16)));
        assert(s.drop_last() =~= p);
        assert(s.last() == digit_char(v % 16));
        assert(hex_value(s) == (v / 16) * 16 + v % 16);
        assert((v / 16) * 16 + v % 16 == v) by {
            vstd::arithmetic::div_mod::lemma_fundamental_div_mod(v as int, 16);
        }
        assert(v / 16 >= 1);
        assert(s[0] == p[0]);
        assert forall|i: int| 0 <= i < s.len() implies is_hex_digit(#[trigger] s[i]) && s[i] != '/' by {
            if i < p.len() {
                assert(s[i] == p[i]);
            } else {
                assert(s[i] == digit_char(v % 16));
            }
        }
    }
}

/// Extending a digit string by one character multiplies its value by the base
/// and adds the digit, so values of prefixes never decrease.
pub proof fn lemma_dec_value_take_step(s: Seq<char>, i: int)
    requires
        0 <= i < s.len(),
    ensures
        dec_value(s.take(i + 1)) == dec_value(s.take(i)) * 10 + digit_val(s[i]),
{
    assert(s.take(i + 1).drop_last() =~= s.take(i));
    assert(s.take(i + 1).last() == s[i]);
}

/// Same step property for hexadecimal strings.
pub proof fn lemma_hex_value_take_step(s: Seq<char>, i: int)
    requires
        0 <= i < s.len(),
    ensures
        hex_value(s.take(i + 1)) == hex_value(s.take(i)) * 16 + digit_val(s[i]),
{
    assert(s.take(i + 1).drop_last() =~= s.take(i));
    assert(s.take(i + 1).last() == s[i]);
}

/// The value of a prefix is at most the value of a longer prefix.
pub proof fn lemma_dec_value_take_le(s: Seq<char>, i: int, j: int)
    requires
        0 <= i <= j <= s.len(),
    ensures
        dec_value(s.take(i)) <= dec_value(s.take(j)),
    decreases j - i,
{
    if i < j {
        lemma_dec_value_take_le(s, i, j - 1);
        lemma_dec_value_take_step(s, j - 1);
    }
}

/// The value of a prefix is at most the value of a longer prefix.
pub proof fn lemma_hex_value_take_le(s: Seq<char>, i: int, j: int)
    requires
        0 <= i <= j <= s.len(),
    ensures
        hex_value(s.take(i)) <= hex_value(s.take(j)),
    decreases j - i,
{
    if i < j {
        lemma_hex_value_take_le(s, i, j - 1);
        lemma_hex_value_take_step(s, j - 1);
    }
}

/// A non-empty hexadecimal string without a leading zero has a non-zero value.
pub proof fn lemma_hex_value_nonzero(s: Seq<char>)
    requires
        s.len() >= 1,
        all_hex_digits(s),
        s[0] != '0',
    ensures
        hex_value(s) >= 1,
    decreases s.len(),
{
    if s.len() == 1 {
        assert(s.drop_last() =~= Seq::<char>::empty());
        assert(hex_value(Seq::<char>::empty()) == 0);
        assert(is_hex_digit(s[0]));
        if s[0] as u32 == 48 {
            vstd::utf8::char_u32_cast(s[0], 48u32);
            vstd::utf8::char_u32_cast('0', 48u32);
            assert(s[0] == '0');
        }
        assert(digit_val(s[0]) >= 1);
    } else {
        let p = s.drop_last();
        assert(p[0] == s[0]);
        assert forall|i: int| 0 <= i < p.len() implies is_hex_digit(#[trigger] p[i]) by {
            assert(p[i] == s[i]);
        }
        lemma_hex_value_nonzero(p);
    }
}

/// The index of the first occurrence of `c` in `s`, if any.
pub open spec fn find_char(s: Seq<char>, c: char) -> Option<int>
    decreases s.len(),
{
    if s.len() == 0 {
        None
    } else if s[0] == c {
        Some(0)
    } else {
        match find_char(s.drop_first(), c) {
            Some(i) => Some(i + 1),
            None => None,
        }
    }
}

/// `find_char` returns exactly the first index holding `c`, and `None` exactly
/// when `c` does not occur.
pub proof fn lemma_find_char(s: Seq<char>, c: char)
    ensures
        match find_char(s, c) {
            Some(i) => 0 <= i < s.len() && s[i] == c && forall|j: int| 0 <= j < i ==> s[j] != c,
            None => forall|j: int| 0 <= j < s.len() ==> s[j] != c,
        },
    decreases s.len(),
{
    if s.len() > 0 && s[0] != c {
        lemma_find_char(s.drop_first(), c);
        let r = find_char(s.drop_first(), c);
        assert forall|j: int| 0 <= j < s.drop_first().len() implies s.drop_first()[j] == s[j + 1] by {}
        match r {
            Some(i) => {
                assert(s[i + 1] == s.drop_first()[i]);
                assert forall|j: int| 0 <= j < i + 1 implies s[j] != c by {
                    if j > 0 {
                        assert(s[j] == s.drop_first()[j - 1]);
                    }
                }
            },
            None => {
                assert forall|j: int| 0 <= j < s.len() implies s[j] != c by {
                    if j > 0 {
                        assert(s[j] == s.drop_first()[j - 1]);
                    }
                }
            },
        }
    }
}

/// The one-character string of a digit value below 16.
pub fn digit_str(d: u8) -> (s: &'static str)
    requires
        d < 16,
    ensures
        s@ == seq![digit_char(d as nat)],
{
    let s: &'static str = if d == 0 {
        "0"
    } else if d == 1 {
        "1"
    } else if d == 2 {
        "2"
    } else if d == 3 {
        "3"
    } else if d == 4 {
        "4"
    } else if d == 5 {
        "5"
    } else if d == 6 {
        "6"
    } else if d == 7 {
        "7"
    } else if d == 8 {
        "8"
    } else if d == 9 {
        "9"
    } else if d == 10 {
        "a"
    } else if d == 11 {
        "b"
    } else if d == 12 {
        "c"
    } else if d == 13 {
        "d"
    } else if d == 14 {
        "e"
    } else {
        "f"
    };
    proof {
        reveal_strlit("0");
        reveal_strlit("1");
        reveal_strlit("2");
        reveal_strlit("3");
        reveal_strlit("4");
        reveal_strlit("5");
        reveal_strlit("6");
        reveal_strlit("7");
        reveal_strlit("8");
        reveal_strlit("9");
        reveal_strlit("a");
        reveal_strlit("b");
        reveal_strlit("c");
        reveal_strlit("d");
        reveal_strlit("e");
        reveal_strlit("f");
        assert(s@ =~= seq![digit_char(d as nat)]);
    }
    s
}

/// Appends the canonical decimal digits of `v` to `out`.
pub fn push_dec_digits(v: u64, out: &mut String)
    ensures
        final(out)@ == old(out)@ + dec_digits(v as nat),
    decreases v,
{
    if v >= 10 {
        push_dec_digits(v / 10, out);
    }
    let ghost mid = out@;
    out.append(digit_str((v % 10) as u8));
    proof {
        if v >= 10 {
            assert(dec_digits(v as nat) == dec_digits((v / 10) as nat).push(
                digit_char((v % 10) as nat),
            ));
            assert(old(out)@ + dec_digits((v / 10) as nat) + seq![digit_char((v % 10) as nat)]
                =~= old(out)@ + dec_digits(v as nat));
        } else {
            assert(old(out)@ + seq![digit_char(v as nat)] =~= old(out)@ + dec_digits(v as nat));
        }
    }
}

/// Appends the canonical lowercase hexadecimal digits of `v` to `out`.
pub fn push_hex_digits(v: u128, out: &mut String)
    ensures
        final(out)@ == old(out)@ + hex_digits(v as nat),
    decreases v,
{
    if v >= 16 {
        push_hex_digits(v / 16, out);
    }
    let ghost mid = out@;
    out.append(digit_str((v % 16) as u8));
    proof {
        if v >= 16 {
            assert(hex_digits(v as nat) == hex_digits((v / 16) as nat).push(
                digit_char((v % 16) as nat),
            ));
            assert(old(out)@ + hex_digits((v / 16) as nat) + seq![digit_char((v % 16) as nat)]
                =~= old(out)@ + hex_digits(v as nat));
        } else {
            assert(old(out)@ + seq![digit_char(v as nat)] =~= old(out)@ + hex_digits(v as nat));
        }
    }
}

/// Parses a decimal digit string into a `u64`; `None` exactly when the string
/// is empty, holds a character that is not a decimal digit, or encodes a
/// value above `u64::MAX`.
pub fn parse_dec_u64(s: &str) -> (r: Option<u64>)
    ensures
        r is Some <==> s@.len() >= 1 && all_dec_digits(s@) && dec_value(s@) <= u64::MAX,
        r matches Some(v) ==> v == dec_value(s@),
{
    let n = s.unicode_len();
    if n == 0 {
        return None;
    }
    let mut acc: u64 = 0;
    let mut i: usize = 0;
    proof {
        assert(s@.take(0) =~= Seq::<char>::empty());
    }
    while i < n
        invariant
            0 <= i <= n,
            n == s@.len(),
            all_dec_digits(s@.take(i as int)),
            acc == dec_value(s@.take(i as int)),
        decreases n - i,
    {
        let c = s.get_char(i);
        let u = c as u32;
        if u < 48 || u > 57 {
            proof {
                assert(!is_dec_digit(s@[i as int]));
            }
            return None;
        }
        let d = (u - 48) as u64;
        proof {
            lemma_dec_value_take_step(s@, i as int);
        }
        let prod = match acc.checked_mul(10) {
            Some(p) => p,
            None => {
                proof {
                    lemma_dec_value_take_le(s@, i as int + 1, s@.len() as int);
                    assert(s@.take(s@.len() as int) =~= s@);
                }
                return None;
            },
        };
        let sum = match prod.checked_add(d) {
            Some(x) => x,
            None => {
                proof {
                    lemma_dec_value_take_le(s@, i as int + 1, s@.len() as int);
                    assert(s@.take(s@.len() as int) =~= s@);
                }
                return None;
            },
        };
        acc = sum;
        i = i + 1;
        proof {
            assert(all_dec_digits(s@.take(i as int))) by {
                assert(forall|j: int|
                    0 <= j < i ==> s@.take(i as int)[j] == s@[j]);
            }
        }
    }
    proof {
        assert(s@.take(n as int) =~= s@);
    }
    Some(acc)
}

/// Parses a lowercase hexadecimal digit string into a `u128`; `None` exactly
/// when the string is empty, holds a character that is not a lowercase
/// hexadecimal digit, or encodes a value above `u128::MAX`.
pub fn parse_hex_u128(s: &str) -> (r: Option<u128>)
    ensures
        r is Some <==> s@.len() >= 1 && all_hex_digits(s@) && hex_value(s@) <= u128::MAX,
        r matches Some(v) ==> v == hex_value(s@),
{
    let n = s.unicode_len();
    if n == 0 {
        return None;
    }
    let mut acc: u128 = 0;
    let mut i: usize = 0;
    proof {
        assert(s@.take(0) =~= Seq::<char>::empty());
    }
    while i < n
        invariant
            0 <= i <= n,
            n == s@.len(),
            all_hex_digits(s@.take(i as int)),
            acc == hex_value(s@.take(i as int)),
        decreases n - i,
    {
        let c = s.get_char(i);
        let u = c as u32;
        let d: u64 = if 48 <= u && u <= 57 {
            (u - 48) as u64
        } else if 97 <= u && u <= 102 {
            (u - 87) as u64
        } else {
            proof {
                assert(!is_hex_digit(s@[i as int]));
            }
            return None;
        };
        proof {
            lemma_hex_value_take_step(s@, i as int);
        }
        let prod = match acc.checked_mul(16) {
            Some(p) => p,
            None => {
                proof {
                    lemma_hex_value_take_le(s@, i as int + 1, s@.len() as int);
                    assert(s@.take(s@.len() as int) =~= s@);
                }
                return None;
            },
        };
        let sum = match prod.checked_add(d as u128) {
            Some(x) => x,
            None => {
                proof {
                    lemma_hex_value_take_le(s@, i as int + 1, s@.len() as int);
                    assert(s@.take(s@.len() as int) =~= s@);
                }
                return None;
            },
        };
        acc = sum;
        i = i + 1;
        proof {
            assert(all_hex_digits(s@.take(i as int))) by {
                assert(forall|j: int|
                    0 <= j < i ==> s@.take(i as int)[j] == s@[j]);
            }
        }
    }
    proof {
        assert(s@.take(n as int) =~= s@);
    }
    Some(acc)
}

} // verus!
