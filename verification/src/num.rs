//! Base-10 integers on byte strings.
//!
//! `dec_val` gives the value of a digit string, `dec_rep` the canonical
//! (no leading zero) digit string of a value; the exec parsers and
//! formatters are proved against them, and `lemma_dec_rep_val` closes
//! the round trip.

use vstd::prelude::*;

use vstd::arithmetic::div_mod::lemma_fundamental_div_mod;

verus! {

/// True for the ASCII digits `0`..`9`.
pub open spec fn is_digit(b: u8) -> bool {
    48 <= b && b <= 57
}

/// Every byte is an ASCII digit.
pub open spec fn all_digits(s: Seq<u8>) -> bool {
    forall|i: int| 0 <= i < s.len() ==> is_digit(#[trigger] s[i])
}

/// A non-empty, all-digit byte string.
pub open spec fn digits_ok(s: Seq<u8>) -> bool {
    s.len() > 0 && all_digits(s)
}

/// The base-10 value of a digit string (most significant digit first).
pub open spec fn dec_val(s: Seq<u8>) -> nat
    decreases s.len(),
{
    if s.len() == 0 {
        0
    } else {
        (dec_val(s.drop_last()) * 10 + (s.last() - 48)) as nat
    }
}

/// The canonical decimal digit string of a value: no sign, and no
/// leading zero except for the value zero itself.
pub open spec fn dec_rep(n: nat) -> Seq<u8>
    decreases n,
{
    if n < 10 {
        seq![(48 + n) as u8]
    } else {
        dec_rep(n / 10).push((48 + n % 10) as u8)
    }
}

/// Appending a digit multiplies the value by ten and adds the digit.
pub proof fn lemma_dec_val_push(s: Seq<u8>, b: u8)
    requires
        is_digit(b),
    ensures
        dec_val(s.push(b)) == dec_val(s) * 10 + (b - 48),
{
    assert(s.push(b).drop_last() =~= s);
    assert(s.push(b).last() == b);
}

/// The canonical representation consists of digits and, for a positive
/// value, does not start with a zero.
pub proof fn lemma_dec_rep_digits(n: nat)
    ensures
        digits_ok(dec_rep(n)),
        n >= 1 ==> dec_rep(n)[0] != 48,
    decreases n,
{
    if n < 10 {
        assert(dec_rep(n) =~= seq![(48 + n) as u8]);
    } else {
        lemma_dec_rep_digits(n / 10);
        assert(n / 10 >= 1) by {
            lemma_fundamental_div_mod(n as int, 10);
        }
        let s = dec_rep(n / 10);
        let b = (48 + n % 10) as u8;
        assert(is_digit(b)) by {
            lemma_fundamental_div_mod(n as int, 10);
        }
        assert(forall|i: int| 0 <= i < s.push(b).len() ==> is_digit(#[trigger] s.push(b)[i]));
        assert(s.push(b)[0] == s[0]);
    }
}

/// Parsing the canonical representation of a value gives it back.
pub proof fn lemma_dec_rep_val(n: nat)
    ensures
        dec_val(dec_rep(n)) == n,
    decreases n,
{
    if n < 10 {
        let s = seq![(48 + n) as u8];
        assert(s.drop_last() =~= Seq::<u8>::empty());
        assert(dec_val(Seq::<u8>::empty()) == 0);
        assert(s.last() == (48 + n) as u8);
        assert(dec_val(s) == (dec_val(s.drop_last()) * 10 + (s.last() - 48)) as nat);
        assert(dec_val(s) == n);
    } else {
        lemma_dec_rep_val(n / 10);
        lemma_fundamental_div_mod(n as int, 10);
        lemma_dec_val_push(dec_rep(n / 10), (48 + n % 10) as u8);
    }
}

/// On an all-digit string, the value of a prefix never exceeds the
/// value of a longer prefix.
pub proof fn lemma_dec_val_take_grows(s: Seq<u8>, i: int, j: int)
    requires
        all_digits(s),
        0 <= i <= j <= s.len(),
    ensures
        dec_val(s.take(i)) <= dec_val(s.take(j)),
    decreases j - i,
{
    if i < j {
        lemma_dec_val_take_grows(s, i, j - 1);
        assert(s.take(j).drop_last() =~= s.take(j - 1));
        assert(s.take(j).last() == s[j - 1]);
        assert(dec_val(s.take(j)) == dec_val(s.take(j - 1)) * 10 + (s[j - 1] - 48));
    }
}

/// Decodes an all-digit byte string as a `u64`; `None` on an empty
/// string, a non-digit byte, or a value out of range.
pub fn parse_u64(t: &[u8]) -> (r: Option<u64>)
    ensures
        r is Some <==> digits_ok(t@) && dec_val(t@) <= u64::MAX,
        r matches Some(v) ==> v == dec_val(t@),
{
    if t.len() == 0 {
        return None;
    }
    let mut acc: u64 = 0;
    let mut i: usize = 0;
    proof {
        assert(t@.take(0) =~= Seq::<u8>::empty());
    }
    while i < t.len()
        invariant
            0 < t@.len(),
            0 <= i <= t@.len(),
            all_digits(t@.take(i as int)),
            acc == dec_val(t@.take(i as int)),
        decreases t@.len() - i,
    {
        let b = t[i];
        if b < 48 || b > 57 {
            proof {
                assert(!is_digit(t@[i as int]));
            }
            return None;
        }
        let d = (b - 48) as u64;
        proof {
            assert(t@.take(i as int).push(b) =~= t@.take(i + 1));
            lemma_dec_val_push(t@.take(i as int), b);
            lemma_fundamental_div_mod((u64::MAX - d) as int, 10);
        }
        if acc > (u64::MAX - d) / 10 {
            proof {
                assert(dec_val(t@.take(i + 1)) > u64::MAX);
                if all_digits(t@) {
                    lemma_dec_val_take_grows(t@, i + 1, t@.len() as int);
                    assert(t@.take(t@.len() as int) =~= t@);
                }
            }
            return None;
        }
        acc = acc * 10 + d;
        i = i + 1;
    }
    proof {
        assert(t@.take(t@.len() as int) =~= t@);
    }
    Some(acc)
}

/// Decodes an all-digit byte string as a `usize`.
pub fn parse_usize(t: &[u8]) -> (r: Option<usize>)
    ensures
        r is Some <==> digits_ok(t@) && dec_val(t@) <= usize::MAX,
        r matches Some(v) ==> v == dec_val(t@),
{
    match parse_u64(t) {
        Some(v) => {
            if v <= usize::MAX as u64 {
                Some(v as usize)
            } else {
                None
            }
        },
        None => None,
    }
}

/// The canonical decimal byte string of a `u64`.
pub fn format_u64(n: u64) -> (r: Vec<u8>)
    ensures
        r@ == dec_rep(n as nat),
    decreases n,
{
    if n < 10 {
        let mut v: Vec<u8> = Vec::new();
        v.push(48 + n as u8);
        proof {
            assert(v@ =~= dec_rep(n as nat));
        }
        v
    } else {
        let mut v = format_u64(n / 10);
        v.push(48 + (n % 10) as u8);
        proof {
            assert(v@ =~= dec_rep(n as nat));
        }
        v
    }
}

/// The canonical decimal byte string of a `usize`.
pub fn format_usize(n: usize) -> (r: Vec<u8>)
    ensures
        r@ == dec_rep(n as nat),
{
    format_u64(n as u64)
}

/// The canonical decimal byte string of an integer: a minus sign for
/// negative values, then the canonical digits of the magnitude.
pub open spec fn dec_rep_int(i: int) -> Seq<u8> {
    if i >= 0 {
        dec_rep(i as nat)
    } else {
        seq![45u8] + dec_rep((-i) as nat)
    }
}

/// The canonical decimal byte string of an `i64`.
pub fn format_i64(n: i64) -> (r: Vec<u8>)
    ensures
        r@ == dec_rep_int(n as int),
{
    if n >= 0 {
        let r = format_u64(n as u64);
        r
    } else {
        let m: u64 = ((-(n + 1)) as u64) + 1;
        proof {
            assert(m == (-(n as int)) as nat);
        }
        let digits = format_u64(m);
        let mut r: Vec<u8> = Vec::new();
        r.push(45);
        let mut i: usize = 0;
        while i < digits.len()
            invariant
                0 <= i <= digits.len(),
                r@ == seq![45u8] + digits@.take(i as int),
            decreases digits.len() - i,
        {
            r.push(digits[i]);
            proof {
                assert(seq![45u8] + digits@.take(i as int) + seq![digits@[i as int]] =~= seq![45u8]
                    + digits@.take(i + 1));
            }
            i = i + 1;
        }
        proof {
            assert(digits@.take(digits@.len() as int) =~= digits@);
        }
        r
    }
}

/// A byte string that decodes as a signed 64-bit integer: an optional
/// minus sign, then at least one digit, within the `i64` range.
pub open spec fn i64_rep_ok(s: Seq<u8>) -> bool {
    if s.len() > 0 && s[0] == 45 {
        digits_ok(s.skip(1)) && dec_val(s.skip(1)) <= i64::MAX as nat + 1
    } else {
        digits_ok(s) && dec_val(s) <= i64::MAX as nat
    }
}

/// The signed value of such a byte string.
pub open spec fn i64_val(s: Seq<u8>) -> int {
    if s.len() > 0 && s[0] == 45 {
        -(dec_val(s.skip(1)) as int)
    } else {
        dec_val(s) as int
    }
}

/// Decodes a byte string as a signed 64-bit integer.
pub fn parse_i64(t: &[u8]) -> (r: Option<i64>)
    ensures
        r is Some <==> i64_rep_ok(t@),
        r matches Some(v) ==> v == i64_val(t@),
{
    if t.len() > 0 && t[0] == 45 {
        let rest = vstd::slice::slice_subrange(t, 1, t.len());
        proof {
            assert(rest@ =~= t@.skip(1));
        }
        match parse_u64(rest) {
            Some(m) => {
                if m <= 9223372036854775808u64 {
                    let v: i64 = if m == 0 {
                        0
                    } else {
                        (-(((m - 1) as i64))) - 1
                    };
                    proof {
                        assert(v == -(m as int));
                    }
                    Some(v)
                } else {
                    None
                }
            },
            None => None,
        }
    } else {
        match parse_u64(t) {
            Some(m) => {
                if m <= i64::MAX as u64 {
                    Some(m as i64)
                } else {
                    None
                }
            },
            None => None,
        }
    }
}

} // verus!
