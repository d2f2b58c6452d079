//! Decimal digit strings: formatting integers for request parameters and
//! parsing the numeric header values and counters the provider hands back.

use vstd::prelude::*;

verus! {

/// Whether `b` is an ASCII decimal digit.
pub open spec fn is_digit(b: u8) -> bool {
    ('0' as u8) <= b <= ('9' as u8)
}

/// Whether every byte of `s` is an ASCII decimal digit.
pub open spec fn all_digits(s: Seq<u8>) -> bool {
    forall|i: int| 0 <= i < s.len() ==> is_digit(#[trigger] s[i])
}

/// The decimal digit string of a natural number, most significant digit
/// first, without leading zeros (`0` itself is the single digit `0`).
pub open spec fn dec_digits(n: nat) -> Seq<u8>
    decreases n,
{
    if n < 10 {
        seq![(('0' as u8) + n) as u8]
    } else {
        dec_digits(n / 10).push((('0' as u8) + (n % 10)) as u8)
    }
}

/// The decimal digit string of an integer: a `-` sign where negative.
pub open spec fn dec_int(n: int) -> Seq<u8> {
    if n >= 0 {
        dec_digits(n as nat)
    } else {
        seq![('-' as u8)] + dec_digits((-n) as nat)
    }
}

/// The number a digit string denotes, read most significant digit first.
pub open spec fn dec_val(s: Seq<u8>) -> nat
    decreases s.len(),
{
    if s.len() == 0 {
        0
    } else {
        dec_val(s.drop_last()) * 10 + (s.last() - ('0' as u8)) as nat
    }
}

/// A longer prefix never denotes a smaller number.
proof fn lemma_dec_val_take_mono(s: Seq<u8>, j: int)
    requires
        0 <= j <= s.len(),
    ensures
        dec_val(s.take(j)) <= dec_val(s),
    decreases s.len(),
{
    if j < s.len() {
        assert(s.drop_last().take(j) =~= s.take(j));
        lemma_dec_val_take_mono(s.drop_last(), j);
        assert(dec_val(s.drop_last()) <= dec_val(s.drop_last()) * 10);
    } else {
        assert(s.take(j) =~= s);
    }
}

/// Format a natural number in decimal.
pub fn u64_to_dec(n: u64) -> (r: Vec<u8>)
    ensures
        r@ == dec_digits(n as nat),
    decreases n,
{
    if n < 10 {
        let mut v: Vec<u8> = Vec::new();
        v.push(('0' as u8) + (n as u8));
        proof {
            assert(v@ =~= dec_digits(n as nat));
        }
        v
    } else {
        let mut v = u64_to_dec(n / 10);
        v.push(('0' as u8) + ((n % 10) as u8));
        v
    }
}

/// Format a signed integer in decimal, with a leading `-` where negative.
pub fn i64_to_dec(n: i64) -> (r: Vec<u8>)
    ensures
        r@ == dec_int(n as int),
{
    if n >= 0 {
        u64_to_dec(n as u64)
    } else {
        let m: u64 = ((-(n + 1)) as u64) + 1;
        proof {
            assert(m as nat == (-(n as int)) as nat);
        }
        let mut v: Vec<u8> = Vec::new();
        v.push('-' as u8);
        let mut d = u64_to_dec(m);
        v.append(&mut d);
        proof {
            assert(v@ =~= dec_int(n as int));
        }
        v
    }
}

/// Parse a decimal digit string into a number.
///
/// Returns the denoted value exactly when `s` is non-empty, holds digits
/// only, and the value fits; returns nothing otherwise.
pub fn parse_u64(s: &[u8]) -> (r: Option<u64>)
    ensures
        r is Some <==> s@.len() > 0 && all_digits(s@) && dec_val(s@) <= u64::MAX,
        r is Some ==> r->0 == dec_val(s@),
{
    if s.len() == 0 {
        return None;
    }
    let mut acc: u64 = 0;
    let mut i: usize = 0;
    while i < s.len()
        invariant
            0 < s@.len(),
            i <= s@.len(),
            all_digits(s@.take(i as int)),
            acc == dec_val(s@.take(i as int)),
        decreases s@.len() - i,
    {
        let b = s[i];
        proof {
            assert(s@.take(i + 1).drop_last() =~= s@.take(i as int));
            assert(s@.take(i + 1).last() == s@[i as int]);
        }
        if b < ('0' as u8) || b > ('9' as u8) {
            assert(!is_digit(s@[i as int]));
            return None;
        }
        let d = b - ('0' as u8);
        if acc > u64::MAX / 10 || (d as u64) > u64::MAX - acc * 10 {
            proof {
                assert(dec_val(s@.take(i + 1)) > u64::MAX);
                lemma_dec_val_take_mono(s@, i + 1);
            }
            return None;
        }
        acc = acc * 10 + (d as u64);
        proof {
            assert(forall|j: int|
                0 <= j < i + 1 ==> is_digit(#[trigger] s@.take(i + 1)[j]));
        }
        i = i + 1;
    }
    proof {
        assert(s@.take(s@.len() as int) =~= s@);
    }
    Some(acc)
}

} // verus!
