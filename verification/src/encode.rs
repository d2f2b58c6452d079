//! Percent-encoding of byte strings, per the reserved-character rules the
//! remote provider mandates for request signing: every byte that is not an
//! ASCII letter, digit, `-`, `.`, `_` or `~` becomes `%` followed by two
//! uppercase hexadecimal digits.

use vstd::prelude::*;

verus! {

/// Bytes that pass through percent-encoding unchanged.
pub open spec fn is_unreserved(b: u8) -> bool {
    ('A' as u8) <= b <= ('Z' as u8) || ('a' as u8) <= b <= ('z' as u8) || ('0' as u8) <= b <= (
    '9' as u8) || b == ('-' as u8) || b == ('.' as u8) || b == ('_' as u8) || b == ('~' as u8)
}

/// The uppercase hexadecimal digit for a value below 16.
pub open spec fn hex_upper(n: u8) -> u8
    recommends
        n < 16,
{
    if n < 10 {
        (('0' as u8) + n) as u8
    } else {
        (('A' as u8) + (n - 10)) as u8
    }
}

/// What a single byte contributes to the percent-encoded form.
pub open spec fn enc_byte(b: u8) -> Seq<u8> {
    if is_unreserved(b) {
        seq![b]
    } else {
        seq![('%' as u8), hex_upper(b / 16), hex_upper(b % 16)]
    }
}

/// The percent-encoded form of a whole byte string.
pub open spec fn pct_encoded(s: Seq<u8>) -> Seq<u8>
    decreases s.len(),
{
    if s.len() == 0 {
        Seq::empty()
    } else {
        enc_byte(s[0]) + pct_encoded(s.drop_first())
    }
}

/// Appending one byte to the input appends its encoding to the output.
pub proof fn lemma_pct_encoded_push(s: Seq<u8>, b: u8)
    ensures
        pct_encoded(s.push(b)) == pct_encoded(s) + enc_byte(b),
    decreases s.len(),
{
    if s.len() == 0 {
        assert(s.push(b)[0] == b);
        assert(s.push(b).drop_first() =~= Seq::<u8>::empty());
        assert(pct_encoded(s.push(b)) == enc_byte(b) + pct_encoded(Seq::<u8>::empty()));
        assert(enc_byte(b) + Seq::<u8>::empty() =~= enc_byte(b));
        assert(pct_encoded(s) + enc_byte(b) =~= enc_byte(b));
    } else {
        assert(s.push(b)[0] == s[0]);
        assert(s.push(b).drop_first() =~= s.drop_first().push(b));
        lemma_pct_encoded_push(s.drop_first(), b);
        assert(pct_encoded(s.push(b)) == enc_byte(s[0]) + (pct_encoded(s.drop_first())
            + enc_byte(b)));
        assert(enc_byte(s[0]) + (pct_encoded(s.drop_first()) + enc_byte(b)) =~= (enc_byte(s[0])
            + pct_encoded(s.drop_first())) + enc_byte(b));
    }
}


/// A byte string of unreserved bytes passes through the encoding unchanged.
pub proof fn lemma_pct_unreserved_identity(s: Seq<u8>)
    requires
        forall|i: int| 0 <= i < s.len() ==> is_unreserved(#[trigger] s[i]),
    ensures
        pct_encoded(s) == s,
    decreases s.len(),
{
    if s.len() == 0 {
        assert(pct_encoded(s) =~= s);
    } else {
        assert(is_unreserved(s[0]));
        assert forall|i: int| 0 <= i < s.drop_first().len() implies is_unreserved(
            #[trigger] s.drop_first()[i],
        ) by {
            assert(s.drop_first()[i] == s[i + 1]);
        }
        lemma_pct_unreserved_identity(s.drop_first());
        assert(pct_encoded(s) =~= s);
    }
}

fn hex_upper_exec(n: u8) -> (r: u8)
    requires
        n < 16,
    ensures
        r == hex_upper(n),
{
    if n < 10 {
        ('0' as u8) + n
    } else {
        ('A' as u8) + (n - 10)
    }
}

fn is_unreserved_exec(b: u8) -> (r: bool)
    ensures
        r == is_unreserved(b),
{
    (('A' as u8) <= b && b <= ('Z' as u8)) || (('a' as u8) <= b && b <= ('z' as u8)) || (('0'
        as u8) <= b && b <= ('9' as u8)) || b == ('-' as u8) || b == ('.' as u8) || b == ('_'
        as u8) || b == ('~' as u8)
}

/// Percent-encode `s`.
pub fn percent_encode(s: &[u8]) -> (r: Vec<u8>)
    ensures
        r@ == pct_encoded(s@),
{
    let mut out: Vec<u8> = Vec::new();
    let mut i: usize = 0;
    while i < s.len()
        invariant
            i <= s@.len(),
            out@ == pct_encoded(s@.take(i as int)),
        decreases s@.len() - i,
    {
        let b = s[i];
        proof {
            assert(s@.take(i + 1) =~= s@.take(i as int).push(s@[i as int]));
            lemma_pct_encoded_push(s@.take(i as int), s@[i as int]);
        }
        if is_unreserved_exec(b) {
            out.push(b);
        } else {
            out.push('%' as u8);
            out.push(hex_upper_exec(b / 16));
            out.push(hex_upper_exec(b % 16));
        }
        proof {
            assert(out@ =~= pct_encoded(s@.take(i as int)) + enc_byte(s@[i as int]));
        }
        i = i + 1;
    }
    proof {
        assert(s@.take(s@.len() as int) =~= s@);
    }
    out
}

} // verus!
