//! Byte strings and their lexicographic order.
//!
//! Item ids, request parameters and header fragments are all raw byte
//! strings.  Everything that sorts or deduplicates them — the canonical
//! parameter ordering of the signer, the id ordering of the store — rests on
//! the strict lexicographic order defined here.

use vstd::prelude::*;

verus! {

/// Strict lexicographic order on byte sequences: `a` comes before `b`.
pub open spec fn lex_lt(a: Seq<u8>, b: Seq<u8>) -> bool
    decreases a.len(),
{
    if b.len() == 0 {
        false
    } else if a.len() == 0 {
        true
    } else if a[0] < b[0] {
        true
    } else if a[0] > b[0] {
        false
    } else {
        lex_lt(a.drop_first(), b.drop_first())
    }
}

/// Reflexive closure of [`lex_lt`].
pub open spec fn lex_leq(a: Seq<u8>, b: Seq<u8>) -> bool {
    lex_lt(a, b) || a == b
}

/// Order on key/value pairs: by key, ties broken by value.
pub open spec fn pair_leq(x: (Seq<u8>, Seq<u8>), y: (Seq<u8>, Seq<u8>)) -> bool {
    lex_lt(x.0, y.0) || (x.0 == y.0 && lex_leq(x.1, y.1))
}

/// [`pair_leq`] as a first-class order, for sorting parameter lists.
pub open spec fn param_order() -> spec_fn((Seq<u8>, Seq<u8>), (Seq<u8>, Seq<u8>)) -> bool {
    |x: (Seq<u8>, Seq<u8>), y: (Seq<u8>, Seq<u8>)| pair_leq(x, y)
}

pub proof fn lemma_lex_lt_asymmetric(a: Seq<u8>, b: Seq<u8>)
    ensures
        lex_lt(a, b) ==> !lex_lt(b, a),
    decreases a.len(),
{
    if a.len() > 0 && b.len() > 0 && a[0] == b[0] {
        lemma_lex_lt_asymmetric(a.drop_first(), b.drop_first());
    }
}

pub proof fn lemma_lex_lt_transitive(a: Seq<u8>, b: Seq<u8>, c: Seq<u8>)
    ensures
        lex_lt(a, b) && lex_lt(b, c) ==> lex_lt(a, c),
    decreases a.len(),
{
    if a.len() > 0 && b.len() > 0 && c.len() > 0 {
        lemma_lex_lt_transitive(a.drop_first(), b.drop_first(), c.drop_first());
    }
}

pub proof fn lemma_lex_lt_connected(a: Seq<u8>, b: Seq<u8>)
    ensures
        a != b ==> lex_lt(a, b) || lex_lt(b, a),
    decreases a.len(),
{
    if a.len() == 0 && b.len() == 0 {
        assert(a =~= b);
    } else if a.len() > 0 && b.len() > 0 && a[0] == b[0] {
        lemma_lex_lt_connected(a.drop_first(), b.drop_first());
        if a.drop_first() == b.drop_first() {
            assert(a.drop_first().len() == a.len() - 1);
            assert(b.drop_first().len() == b.len() - 1);
            assert forall|j: int| 0 <= j < a.len() implies a[j] == b[j] by {
                if j > 0 {
                    assert(a.drop_first()[j - 1] == a[j]);
                    assert(b.drop_first()[j - 1] == b[j]);
                }
            }
            assert(a =~= b);
        }
    }
}

/// [`param_order`] is a total order in the sense of `vstd::relations`.
pub proof fn lemma_pair_leq_total_ordering()
    ensures
        vstd::relations::total_ordering(param_order()),
{
    let leq = param_order();
    assert forall|x: (Seq<u8>, Seq<u8>), y: (Seq<u8>, Seq<u8>)|
        #[trigger] leq(x, y) && #[trigger] leq(y, x) implies x == y by {
        lemma_lex_lt_asymmetric(x.0, y.0);
        lemma_lex_lt_asymmetric(x.1, y.1);
    }
    assert forall|x: (Seq<u8>, Seq<u8>), y: (Seq<u8>, Seq<u8>), z: (Seq<u8>, Seq<u8>)|
        #[trigger] leq(x, y) && #[trigger] leq(y, z) implies leq(x, z) by {
        lemma_lex_lt_transitive(x.0, y.0, z.0);
        lemma_lex_lt_transitive(x.1, y.1, z.1);
    }
    assert forall|x: (Seq<u8>, Seq<u8>), y: (Seq<u8>, Seq<u8>)|
        #[trigger] leq(x, y) || #[trigger] leq(y, x) by {
        lemma_lex_lt_connected(x.0, y.0);
        lemma_lex_lt_connected(x.1, y.1);
    }
}

/// Peeling equal prefixes off both sides leaves the order unchanged.
pub proof fn lemma_lex_lt_skip(a: Seq<u8>, b: Seq<u8>, i: int)
    requires
        0 <= i <= a.len(),
        i <= b.len(),
        forall|j: int| 0 <= j < i ==> a[j] == b[j],
    ensures
        lex_lt(a, b) == lex_lt(a.skip(i), b.skip(i)),
    decreases i,
{
    if i > 0 {
        assert(a.skip(1).skip(i - 1) =~= a.skip(i));
        assert(b.skip(1).skip(i - 1) =~= b.skip(i));
        assert(a.drop_first() =~= a.skip(1));
        assert(b.drop_first() =~= b.skip(1));
        lemma_lex_lt_skip(a.skip(1), b.skip(1), i - 1);
    } else {
        assert(a.skip(0) =~= a);
        assert(b.skip(0) =~= b);
    }
}

/// Whether `a` comes strictly before `b` in lexicographic byte order.
pub fn bytes_lt(a: &[u8], b: &[u8]) -> (r: bool)
    ensures
        r == lex_lt(a@, b@),
{
    let mut i: usize = 0;
    loop
        invariant
            i <= a@.len(),
            i <= b@.len(),
            forall|j: int| 0 <= j < i ==> a@[j] == b@[j],
        decreases a@.len() - i,
    {
        proof {
            lemma_lex_lt_skip(a@, b@, i as int);
        }
        if i >= a.len() {
            assert(a@.skip(i as int).len() == 0);
            return a.len() < b.len();
        }
        if i >= b.len() {
            assert(b@.skip(i as int).len() == 0);
            return false;
        }
        if a[i] < b[i] {
            assert(a@.skip(i as int)[0] == a@[i as int]);
            assert(b@.skip(i as int)[0] == b@[i as int]);
            return true;
        }
        if a[i] > b[i] {
            assert(a@.skip(i as int)[0] == a@[i as int]);
            assert(b@.skip(i as int)[0] == b@[i as int]);
            return false;
        }
        i = i + 1;
    }
}

/// Whether `a` and `b` hold the same bytes.
pub fn bytes_eq(a: &[u8], b: &[u8]) -> (r: bool)
    ensures
        r == (a@ == b@),
{
    if a.len() != b.len() {
        return false;
    }
    let mut i: usize = 0;
    while i < a.len()
        invariant
            i <= a@.len(),
            a@.len() == b@.len(),
            forall|j: int| 0 <= j < i ==> a@[j] == b@[j],
        decreases a@.len() - i,
    {
        if a[i] != b[i] {
            return false;
        }
        i = i + 1;
    }
    proof {
        assert(a@ =~= b@);
    }
    true
}

/// Whether `a` comes before `b` or holds the same bytes.
pub fn bytes_le(a: &[u8], b: &[u8]) -> (r: bool)
    ensures
        r == lex_leq(a@, b@),
{
    if bytes_eq(a, b) {
        true
    } else {
        bytes_lt(a, b)
    }
}

/// The views of a list of byte strings.
pub open spec fn seq_views(xs: Seq<Vec<u8>>) -> Seq<Seq<u8>> {
    xs.map_values(|v: Vec<u8>| v@)
}

/// The segments `xs` joined by the separator `sep`.
pub open spec fn joined(xs: Seq<Seq<u8>>, sep: Seq<u8>) -> Seq<u8>
    decreases xs.len(),
{
    if xs.len() == 0 {
        Seq::empty()
    } else if xs.len() == 1 {
        xs[0]
    } else {
        xs[0] + sep + joined(xs.drop_first(), sep)
    }
}

/// Joining one more segment appends a separator and the segment.
pub proof fn lemma_joined_push(xs: Seq<Seq<u8>>, x: Seq<u8>, sep: Seq<u8>)
    ensures
        joined(xs.push(x), sep) == if xs.len() == 0 {
            x
        } else {
            joined(xs, sep) + sep + x
        },
    decreases xs.len(),
{
    if xs.len() == 0 {
        assert(joined(xs.push(x), sep) == xs.push(x)[0]);
    } else if xs.len() == 1 {
        assert(xs.push(x)[0] == xs[0]);
        assert(xs.push(x).drop_first() =~= seq![x]);
        assert(seq![x].len() == 1);
        assert(joined(seq![x], sep) == seq![x][0]);
        assert(seq![x][0] == x);
        assert(joined(xs.push(x), sep) == xs[0] + sep + x);
        assert(joined(xs, sep) == xs[0]);
    } else {
        assert(xs.push(x)[0] == xs[0]);
        assert(xs.push(x).drop_first() =~= xs.drop_first().push(x));
        lemma_joined_push(xs.drop_first(), x, sep);
        assert(joined(xs.push(x), sep) == xs[0] + sep + (joined(xs.drop_first(), sep) + sep
            + x));
        assert(xs[0] + sep + (joined(xs.drop_first(), sep) + sep + x) =~= (xs[0] + sep + joined(
            xs.drop_first(),
            sep,
        )) + sep + x);
    }
}

/// Join the byte strings `xs` with the separator `sep`.
pub fn join_bytes(xs: &Vec<Vec<u8>>, sep: &Vec<u8>) -> (r: Vec<u8>)
    ensures
        r@ == joined(seq_views(xs@), sep@),
{
    let mut out: Vec<u8> = Vec::new();
    let mut i: usize = 0;
    while i < xs.len()
        invariant
            i <= xs@.len(),
            out@ == joined(seq_views(xs@.take(i as int)), sep@),
        decreases xs@.len() - i,
    {
        proof {
            assert(xs@.take(i + 1) =~= xs@.take(i as int).push(xs@[i as int]));
            assert(seq_views(xs@.take(i + 1)) =~= seq_views(xs@.take(i as int)).push(
                xs@[i as int]@,
            ));
            lemma_joined_push(seq_views(xs@.take(i as int)), xs@[i as int]@, sep@);
        }
        if i > 0 {
            let mut s = vstd::slice::slice_to_vec(sep.as_slice());
            out.append(&mut s);
        }
        let mut seg = vstd::slice::slice_to_vec(xs[i].as_slice());
        out.append(&mut seg);
        proof {
            if i == 0 {
                assert(seq_views(xs@.take(0)) =~= Seq::<Seq<u8>>::empty());
                assert(out@ =~= xs@[i as int]@);
            }
        }
        i = i + 1;
    }
    proof {
        assert(xs@.take(xs@.len() as int) =~= xs@);
    }
    out
}

/// Whether the key/value pair `a` comes before `b` under [`pair_leq`].
pub fn pair_le(a: &(Vec<u8>, Vec<u8>), b: &(Vec<u8>, Vec<u8>)) -> (r: bool)
    ensures
        r == pair_leq((a.0@, a.1@), (b.0@, b.1@)),
{
    if bytes_lt(a.0.as_slice(), b.0.as_slice()) {
        true
    } else if bytes_eq(a.0.as_slice(), b.0.as_slice()) {
        bytes_le(a.1.as_slice(), b.1.as_slice())
    } else {
        false
    }
}

} // verus!
