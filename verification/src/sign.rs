//! Request signing: builds the provider's authentication header for one
//! outgoing request from the credentials, the base URL, the HTTP method, the
//! request parameters, a fresh nonce and the current Unix timestamp.
//!
//! The whole header is pinned down by [`oauth_header`]; the digest and its
//! base64 form are named results of the outside crates that compute them.

use vstd::prelude::*;
use vstd::relations::sorted_by;
use vstd::seq_lib::lemma_sorted_unique;

use crate::bytestr::{
    join_bytes, joined, lemma_lex_lt_skip, lemma_pair_leq_total_ordering, lex_lt, pair_le,
    pair_leq, param_order, seq_views,
};
use crate::digits::{dec_int, i64_to_dec};
use crate::encode::{is_unreserved, pct_encoded, percent_encode};
use crate::Access;

use base64::Engine;
use hmac::KeyInit;
use hmac::Mac;
use rand::distr::SampleString;

verus! {

broadcast use vstd::seq_lib::group_to_multiset_ensures, vstd::multiset::group_multiset_axioms;

/// The HMAC-SHA1 digest of `msg` under `key`, as the `hmac` and `sha1`
/// crates compute it: a function of the two byte strings alone.
pub uninterp spec fn hmac_sha1_of(key: Seq<u8>, msg: Seq<u8>) -> Seq<u8>;

/// The standard base64 encoding (padded) of `data`, as the `base64` crate
/// computes it: a function of the input bytes alone.
pub uninterp spec fn base64_of(data: Seq<u8>) -> Seq<u8>;

/// Relies on `hmac::Hmac` over `sha1::Sha1`: the digest is a function of key
/// and message alone, twenty bytes long, and any key length is accepted.
#[verifier::external_body]
fn hmac_sha1(key: &[u8], msg: &[u8]) -> (r: Vec<u8>)
    ensures
        r@ == hmac_sha1_of(key@, msg@),
        r@.len() == 20,
{
    let mut mac = hmac::Hmac::<sha1::Sha1>::new_from_slice(key)
        .expect("HMAC accepts keys of any length");
    mac.update(msg);
    mac.finalize().into_bytes().as_slice().to_vec()
}

/// Relies on `base64`'s `STANDARD` engine: the padded standard alphabet,
/// four output bytes for every three input bytes begun, a function of the
/// input alone.
#[verifier::external_body]
fn base64_encode(data: &[u8]) -> (r: Vec<u8>)
    ensures
        r@ == base64_of(data@),
        r@.len() == 4 * ((data@.len() + 2) / 3),
{
    base64::engine::general_purpose::STANDARD.encode(data).into_bytes()
}

/// An ASCII letter or digit.
pub open spec fn is_alnum(b: u8) -> bool {
    ('A' as u8) <= b <= ('Z' as u8) || ('a' as u8) <= b <= ('z' as u8) || ('0' as u8) <= b <= (
    '9' as u8)
}

/// Relies on `rand`'s `Alphanumeric` distribution over the thread-local
/// generator: thirty-two bytes, each an ASCII letter or digit.
#[verifier::external_body]
fn gen_nonce() -> (r: Vec<u8>)
    ensures
        r@.len() == 32,
        forall|i: int| 0 <= i < r@.len() ==> is_alnum(#[trigger] r@[i]),
{
    rand::distr::Alphanumeric.sample_string(&mut rand::rng(), 32).into_bytes()
}

/// Relies on `time::OffsetDateTime::now_utc`: the current Unix timestamp in
/// seconds, of which nothing is assumed.
#[verifier::external_body]
fn now_unix() -> i64 {
    time::OffsetDateTime::now_utc().unix_timestamp()
}

/// The byte string `oauth_consumer_key`.
pub open spec fn key_consumer() -> Seq<u8> {
    seq![('o' as u8), ('a' as u8), ('u' as u8), ('t' as u8), ('h' as u8), ('_' as u8),
        ('c' as u8), ('o' as u8), ('n' as u8), ('s' as u8), ('u' as u8), ('m' as u8),
        ('e' as u8), ('r' as u8), ('_' as u8), ('k' as u8), ('e' as u8), ('y' as u8)
    ]
}

fn key_consumer_vec() -> (r: Vec<u8>)
    ensures
        r@ == key_consumer(),
{
    let v: Vec<u8> =
    vec![('o' as u8), ('a' as u8), ('u' as u8), ('t' as u8), ('h' as u8), ('_' as u8),
        ('c' as u8), ('o' as u8), ('n' as u8), ('s' as u8), ('u' as u8), ('m' as u8),
        ('e' as u8), ('r' as u8), ('_' as u8), ('k' as u8), ('e' as u8), ('y' as u8)
    ];
    proof {
        assert(v@ =~= key_consumer());
    }
    v
}

/// The byte string `oauth_nonce`.
pub open spec fn key_nonce() -> Seq<u8> {
    seq![('o' as u8), ('a' as u8), ('u' as u8), ('t' as u8), ('h' as u8), ('_' as u8),
        ('n' as u8), ('o' as u8), ('n' as u8), ('c' as u8), ('e' as u8)
    ]
}

fn key_nonce_vec() -> (r: Vec<u8>)
    ensures
        r@ == key_nonce(),
{
    let v: Vec<u8> =
    vec![('o' as u8), ('a' as u8), ('u' as u8), ('t' as u8), ('h' as u8), ('_' as u8),
        ('n' as u8), ('o' as u8), ('n' as u8), ('c' as u8), ('e' as u8)
    ];
    proof {
        assert(v@ =~= key_nonce());
    }
    v
}

/// The byte string `oauth_signature_method`.
pub open spec fn key_sig_method() -> Seq<u8> {
    seq![('o' as u8), ('a' as u8), ('u' as u8), ('t' as u8), ('h' as u8), ('_' as u8),
        ('s' as u8), ('i' as u8), ('g' as u8), ('n' as u8), ('a' as u8), ('t' as u8),
        ('u' as u8), ('r' as u8), ('e' as u8), ('_' as u8), ('m' as u8), ('e' as u8),
        ('t' as u8), ('h' as u8), ('o' as u8), ('d' as u8)
    ]
}

fn key_sig_method_vec() -> (r: Vec<u8>)
    ensures
        r@ == key_sig_method(),
{
    let v: Vec<u8> =
    vec![('o' as u8), ('a' as u8), ('u' as u8), ('t' as u8), ('h' as u8), ('_' as u8),
        ('s' as u8), ('i' as u8), ('g' as u8), ('n' as u8), ('a' as u8), ('t' as u8),
        ('u' as u8), ('r' as u8), ('e' as u8), ('_' as u8), ('m' as u8), ('e' as u8),
        ('t' as u8), ('h' as u8), ('o' as u8), ('d' as u8)
    ];
    proof {
        assert(v@ =~= key_sig_method());
    }
    v
}

/// The byte string `oauth_timestamp`.
pub open spec fn key_timestamp() -> Seq<u8> {
    seq![('o' as u8), ('a' as u8), ('u' as u8), ('t' as u8), ('h' as u8), ('_' as u8),
        ('t' as u8), ('i' as u8), ('m' as u8), ('e' as u8), ('s' as u8), ('t' as u8),
        ('a' as u8), ('m' as u8), ('p' as u8)
    ]
}

fn key_timestamp_vec() -> (r: Vec<u8>)
    ensures
        r@ == key_timestamp(),
{
    let v: Vec<u8> =
    vec![('o' as u8), ('a' as u8), ('u' as u8), ('t' as u8), ('h' as u8), ('_' as u8),
        ('t' as u8), ('i' as u8), ('m' as u8), ('e' as u8), ('s' as u8), ('t' as u8),
        ('a' as u8), ('m' as u8), ('p' as u8)
    ];
    proof {
        assert(v@ =~= key_timestamp());
    }
    v
}

/// The byte string `oauth_token`.
pub open spec fn key_token() -> Seq<u8> {
    seq![('o' as u8), ('a' as u8), ('u' as u8), ('t' as u8), ('h' as u8), ('_' as u8),
        ('t' as u8), ('o' as u8), ('k' as u8), ('e' as u8), ('n' as u8)
    ]
}

fn key_token_vec() -> (r: Vec<u8>)
    ensures
        r@ == key_token(),
{
    let v: Vec<u8> =
    vec![('o' as u8), ('a' as u8), ('u' as u8), ('t' as u8), ('h' as u8), ('_' as u8),
        ('t' as u8), ('o' as u8), ('k' as u8), ('e' as u8), ('n' as u8)
    ];
    proof {
        assert(v@ =~= key_token());
    }
    v
}

/// The byte string `oauth_version`.
pub open spec fn key_version() -> Seq<u8> {
    seq![('o' as u8), ('a' as u8), ('u' as u8), ('t' as u8), ('h' as u8), ('_' as u8),
        ('v' as u8), ('e' as u8), ('r' as u8), ('s' as u8), ('i' as u8), ('o' as u8),
        ('n' as u8)
    ]
}

fn key_version_vec() -> (r: Vec<u8>)
    ensures
        r@ == key_version(),
{
    let v: Vec<u8> =
    vec![('o' as u8), ('a' as u8), ('u' as u8), ('t' as u8), ('h' as u8), ('_' as u8),
        ('v' as u8), ('e' as u8), ('r' as u8), ('s' as u8), ('i' as u8), ('o' as u8),
        ('n' as u8)
    ];
    proof {
        assert(v@ =~= key_version());
    }
    v
}

/// The byte string `oauth_signature`.
pub open spec fn key_signature() -> Seq<u8> {
    seq![('o' as u8), ('a' as u8), ('u' as u8), ('t' as u8), ('h' as u8), ('_' as u8),
        ('s' as u8), ('i' as u8), ('g' as u8), ('n' as u8), ('a' as u8), ('t' as u8),
        ('u' as u8), ('r' as u8), ('e' as u8)
    ]
}

fn key_signature_vec() -> (r: Vec<u8>)
    ensures
        r@ == key_signature(),
{
    let v: Vec<u8> =
    vec![('o' as u8), ('a' as u8), ('u' as u8), ('t' as u8), ('h' as u8), ('_' as u8),
        ('s' as u8), ('i' as u8), ('g' as u8), ('n' as u8), ('a' as u8), ('t' as u8),
        ('u' as u8), ('r' as u8), ('e' as u8)
    ];
    proof {
        assert(v@ =~= key_signature());
    }
    v
}

/// The byte string `HMAC-SHA1`.
pub open spec fn val_sig_method() -> Seq<u8> {
    seq![('H' as u8), ('M' as u8), ('A' as u8), ('C' as u8), ('-' as u8), ('S' as u8),
        ('H' as u8), ('A' as u8), ('1' as u8)
    ]
}

fn val_sig_method_vec() -> (r: Vec<u8>)
    ensures
        r@ == val_sig_method(),
{
    let v: Vec<u8> =
    vec![('H' as u8), ('M' as u8), ('A' as u8), ('C' as u8), ('-' as u8), ('S' as u8),
        ('H' as u8), ('A' as u8), ('1' as u8)
    ];
    proof {
        assert(v@ =~= val_sig_method());
    }
    v
}

/// The byte string `1.0`.
pub open spec fn val_version() -> Seq<u8> {
    seq![('1' as u8), ('.' as u8), ('0' as u8)
    ]
}

fn val_version_vec() -> (r: Vec<u8>)
    ensures
        r@ == val_version(),
{
    let v: Vec<u8> =
    vec![('1' as u8), ('.' as u8), ('0' as u8)
    ];
    proof {
        assert(v@ =~= val_version());
    }
    v
}

/// The byte string `Oauth `.
pub open spec fn header_scheme() -> Seq<u8> {
    seq![('O' as u8), ('a' as u8), ('u' as u8), ('t' as u8), ('h' as u8), (' ' as u8)
    ]
}

fn header_scheme_vec() -> (r: Vec<u8>)
    ensures
        r@ == header_scheme(),
{
    let v: Vec<u8> =
    vec![('O' as u8), ('a' as u8), ('u' as u8), ('t' as u8), ('h' as u8), (' ' as u8)
    ];
    proof {
        assert(v@ =~= header_scheme());
    }
    v
}

proof fn lemma_key_bytes_unreserved()
    ensures
        forall|i: int| 0 <= i < key_consumer().len() ==> is_unreserved(#[trigger] key_consumer()[i]),
        forall|i: int| 0 <= i < key_nonce().len() ==> is_unreserved(#[trigger] key_nonce()[i]),
        forall|i: int| 0 <= i < key_sig_method().len() ==> is_unreserved(#[trigger] key_sig_method()[i]),
        forall|i: int| 0 <= i < key_timestamp().len() ==> is_unreserved(#[trigger] key_timestamp()[i]),
        forall|i: int| 0 <= i < key_token().len() ==> is_unreserved(#[trigger] key_token()[i]),
        forall|i: int| 0 <= i < key_version().len() ==> is_unreserved(#[trigger] key_version()[i]),
{
}

proof fn lemma_auth_keys_ordered()
    ensures
        lex_lt(key_consumer(), key_nonce()),
        lex_lt(key_consumer(), key_sig_method()),
        lex_lt(key_consumer(), key_timestamp()),
        lex_lt(key_consumer(), key_token()),
        lex_lt(key_consumer(), key_version()),
        lex_lt(key_nonce(), key_sig_method()),
        lex_lt(key_nonce(), key_timestamp()),
        lex_lt(key_nonce(), key_token()),
        lex_lt(key_nonce(), key_version()),
        lex_lt(key_sig_method(), key_timestamp()),
        lex_lt(key_sig_method(), key_token()),
        lex_lt(key_sig_method(), key_version()),
        lex_lt(key_timestamp(), key_token()),
        lex_lt(key_timestamp(), key_version()),
        lex_lt(key_token(), key_version()),
{
    assert(lex_lt(key_consumer(), key_nonce())) by {
        assert forall|m: int| 0 <= m < 6 implies key_consumer()[m] == key_nonce()[m] by {}
        lemma_lex_lt_skip(key_consumer(), key_nonce(), 6);
        assert(key_consumer().skip(6)[0] == key_consumer()[6]);
        assert(key_nonce().skip(6)[0] == key_nonce()[6]);
        assert(lex_lt(key_consumer().skip(6), key_nonce().skip(6)));
    }
    assert(lex_lt(key_consumer(), key_sig_method())) by {
        assert forall|m: int| 0 <= m < 6 implies key_consumer()[m] == key_sig_method()[m] by {}
        lemma_lex_lt_skip(key_consumer(), key_sig_method(), 6);
        assert(key_consumer().skip(6)[0] == key_consumer()[6]);
        assert(key_sig_method().skip(6)[0] == key_sig_method()[6]);
        assert(lex_lt(key_consumer().skip(6), key_sig_method().skip(6)));
    }
    assert(lex_lt(key_consumer(), key_timestamp())) by {
        assert forall|m: int| 0 <= m < 6 implies key_consumer()[m] == key_timestamp()[m] by {}
        lemma_lex_lt_skip(key_consumer(), key_timestamp(), 6);
        assert(key_consumer().skip(6)[0] == key_consumer()[6]);
        assert(key_timestamp().skip(6)[0] == key_timestamp()[6]);
        assert(lex_lt(key_consumer().skip(6), key_timestamp().skip(6)));
    }
    assert(lex_lt(key_consumer(), key_token())) by {
        assert forall|m: int| 0 <= m < 6 implies key_consumer()[m] == key_token()[m] by {}
        lemma_lex_lt_skip(key_consumer(), key_token(), 6);
        assert(key_consumer().skip(6)[0] == key_consumer()[6]);
        assert(key_token().skip(6)[0] == key_token()[6]);
        assert(lex_lt(key_consumer().skip(6), key_token().skip(6)));
    }
    assert(lex_lt(key_consumer(), key_version())) by {
        assert forall|m: int| 0 <= m < 6 implies key_consumer()[m] == key_version()[m] by {}
        lemma_lex_lt_skip(key_consumer(), key_version(), 6);
        assert(key_consumer().skip(6)[0] == key_consumer()[6]);
        assert(key_version().skip(6)[0] == key_version()[6]);
        assert(lex_lt(key_consumer().skip(6), key_version().skip(6)));
    }
    assert(lex_lt(key_nonce(), key_sig_method())) by {
        assert forall|m: int| 0 <= m < 6 implies key_nonce()[m] == key_sig_method()[m] by {}
        lemma_lex_lt_skip(key_nonce(), key_sig_method(), 6);
        assert(key_nonce().skip(6)[0] == key_nonce()[6]);
        assert(key_sig_method().skip(6)[0] == key_sig_method()[6]);
        assert(lex_lt(key_nonce().skip(6), key_sig_method().skip(6)));
    }
    assert(lex_lt(key_nonce(), key_timestamp())) by {
        assert forall|m: int| 0 <= m < 6 implies key_nonce()[m] == key_timestamp()[m] by {}
        lemma_lex_lt_skip(key_nonce(), key_timestamp(), 6);
        assert(key_nonce().skip(6)[0] == key_nonce()[6]);
        assert(key_timestamp().skip(6)[0] == key_timestamp()[6]);
        assert(lex_lt(key_nonce().skip(6), key_timestamp().skip(6)));
    }
    assert(lex_lt(key_nonce(), key_token())) by {
        assert forall|m: int| 0 <= m < 6 implies key_nonce()[m] == key_token()[m] by {}
        lemma_lex_lt_skip(key_nonce(), key_token(), 6);
        assert(key_nonce().skip(6)[0] == key_nonce()[6]);
        assert(key_token().skip(6)[0] == key_token()[6]);
        assert(lex_lt(key_nonce().skip(6), key_token().skip(6)));
    }
    assert(lex_lt(key_nonce(), key_version())) by {
        assert forall|m: int| 0 <= m < 6 implies key_nonce()[m] == key_version()[m] by {}
        lemma_lex_lt_skip(key_nonce(), key_version(), 6);
        assert(key_nonce().skip(6)[0] == key_nonce()[6]);
        assert(key_version().skip(6)[0] == key_version()[6]);
        assert(lex_lt(key_nonce().skip(6), key_version().skip(6)));
    }
    assert(lex_lt(key_sig_method(), key_timestamp())) by {
        assert forall|m: int| 0 <= m < 6 implies key_sig_method()[m] == key_timestamp()[m] by {}
        lemma_lex_lt_skip(key_sig_method(), key_timestamp(), 6);
        assert(key_sig_method().skip(6)[0] == key_sig_method()[6]);
        assert(key_timestamp().skip(6)[0] == key_timestamp()[6]);
        assert(lex_lt(key_sig_method().skip(6), key_timestamp().skip(6)));
    }
    assert(lex_lt(key_sig_method(), key_token())) by {
        assert forall|m: int| 0 <= m < 6 implies key_sig_method()[m] == key_token()[m] by {}
        lemma_lex_lt_skip(key_sig_method(), key_token(), 6);
        assert(key_sig_method().skip(6)[0] == key_sig_method()[6]);
        assert(key_token().skip(6)[0] == key_token()[6]);
        assert(lex_lt(key_sig_method().skip(6), key_token().skip(6)));
    }
    assert(lex_lt(key_sig_method(), key_version())) by {
        assert forall|m: int| 0 <= m < 6 implies key_sig_method()[m] == key_version()[m] by {}
        lemma_lex_lt_skip(key_sig_method(), key_version(), 6);
        assert(key_sig_method().skip(6)[0] == key_sig_method()[6]);
        assert(key_version().skip(6)[0] == key_version()[6]);
        assert(lex_lt(key_sig_method().skip(6), key_version().skip(6)));
    }
    assert(lex_lt(key_timestamp(), key_token())) by {
        assert forall|m: int| 0 <= m < 7 implies key_timestamp()[m] == key_token()[m] by {}
        lemma_lex_lt_skip(key_timestamp(), key_token(), 7);
        assert(key_timestamp().skip(7)[0] == key_timestamp()[7]);
        assert(key_token().skip(7)[0] == key_token()[7]);
        assert(lex_lt(key_timestamp().skip(7), key_token().skip(7)));
    }
    assert(lex_lt(key_timestamp(), key_version())) by {
        assert forall|m: int| 0 <= m < 6 implies key_timestamp()[m] == key_version()[m] by {}
        lemma_lex_lt_skip(key_timestamp(), key_version(), 6);
        assert(key_timestamp().skip(6)[0] == key_timestamp()[6]);
        assert(key_version().skip(6)[0] == key_version()[6]);
        assert(lex_lt(key_timestamp().skip(6), key_version().skip(6)));
    }
    assert(lex_lt(key_token(), key_version())) by {
        assert forall|m: int| 0 <= m < 6 implies key_token()[m] == key_version()[m] by {}
        lemma_lex_lt_skip(key_token(), key_version(), 6);
        assert(key_token().skip(6)[0] == key_token()[6]);
        assert(key_version().skip(6)[0] == key_version()[6]);
        assert(lex_lt(key_token().skip(6), key_version().skip(6)));
    }
}

/// The six credential parameters stand already sorted by encoded key:
/// sorting is the identity on them, and the first two slots hold the
/// consumer key and the nonce.
proof fn lemma_auth_pairs_presorted(keys: Access, nonce: Seq<u8>, ts: int)
    ensures
        enc_pairs(auth_pairs(keys, nonce, ts)).sort_by(param_order()) == enc_pairs(
            auth_pairs(keys, nonce, ts),
        ),
        enc_pairs(auth_pairs(keys, nonce, ts)).len() == 6,
        enc_pairs(auth_pairs(keys, nonce, ts))[0] == (
            key_consumer(),
            pct_encoded(keys.api_key@),
        ),
        enc_pairs(auth_pairs(keys, nonce, ts))[1] == (key_nonce(), pct_encoded(nonce)),
{
    lemma_pair_leq_total_ordering();
    lemma_key_bytes_unreserved();
    crate::encode::lemma_pct_unreserved_identity(key_consumer());
    crate::encode::lemma_pct_unreserved_identity(key_nonce());
    crate::encode::lemma_pct_unreserved_identity(key_sig_method());
    crate::encode::lemma_pct_unreserved_identity(key_timestamp());
    crate::encode::lemma_pct_unreserved_identity(key_token());
    crate::encode::lemma_pct_unreserved_identity(key_version());
    lemma_auth_keys_ordered();
    let a = auth_pairs(keys, nonce, ts);
    let e = enc_pairs(a);
    assert(a.len() == 6);
    assert(e.len() == 6);
    assert(e[0] == enc_pair(a[0]) && a[0] == (key_consumer(), keys.api_key@));
    assert(e[1] == enc_pair(a[1]) && a[1] == (key_nonce(), nonce));
    assert(e[2] == enc_pair(a[2]) && a[2] == (key_sig_method(), val_sig_method()));
    assert(e[3] == enc_pair(a[3]) && a[3] == (key_timestamp(), dec_int(ts)));
    assert(e[4] == enc_pair(a[4]) && a[4] == (key_token(), keys.access@));
    assert(e[5] == enc_pair(a[5]) && a[5] == (key_version(), val_version()));
    assert(e[0].0 == key_consumer());
    assert(e[1].0 == key_nonce());
    assert(e[2].0 == key_sig_method());
    assert(e[3].0 == key_timestamp());
    assert(e[4].0 == key_token());
    assert(e[5].0 == key_version());
    assert(sorted_by(e, param_order())) by {
        assert forall|i: int, j: int| 0 <= i < j < e.len() implies #[trigger] param_order()(
            e[i],
            e[j],
        ) by {
            assert(lex_lt(e[i].0, e[j].0));
        }
    }
    e.lemma_sort_by_ensures(param_order());
    lemma_sorted_unique(e, e.sort_by(param_order()), param_order());
}

/// The header bytes that precede the nonce: they depend on the
/// credentials alone.
pub open spec fn nonce_prefix(keys: Access) -> Seq<u8> {
    header_scheme() + (key_consumer() + seq![('=' as u8), ('"' as u8)] + pct_encoded(
        keys.api_key@,
    ) + seq![('"' as u8)]) + seq![(',' as u8), (' ' as u8)] + key_nonce() + seq![
        ('=' as u8),
        ('"' as u8),
    ]
}

/// An alphanumeric nonce stands verbatim in its header, directly after
/// [`nonce_prefix`].
#[verifier::rlimit(60)]
proof fn lemma_nonce_in_header(
    keys: Access,
    base_url: Seq<u8>,
    method: Seq<u8>,
    params: Seq<(Seq<u8>, Seq<u8>)>,
    n: Seq<u8>,
    t: int,
)
    requires
        forall|i: int| 0 <= i < n.len() ==> is_alnum(#[trigger] n[i]),
    ensures
        forall|i: int|
            0 <= i < n.len() ==> oauth_header(keys, base_url, method, params, n, t)[nonce_prefix(
                keys,
            ).len() + i] == n[i],
{
    let sep = seq![(',' as u8), (' ' as u8)];
    let eq2 = seq![('=' as u8), ('"' as u8)];
    let quote = seq![('"' as u8)];

    assert forall|i: int| 0 <= i < n.len() implies is_unreserved(#[trigger] n[i]) by {}
    crate::encode::lemma_pct_unreserved_identity(n);

    lemma_auth_pairs_presorted(keys, n, t);
    let e = enc_pairs(auth_pairs(keys, n, t));
    let l = e.push((key_signature(), oauth_signature(keys, base_url, method, params, n, t)));
    let g = header_segments(l);
    let h = oauth_header(keys, base_url, method, params, n, t);
    assert(h == header_scheme() + joined(g, sep));

    assert(l.len() == 7 && g.len() == 7);
    assert(l[0] == e[0] && l[1] == e[1]);
    assert(g[0] == l[0].0 + eq2 + l[0].1 + quote);
    assert(g[1] == l[1].0 + eq2 + l[1].1 + quote);
    let seg0 = key_consumer() + eq2 + pct_encoded(keys.api_key@) + quote;
    assert(g[0] == seg0);
    assert(g[1] == key_nonce() + eq2 + n + quote);

    assert(g.drop_first().len() == 6);
    assert(joined(g, sep) == g[0] + sep + joined(g.drop_first(), sep));
    assert(g.drop_first()[0] == g[1]);
    assert(joined(g.drop_first(), sep) == g[1] + sep + joined(
        g.drop_first().drop_first(),
        sep,
    ));
    let rest = joined(g.drop_first().drop_first(), sep);

    let pre = nonce_prefix(keys);
    assert(pre == header_scheme() + seg0 + sep + key_nonce() + eq2);
    assert(h =~= (pre + n) + (quote + sep + rest));
    let p = pre.len();
    assert forall|i: int| 0 <= i < n.len() implies h[p + i] == n[i] by {
        assert((pre + n).len() == p + n.len());
        assert(h[p + i] == (pre + n)[p + i]);
        assert((pre + n)[p + i] == n[i]);
    }
}

/// Two headers signed with distinct nonces differ, whatever the digests or
/// the timestamps come to: the credential parameters and their order depend
/// only on the credentials, so the nonce stands verbatim at the same offset
/// in both headers.  This is the part of signature freshness that holds of
/// every outcome of the random draw; nothing is claimed of the digests
/// themselves, which are only named.
pub proof fn lemma_distinct_nonces_distinct_headers(
    keys: Access,
    base_url: Seq<u8>,
    method: Seq<u8>,
    params: Seq<(Seq<u8>, Seq<u8>)>,
    n1: Seq<u8>,
    t1: int,
    n2: Seq<u8>,
    t2: int,
)
    requires
        n1.len() == n2.len(),
        forall|i: int| 0 <= i < n1.len() ==> is_alnum(#[trigger] n1[i]),
        forall|i: int| 0 <= i < n2.len() ==> is_alnum(#[trigger] n2[i]),
        n1 != n2,
    ensures
        oauth_header(keys, base_url, method, params, n1, t1) != oauth_header(
            keys,
            base_url,
            method,
            params,
            n2,
            t2,
        ),
{
    lemma_nonce_in_header(keys, base_url, method, params, n1, t1);
    lemma_nonce_in_header(keys, base_url, method, params, n2, t2);
    let h1 = oauth_header(keys, base_url, method, params, n1, t1);
    let h2 = oauth_header(keys, base_url, method, params, n2, t2);
    let p = nonce_prefix(keys).len();
    if h1 == h2 {
        if forall|i: int| 0 <= i < n1.len() ==> #[trigger] n1[i] == n2[i] {
            assert(n1 =~= n2);
        }
        assert(exists|i: int| 0 <= i < n1.len() && #[trigger] n1[i] != n2[i]);
        let i0 = choose|i: int| 0 <= i < n1.len() && #[trigger] n1[i] != n2[i];
        assert(h1[p + i0] == n1[i0]);
        assert(h2[p + i0] == n2[i0]);
        assert(false);
    }
}

/// The view of one owned key/value pair.
pub open spec fn pview(p: (Vec<u8>, Vec<u8>)) -> (Seq<u8>, Seq<u8>) {
    (p.0@, p.1@)
}

/// The views of a list of owned key/value pairs.
pub open spec fn views_of(ps: Seq<(Vec<u8>, Vec<u8>)>) -> Seq<(Seq<u8>, Seq<u8>)> {
    ps.map_values(|p: (Vec<u8>, Vec<u8>)| pview(p))
}

/// One pair, percent-encoded.
pub open spec fn enc_pair(p: (Seq<u8>, Seq<u8>)) -> (Seq<u8>, Seq<u8>) {
    (pct_encoded(p.0), pct_encoded(p.1))
}

/// A parameter list, percent-encoded pairwise.
pub open spec fn enc_pairs(ps: Seq<(Seq<u8>, Seq<u8>)>) -> Seq<(Seq<u8>, Seq<u8>)> {
    ps.map_values(|p: (Seq<u8>, Seq<u8>)| enc_pair(p))
}

/// The fixed credential/metadata parameters of one signing: consumer key,
/// nonce, signature method, timestamp, access token, protocol version.
pub open spec fn auth_pairs(keys: Access, nonce: Seq<u8>, ts: int) -> Seq<(Seq<u8>, Seq<u8>)> {
    seq![
        (key_consumer(), keys.api_key@),
        (key_nonce(), nonce),
        (key_sig_method(), val_sig_method()),
        (key_timestamp(), dec_int(ts)),
        (key_token(), keys.access@),
        (key_version(), val_version()),
    ]
}

/// `key=value` segments of a parameter list.
pub open spec fn kv_segments(ps: Seq<(Seq<u8>, Seq<u8>)>) -> Seq<Seq<u8>> {
    ps.map_values(|p: (Seq<u8>, Seq<u8>)| p.0 + seq![('=' as u8)] + p.1)
}

/// `key="value"` segments of the final header.
pub open spec fn header_segments(ps: Seq<(Seq<u8>, Seq<u8>)>) -> Seq<Seq<u8>> {
    ps.map_values(
        |p: (Seq<u8>, Seq<u8>)| p.0 + seq![('=' as u8), ('"' as u8)] + p.1 + seq![('"' as u8)],
    )
}

/// The canonical parameter string: credential and request parameters,
/// percent-encoded, sorted by encoded key with ties broken by encoded value,
/// joined as `key=value` with `&`.
pub open spec fn param_string(
    keys: Access,
    params: Seq<(Seq<u8>, Seq<u8>)>,
    nonce: Seq<u8>,
    ts: int,
) -> Seq<u8> {
    joined(
        kv_segments(
            (enc_pairs(auth_pairs(keys, nonce, ts)) + enc_pairs(params)).sort_by(param_order()),
        ),
        seq![('&' as u8)],
    )
}

/// The signature base string: `METHOD&enc(url)&enc(parameter string)`.
pub open spec fn signature_base(
    keys: Access,
    base_url: Seq<u8>,
    method: Seq<u8>,
    params: Seq<(Seq<u8>, Seq<u8>)>,
    nonce: Seq<u8>,
    ts: int,
) -> Seq<u8> {
    method + seq![('&' as u8)] + pct_encoded(base_url) + seq![('&' as u8)] + pct_encoded(
        param_string(keys, params, nonce, ts),
    )
}

/// The signing key: `enc(consumer secret)&enc(token secret)`.
pub open spec fn signing_key(keys: Access) -> Seq<u8> {
    pct_encoded(keys.api_secret@) + seq![('&' as u8)] + pct_encoded(keys.access_secret@)
}

/// The percent-encoded, base64-encoded HMAC-SHA1 signature of one request.
pub open spec fn oauth_signature(
    keys: Access,
    base_url: Seq<u8>,
    method: Seq<u8>,
    params: Seq<(Seq<u8>, Seq<u8>)>,
    nonce: Seq<u8>,
    ts: int,
) -> Seq<u8> {
    pct_encoded(
        base64_of(
            hmac_sha1_of(
                signing_key(keys),
                signature_base(keys, base_url, method, params, nonce, ts),
            ),
        ),
    )
}

/// The whole authentication header: the scheme name, then the sorted encoded
/// credential parameters and the signature, each as `key="value"`, joined
/// with a comma and a space.
pub open spec fn oauth_header(
    keys: Access,
    base_url: Seq<u8>,
    method: Seq<u8>,
    params: Seq<(Seq<u8>, Seq<u8>)>,
    nonce: Seq<u8>,
    ts: int,
) -> Seq<u8> {
    header_scheme() + joined(
        header_segments(
            enc_pairs(auth_pairs(keys, nonce, ts)).sort_by(param_order()).push(
                (key_signature(), oauth_signature(keys, base_url, method, params, nonce, ts)),
            ),
        ),
        seq![(',' as u8), (' ' as u8)],
    )
}

/// Inserting at the found position keeps a parameter list sorted.
proof fn lemma_insert_sorted(s: Seq<(Seq<u8>, Seq<u8>)>, j: int, x: (Seq<u8>, Seq<u8>))
    requires
        sorted_by(s, param_order()),
        0 <= j <= s.len(),
        forall|m: int| 0 <= m < j ==> param_order()(s[m], x),
        j == s.len() || !param_order()(s[j], x),
    ensures
        sorted_by(s.insert(j, x), param_order()),
{
    lemma_pair_leq_total_ordering();
    s.insert_ensures(j, x);
    let t = s.insert(j, x);
    let leq = param_order();
    assert forall|i: int, k: int| 0 <= i < k < t.len() implies leq(t[i], t[k]) by {
        assert(t.len() == s.len() + 1);
        if j < s.len() {
            assert(leq(x, s[j]) || leq(s[j], x));
        }
        if i < j {
            assert(t[i] == s[i]);
            if k < j {
                assert(t[k] == s[k]);
                assert(leq(s[i], s[k]));
            } else if k == j {
                assert(t[k] == x);
                assert(leq(s[i], x));
            } else {
                assert(t[(k - 1) + 1] == s[k - 1]);
                if i < k - 1 {
                    assert(leq(s[i], s[k - 1]));
                } else {
                    assert(leq(s[i], x));
                    assert(leq(x, s[k - 1]));
                    assert(leq(s[i], s[k - 1]));
                }
            }
        } else if i == j {
            assert(t[i] == x);
            assert(t[(k - 1) + 1] == s[k - 1]);
            assert(leq(x, s[j]));
            if k - 1 > j {
                assert(leq(s[j], s[k - 1]));
                assert(leq(x, s[k - 1]));
            }
        } else {
            assert(t[(i - 1) + 1] == s[i - 1]);
            assert(t[(k - 1) + 1] == s[k - 1]);
            assert(leq(s[i - 1], s[k - 1]));
        }
    }
}

/// The first position in `out` whose pair does not come before `p`.
fn find_pos(out: &Vec<(Vec<u8>, Vec<u8>)>, p: &(Vec<u8>, Vec<u8>)) -> (j: usize)
    ensures
        j <= out@.len(),
        forall|m: int| 0 <= m < j ==> param_order()(views_of(out@)[m], pview(*p)),
        j < out@.len() ==> !param_order()(views_of(out@)[j as int], pview(*p)),
{
    let mut j: usize = 0;
    loop
        invariant
            j <= out@.len(),
            forall|m: int| 0 <= m < j ==> param_order()(views_of(out@)[m], pview(*p)),
        decreases out@.len() - j,
    {
        if j >= out.len() {
            return j;
        }
        proof {
            assert(views_of(out@)[j as int] == pview(out@[j as int]));
        }
        if !pair_le(&out[j], p) {
            return j;
        }
        j = j + 1;
    }
}

/// Sort a parameter list by encoded key, ties broken by encoded value.
fn sort_pairs(input: Vec<(Vec<u8>, Vec<u8>)>) -> (r: Vec<(Vec<u8>, Vec<u8>)>)
    ensures
        views_of(r@) == views_of(input@).sort_by(param_order()),
{
    proof {
        lemma_pair_leq_total_ordering();
    }
    let ghost orig = views_of(input@);
    let mut rest = input;
    let mut out: Vec<(Vec<u8>, Vec<u8>)> = Vec::new();
    proof {
        assert(views_of(out@) =~= Seq::<(Seq<u8>, Seq<u8>)>::empty());
        assert(views_of(out@).to_multiset().add(views_of(rest@).to_multiset())
            =~= orig.to_multiset());
    }
    while rest.len() > 0
        invariant
            sorted_by(views_of(out@), param_order()),
            views_of(out@).to_multiset().add(views_of(rest@).to_multiset()) == orig.to_multiset(),
        decreases rest@.len(),
    {
        let ghost rest_before = rest@;
        let p = rest.pop().unwrap();
        proof {
            assert(views_of(rest_before) =~= views_of(rest@).push(pview(p)));
            assert(views_of(rest_before).to_multiset() == views_of(rest@).to_multiset().insert(
                pview(p),
            ));
        }
        let j = find_pos(&out, &p);
        let ghost out_before = views_of(out@);
        out.insert(j, p);
        proof {
            assert(views_of(out@) =~= out_before.insert(j as int, pview(p)));
            lemma_insert_sorted(out_before, j as int, pview(p));
            assert(views_of(out@).to_multiset().add(views_of(rest@).to_multiset())
                =~= orig.to_multiset());
        }
    }
    proof {
        assert(views_of(rest@) =~= Seq::<(Seq<u8>, Seq<u8>)>::empty());
        assert(views_of(rest@).to_multiset().len() == 0);
        assert(views_of(out@).to_multiset() =~= orig.to_multiset());
        orig.lemma_sort_by_ensures(param_order());
        lemma_sorted_unique(views_of(out@), orig.sort_by(param_order()), param_order());
    }
    out
}

/// One `key=value` segment.
fn kv_segment(k: &Vec<u8>, v: &Vec<u8>) -> (r: Vec<u8>)
    ensures
        r@ == k@ + seq![('=' as u8)] + v@,
{
    let mut s = vstd::slice::slice_to_vec(k.as_slice());
    s.push('=' as u8);
    let mut tail = vstd::slice::slice_to_vec(v.as_slice());
    s.append(&mut tail);
    proof {
        assert(s@ =~= k@ + seq![('=' as u8)] + v@);
    }
    s
}

/// One `key="value"` segment.
fn header_segment(k: &Vec<u8>, v: &Vec<u8>) -> (r: Vec<u8>)
    ensures
        r@ == k@ + seq![('=' as u8), ('"' as u8)] + v@ + seq![('"' as u8)],
{
    let mut s = vstd::slice::slice_to_vec(k.as_slice());
    s.push('=' as u8);
    s.push('"' as u8);
    let mut tail = vstd::slice::slice_to_vec(v.as_slice());
    s.append(&mut tail);
    s.push('"' as u8);
    proof {
        assert(s@ =~= k@ + seq![('=' as u8), ('"' as u8)] + v@ + seq![('"' as u8)]);
    }
    s
}

/// Join a sorted parameter list as `key=value` pairs separated by `&`.
fn kv_join(ps: &Vec<(Vec<u8>, Vec<u8>)>) -> (r: Vec<u8>)
    ensures
        r@ == joined(kv_segments(views_of(ps@)), seq![('&' as u8)]),
{
    let mut segs: Vec<Vec<u8>> = Vec::new();
    let mut i: usize = 0;
    while i < ps.len()
        invariant
            i <= ps@.len(),
            seq_views(segs@) == kv_segments(views_of(ps@.take(i as int))),
        decreases ps@.len() - i,
    {
        let ghost segs_before = segs@;
        let seg = kv_segment(&ps[i].0, &ps[i].1);
        segs.push(seg);
        proof {
            let ghost old_take = views_of(ps@.take(i as int));
            assert(ps@.take(i + 1) =~= ps@.take(i as int).push(ps@[i as int]));
            assert(views_of(ps@.take(i + 1)) =~= old_take.push(pview(ps@[i as int])));
            assert(kv_segments(old_take.push(pview(ps@[i as int]))) =~= kv_segments(old_take).push(
                pview(ps@[i as int]).0 + seq![('=' as u8)] + pview(ps@[i as int]).1,
            ));
            assert(seq_views(segs@) =~= seq_views(segs_before).push(seg@));
            assert(seq_views(segs@) =~= kv_segments(views_of(ps@.take(i + 1))));
        }
        i = i + 1;
    }
    let amp: Vec<u8> = vec![('&' as u8)];
    let r = join_bytes(&segs, &amp);
    proof {
        assert(ps@.take(ps@.len() as int) =~= ps@);
        assert(amp@ =~= seq![('&' as u8)]);
    }
    r
}

/// Join header pairs as `key="value"` segments separated by a comma and a
/// space.
fn header_join(ps: &Vec<(Vec<u8>, Vec<u8>)>) -> (r: Vec<u8>)
    ensures
        r@ == joined(header_segments(views_of(ps@)), seq![(',' as u8), (' ' as u8)]),
{
    let mut segs: Vec<Vec<u8>> = Vec::new();
    let mut i: usize = 0;
    while i < ps.len()
        invariant
            i <= ps@.len(),
            seq_views(segs@) == header_segments(views_of(ps@.take(i as int))),
        decreases ps@.len() - i,
    {
        let ghost segs_before = segs@;
        let seg = header_segment(&ps[i].0, &ps[i].1);
        segs.push(seg);
        proof {
            let ghost old_take = views_of(ps@.take(i as int));
            assert(ps@.take(i + 1) =~= ps@.take(i as int).push(ps@[i as int]));
            assert(views_of(ps@.take(i + 1)) =~= old_take.push(pview(ps@[i as int])));
            assert(header_segments(old_take.push(pview(ps@[i as int]))) =~= header_segments(
                old_take,
            ).push(
                pview(ps@[i as int]).0 + seq![('=' as u8), ('"' as u8)] + pview(ps@[i as int]).1
                    + seq![('"' as u8)],
            ));
            assert(seq_views(segs@) =~= seq_views(segs_before).push(seg@));
            assert(seq_views(segs@) =~= header_segments(views_of(ps@.take(i + 1))));
        }
        i = i + 1;
    }
    let sep: Vec<u8> = vec![(',' as u8), (' ' as u8)];
    let r = join_bytes(&segs, &sep);
    proof {
        assert(ps@.take(ps@.len() as int) =~= ps@);
        assert(sep@ =~= seq![(',' as u8), (' ' as u8)]);
    }
    r
}

/// The six credential parameters of one signing, percent-encoded.
fn enc_auth_vec(keys: &Access, nonce: &Vec<u8>, ts: i64) -> (r: Vec<(Vec<u8>, Vec<u8>)>)
    ensures
        views_of(r@) == enc_pairs(auth_pairs(*keys, nonce@, ts as int)),
{
    let mut v: Vec<(Vec<u8>, Vec<u8>)> = Vec::new();
    v.push(
        (percent_encode(key_consumer_vec().as_slice()), percent_encode(keys.api_key.as_slice())),
    );
    v.push((percent_encode(key_nonce_vec().as_slice()), percent_encode(nonce.as_slice())));
    v.push(
        (
            percent_encode(key_sig_method_vec().as_slice()),
            percent_encode(val_sig_method_vec().as_slice()),
        ),
    );
    let tsv = i64_to_dec(ts);
    v.push((percent_encode(key_timestamp_vec().as_slice()), percent_encode(tsv.as_slice())));
    v.push((percent_encode(key_token_vec().as_slice()), percent_encode(keys.access.as_slice())));
    v.push(
        (percent_encode(key_version_vec().as_slice()), percent_encode(val_version_vec().as_slice())),
    );
    proof {
        assert(views_of(v@) =~= enc_pairs(auth_pairs(*keys, nonce@, ts as int)));
    }
    v
}

/// Build the authentication header for the given nonce and timestamp.
///
/// Deterministic: the result is exactly [`oauth_header`] of the inputs.
pub fn create_auth_at(
    keys: &Access,
    base_url: &[u8],
    method: &[u8],
    params: &Vec<(Vec<u8>, Vec<u8>)>,
    nonce: &Vec<u8>,
    ts: i64,
) -> (r: Vec<u8>)
    ensures
        r@ == oauth_header(*keys, base_url@, method@, views_of(params@), nonce@, ts as int),
{
    let ghost pviews = views_of(params@);
    proof {
        lemma_pair_leq_total_ordering();
    }
    let mut sig_list = enc_auth_vec(keys, nonce, ts);
    let mut i: usize = 0;
    proof {
        assert(enc_pairs(views_of(params@.take(0))) =~= Seq::<(Seq<u8>, Seq<u8>)>::empty());
        assert(views_of(sig_list@) =~= enc_pairs(auth_pairs(*keys, nonce@, ts as int)) + enc_pairs(
            views_of(params@.take(0)),
        ));
    }
    while i < params.len()
        invariant
            i <= params@.len(),
            views_of(sig_list@) == enc_pairs(auth_pairs(*keys, nonce@, ts as int)) + enc_pairs(
                views_of(params@.take(i as int)),
            ),
        decreases params@.len() - i,
    {
        let ghost list_before = sig_list@;
        sig_list.push(
            (percent_encode(params[i].0.as_slice()), percent_encode(params[i].1.as_slice())),
        );
        proof {
            let ghost old_take = views_of(params@.take(i as int));
            assert(params@.take(i + 1) =~= params@.take(i as int).push(params@[i as int]));
            assert(views_of(params@.take(i + 1)) =~= old_take.push(pview(params@[i as int])));
            assert(enc_pairs(old_take.push(pview(params@[i as int]))) =~= enc_pairs(old_take).push(
                enc_pair(pview(params@[i as int])),
            ));
            assert(views_of(sig_list@) =~= views_of(list_before).push(
                pview(sig_list@[sig_list@.len() - 1]),
            ));
            assert(views_of(sig_list@) =~= enc_pairs(auth_pairs(*keys, nonce@, ts as int))
                + enc_pairs(views_of(params@.take(i + 1))));
        }
        i = i + 1;
    }
    proof {
        assert(params@.take(params@.len() as int) =~= params@);
    }
    let sorted_sig = sort_pairs(sig_list);
    let param_str = kv_join(&sorted_sig);
    proof {
        assert(param_str@ == param_string(*keys, pviews, nonce@, ts as int));
    }

    let mut base_str = vstd::slice::slice_to_vec(method);
    base_str.push('&' as u8);
    let mut enc_url = percent_encode(base_url);
    base_str.append(&mut enc_url);
    base_str.push('&' as u8);
    let mut enc_ps = percent_encode(param_str.as_slice());
    base_str.append(&mut enc_ps);
    proof {
        assert(base_str@ =~= signature_base(*keys, base_url@, method@, pviews, nonce@, ts as int));
    }

    let mut skey = percent_encode(keys.api_secret.as_slice());
    skey.push('&' as u8);
    let mut enc_acc = percent_encode(keys.access_secret.as_slice());
    skey.append(&mut enc_acc);
    proof {
        assert(skey@ =~= signing_key(*keys));
    }

    let digest = hmac_sha1(skey.as_slice(), base_str.as_slice());
    let sig64 = base64_encode(digest.as_slice());
    let sig = percent_encode(sig64.as_slice());
    proof {
        assert(sig@ == oauth_signature(*keys, base_url@, method@, pviews, nonce@, ts as int));
    }

    let auth_list = enc_auth_vec(keys, nonce, ts);
    let mut hdr_list = sort_pairs(auth_list);
    hdr_list.push((key_signature_vec(), sig));
    proof {
        assert(views_of(hdr_list@) =~= enc_pairs(auth_pairs(*keys, nonce@, ts as int)).sort_by(
            param_order(),
        ).push(
            (
                key_signature(),
                oauth_signature(*keys, base_url@, method@, pviews, nonce@, ts as int),
            ),
        ));
    }

    let mut out = header_scheme_vec();
    let mut hdr = header_join(&hdr_list);
    out.append(&mut hdr);
    proof {
        assert(out@ =~= oauth_header(*keys, base_url@, method@, pviews, nonce@, ts as int));
    }
    out
}

/// Build the authentication header for one request, drawing a fresh nonce
/// and the current timestamp; both are returned beside the header.
pub fn create_auth(
    keys: &Access,
    base_url: &[u8],
    method: &[u8],
    params: &Vec<(Vec<u8>, Vec<u8>)>,
) -> (r: (Vec<u8>, Vec<u8>, i64))
    ensures
        r.0@ == oauth_header(*keys, base_url@, method@, views_of(params@), r.1@, r.2 as int),
        r.1@.len() == 32,
        forall|i: int| 0 <= i < r.1@.len() ==> is_alnum(#[trigger] r.1@[i]),
{
    let nonce = gen_nonce();
    let ts = now_unix();
    let header = create_auth_at(keys, base_url, method, params, &nonce, ts);
    (header, nonce, ts)
}

} // verus!
