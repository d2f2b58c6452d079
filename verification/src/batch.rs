//! Batch planning: the lookup endpoint takes at most one hundred ids per
//! request, joined by commas; the delete endpoint takes one id per request.
//! The payloads and parameters built here feed the signer; the surrounding
//! program sends them and hands each response's status back to
//! [`classify_delete_response`] or to the sender's decisions.

use vstd::prelude::*;

use crate::bytestr::{join_bytes, joined, seq_views};
use crate::sender::{spec_classify, classify_response, RateLimit, SendStep};

verus! {

/// The most ids one lookup request may carry.
pub const LOOKUP_BATCH_SIZE: usize = 100;

/// The batch lookup endpoint: up to one hundred comma-joined ids per request.
///
/// The byte string `https://api.twitter.com/1.1/statuses/lookup.json`.
pub open spec fn tweet_lookup_url() -> Seq<u8> {
    seq![('h' as u8), ('t' as u8), ('t' as u8), ('p' as u8), ('s' as u8), (':' as u8),
        ('/' as u8), ('/' as u8), ('a' as u8), ('p' as u8), ('i' as u8), ('.' as u8),
        ('t' as u8), ('w' as u8), ('i' as u8), ('t' as u8), ('t' as u8), ('e' as u8),
        ('r' as u8), ('.' as u8), ('c' as u8), ('o' as u8), ('m' as u8), ('/' as u8),
        ('1' as u8), ('.' as u8), ('1' as u8), ('/' as u8), ('s' as u8), ('t' as u8),
        ('a' as u8), ('t' as u8), ('u' as u8), ('s' as u8), ('e' as u8), ('s' as u8),
        ('/' as u8), ('l' as u8), ('o' as u8), ('o' as u8), ('k' as u8), ('u' as u8),
        ('p' as u8), ('.' as u8), ('j' as u8), ('s' as u8), ('o' as u8), ('n' as u8)
    ]
}

/// The bytes of [`tweet_lookup_url`].
pub fn tweet_lookup_url_vec() -> (r: Vec<u8>)
    ensures
        r@ == tweet_lookup_url(),
{
    let v: Vec<u8> =
    vec![('h' as u8), ('t' as u8), ('t' as u8), ('p' as u8), ('s' as u8), (':' as u8),
        ('/' as u8), ('/' as u8), ('a' as u8), ('p' as u8), ('i' as u8), ('.' as u8),
        ('t' as u8), ('w' as u8), ('i' as u8), ('t' as u8), ('t' as u8), ('e' as u8),
        ('r' as u8), ('.' as u8), ('c' as u8), ('o' as u8), ('m' as u8), ('/' as u8),
        ('1' as u8), ('.' as u8), ('1' as u8), ('/' as u8), ('s' as u8), ('t' as u8),
        ('a' as u8), ('t' as u8), ('u' as u8), ('s' as u8), ('e' as u8), ('s' as u8),
        ('/' as u8), ('l' as u8), ('o' as u8), ('o' as u8), ('k' as u8), ('u' as u8),
        ('p' as u8), ('.' as u8), ('j' as u8), ('s' as u8), ('o' as u8), ('n' as u8)
    ];
    proof {
        assert(v@ =~= tweet_lookup_url());
    }
    v
}

/// The per-item delete endpoint prefix; the id and `.json` follow.
///
/// The byte string `https://api.twitter.com/1.1/statuses/destroy/`.
pub open spec fn tweet_destroy_url() -> Seq<u8> {
    seq![('h' as u8), ('t' as u8), ('t' as u8), ('p' as u8), ('s' as u8), (':' as u8),
        ('/' as u8), ('/' as u8), ('a' as u8), ('p' as u8), ('i' as u8), ('.' as u8),
        ('t' as u8), ('w' as u8), ('i' as u8), ('t' as u8), ('t' as u8), ('e' as u8),
        ('r' as u8), ('.' as u8), ('c' as u8), ('o' as u8), ('m' as u8), ('/' as u8),
        ('1' as u8), ('.' as u8), ('1' as u8), ('/' as u8), ('s' as u8), ('t' as u8),
        ('a' as u8), ('t' as u8), ('u' as u8), ('s' as u8), ('e' as u8), ('s' as u8),
        ('/' as u8), ('d' as u8), ('e' as u8), ('s' as u8), ('t' as u8), ('r' as u8),
        ('o' as u8), ('y' as u8), ('/' as u8)
    ]
}

/// The bytes of [`tweet_destroy_url`].
pub fn tweet_destroy_url_vec() -> (r: Vec<u8>)
    ensures
        r@ == tweet_destroy_url(),
{
    let v: Vec<u8> =
    vec![('h' as u8), ('t' as u8), ('t' as u8), ('p' as u8), ('s' as u8), (':' as u8),
        ('/' as u8), ('/' as u8), ('a' as u8), ('p' as u8), ('i' as u8), ('.' as u8),
        ('t' as u8), ('w' as u8), ('i' as u8), ('t' as u8), ('t' as u8), ('e' as u8),
        ('r' as u8), ('.' as u8), ('c' as u8), ('o' as u8), ('m' as u8), ('/' as u8),
        ('1' as u8), ('.' as u8), ('1' as u8), ('/' as u8), ('s' as u8), ('t' as u8),
        ('a' as u8), ('t' as u8), ('u' as u8), ('s' as u8), ('e' as u8), ('s' as u8),
        ('/' as u8), ('d' as u8), ('e' as u8), ('s' as u8), ('t' as u8), ('r' as u8),
        ('o' as u8), ('y' as u8), ('/' as u8)
    ];
    proof {
        assert(v@ =~= tweet_destroy_url());
    }
    v
}

/// The lookup request's id-list parameter name.
///
/// The byte string `id`.
pub open spec fn lit_id() -> Seq<u8> {
    seq![('i' as u8), ('d' as u8)
    ]
}

/// The bytes of [`lit_id`].
pub fn lit_id_vec() -> (r: Vec<u8>)
    ensures
        r@ == lit_id(),
{
    let v: Vec<u8> =
    vec![('i' as u8), ('d' as u8)
    ];
    proof {
        assert(v@ =~= lit_id());
    }
    v
}

/// The lookup request's map-flag parameter name.
///
/// The byte string `map`.
pub open spec fn lit_map() -> Seq<u8> {
    seq![('m' as u8), ('a' as u8), ('p' as u8)
    ]
}

/// The bytes of [`lit_map`].
pub fn lit_map_vec() -> (r: Vec<u8>)
    ensures
        r@ == lit_map(),
{
    let v: Vec<u8> =
    vec![('m' as u8), ('a' as u8), ('p' as u8)
    ];
    proof {
        assert(v@ =~= lit_map());
    }
    v
}

/// The map flag value: ask for an explicit entry per requested id.
///
/// The byte string `true`.
pub open spec fn lit_true() -> Seq<u8> {
    seq![('t' as u8), ('r' as u8), ('u' as u8), ('e' as u8)
    ]
}

/// The bytes of [`lit_true`].
pub fn lit_true_vec() -> (r: Vec<u8>)
    ensures
        r@ == lit_true(),
{
    let v: Vec<u8> =
    vec![('t' as u8), ('r' as u8), ('u' as u8), ('e' as u8)
    ];
    proof {
        assert(v@ =~= lit_true());
    }
    v
}

/// The delete endpoint's path suffix.
///
/// The byte string `.json`.
pub open spec fn lit_json_suffix() -> Seq<u8> {
    seq![('.' as u8), ('j' as u8), ('s' as u8), ('o' as u8), ('n' as u8)
    ]
}

/// The bytes of [`lit_json_suffix`].
pub fn lit_json_suffix_vec() -> (r: Vec<u8>)
    ensures
        r@ == lit_json_suffix(),
{
    let v: Vec<u8> =
    vec![('.' as u8), ('j' as u8), ('s' as u8), ('o' as u8), ('n' as u8)
    ];
    proof {
        assert(v@ =~= lit_json_suffix());
    }
    v
}

/// The HTTP method both endpoints take.
///
/// The byte string `POST`.
pub open spec fn method_post() -> Seq<u8> {
    seq![('P' as u8), ('O' as u8), ('S' as u8), ('T' as u8)
    ]
}

/// The bytes of [`method_post`].
pub fn method_post_vec() -> (r: Vec<u8>)
    ensures
        r@ == method_post(),
{
    let v: Vec<u8> =
    vec![('P' as u8), ('O' as u8), ('S' as u8), ('T' as u8)
    ];
    proof {
        assert(v@ =~= method_post());
    }
    v
}
/// The ids of batch `b`: the hundred starting at `100 * b`, or what is left.
pub open spec fn batch_views(ids: Seq<Seq<u8>>, b: int) -> Seq<Seq<u8>> {
    ids.subrange(
        100 * b,
        if 100 * b + 100 <= ids.len() {
            100 * b + 100
        } else {
            ids.len() as int
        },
    )
}

/// Partition `ids` into lookup payloads: consecutive batches of at most one
/// hundred ids, each joined with commas, in input order.  No empty batch is
/// ever produced.
pub fn lookup_payloads(ids: &Vec<Vec<u8>>) -> (r: Vec<Vec<u8>>)
    ensures
        r@.len() == (ids@.len() + 99) / 100,
        forall|b: int|
            0 <= b < r@.len() ==> (#[trigger] r@[b])@ == joined(
                batch_views(seq_views(ids@), b),
                seq![(',' as u8)],
            ),
{
    let mut out: Vec<Vec<u8>> = Vec::new();
    let mut i: usize = 0;
    while i < ids.len()
        invariant
            i <= ids@.len(),
            i < ids@.len() ==> i == 100 * out@.len(),
            out@.len() == (i + 99) / 100,
            forall|b: int|
                0 <= b < out@.len() ==> (#[trigger] out@[b])@ == joined(
                    batch_views(seq_views(ids@), b),
                    seq![(',' as u8)],
                ),
        decreases ids@.len() - i,
    {
        let hi = if ids.len() - i >= 100 {
            i + 100
        } else {
            ids.len()
        };
        let mut chunk: Vec<Vec<u8>> = Vec::new();
        let mut j = i;
        while j < hi
            invariant
                i <= j <= hi,
                hi <= ids@.len(),
                seq_views(chunk@) == seq_views(ids@).subrange(i as int, j as int),
            decreases hi - j,
        {
            let ghost chunk_before = chunk@;
            chunk.push(vstd::slice::slice_to_vec(ids[j].as_slice()));
            proof {
                assert(seq_views(ids@)[j as int] == ids@[j as int]@);
                assert(seq_views(ids@).subrange(i as int, j + 1) =~= seq_views(ids@).subrange(
                    i as int,
                    j as int,
                ).push(ids@[j as int]@));
                assert(seq_views(chunk@) =~= seq_views(chunk_before).push(ids@[j as int]@));
            }
            j = j + 1;
        }
        let sep: Vec<u8> = vec![(',' as u8)];
        let payload = join_bytes(&chunk, &sep);
        let ghost out_before = out@;
        out.push(payload);
        proof {
            assert(sep@ =~= seq![(',' as u8)]);
            assert(batch_views(seq_views(ids@), out_before.len() as int) =~= seq_views(
                ids@,
            ).subrange(i as int, hi as int));
            assert forall|b: int| 0 <= b < out@.len() implies (#[trigger] out@[b])@ == joined(
                batch_views(seq_views(ids@), b),
                seq![(',' as u8)],
            ) by {
                if b < out_before.len() {
                    assert(out@[b] == out_before[b]);
                }
            }
        }
        i = hi;
    }
    out
}

/// The form parameters of one lookup request: the joined ids and the map
/// flag asking for an entry per requested id.
pub fn lookup_params(payload: Vec<u8>) -> (ps: Vec<(Vec<u8>, Vec<u8>)>)
    ensures
        crate::sign::views_of(ps@) == seq![
            (lit_id(), payload@),
            (lit_map(), lit_true()),
        ],
{
    let mut ps: Vec<(Vec<u8>, Vec<u8>)> = Vec::new();
    let ghost pv = payload@;
    ps.push((lit_id_vec(), payload));
    ps.push((lit_map_vec(), lit_true_vec()));
    proof {
        assert(crate::sign::views_of(ps@) =~= seq![(lit_id(), pv), (lit_map(), lit_true())]);
    }
    ps
}

/// The delete endpoint URL for one id: the destroy prefix, the id, `.json`.
pub fn destroy_url_for(id: &Vec<u8>) -> (r: Vec<u8>)
    ensures
        r@ == tweet_destroy_url() + id@ + lit_json_suffix(),
{
    let mut r = tweet_destroy_url_vec();
    let mut mid = vstd::slice::slice_to_vec(id.as_slice());
    r.append(&mut mid);
    let mut tail = lit_json_suffix_vec();
    r.append(&mut tail);
    proof {
        assert(r@ =~= tweet_destroy_url() + id@ + lit_json_suffix());
    }
    r
}

/// What the delete loop does with one item's response.
#[derive(Debug, Clone, Copy, PartialEq, Eq, Structural)]
pub enum DeleteStep {
    /// A success status: the item was deleted; mark it locally.
    Deleted,
    /// Forbidden: the item cannot be unposted by this caller; record the
    /// outcome and move on without marking.
    Forbidden,
    /// Not found: the item was already gone; mark it deleted and move on.
    Gone,
    /// Rate limited: notify the hook, sleep, retry the same item.
    Limited { limit: RateLimit, wait_secs: u64 },
    /// A transient server error: sleep, retry the same item.
    Transient { wait_secs: u64 },
    /// Any other client error: a terminal failure that aborts the run.
    Failed,
    /// Any other status: retry at once.
    Retry,
}

/// The decision for one delete response: forbidden and not-found are
/// non-fatal per-item outcomes; everything else follows the sender's rules.
pub open spec fn spec_classify_delete(status: u16, reset: Option<Seq<u8>>, now: int) -> DeleteStep {
    if status == 403 {
        DeleteStep::Forbidden
    } else if status == 404 {
        DeleteStep::Gone
    } else {
        match spec_classify(status, reset, now) {
            SendStep::Done => DeleteStep::Deleted,
            SendStep::Limited { limit, wait_secs } => DeleteStep::Limited { limit, wait_secs },
            SendStep::Transient { wait_secs } => DeleteStep::Transient { wait_secs },
            SendStep::Failed => DeleteStep::Failed,
            SendStep::Retry => DeleteStep::Retry,
        }
    }
}

/// Decide what to do with one delete response.  See [`spec_classify_delete`].
pub fn classify_delete_response(status: u16, reset_header: Option<&Vec<u8>>, now: i64) -> (r:
    DeleteStep)
    ensures
        r == spec_classify_delete(
            status,
            match reset_header {
                Some(h) => Some(h@),
                None => None,
            },
            now as int,
        ),
{
    if status == 403 {
        DeleteStep::Forbidden
    } else if status == 404 {
        DeleteStep::Gone
    } else {
        match classify_response(status, reset_header, now) {
            SendStep::Done => DeleteStep::Deleted,
            SendStep::Limited { limit, wait_secs } => DeleteStep::Limited { limit, wait_secs },
            SendStep::Transient { wait_secs } => DeleteStep::Transient { wait_secs },
            SendStep::Failed => DeleteStep::Failed,
            SendStep::Retry => DeleteStep::Retry,
        }
    }
}

} // verus!
