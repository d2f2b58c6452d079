//! The provider-facing types and the import pipeline.
//!
//! Raw archive records carry every field as a byte string; importing parses
//! the counters and the timestamp, fails fast on the first malformed record,
//! and inserts the rest into the store, ignoring ids already present.
//! Lookup responses map each requested id to its metadata or to an explicit
//! absence marker; applying one marks every listed record checked and the
//! absent ones deleted.

use vstd::prelude::*;

use crate::bytestr::seq_views;
use crate::db::{
    checked, count_present, deleted, mark_all, spec_add_accounts, spec_add_tweets, Db,
};
use crate::digits::{all_digits, dec_val, parse_u64};
use crate::models::Account;

verus! {

/// One record of the data-export archive, fields as the provider wrote
/// them: every one a raw string.
#[derive(Debug)]
pub struct Tweet {
    /// Item id: the decimal id string.
    pub id_str: Vec<u8>,
    /// Number of reposts, as a decimal string.
    pub retweets: Vec<u8>,
    /// Number of likes, as a decimal string.
    pub likes: Vec<u8>,
    /// Creation time, in the provider's date format.
    pub created_at: Vec<u8>,
}

impl Tweet {
    /// The item id.
    pub fn id(&self) -> (r: &Vec<u8>)
        ensures
            r@ == self.id_str@,
    {
        &self.id_str
    }

    /// The repost counter string.
    pub fn retweets(&self) -> (r: &Vec<u8>)
        ensures
            r@ == self.retweets@,
    {
        &self.retweets
    }

    /// The like counter string.
    pub fn likes(&self) -> (r: &Vec<u8>)
        ensures
            r@ == self.likes@,
    {
        &self.likes
    }

    /// The creation time string.
    pub fn created_at(&self) -> (r: &Vec<u8>)
        ensures
            r@ == self.created_at@,
    {
        &self.created_at
    }
}

/// One item of a lookup response: metadata for an id that still exists.
#[derive(Debug)]
pub struct LookupTweet {
    /// Item id.
    pub id_str: Vec<u8>,
    /// Number of reposts.
    pub retweet_count: u64,
    /// Number of likes.
    pub like_count: u64,
    /// Creation time, in the provider's date format.
    pub created_at: Vec<u8>,
}

/// A parsed lookup response: each requested id mapped to its metadata, or
/// to nothing where the item is gone.
#[derive(Debug)]
pub struct LookupResp {
    pub id: Vec<(Vec<u8>, Option<LookupTweet>)>,
}

/// The Unix timestamp that the provider's fixed date format gives for `s`,
/// if `s` parses; a function of the byte string alone.
pub uninterp spec fn unix_time_of(s: Seq<u8>) -> Option<i64>;

/// Relies on `time`'s format-description parsing: the provider's archive
/// date format (`Wed Oct 10 20:19:24 +0000 2018`), taken as UTC; the result
/// is a function of the byte string alone.
#[verifier::external_body]
fn parse_archive_timestamp(s: &[u8]) -> (r: Option<i64>)
    ensures
        r == unix_time_of(s@),
{
    let text = match std::str::from_utf8(s) {
        Ok(t) => t,
        Err(_) => return None,
    };
    let format = match time::format_description::parse(
        "[weekday repr:short] [month repr:short] [day] [hour]:[minute]:[second] [offset_hour sign:mandatory][offset_minute] [year]",
    ) {
        Ok(f) => f,
        Err(_) => return None,
    };
    match time::PrimitiveDateTime::parse(text, &format) {
        Ok(dt) => Some(dt.assume_utc().unix_timestamp()),
        Err(_) => None,
    }
}

/// An engagement counter parsed as a decimal number, if it is one and fits.
pub open spec fn spec_parse_count(s: Seq<u8>) -> Option<i32> {
    if s.len() > 0 && all_digits(s) && dec_val(s) <= i32::MAX {
        Some(dec_val(s) as i32)
    } else {
        None
    }
}

fn parse_count(s: &[u8]) -> (r: Option<i32>)
    ensures
        r == spec_parse_count(s@),
{
    match parse_u64(s) {
        Some(v) => {
            if v <= i32::MAX as u64 {
                Some(v as i32)
            } else {
                None
            }
        },
        None => None,
    }
}

/// Whether a raw record's parsed fields are all usable.
pub open spec fn raw_counts_ok(t: Tweet) -> bool {
    spec_parse_count(t.retweets@) is Some && spec_parse_count(t.likes@) is Some
}

/// Whether a raw record imports cleanly.
pub open spec fn raw_ok(t: Tweet) -> bool {
    raw_counts_ok(t) && unix_time_of(t.created_at@) is Some
}

/// The first index whose record does not import cleanly, or the length.
pub open spec fn first_bad(s: Seq<Tweet>) -> int
    decreases s.len(),
{
    if s.len() == 0 {
        0
    } else if !raw_ok(s[0]) {
        0
    } else {
        1 + first_bad(s.drop_first())
    }
}

proof fn lemma_first_bad_at(s: Seq<Tweet>, k: int)
    requires
        0 <= k <= s.len(),
        forall|m: int| 0 <= m < k ==> raw_ok(#[trigger] s[m]),
        k == s.len() || !raw_ok(s[k]),
    ensures
        first_bad(s) == k,
    decreases s.len(),
{
    if s.len() == 0 {
    } else if k == 0 {
    } else {
        assert(raw_ok(s[0]));
        assert forall|m: int| 0 <= m < k - 1 implies raw_ok(#[trigger] s.drop_first()[m]) by {
            assert(s.drop_first()[m] == s[m + 1]);
        }
        if k - 1 < s.drop_first().len() {
            assert(s.drop_first()[k - 1] == s[k]);
        }
        lemma_first_bad_at(s.drop_first(), k - 1);
    }
}

/// Why an import failed.
#[derive(Debug, Clone, Copy, PartialEq, Eq, Structural)]
pub enum ImportError {
    /// The account id is the sentinel `0`.
    BadAccount,
    /// An engagement counter of the record at `index` is not a decimal
    /// number that fits.
    BadCount { index: usize },
    /// The timestamp of the record at `index` does not parse.
    BadTimestamp { index: usize },
}

/// The error reported for the record at `k`: a bad counter takes precedence
/// over a bad timestamp, as the counters are parsed first.
pub open spec fn import_error_at(s: Seq<Tweet>, k: int) -> ImportError {
    if !raw_counts_ok(s[k]) {
        ImportError::BadCount { index: k as usize }
    } else {
        ImportError::BadTimestamp { index: k as usize }
    }
}

/// What it means for stored records to be the parsed form of raw ones:
/// same ids in the same order, counters and timestamp parsed, both
/// lifecycle flags false, all owned by the one account.
pub open spec fn models_correspond(
    models: Seq<crate::models::Tweet>,
    raws: Seq<Tweet>,
    acct: Seq<u8>,
) -> bool {
    &&& models.len() == raws.len()
    &&& forall|k: int|
        0 <= k < raws.len() ==> {
            let m = #[trigger] models[k];
            &&& m.id_str@ == raws[k].id_str@
            &&& Some(m.retweets) == spec_parse_count(raws[k].retweets@)
            &&& Some(m.likes) == spec_parse_count(raws[k].likes@)
            &&& Some(m.created_at) == unix_time_of(raws[k].created_at@)
            &&& m.deleted == false
            &&& m.checked == false
            &&& m.account_id@ == acct
        }
}

/// Parse every raw record, failing fast at the first malformed one.
pub fn to_models(tweets: &Vec<Tweet>, account_id: &Vec<u8>) -> (r: Result<
    Vec<crate::models::Tweet>,
    ImportError,
>)
    ensures
        r is Ok <==> (forall|k: int| 0 <= k < tweets@.len() ==> raw_ok(#[trigger] tweets@[k])),
        r matches Ok(models) ==> models_correspond(models@, tweets@, account_id@),
        r matches Err(e) ==> first_bad(tweets@) < tweets@.len() && e == import_error_at(
            tweets@,
            first_bad(tweets@),
        ),
{
    let mut out: Vec<crate::models::Tweet> = Vec::new();
    let mut k: usize = 0;
    while k < tweets.len()
        invariant
            k <= tweets@.len(),
            out@.len() == k,
            forall|m: int| 0 <= m < k ==> raw_ok(#[trigger] tweets@[m]),
            forall|m: int|
                0 <= m < k ==> {
                    let t = #[trigger] out@[m];
                    &&& t.id_str@ == tweets@[m].id_str@
                    &&& Some(t.retweets) == spec_parse_count(tweets@[m].retweets@)
                    &&& Some(t.likes) == spec_parse_count(tweets@[m].likes@)
                    &&& Some(t.created_at) == unix_time_of(tweets@[m].created_at@)
                    &&& t.deleted == false
                    &&& t.checked == false
                    &&& t.account_id@ == account_id@
                },
        decreases tweets@.len() - k,
    {
        let raw = &tweets[k];
        let rt = match parse_count(raw.retweets.as_slice()) {
            Some(v) => v,
            None => {
                proof {
                    lemma_first_bad_at(tweets@, k as int);
                }
                return Err(ImportError::BadCount { index: k });
            },
        };
        let lk = match parse_count(raw.likes.as_slice()) {
            Some(v) => v,
            None => {
                proof {
                    lemma_first_bad_at(tweets@, k as int);
                }
                return Err(ImportError::BadCount { index: k });
            },
        };
        let ts = match parse_archive_timestamp(raw.created_at.as_slice()) {
            Some(v) => v,
            None => {
                proof {
                    lemma_first_bad_at(tweets@, k as int);
                }
                return Err(ImportError::BadTimestamp { index: k });
            },
        };
        let m = crate::models::Tweet::new(
            vstd::slice::slice_to_vec(raw.id_str.as_slice()),
            rt,
            lk,
            ts,
            vstd::slice::slice_to_vec(account_id.as_slice()),
        );
        out.push(m);
        k = k + 1;
    }
    Ok(out)
}

/// Whether the account id is usable: anything but the sentinel `0`.
pub open spec fn account_id_ok(id: Seq<u8>) -> bool {
    id != seq![('0' as u8)]
}

/// Import raw archive records owned by `account` into the store.
///
/// Rejects the sentinel account id `0`; fails fast on the first malformed
/// record, leaving the store untouched; otherwise registers the account,
/// inserts the parsed records (ignoring ids already present), and returns
/// how many were added.
pub fn import_tweets(conn: &mut Db, tweets: &Vec<Tweet>, account: Account) -> (r: Result<
    usize,
    ImportError,
>)
    requires
        old(conn).wf(),
    ensures
        final(conn).wf(),
        r is Ok <==> account_id_ok(account.id_str@) && (forall|k: int|
            0 <= k < tweets@.len() ==> raw_ok(#[trigger] tweets@[k])),
        r matches Ok(added) ==> {
            &&& exists|models: Seq<crate::models::Tweet>|
                {
                    &&& #[trigger] models_correspond(models, tweets@, account.id_str@)
                    &&& final(conn).tweets@ == spec_add_tweets(old(conn).tweets@, models)
                }
            &&& final(conn).accounts@ == spec_add_accounts(old(conn).accounts@, seq![account])
            &&& added == final(conn).tweets@.len() - old(conn).tweets@.len()
        },
        r is Err ==> final(conn).tweets@ == old(conn).tweets@ && final(conn).accounts@ == old(
            conn,
        ).accounts@,
        !account_id_ok(account.id_str@) ==> r == Err::<usize, ImportError>(
            ImportError::BadAccount,
        ),
        account_id_ok(account.id_str@) && first_bad(tweets@) < tweets@.len() ==> r == Err::<
            usize,
            ImportError,
        >(import_error_at(tweets@, first_bad(tweets@))),
{
    let zero: Vec<u8> = vec![('0' as u8)];
    proof {
        assert(zero@ =~= seq![('0' as u8)]);
    }
    if crate::bytestr::bytes_eq(account.id_str.as_slice(), zero.as_slice()) {
        return Err(ImportError::BadAccount);
    }
    let models = match to_models(tweets, &account.id_str) {
        Ok(ms) => ms,
        Err(e) => {
            return Err(e);
        },
    };
    proof {
        lemma_first_bad_at(tweets@, tweets@.len() as int);
    }
    let ghost ms = models@;
    let ghost acct_id = account.id_str@;
    let mut accs: Vec<Account> = Vec::new();
    accs.push(account);
    proof {
        assert(accs@ =~= seq![accs@[0]]);
    }
    crate::db::add_account(conn, accs);
    let added = crate::db::add_tweets(conn, models);
    proof {
        assert(models_correspond(ms, tweets@, acct_id));
    }
    Ok(added)
}

/// The requested ids of a lookup response, in response order.
pub open spec fn resp_keys(entries: Seq<(Vec<u8>, Option<LookupTweet>)>) -> Seq<Vec<u8>> {
    entries.map_values(|e: (Vec<u8>, Option<LookupTweet>)| e.0)
}

/// The ids the response marks absent, in response order.
pub open spec fn absent_keys(entries: Seq<(Vec<u8>, Option<LookupTweet>)>) -> Seq<Vec<u8>>
    decreases entries.len(),
{
    if entries.len() == 0 {
        Seq::empty()
    } else {
        absent_keys(entries.drop_last()) + if entries.last().1 is None {
            seq![entries.last().0]
        } else {
            Seq::empty()
        }
    }
}

/// Apply one lookup response to the store: every id the response answers
/// for is marked checked, and every id it marks absent is marked deleted.
/// Returns how many of the absent ids were found in the store.
pub fn apply_lookup(conn: &mut Db, resp: &LookupResp) -> (gone: usize)
    requires
        old(conn).wf(),
    ensures
        final(conn).wf(),
        final(conn).accounts@ == old(conn).accounts@,
        final(conn).tweets@ == mark_all(
            mark_all(old(conn).tweets@, resp_keys(resp.id@), false),
            absent_keys(resp.id@),
            true,
        ),
        gone == count_present(
            absent_keys(resp.id@),
            mark_all(old(conn).tweets@, resp_keys(resp.id@), false),
        ),
{
    let mut keys: Vec<Vec<u8>> = Vec::new();
    let mut absent: Vec<Vec<u8>> = Vec::new();
    let mut i: usize = 0;
    proof {
        assert(resp.id@.take(0) =~= Seq::<(Vec<u8>, Option<LookupTweet>)>::empty());
        assert(seq_views(keys@) =~= seq_views(resp_keys(resp.id@.take(0))));
        assert(seq_views(absent@) =~= seq_views(absent_keys(resp.id@.take(0))));
    }
    while i < resp.id.len()
        invariant
            i <= resp.id@.len(),
            seq_views(keys@) == seq_views(resp_keys(resp.id@.take(i as int))),
            seq_views(absent@) == seq_views(absent_keys(resp.id@.take(i as int))),
        decreases resp.id@.len() - i,
    {
        let ghost keys_before = keys@;
        let ghost absent_before = absent@;
        proof {
            assert(resp.id@.take(i + 1).drop_last() =~= resp.id@.take(i as int));
            assert(resp.id@.take(i + 1).last() == resp.id@[i as int]);
            assert(resp_keys(resp.id@.take(i + 1)) =~= resp_keys(resp.id@.take(i as int)).push(
                resp.id@[i as int].0,
            ));
        }
        let entry = &resp.id[i];
        keys.push(vstd::slice::slice_to_vec(entry.0.as_slice()));
        proof {
            assert(seq_views(keys@) =~= seq_views(keys_before).push(resp.id@[i as int].0@));
            assert(seq_views(resp_keys(resp.id@.take(i + 1))) =~= seq_views(
                resp_keys(resp.id@.take(i as int)),
            ).push(resp.id@[i as int].0@));
        }
        if entry.1.is_none() {
            absent.push(vstd::slice::slice_to_vec(entry.0.as_slice()));
            proof {
                assert(absent_keys(resp.id@.take(i + 1)) =~= absent_keys(
                    resp.id@.take(i as int),
                ).push(resp.id@[i as int].0));
                assert(seq_views(absent@) =~= seq_views(absent_before).push(
                    resp.id@[i as int].0@,
                ));
                assert(seq_views(absent_keys(resp.id@.take(i + 1))) =~= seq_views(
                    absent_keys(resp.id@.take(i as int)),
                ).push(resp.id@[i as int].0@));
            }
        } else {
            proof {
                assert(absent_keys(resp.id@.take(i + 1)) =~= absent_keys(
                    resp.id@.take(i as int),
                ));
            }
        }
        i = i + 1;
    }
    proof {
        assert(resp.id@.take(resp.id@.len() as int) =~= resp.id@);
    }
    let ghost s0 = conn.tweets@;
    let _marked = checked(conn, &keys);
    proof {
        crate::db::lemma_mark_all_views(s0, keys@, resp_keys(resp.id@), false);
    }
    let gone = deleted(conn, &absent);
    proof {
        crate::db::lemma_mark_all_views(
            mark_all(s0, resp_keys(resp.id@), false),
            absent@,
            absent_keys(resp.id@),
            true,
        );
        crate::db::lemma_count_present_views(
            absent@,
            absent_keys(resp.id@),
            mark_all(s0, resp_keys(resp.id@), false),
        );
    }
    gone
}

/// Whether an archive data file holds tweets: its name starts with
/// `tweets`.
pub fn is_tweet_file(name: &Vec<u8>) -> (r: bool)
    ensures
        r == (name@.len() >= 6 && name@.subrange(0, 6) == seq![
            ('t' as u8),
            ('w' as u8),
            ('e' as u8),
            ('e' as u8),
            ('t' as u8),
            ('s' as u8),
        ]),
{
    let prefix: Vec<u8> = vec![
        ('t' as u8),
        ('w' as u8),
        ('e' as u8),
        ('e' as u8),
        ('t' as u8),
        ('s' as u8),
    ];
    if name.len() < 6 {
        return false;
    }
    let head = vstd::slice::slice_subrange(name.as_slice(), 0, 6);
    let r = crate::bytestr::bytes_eq(head, prefix.as_slice());
    proof {
        assert(prefix@ =~= seq![
            ('t' as u8),
            ('w' as u8),
            ('e' as u8),
            ('e' as u8),
            ('t' as u8),
            ('s' as u8),
        ]);
    }
    r
}

/// The length of the preamble each archive data file starts with, through
/// the space before the JSON payload (`window.YTD.tweets.part99 `).
pub const ARCHIVE_PREAMBLE_LEN: usize = 25;

/// Drop the provider's preamble from an archive data file, leaving the JSON
/// payload; nothing if the file is shorter than the preamble.
pub fn strip_archive_preamble(data: &Vec<u8>) -> (r: Option<Vec<u8>>)
    ensures
        r is Some <==> data@.len() >= ARCHIVE_PREAMBLE_LEN,
        r matches Some(p) ==> p@ == data@.skip(ARCHIVE_PREAMBLE_LEN as int),
{
    if data.len() < ARCHIVE_PREAMBLE_LEN {
        return None;
    }
    let tail = vstd::slice::slice_subrange(data.as_slice(), ARCHIVE_PREAMBLE_LEN, data.len());
    Some(vstd::slice::slice_to_vec(tail))
}

} // verus!
