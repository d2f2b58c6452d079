//! The local record store.
//!
//! Records live in one list, sorted strictly ascending by id, so ids are
//! unique and every ordered selection is ascending by id.  Inserting ignores
//! duplicate ids; marking is idempotent per id; a record marked deleted is
//! always marked checked first.  The surrounding program persists the store
//! and wraps each call as one transaction.

use vstd::prelude::*;

use crate::bytestr::{
    bytes_eq, bytes_lt, lemma_lex_lt_asymmetric, lemma_lex_lt_connected, lemma_lex_lt_transitive,
    lex_lt,
};
use crate::models::{Account, Tweet};

verus! {

/// Tweets sorted strictly ascending by id (hence unique), and no record
/// marked deleted before it was checked.
pub open spec fn tweets_wf(s: Seq<Tweet>) -> bool {
    &&& forall|i: int, j: int|
        0 <= i < j < s.len() ==> #[trigger] lex_lt(s[i].id_str@, s[j].id_str@)
    &&& forall|i: int| 0 <= i < s.len() ==> (#[trigger] s[i].deleted ==> s[i].checked)
}

/// Account ids are unique.
pub open spec fn accounts_wf(s: Seq<Account>) -> bool {
    forall|i: int, j: int|
        0 <= i < j < s.len() ==> (#[trigger] s[i].id_str@) != (#[trigger] s[j].id_str@)
}

/// The store: tracked records and their owning accounts.
pub struct Db {
    pub tweets: Vec<Tweet>,
    pub accounts: Vec<Account>,
}

impl Db {
    /// The store's invariant.
    pub open spec fn wf(self) -> bool {
        tweets_wf(self.tweets@) && accounts_wf(self.accounts@)
    }
}

/// Create an empty store.
pub fn create_db() -> (conn: Db)
    ensures
        conn.wf(),
        conn.tweets@.len() == 0,
        conn.accounts@.len() == 0,
{
    Db { tweets: Vec::new(), accounts: Vec::new() }
}

/// Whether some record in `s` has the id `id`.
pub open spec fn contains_id(s: Seq<Tweet>, id: Seq<u8>) -> bool {
    exists|i: int| 0 <= i < s.len() && (#[trigger] s[i].id_str@) == id
}

/// Whether `id` occurs in the id list `ids`.
pub open spec fn id_in(ids: Seq<Vec<u8>>, id: Seq<u8>) -> bool {
    exists|k: int| 0 <= k < ids.len() && (#[trigger] ids[k]@) == id
}

/// The sorted position for `id`: the number of records with a smaller id.
pub open spec fn insert_pos(s: Seq<Tweet>, id: Seq<u8>) -> int
    decreases s.len(),
{
    if s.len() == 0 {
        0
    } else if lex_lt(s[0].id_str@, id) {
        1 + insert_pos(s.drop_first(), id)
    } else {
        0
    }
}

proof fn lemma_insert_pos_range(s: Seq<Tweet>, id: Seq<u8>)
    ensures
        0 <= insert_pos(s, id) <= s.len(),
    decreases s.len(),
{
    if s.len() > 0 {
        lemma_insert_pos_range(s.drop_first(), id);
    }
}

/// In a sorted list, the first position whose id is not smaller than `id`
/// is the sorted position of `id`.
proof fn lemma_insert_pos_first(s: Seq<Tweet>, id: Seq<u8>, j: int)
    requires
        0 <= j <= s.len(),
        forall|m: int| 0 <= m < j ==> lex_lt(#[trigger] s[m].id_str@, id),
        j == s.len() || !lex_lt(s[j].id_str@, id),
    ensures
        insert_pos(s, id) == j,
    decreases s.len(),
{
    if s.len() == 0 {
    } else if j == 0 {
    } else {
        assert(lex_lt(s[0].id_str@, id));
        assert forall|m: int| 0 <= m < j - 1 implies lex_lt(
            #[trigger] s.drop_first()[m].id_str@,
            id,
        ) by {
            assert(s.drop_first()[m] == s[m + 1]);
        }
        if j - 1 < s.drop_first().len() {
            assert(s.drop_first()[j - 1] == s[j]);
        }
        lemma_insert_pos_first(s.drop_first(), id, j - 1);
    }
}

/// One record inserted at its sorted position, unless its id is taken.
pub open spec fn spec_add_one(s: Seq<Tweet>, t: Tweet) -> Seq<Tweet> {
    if contains_id(s, t.id_str@) {
        s
    } else {
        s.insert(insert_pos(s, t.id_str@), t)
    }
}

/// A batch of records inserted in order, duplicates by id ignored.
pub open spec fn spec_add_tweets(s: Seq<Tweet>, batch: Seq<Tweet>) -> Seq<Tweet>
    decreases batch.len(),
{
    if batch.len() == 0 {
        s
    } else {
        spec_add_tweets(spec_add_one(s, batch[0]), batch.drop_first())
    }
}

proof fn lemma_add_tweets_push(s: Seq<Tweet>, batch: Seq<Tweet>, t: Tweet)
    ensures
        spec_add_tweets(s, batch.push(t)) == spec_add_one(spec_add_tweets(s, batch), t),
    decreases batch.len(),
{
    if batch.len() == 0 {
        assert(batch.push(t)[0] == t);
        assert(batch.push(t).drop_first() =~= Seq::<Tweet>::empty());
        assert(spec_add_tweets(spec_add_one(s, t), Seq::<Tweet>::empty()) == spec_add_one(s, t));
    } else {
        assert(batch.push(t)[0] == batch[0]);
        assert(batch.push(t).drop_first() =~= batch.drop_first().push(t));
        lemma_add_tweets_push(spec_add_one(s, batch[0]), batch.drop_first(), t);
    }
}

/// Inserting at the sorted position of a fresh id keeps the list sorted and
/// the whole invariant.
proof fn lemma_add_one_wf(s: Seq<Tweet>, t: Tweet, j: int)
    requires
        tweets_wf(s),
        !t.deleted,
        !t.checked,
        !contains_id(s, t.id_str@),
        0 <= j <= s.len(),
        forall|m: int| 0 <= m < j ==> lex_lt(#[trigger] s[m].id_str@, t.id_str@),
        j == s.len() || !lex_lt(s[j].id_str@, t.id_str@),
    ensures
        tweets_wf(s.insert(j, t)),
    decreases s.len(),
{
    s.insert_ensures(j, t);
    let u = s.insert(j, t);
    if j < s.len() {
        assert(s[j].id_str@ != t.id_str@) by {
            if s[j].id_str@ == t.id_str@ {
                assert(contains_id(s, t.id_str@));
            }
        }
        lemma_lex_lt_connected(s[j].id_str@, t.id_str@);
        assert(lex_lt(t.id_str@, s[j].id_str@));
    }
    assert forall|i: int, k: int| 0 <= i < k < u.len() implies #[trigger] lex_lt(
        u[i].id_str@,
        u[k].id_str@,
    ) by {
        if i < j {
            assert(u[i] == s[i]);
        } else if i == j {
            assert(u[i] == t);
        } else {
            assert(u[(i - 1) + 1] == s[i - 1]);
        }
        if k < j {
            assert(u[k] == s[k]);
        } else if k == j {
            assert(u[k] == t);
        } else {
            assert(u[(k - 1) + 1] == s[k - 1]);
        }
        if i < j && k == j {
            assert(lex_lt(s[i].id_str@, t.id_str@));
        } else if i < j && k > j {
            assert(lex_lt(s[i].id_str@, s[k - 1].id_str@)) by {
                if i == k - 1 {
                    assert(false);
                } else {
                    assert(0 <= i < k - 1 < s.len());
                }
            }
        } else if i == j && k > j {
            assert(lex_lt(t.id_str@, s[j].id_str@));
            if k - 1 > j {
                assert(lex_lt(s[j].id_str@, s[k - 1].id_str@));
                lemma_lex_lt_transitive(t.id_str@, s[j].id_str@, s[k - 1].id_str@);
            }
        }
    }
    assert forall|i: int| 0 <= i < u.len() && #[trigger] u[i].deleted implies u[i].checked by {
        if i < j {
            assert(u[i] == s[i]);
        } else if i == j {
            assert(u[i] == t);
        } else {
            assert(u[(i - 1) + 1] == s[i - 1]);
        }
    }
}

/// Find the sorted position of `id` in the (sorted) record list: the first
/// index whose id is not smaller.
fn find_tweet_pos(tweets: &Vec<Tweet>, id: &Vec<u8>) -> (j: usize)
    requires
        tweets_wf(tweets@),
    ensures
        0 <= j <= tweets@.len(),
        forall|m: int| 0 <= m < j ==> lex_lt(#[trigger] tweets@[m].id_str@, id@),
        j < tweets@.len() ==> !lex_lt(tweets@[j as int].id_str@, id@),
        j as int == insert_pos(tweets@, id@),
        contains_id(tweets@, id@) <==> (j < tweets@.len() && tweets@[j as int].id_str@ == id@),
{
    let mut j: usize = 0;
    loop
        invariant
            tweets_wf(tweets@),
            j <= tweets@.len(),
            forall|m: int| 0 <= m < j ==> lex_lt(#[trigger] tweets@[m].id_str@, id@),
        ensures
            j <= tweets@.len(),
            forall|m: int| 0 <= m < j ==> lex_lt(#[trigger] tweets@[m].id_str@, id@),
            j == tweets@.len() || !lex_lt(tweets@[j as int].id_str@, id@),
        decreases tweets@.len() - j,
    {
        if j >= tweets.len() {
            break;
        }
        if !bytes_lt(tweets[j].id_str.as_slice(), id.as_slice()) {
            break;
        }
        j = j + 1;
    }
    proof {
        lemma_insert_pos_first(tweets@, id@, j as int);
        if j < tweets@.len() && tweets@[j as int].id_str@ == id@ {
            assert(contains_id(tweets@, id@));
        } else {
            if contains_id(tweets@, id@) {
                let w = choose|i: int|
                    0 <= i < tweets@.len() && (#[trigger] tweets@[i].id_str@) == id@;
                if w < j {
                    assert(lex_lt(tweets@[w].id_str@, id@));
                    lemma_lex_lt_asymmetric(tweets@[w].id_str@, id@);
                    assert(false);
                } else if w == j {
                    assert(false);
                } else {
                    assert(lex_lt(tweets@[j as int].id_str@, tweets@[w].id_str@));
                    lemma_lex_lt_connected(tweets@[j as int].id_str@, id@);
                    assert(lex_lt(id@, tweets@[j as int].id_str@));
                    lemma_lex_lt_transitive(id@, tweets@[j as int].id_str@, tweets@[w].id_str@);
                    lemma_lex_lt_asymmetric(id@, tweets@[w].id_str@);
                    assert(false);
                }
            }
        }
    }
    j
}

/// Add records to the store, returning how many were added.
///
/// Ignores records whose id is already present.  Every new record starts
/// with both lifecycle flags false.
pub fn add_tweets(conn: &mut Db, tweets: Vec<Tweet>) -> (added: usize)
    requires
        old(conn).wf(),
        forall|k: int|
            0 <= k < tweets@.len() ==> !(#[trigger] tweets@[k]).deleted && !tweets@[k].checked,
    ensures
        final(conn).wf(),
        final(conn).tweets@ == spec_add_tweets(old(conn).tweets@, tweets@),
        final(conn).accounts@ == old(conn).accounts@,
        added == final(conn).tweets@.len() - old(conn).tweets@.len(),
        forall|i: int|
            0 <= i < old(conn).tweets@.len() ==> final(conn).tweets@.contains(
                #[trigger] old(conn).tweets@[i],
            ),
{
    let ghost s0 = conn.tweets@;
    let ghost batch = tweets@;
    let before = conn.tweets.len();
    let mut rest = tweets;
    let ghost mut k: int = 0;
    proof {
        assert(batch.take(0) =~= Seq::<Tweet>::empty());
        assert(batch.skip(0) =~= batch);
    }
    while rest.len() > 0
        invariant
            0 <= k <= batch.len(),
            rest@ == batch.skip(k),
            conn.wf(),
            conn.tweets@ == spec_add_tweets(s0, batch.take(k)),
            conn.tweets@.len() >= s0.len(),
            conn.accounts@ == old(conn).accounts@,
            forall|i: int| 0 <= i < s0.len() ==> conn.tweets@.contains(#[trigger] s0[i]),
            forall|kk: int|
                0 <= kk < batch.len() ==> !(#[trigger] batch[kk]).deleted && !batch[kk].checked,
        decreases rest@.len(),
    {
        let ghost cur = conn.tweets@;
        proof {
            assert(rest@.len() == batch.len() - k);
            assert(k < batch.len());
        }
        let t = rest.remove(0);
        proof {
            assert(t == batch[k]);
            assert(batch.skip(k).remove(0) =~= batch.skip(k + 1));
            assert(batch.take(k + 1) =~= batch.take(k).push(batch[k]));
            lemma_add_tweets_push(s0, batch.take(k), batch[k]);
        }
        let j = find_tweet_pos(&conn.tweets, &t.id_str);
        if j < conn.tweets.len() && bytes_eq(conn.tweets[j].id_str.as_slice(), t.id_str.as_slice())
        {
            proof {
                assert(contains_id(cur, t.id_str@));
                assert(spec_add_one(cur, batch[k]) == cur);
            }
        } else {
            proof {
                assert(!contains_id(cur, t.id_str@));
                lemma_add_one_wf(cur, batch[k], j as int);
                cur.insert_ensures(j as int, batch[k]);
            }
            conn.tweets.insert(j, t);
            proof {
                assert(conn.tweets@ == spec_add_one(cur, batch[k]));
                assert forall|i: int| 0 <= i < s0.len() implies conn.tweets@.contains(
                    #[trigger] s0[i],
                ) by {
                    assert(cur.contains(s0[i]));
                    let w = choose|m: int| 0 <= m < cur.len() && cur[m] == s0[i];
                    if w < j {
                        assert(conn.tweets@[w] == cur[w]);
                    } else {
                        assert(conn.tweets@[w + 1] == cur[w]);
                    }
                }
            }
        }
        proof {
            k = k + 1;
        }
    }
    proof {
        assert(batch.take(k) =~= batch);
    }
    conn.tweets.len() - before
}

/// How many records the store holds.
pub fn count_tweets(conn: &Db) -> (n: usize)
    ensures
        n == conn.tweets@.len(),
{
    conn.tweets.len()
}

/// How many accounts the store holds.
pub fn count_accounts(conn: &Db) -> (n: usize)
    ensures
        n == conn.accounts@.len(),
{
    conn.accounts.len()
}


/// Irreflexivity of the strict id order.
proof fn lemma_lex_lt_irreflexive(a: Seq<u8>)
    ensures
        !lex_lt(a, a),
{
    lemma_lex_lt_asymmetric(a, a);
}

/// In a well-formed store, distinct positions hold distinct ids.
proof fn lemma_wf_ids_distinct(s: Seq<Tweet>, i: int, j: int)
    requires
        tweets_wf(s),
        0 <= i < s.len(),
        0 <= j < s.len(),
        i != j,
    ensures
        s[i].id_str@ != s[j].id_str@,
{
    if i < j {
        assert(lex_lt(s[i].id_str@, s[j].id_str@));
    } else {
        assert(lex_lt(s[j].id_str@, s[i].id_str@));
    }
    lemma_lex_lt_irreflexive(s[i].id_str@);
}

/// A record after one marking: `checked` is always set; `deleted` too when
/// the marking is a deletion.
pub open spec fn marked(t: Tweet, del: bool) -> Tweet {
    if del {
        Tweet { deleted: true, checked: true, ..t }
    } else {
        Tweet { checked: true, ..t }
    }
}

/// Every record whose id is listed, marked; the others untouched.
pub open spec fn mark_all(s: Seq<Tweet>, ids: Seq<Vec<u8>>, del: bool) -> Seq<Tweet> {
    Seq::new(
        s.len(),
        |i: int|
            if id_in(ids, s[i].id_str@) {
                marked(s[i], del)
            } else {
                s[i]
            },
    )
}

/// How many of the listed ids are present in the store, counting repeats.
pub open spec fn count_present(ids: Seq<Vec<u8>>, s: Seq<Tweet>) -> nat
    decreases ids.len(),
{
    if ids.len() == 0 {
        0
    } else {
        count_present(ids.drop_last(), s) + if contains_id(s, ids.last()@) {
            1nat
        } else {
            0nat
        }
    }
}

/// Mark every listed record, returning how many ids were found.
fn mark_records(conn: &mut Db, ids: &Vec<Vec<u8>>, del: bool) -> (n: usize)
    requires
        old(conn).wf(),
    ensures
        final(conn).wf(),
        final(conn).tweets@ == mark_all(old(conn).tweets@, ids@, del),
        final(conn).accounts@ == old(conn).accounts@,
        n == count_present(ids@, old(conn).tweets@),
{
    let ghost s0 = conn.tweets@;
    let mut n: usize = 0;
    let mut k: usize = 0;
    proof {
        assert(ids@.take(0) =~= Seq::<Vec<u8>>::empty());
        assert(conn.tweets@ =~= mark_all(s0, ids@.take(0), del));
    }
    while k < ids.len()
        invariant
            old(conn).wf(),
            k <= ids@.len(),
            n <= k,
            conn.wf(),
            conn.tweets@ == mark_all(s0, ids@.take(k as int), del),
            s0 == old(conn).tweets@,
            conn.accounts@ == old(conn).accounts@,
            n == count_present(ids@.take(k as int), s0),
        decreases ids@.len() - k,
    {
        let ghost cur = conn.tweets@;
        proof {
            assert(cur.len() == s0.len());
            assert forall|i: int| 0 <= i < s0.len() implies (#[trigger] cur[i]).id_str@
                == s0[i].id_str@ by {
                assert(cur[i] == mark_all(s0, ids@.take(k as int), del)[i]);
            }
            assert(ids@.take(k + 1).drop_last() =~= ids@.take(k as int));
            assert(ids@.take(k + 1).last() == ids@[k as int]);
        }
        let id = &ids[k];
        let j = find_tweet_pos(&conn.tweets, id);
        if j < conn.tweets.len() && bytes_eq(conn.tweets[j].id_str.as_slice(), id.as_slice()) {
            proof {
                assert(contains_id(cur, id@));
                assert(contains_id(s0, id@)) by {
                    assert(s0[j as int].id_str@ == cur[j as int].id_str@);
                }
            }
            let mut t = conn.tweets.remove(j);
            if del {
                t.deleted = true;
            }
            t.checked = true;
            conn.tweets.insert(j, t);
            n = n + 1;
            proof {
                assert(t == marked(cur[j as int], del));
                assert(conn.tweets@ =~= cur.update(j as int, marked(cur[j as int], del)));
                assert forall|i: int| 0 <= i < s0.len() implies conn.tweets@[i] == mark_all(
                    s0,
                    ids@.take(k + 1),
                    del,
                )[i] by {
                    if i == j {
                        assert(id_in(ids@.take(k + 1), s0[i].id_str@)) by {
                            assert(ids@.take(k + 1)[k as int]@ == s0[i].id_str@);
                        }
                        assert(conn.tweets@[i] == marked(cur[i], del));
                        if id_in(ids@.take(k as int), s0[i].id_str@) {
                            assert(cur[i] == marked(s0[i], del));
                            assert(marked(marked(s0[i], del), del) == marked(s0[i], del));
                        } else {
                            assert(cur[i] == s0[i]);
                        }
                    } else {
                        lemma_wf_ids_distinct(s0, i, j as int);
                        assert(s0[i].id_str@ != id@);
                        assert(id_in(ids@.take(k + 1), s0[i].id_str@) == id_in(
                            ids@.take(k as int),
                            s0[i].id_str@,
                        )) by {
                            if id_in(ids@.take(k + 1), s0[i].id_str@) {
                                let w = choose|m: int|
                                    0 <= m < ids@.take(k + 1).len() && (#[trigger] ids@.take(
                                        k + 1,
                                    )[m]@) == s0[i].id_str@;
                                assert(w < k);
                                assert(ids@.take(k as int)[w]@ == s0[i].id_str@);
                            }
                            if id_in(ids@.take(k as int), s0[i].id_str@) {
                                let w = choose|m: int|
                                    0 <= m < ids@.take(k as int).len() && (#[trigger] ids@.take(
                                        k as int,
                                    )[m]@) == s0[i].id_str@;
                                assert(ids@.take(k + 1)[w]@ == s0[i].id_str@);
                            }
                        }
                        assert(conn.tweets@[i] == cur[i]);
                    }
                }
                assert(conn.tweets@ =~= mark_all(s0, ids@.take(k + 1), del));
                assert(tweets_wf(conn.tweets@)) by {
                    assert forall|a: int, b: int| 0 <= a < b < conn.tweets@.len() implies
                        #[trigger] lex_lt(
                        conn.tweets@[a].id_str@,
                        conn.tweets@[b].id_str@,
                    ) by {
                        assert(conn.tweets@[a].id_str@ == cur[a].id_str@);
                        assert(conn.tweets@[b].id_str@ == cur[b].id_str@);
                    }
                }
            }
        } else {
            proof {
                assert(!contains_id(cur, id@));
                assert(!contains_id(s0, id@)) by {
                    if contains_id(s0, id@) {
                        let w = choose|i: int|
                            0 <= i < s0.len() && (#[trigger] s0[i].id_str@) == id@;
                        assert(cur[w].id_str@ == id@);
                    }
                }
                assert forall|i: int| 0 <= i < s0.len() implies cur[i] == mark_all(
                    s0,
                    ids@.take(k + 1),
                    del,
                )[i] by {
                    assert(s0[i].id_str@ != id@);
                    assert(id_in(ids@.take(k + 1), s0[i].id_str@) == id_in(
                        ids@.take(k as int),
                        s0[i].id_str@,
                    )) by {
                        if id_in(ids@.take(k + 1), s0[i].id_str@) {
                            let w = choose|m: int|
                                0 <= m < ids@.take(k + 1).len() && (#[trigger] ids@.take(
                                    k + 1,
                                )[m]@) == s0[i].id_str@;
                            assert(w < k);
                            assert(ids@.take(k as int)[w]@ == s0[i].id_str@);
                        }
                        if id_in(ids@.take(k as int), s0[i].id_str@) {
                            let w = choose|m: int|
                                0 <= m < ids@.take(k as int).len() && (#[trigger] ids@.take(
                                    k as int,
                                )[m]@) == s0[i].id_str@;
                            assert(ids@.take(k + 1)[w]@ == s0[i].id_str@);
                        }
                    }
                }
                assert(cur =~= mark_all(s0, ids@.take(k + 1), del));
            }
        }
        k = k + 1;
    }
    proof {
        assert(ids@.take(ids@.len() as int) =~= ids@);
    }
    n
}

/// Mark the listed records as checked, returning how many ids were found.
///
/// Marking an already-checked record is a no-op that still counts.
pub fn checked(conn: &mut Db, ids: &Vec<Vec<u8>>) -> (n: usize)
    requires
        old(conn).wf(),
    ensures
        final(conn).wf(),
        final(conn).tweets@ == mark_all(old(conn).tweets@, ids@, false),
        final(conn).accounts@ == old(conn).accounts@,
        n == count_present(ids@, old(conn).tweets@),
{
    mark_records(conn, ids, false)
}

/// Mark the listed records as deleted (and hence checked), returning how
/// many ids were found.
///
/// Marking an already-deleted record is a no-op that still counts.
pub fn deleted(conn: &mut Db, ids: &Vec<Vec<u8>>) -> (n: usize)
    requires
        old(conn).wf(),
    ensures
        final(conn).wf(),
        final(conn).tweets@ == mark_all(old(conn).tweets@, ids@, true),
        final(conn).accounts@ == old(conn).accounts@,
        n == count_present(ids@, old(conn).tweets@),
{
    mark_records(conn, ids, true)
}

/// Whether a record still awaits its first remote lookup: not deleted and
/// not checked.
pub open spec fn existing(t: Tweet) -> bool {
    !t.deleted && !t.checked
}

/// Whether a record was created strictly before `utc` (Unix seconds).
pub open spec fn created_before(t: Tweet, utc: int) -> bool {
    t.created_at < utc
}

/// Whether a record may be deleted under the given retention criteria.
pub open spec fn deletable(
    t: Tweet,
    cutoff: int,
    excl: Seq<Vec<u8>>,
    max_likes: int,
    max_retweets: int,
) -> bool {
    &&& !t.deleted
    &&& t.created_at < cutoff
    &&& !id_in(excl, t.id_str@)
    &&& t.likes <= max_likes
    &&& t.retweets <= max_retweets
}

/// The ids of the records matching [`existing`], in store order.
pub open spec fn unchecked_ids(s: Seq<Tweet>) -> Seq<Seq<u8>>
    decreases s.len(),
{
    if s.len() == 0 {
        Seq::empty()
    } else {
        unchecked_ids(s.drop_last()) + if existing(s.last()) {
            seq![s.last().id_str@]
        } else {
            Seq::empty()
        }
    }
}

/// The ids of the records matching [`deletable`], in store order.
pub open spec fn deletable_ids(
    s: Seq<Tweet>,
    cutoff: int,
    excl: Seq<Vec<u8>>,
    max_likes: int,
    max_retweets: int,
) -> Seq<Seq<u8>>
    decreases s.len(),
{
    if s.len() == 0 {
        Seq::empty()
    } else {
        deletable_ids(s.drop_last(), cutoff, excl, max_likes, max_retweets) + if deletable(
            s.last(),
            cutoff,
            excl,
            max_likes,
            max_retweets,
        ) {
            seq![s.last().id_str@]
        } else {
            Seq::empty()
        }
    }
}

/// Whether `id` occurs in the id list `ids`.
fn id_present(ids: &Vec<Vec<u8>>, id: &Vec<u8>) -> (r: bool)
    ensures
        r == id_in(ids@, id@),
{
    let mut k: usize = 0;
    while k < ids.len()
        invariant
            k <= ids@.len(),
            forall|m: int| 0 <= m < k ==> (#[trigger] ids@[m]@) != id@,
        decreases ids@.len() - k,
    {
        if bytes_eq(ids[k].as_slice(), id.as_slice()) {
            return true;
        }
        k = k + 1;
    }
    false
}

/// The ids of the records not yet checked (nor deleted), ascending by id.
pub fn select_unchecked(conn: &Db) -> (r: Vec<Vec<u8>>)
    ensures
        crate::bytestr::seq_views(r@) == unchecked_ids(conn.tweets@),
{
    let mut out: Vec<Vec<u8>> = Vec::new();
    let mut i: usize = 0;
    proof {
        assert(conn.tweets@.take(0) =~= Seq::<Tweet>::empty());
        assert(crate::bytestr::seq_views(out@) =~= unchecked_ids(conn.tweets@.take(0)));
    }
    while i < conn.tweets.len()
        invariant
            i <= conn.tweets@.len(),
            crate::bytestr::seq_views(out@) == unchecked_ids(conn.tweets@.take(i as int)),
        decreases conn.tweets@.len() - i,
    {
        let ghost out_before = out@;
        proof {
            assert(conn.tweets@.take(i + 1).drop_last() =~= conn.tweets@.take(i as int));
            assert(conn.tweets@.take(i + 1).last() == conn.tweets@[i as int]);
        }
        let t = &conn.tweets[i];
        if !t.deleted && !t.checked {
            out.push(vstd::slice::slice_to_vec(t.id_str.as_slice()));
            proof {
                assert(crate::bytestr::seq_views(out@) =~= crate::bytestr::seq_views(
                    out_before,
                ).push(conn.tweets@[i as int].id_str@));
                assert(crate::bytestr::seq_views(out@) =~= unchecked_ids(
                    conn.tweets@.take(i + 1),
                ));
            }
        } else {
            proof {
                assert(crate::bytestr::seq_views(out@) =~= unchecked_ids(
                    conn.tweets@.take(i + 1),
                ));
            }
        }
        i = i + 1;
    }
    proof {
        assert(conn.tweets@.take(conn.tweets@.len() as int) =~= conn.tweets@);
    }
    out
}

/// The ids of the records deletable under the given criteria, ascending by
/// id: not deleted, created before `cutoff`, not excluded, and with both
/// engagement counters at or below their thresholds.
pub fn select_deletable(
    conn: &Db,
    cutoff: i64,
    exclude: &Vec<Vec<u8>>,
    max_likes: i32,
    max_retweets: i32,
) -> (r: Vec<Vec<u8>>)
    ensures
        crate::bytestr::seq_views(r@) == deletable_ids(
            conn.tweets@,
            cutoff as int,
            exclude@,
            max_likes as int,
            max_retweets as int,
        ),
{
    let ghost excl = exclude@;
    let mut out: Vec<Vec<u8>> = Vec::new();
    let mut i: usize = 0;
    proof {
        assert(conn.tweets@.take(0) =~= Seq::<Tweet>::empty());
        assert(crate::bytestr::seq_views(out@) =~= deletable_ids(
            conn.tweets@.take(0),
            cutoff as int,
            excl,
            max_likes as int,
            max_retweets as int,
        ));
    }
    while i < conn.tweets.len()
        invariant
            i <= conn.tweets@.len(),
            excl == exclude@,
            crate::bytestr::seq_views(out@) == deletable_ids(
                conn.tweets@.take(i as int),
                cutoff as int,
                excl,
                max_likes as int,
                max_retweets as int,
            ),
        decreases conn.tweets@.len() - i,
    {
        let ghost out_before = out@;
        proof {
            assert(conn.tweets@.take(i + 1).drop_last() =~= conn.tweets@.take(i as int));
            assert(conn.tweets@.take(i + 1).last() == conn.tweets@[i as int]);
        }
        let excluded = id_present(exclude, &conn.tweets[i].id_str);
        let t = &conn.tweets[i];
        if !t.deleted && t.created_at < cutoff && !excluded && t.likes <= max_likes && t.retweets
            <= max_retweets {
            out.push(vstd::slice::slice_to_vec(t.id_str.as_slice()));
            proof {
                assert(crate::bytestr::seq_views(out@) =~= crate::bytestr::seq_views(
                    out_before,
                ).push(conn.tweets@[i as int].id_str@));
                assert(crate::bytestr::seq_views(out@) =~= deletable_ids(
                    conn.tweets@.take(i + 1),
                    cutoff as int,
                    excl,
                    max_likes as int,
                    max_retweets as int,
                ));
            }
        } else {
            proof {
                assert(crate::bytestr::seq_views(out@) =~= deletable_ids(
                    conn.tweets@.take(i + 1),
                    cutoff as int,
                    excl,
                    max_likes as int,
                    max_retweets as int,
                ));
            }
        }
        i = i + 1;
    }
    proof {
        assert(conn.tweets@.take(conn.tweets@.len() as int) =~= conn.tweets@);
    }
    out
}

/// Whether some account in `s` has the id `id`.
pub open spec fn contains_account(s: Seq<Account>, id: Seq<u8>) -> bool {
    exists|i: int| 0 <= i < s.len() && (#[trigger] s[i].id_str@) == id
}

/// A batch of accounts appended in order, duplicates by id ignored.
pub open spec fn spec_add_accounts(s: Seq<Account>, batch: Seq<Account>) -> Seq<Account>
    decreases batch.len(),
{
    if batch.len() == 0 {
        s
    } else {
        spec_add_accounts(
            if contains_account(s, batch[0].id_str@) {
                s
            } else {
                s.push(batch[0])
            },
            batch.drop_first(),
        )
    }
}

/// Add accounts to the store, ignoring ids already present; returns how many
/// were added.
pub fn add_account(conn: &mut Db, accounts: Vec<Account>) -> (added: usize)
    requires
        old(conn).wf(),
    ensures
        final(conn).wf(),
        final(conn).accounts@ == spec_add_accounts(old(conn).accounts@, accounts@),
        final(conn).tweets@ == old(conn).tweets@,
        added == final(conn).accounts@.len() - old(conn).accounts@.len(),
{
    let ghost a0 = conn.accounts@;
    let ghost batch = accounts@;
    let before = conn.accounts.len();
    let mut rest = accounts;
    let ghost mut k: int = 0;
    proof {
        assert(batch.take(0) =~= Seq::<Account>::empty());
        assert(batch.skip(0) =~= batch);
    }
    while rest.len() > 0
        invariant
            0 <= k <= batch.len(),
            rest@ == batch.skip(k),
            conn.wf(),
            conn.accounts@ == spec_add_accounts(a0, batch.take(k)),
            conn.accounts@.len() >= a0.len(),
            conn.tweets@ == old(conn).tweets@,
        decreases rest@.len(),
    {
        let ghost cur = conn.accounts@;
        proof {
            assert(rest@.len() == batch.len() - k);
            assert(k < batch.len());
        }
        let a = rest.remove(0);
        proof {
            assert(a == batch[k]);
            assert(batch.skip(k).remove(0) =~= batch.skip(k + 1));
            assert(batch.take(k + 1) =~= batch.take(k).push(batch[k]));
            lemma_add_accounts_push(a0, batch.take(k), batch[k]);
        }
        let mut found = false;
        let mut m: usize = 0;
        while m < conn.accounts.len()
            invariant
                m <= conn.accounts@.len(),
                found <==> exists|w: int|
                    0 <= w < m && (#[trigger] conn.accounts@[w].id_str@) == a.id_str@,
            decreases conn.accounts@.len() - m,
        {
            if bytes_eq(conn.accounts[m].id_str.as_slice(), a.id_str.as_slice()) {
                found = true;
                proof {
                    assert(conn.accounts@[m as int].id_str@ == a.id_str@);
                }
            }
            m = m + 1;
        }
        if !found {
            proof {
                assert(!contains_account(cur, a.id_str@));
            }
            conn.accounts.push(a);
            proof {
                assert forall|i: int, j: int| 0 <= i < j < conn.accounts@.len() implies (
                #[trigger] conn.accounts@[i].id_str@) != (#[trigger] conn.accounts@[j].id_str@) by {
                    if j < cur.len() {
                        assert(conn.accounts@[i] == cur[i]);
                        assert(conn.accounts@[j] == cur[j]);
                    } else {
                        assert(conn.accounts@[i] == cur[i]);
                        assert(conn.accounts@[j] == a);
                        if cur[i].id_str@ == a.id_str@ {
                            assert(contains_account(cur, a.id_str@));
                        }
                    }
                }
            }
        } else {
            proof {
                assert(contains_account(cur, a.id_str@));
            }
        }
        proof {
            let step = if contains_account(cur, batch[k].id_str@) {
                cur
            } else {
                cur.push(batch[k])
            };
            assert(spec_add_accounts(step, Seq::<Account>::empty()) == step);
            assert(seq![batch[k]].drop_first() =~= Seq::<Account>::empty());
            assert(seq![batch[k]][0] == batch[k]);
            assert(seq![batch[k]].len() == 1);
            assert(conn.accounts@ == step);
            assert(spec_add_accounts(cur, seq![batch[k]]) == spec_add_accounts(
                step,
                seq![batch[k]].drop_first(),
            ));
            k = k + 1;
        }
    }
    proof {
        assert(batch.take(k) =~= batch);
    }
    conn.accounts.len() - before
}

proof fn lemma_add_accounts_push(s: Seq<Account>, batch: Seq<Account>, a: Account)
    ensures
        spec_add_accounts(s, batch.push(a)) == spec_add_accounts(
            spec_add_accounts(s, batch),
            seq![a],
        ),
    decreases batch.len(),
{
    if batch.len() == 0 {
        assert(batch.push(a)[0] == a);
        assert(batch.push(a).drop_first() =~= Seq::<Account>::empty());
        assert(seq![a].drop_first() =~= Seq::<Account>::empty());
        assert(seq![a][0] == a);
    } else {
        assert(batch.push(a)[0] == batch[0]);
        assert(batch.push(a).drop_first() =~= batch.drop_first().push(a));
        let s1 = if contains_account(s, batch[0].id_str@) { s } else { s.push(batch[0]) };
        lemma_add_accounts_push(s1, batch.drop_first(), a);
    }
}


proof fn lemma_add_one_preserves_contains(s: Seq<Tweet>, t: Tweet, id: Seq<u8>)
    requires
        contains_id(s, id),
    ensures
        contains_id(spec_add_one(s, t), id),
{
    if !contains_id(s, t.id_str@) {
        let p = insert_pos(s, t.id_str@);
        lemma_insert_pos_range(s, t.id_str@);
        s.insert_ensures(p, t);
        let w = choose|i: int| 0 <= i < s.len() && (#[trigger] s[i].id_str@) == id;
        if w < p {
            assert(spec_add_one(s, t)[w].id_str@ == id);
        } else {
            assert(spec_add_one(s, t)[w + 1].id_str@ == id);
        }
    }
}

proof fn lemma_add_one_contains_self(s: Seq<Tweet>, t: Tweet)
    ensures
        contains_id(spec_add_one(s, t), t.id_str@),
{
    if !contains_id(s, t.id_str@) {
        let p = insert_pos(s, t.id_str@);
        lemma_insert_pos_range(s, t.id_str@);
        s.insert_ensures(p, t);
        assert(spec_add_one(s, t)[p].id_str@ == t.id_str@);
    }
}

proof fn lemma_add_tweets_preserves_contains(s: Seq<Tweet>, batch: Seq<Tweet>, id: Seq<u8>)
    requires
        contains_id(s, id),
    ensures
        contains_id(spec_add_tweets(s, batch), id),
    decreases batch.len(),
{
    if batch.len() > 0 {
        lemma_add_one_preserves_contains(s, batch[0], id);
        lemma_add_tweets_preserves_contains(spec_add_one(s, batch[0]), batch.drop_first(), id);
    }
}

proof fn lemma_add_tweets_all_present(s: Seq<Tweet>, batch: Seq<Tweet>)
    ensures
        forall|k: int|
            0 <= k < batch.len() ==> contains_id(
                spec_add_tweets(s, batch),
                (#[trigger] batch[k]).id_str@,
            ),
    decreases batch.len(),
{
    if batch.len() > 0 {
        let s1 = spec_add_one(s, batch[0]);
        lemma_add_one_contains_self(s, batch[0]);
        lemma_add_tweets_preserves_contains(s1, batch.drop_first(), batch[0].id_str@);
        lemma_add_tweets_all_present(s1, batch.drop_first());
        assert forall|k: int| 0 <= k < batch.len() implies contains_id(
            spec_add_tweets(s, batch),
            (#[trigger] batch[k]).id_str@,
        ) by {
            if k > 0 {
                assert(batch.drop_first()[k - 1] == batch[k]);
            }
        }
    }
}

proof fn lemma_add_tweets_noop(s: Seq<Tweet>, batch: Seq<Tweet>)
    requires
        forall|k: int|
            0 <= k < batch.len() ==> contains_id(s, (#[trigger] batch[k]).id_str@),
    ensures
        spec_add_tweets(s, batch) == s,
    decreases batch.len(),
{
    if batch.len() > 0 {
        assert(contains_id(s, batch[0].id_str@));
        assert(spec_add_one(s, batch[0]) == s);
        assert forall|k: int| 0 <= k < batch.drop_first().len() implies contains_id(
            s,
            (#[trigger] batch.drop_first()[k]).id_str@,
        ) by {
            assert(batch.drop_first()[k] == batch[k + 1]);
        }
        lemma_add_tweets_noop(s, batch.drop_first());
    }
}

/// Importing the same batch twice leaves the store exactly as one import
/// does: every id of the batch is already present after the first pass, so
/// the second pass adds nothing.
pub proof fn lemma_import_idempotent(s: Seq<Tweet>, batch: Seq<Tweet>)
    ensures
        spec_add_tweets(spec_add_tweets(s, batch), batch) == spec_add_tweets(s, batch),
{
    lemma_add_tweets_all_present(s, batch);
    lemma_add_tweets_noop(spec_add_tweets(s, batch), batch);
}

/// In every well-formed store, a record marked deleted is marked checked:
/// an item is never known-deleted before it was checked.
pub proof fn lemma_checked_precedes_deleted(conn: Db)
    requires
        conn.wf(),
    ensures
        forall|i: int|
            0 <= i < conn.tweets@.len() ==> ((#[trigger] conn.tweets@[i]).deleted
                ==> conn.tweets@[i].checked),
{
}

/// Marking never clears a flag: a record once deleted stays deleted, and a
/// record once checked stays checked, through any [`checked`] or [`deleted`]
/// call.
pub proof fn lemma_mark_monotonic(s: Seq<Tweet>, ids: Seq<Vec<u8>>, del: bool)
    ensures
        forall|i: int|
            0 <= i < s.len() ==> ((#[trigger] s[i]).deleted ==> mark_all(s, ids, del)[i].deleted),
        forall|i: int|
            0 <= i < s.len() ==> ((#[trigger] s[i]).checked ==> mark_all(s, ids, del)[i].checked),
{
}

/// Adding records never touches the ones already there: every old record is
/// still in the store, unchanged, after an [`add_tweets`] call.
pub proof fn lemma_add_preserves_records(s: Seq<Tweet>, batch: Seq<Tweet>)
    ensures
        forall|i: int|
            0 <= i < s.len() ==> spec_add_tweets(s, batch).contains(#[trigger] s[i]),
    decreases batch.len(),
{
    if batch.len() > 0 {
        let s1 = spec_add_one(s, batch[0]);
        assert forall|i: int| 0 <= i < s.len() implies s1.contains(#[trigger] s[i]) by {
            if !contains_id(s, batch[0].id_str@) {
                let p = insert_pos(s, batch[0].id_str@);
                lemma_insert_pos_range(s, batch[0].id_str@);
                s.insert_ensures(p, batch[0]);
                if i < p {
                    assert(s1[i] == s[i]);
                } else {
                    assert(s1[i + 1] == s[i]);
                }
            }
        }
        lemma_add_preserves_records(s1, batch.drop_first());
        assert forall|i: int| 0 <= i < s.len() implies spec_add_tweets(s, batch).contains(
            #[trigger] s[i],
        ) by {
            assert(s1.contains(s[i]));
            let w = choose|m: int| 0 <= m < s1.len() && s1[m] == s[i];
            assert(spec_add_tweets(s1, batch.drop_first()).contains(s1[w]));
        }
    }
}


/// Marking depends only on the listed ids' bytes, not on which buffers
/// hold them.
pub proof fn lemma_mark_all_views(s: Seq<Tweet>, ids1: Seq<Vec<u8>>, ids2: Seq<Vec<u8>>, del: bool)
    requires
        crate::bytestr::seq_views(ids1) == crate::bytestr::seq_views(ids2),
    ensures
        mark_all(s, ids1, del) == mark_all(s, ids2, del),
{
    assert(ids1.len() == ids2.len()) by {
        assert(crate::bytestr::seq_views(ids1).len() == ids1.len());
        assert(crate::bytestr::seq_views(ids2).len() == ids2.len());
    }
    assert forall|x: Seq<u8>| #[trigger] id_in(ids1, x) == id_in(ids2, x) by {
        if id_in(ids1, x) {
            let k = choose|k: int| 0 <= k < ids1.len() && (#[trigger] ids1[k]@) == x;
            assert(crate::bytestr::seq_views(ids1)[k] == ids1[k]@);
            assert(crate::bytestr::seq_views(ids2)[k] == ids2[k]@);
            assert(ids2[k]@ == x);
        }
        if id_in(ids2, x) {
            let k = choose|k: int| 0 <= k < ids2.len() && (#[trigger] ids2[k]@) == x;
            assert(crate::bytestr::seq_views(ids1)[k] == ids1[k]@);
            assert(crate::bytestr::seq_views(ids2)[k] == ids2[k]@);
            assert(ids1[k]@ == x);
        }
    }
    assert(mark_all(s, ids1, del) =~= mark_all(s, ids2, del));
}

/// The found-id count depends only on the listed ids' bytes.
pub proof fn lemma_count_present_views(ids1: Seq<Vec<u8>>, ids2: Seq<Vec<u8>>, s: Seq<Tweet>)
    requires
        crate::bytestr::seq_views(ids1) == crate::bytestr::seq_views(ids2),
    ensures
        count_present(ids1, s) == count_present(ids2, s),
    decreases ids1.len(),
{
    assert(ids1.len() == ids2.len()) by {
        assert(crate::bytestr::seq_views(ids1).len() == ids1.len());
        assert(crate::bytestr::seq_views(ids2).len() == ids2.len());
    }
    if ids1.len() > 0 {
        assert(crate::bytestr::seq_views(ids1.drop_last()) =~= crate::bytestr::seq_views(
            ids2.drop_last(),
        )) by {
            assert forall|m: int|
                0 <= m < ids1.len() - 1 implies (#[trigger] ids1.drop_last()[m]@)
                == ids2.drop_last()[m]@ by {
                assert(crate::bytestr::seq_views(ids1)[m] == ids1[m]@);
                assert(crate::bytestr::seq_views(ids2)[m] == ids2[m]@);
            }
        }
        lemma_count_present_views(ids1.drop_last(), ids2.drop_last(), s);
        assert(crate::bytestr::seq_views(ids1)[ids1.len() - 1] == ids1.last()@);
        assert(crate::bytestr::seq_views(ids2)[ids2.len() - 1] == ids2.last()@);
        assert(ids1.last()@ == ids2.last()@);
    }
}


/// Per-account statistics: how many records the account owns, how many of
/// them are marked deleted, and how many are marked checked.
pub open spec fn spec_account_counts(s: Seq<Tweet>, acct: Seq<u8>) -> (int, int, int)
    decreases s.len(),
{
    if s.len() == 0 {
        (0int, 0int, 0int)
    } else {
        let rest = spec_account_counts(s.drop_last(), acct);
        if s.last().account_id@ == acct {
            (
                rest.0 + 1,
                rest.1 + if s.last().deleted {
                    1int
                } else {
                    0int
                },
                rest.2 + if s.last().checked {
                    1int
                } else {
                    0int
                },
            )
        } else {
            rest
        }
    }
}

/// Count the records owned by `account_id`: in all, marked deleted, and
/// marked checked.
pub fn count_account_tweets(conn: &Db, account_id: &Vec<u8>) -> (r: (usize, usize, usize))
    ensures
        (r.0 as int, r.1 as int, r.2 as int) == spec_account_counts(conn.tweets@, account_id@),
{
    let mut total: usize = 0;
    let mut gone: usize = 0;
    let mut seen: usize = 0;
    let mut i: usize = 0;
    proof {
        assert(conn.tweets@.take(0) =~= Seq::<Tweet>::empty());
    }
    while i < conn.tweets.len()
        invariant
            i <= conn.tweets@.len(),
            total <= i,
            gone <= i,
            seen <= i,
            (total as int, gone as int, seen as int) == spec_account_counts(
                conn.tweets@.take(i as int),
                account_id@,
            ),
        decreases conn.tweets@.len() - i,
    {
        proof {
            assert(conn.tweets@.take(i + 1).drop_last() =~= conn.tweets@.take(i as int));
            assert(conn.tweets@.take(i + 1).last() == conn.tweets@[i as int]);
        }
        let t = &conn.tweets[i];
        if bytes_eq(t.account_id.as_slice(), account_id.as_slice()) {
            total = total + 1;
            if t.deleted {
                gone = gone + 1;
            }
            if t.checked {
                seen = seen + 1;
            }
        }
        i = i + 1;
    }
    proof {
        assert(conn.tweets@.take(conn.tweets@.len() as int) =~= conn.tweets@);
    }
    (total, gone, seen)
}

} // verus!
