//! The record store: idempotent import, lifecycle marking, and ordered
//! selections.

use twitter_delete::db::{
    add_account, add_tweets, checked, count_account_tweets, count_accounts, count_tweets,
    create_db, deleted, select_deletable, select_unchecked, Db,
};
use twitter_delete::models::{Account, Tweet};

fn record(id: &str, created_at: i64, likes: i32, retweets: i32) -> Tweet {
    Tweet::new(
        id.as_bytes().to_vec(),
        retweets,
        likes,
        created_at,
        b"77".to_vec(),
    )
}

fn sample_batch() -> Vec<Tweet> {
    vec![
        record("30", 300, 0, 0),
        record("10", 100, 0, 0),
        record("20", 200, 0, 0),
    ]
}

fn ids(v: &[&str]) -> Vec<Vec<u8>> {
    v.iter().map(|s| s.as_bytes().to_vec()).collect()
}

#[test]
fn importing_twice_adds_nothing_new() {
    let mut conn = create_db();
    let added = add_tweets(&mut conn, sample_batch());
    assert_eq!(added, 3);
    assert_eq!(count_tweets(&conn), 3);
    let again = add_tweets(&mut conn, sample_batch());
    assert_eq!(again, 0);
    assert_eq!(count_tweets(&conn), 3);
}

#[test]
fn duplicate_ids_inside_one_batch_are_ignored() {
    let mut conn = create_db();
    let batch = vec![record("5", 1, 0, 0), record("5", 2, 0, 0)];
    assert_eq!(add_tweets(&mut conn, batch), 1);
    assert_eq!(conn.tweets[0].created_at, 1, "the first occurrence wins");
}

#[test]
fn records_are_kept_sorted_by_id() {
    let mut conn = create_db();
    add_tweets(&mut conn, sample_batch());
    let stored: Vec<&[u8]> = conn.tweets.iter().map(|t| t.id_str.as_slice()).collect();
    assert_eq!(stored, vec![b"10".as_slice(), b"20".as_slice(), b"30".as_slice()]);
}

#[test]
fn marking_checked_counts_rows_touched_even_when_already_marked() {
    let mut conn = create_db();
    add_tweets(&mut conn, sample_batch());
    let n = checked(&mut conn, &ids(&["10", "20", "99"]));
    assert_eq!(n, 2, "the unknown id is not counted");
    let again = checked(&mut conn, &ids(&["10"]));
    assert_eq!(again, 1, "an already-checked row still counts as touched");
    assert!(conn.tweets[0].checked);
    assert!(conn.tweets[1].checked);
    assert!(!conn.tweets[2].checked);
}

#[test]
fn deleted_records_are_always_checked() {
    let mut conn = create_db();
    add_tweets(&mut conn, sample_batch());
    deleted(&mut conn, &ids(&["20"]));
    for t in conn.tweets.iter() {
        if t.deleted {
            assert!(t.checked, "a deleted record must be checked");
        }
    }
    let t = &conn.tweets[1];
    assert!(t.deleted && t.checked);
}

#[test]
fn deleted_flag_is_monotonic_across_operations() {
    let mut conn = create_db();
    add_tweets(&mut conn, sample_batch());
    deleted(&mut conn, &ids(&["10"]));
    assert!(conn.tweets[0].deleted);
    checked(&mut conn, &ids(&["10", "20", "30"]));
    assert!(conn.tweets[0].deleted, "checking must not clear the deleted flag");
    add_tweets(&mut conn, sample_batch());
    assert!(conn.tweets[0].deleted, "re-importing must not clear the deleted flag");
    deleted(&mut conn, &ids(&["10"]));
    assert!(conn.tweets[0].deleted);
}

#[test]
fn select_unchecked_returns_ascending_unchecked_ids() {
    let mut conn = create_db();
    add_tweets(&mut conn, sample_batch());
    checked(&mut conn, &ids(&["20"]));
    let got = select_unchecked(&conn);
    assert_eq!(got, ids(&["10", "30"]));
}

#[test]
fn three_records_one_deletable() {
    // Records created at 100, 200 and 300; the cutoff is 250; thresholds
    // are zero and nothing is excluded.  Only the record created at 200
    // has no engagement, so it alone is deletable.
    let mut conn = create_db();
    add_tweets(
        &mut conn,
        vec![
            record("a100", 100, 5, 0),
            record("a200", 200, 0, 0),
            record("a300", 300, 0, 0),
        ],
    );
    let got = select_deletable(&conn, 250, &Vec::new(), 0, 0);
    assert_eq!(got, ids(&["a200"]));
}

#[test]
fn deletable_selection_respects_every_criterion() {
    let mut conn = create_db();
    add_tweets(
        &mut conn,
        vec![
            record("1", 10, 0, 0),
            record("2", 10, 0, 3),
            record("3", 10, 0, 0),
            record("4", 500, 0, 0),
        ],
    );
    deleted(&mut conn, &ids(&["3"]));

    // Record 2 has too many reposts, 3 is already deleted, 4 is too new.
    assert_eq!(select_deletable(&conn, 100, &Vec::new(), 0, 0), ids(&["1"]));
    // Raising the repost threshold admits record 2.
    assert_eq!(
        select_deletable(&conn, 100, &Vec::new(), 0, 3),
        ids(&["1", "2"])
    );
    // Excluding record 1 leaves only record 2.
    assert_eq!(
        select_deletable(&conn, 100, &ids(&["1"]), 0, 3),
        ids(&["2"])
    );
}

#[test]
fn accounts_are_deduplicated_by_id() {
    let mut conn: Db = create_db();
    let acc = |id: &str| Account {
        id_str: id.as_bytes().to_vec(),
        user_name: b"someone".to_vec(),
        display_name: b"Some One".to_vec(),
    };
    assert_eq!(add_account(&mut conn, vec![acc("1"), acc("2")]), 2);
    assert_eq!(add_account(&mut conn, vec![acc("2"), acc("3")]), 1);
    assert_eq!(count_accounts(&conn), 3);
}

#[test]
fn per_account_counts_follow_the_flags() {
    let mut conn = create_db();
    add_tweets(&mut conn, sample_batch());
    let mut other = record("40", 400, 0, 0);
    other.account_id = b"88".to_vec();
    add_tweets(&mut conn, vec![other]);
    checked(&mut conn, &ids(&["10", "20"]));
    deleted(&mut conn, &ids(&["20"]));

    assert_eq!(count_account_tweets(&conn, &b"77".to_vec()), (3, 1, 2));
    assert_eq!(count_account_tweets(&conn, &b"88".to_vec()), (1, 0, 0));
    assert_eq!(count_account_tweets(&conn, &b"99".to_vec()), (0, 0, 0));
}
