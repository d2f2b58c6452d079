//! Importing archive records and applying lookup responses.

use twitter_delete::db::{count_tweets, create_db};
use twitter_delete::models::Account;
use twitter_delete::twitter::{
    apply_lookup, import_tweets, is_tweet_file, strip_archive_preamble, ImportError, LookupResp,
    LookupTweet, Tweet,
};
use twitter_delete::util::human_dur;

fn raw(id: &str, retweets: &str, likes: &str, created_at: &str) -> Tweet {
    Tweet {
        id_str: id.as_bytes().to_vec(),
        retweets: retweets.as_bytes().to_vec(),
        likes: likes.as_bytes().to_vec(),
        created_at: created_at.as_bytes().to_vec(),
    }
}

fn account(id: &str) -> Account {
    Account {
        id_str: id.as_bytes().to_vec(),
        user_name: b"someone".to_vec(),
        display_name: b"Some One".to_vec(),
    }
}

const GOOD_DATE: &str = "Wed Oct 10 20:19:24 +0000 2018";

fn good_date_unix() -> i64 {
    time::Date::from_calendar_date(2018, time::Month::October, 10)
        .unwrap()
        .with_hms(20, 19, 24)
        .unwrap()
        .assume_utc()
        .unix_timestamp()
}

#[test]
fn import_parses_counters_and_timestamp() {
    let mut conn = create_db();
    let added = import_tweets(
        &mut conn,
        &vec![raw("9000", "3", "14", GOOD_DATE)],
        account("77"),
    )
    .unwrap();
    assert_eq!(added, 1);
    let t = &conn.tweets[0];
    assert_eq!(t.id_str, b"9000".to_vec());
    assert_eq!(t.retweets, 3);
    assert_eq!(t.likes, 14);
    assert_eq!(t.created_at, good_date_unix());
    assert!(!t.deleted);
    assert!(!t.checked);
    assert_eq!(t.account_id, b"77".to_vec());
}

#[test]
fn importing_the_same_archive_twice_keeps_one_copy() {
    let mut conn = create_db();
    let batch = || {
        vec![
            raw("1", "0", "0", GOOD_DATE),
            raw("2", "0", "0", GOOD_DATE),
        ]
    };
    assert_eq!(import_tweets(&mut conn, &batch(), account("77")).unwrap(), 2);
    assert_eq!(import_tweets(&mut conn, &batch(), account("77")).unwrap(), 0);
    assert_eq!(count_tweets(&conn), 2);
}

#[test]
fn malformed_records_fail_fast() {
    let mut conn = create_db();
    assert_eq!(
        import_tweets(
            &mut conn,
            &vec![raw("1", "0", "0", GOOD_DATE), raw("2", "x", "0", GOOD_DATE)],
            account("77"),
        ),
        Err(ImportError::BadCount { index: 1 })
    );
    assert_eq!(count_tweets(&conn), 0, "a failed import leaves the store untouched");

    assert_eq!(
        import_tweets(
            &mut conn,
            &vec![raw("1", "0", "0", "not a date")],
            account("77"),
        ),
        Err(ImportError::BadTimestamp { index: 0 })
    );

    assert_eq!(
        import_tweets(&mut conn, &Vec::new(), account("0")),
        Err(ImportError::BadAccount)
    );
}

#[test]
fn lookup_response_marks_checked_and_absent_deleted() {
    let mut conn = create_db();
    import_tweets(
        &mut conn,
        &vec![
            raw("1", "0", "0", GOOD_DATE),
            raw("2", "0", "0", GOOD_DATE),
            raw("3", "0", "0", GOOD_DATE),
        ],
        account("77"),
    )
    .unwrap();

    let present = LookupTweet {
        id_str: b"1".to_vec(),
        retweet_count: 4,
        like_count: 9,
        created_at: GOOD_DATE.as_bytes().to_vec(),
    };
    let resp = LookupResp {
        id: vec![
            (b"1".to_vec(), Some(present)),
            (b"2".to_vec(), None),
        ],
    };
    let gone = apply_lookup(&mut conn, &resp);
    assert_eq!(gone, 1);

    let t1 = &conn.tweets[0];
    assert!(t1.checked && !t1.deleted, "a present item is checked only");
    let t2 = &conn.tweets[1];
    assert!(t2.checked && t2.deleted, "an absent item is checked and deleted");
    let t3 = &conn.tweets[2];
    assert!(!t3.checked && !t3.deleted, "an unrequested item is untouched");

    for t in conn.tweets.iter() {
        if t.deleted {
            assert!(t.checked);
        }
    }
}

#[test]
fn archive_file_names_and_preambles() {
    assert!(is_tweet_file(&b"tweets.js".to_vec()));
    assert!(is_tweet_file(&b"tweets-part4.js".to_vec()));
    assert!(!is_tweet_file(&b"account.js".to_vec()));
    assert!(!is_tweet_file(&b"twee".to_vec()));

    let data = b"window.YTD.tweets.part0 = [{}]".to_vec();
    assert_eq!(strip_archive_preamble(&data), Some(b" [{}]".to_vec()));
    assert_eq!(strip_archive_preamble(&b"short".to_vec()), None);
}

#[test]
fn durations_render_in_whole_units() {
    assert_eq!(human_dur(52 * 604800), b"1 year".to_vec());
    assert_eq!(human_dur(53 * 604800), b"1 year".to_vec());
    assert_eq!(human_dur(103 * 604800), b"1 year".to_vec());
    assert_eq!(human_dur(104 * 604800), b"2 years".to_vec());
    assert_eq!(human_dur(120 * 604800), b"2 years".to_vec());
    assert_eq!(human_dur(604800), b"1 week".to_vec());
    assert_eq!(human_dur(3 * 604800), b"3 weeks".to_vec());
    assert_eq!(human_dur(86400), b"1 day".to_vec());
    assert_eq!(human_dur(2 * 86400), b"2 days".to_vec());
    assert_eq!(human_dur(7200), b"2 hours".to_vec());
    assert_eq!(human_dur(3660), b"61 minutes".to_vec());
    assert_eq!(human_dur(60), b"1 minute".to_vec());
    assert_eq!(human_dur(59), b"59s".to_vec());
    assert_eq!(human_dur(0), b"0s".to_vec());
}
