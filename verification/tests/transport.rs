//! The rate-limit decisions and the batch planning.

use twitter_delete::batch::{
    classify_delete_response, destroy_url_for, lookup_params, lookup_payloads, DeleteStep,
};
use twitter_delete::sender::{classify_response, RateLimit, SendStep};

#[test]
fn success_returns_immediately() {
    assert_eq!(classify_response(200, None, 1000), SendStep::Done);
    assert_eq!(classify_response(204, None, 1000), SendStep::Done);
}

#[test]
fn rate_limit_with_future_reset_waits_until_it() {
    // A reset time five seconds in the future: one notification with the
    // absolute reset time, a five-second sleep, then one retry.
    let now: i64 = 1_000_000;
    let reset = (now + 5).to_string().into_bytes();
    let step = classify_response(429, Some(&reset), now);
    assert_eq!(
        step,
        SendStep::Limited { limit: RateLimit::Until(1_000_005), wait_secs: 5 }
    );
    // The retried request then succeeds.
    assert_eq!(classify_response(200, None, now + 5), SendStep::Done);
}

#[test]
fn simulated_rate_limited_exchange_notifies_once_and_retries_once() {
    let now: i64 = 50_000;
    let reset = (now + 5).to_string().into_bytes();
    let responses: Vec<(u16, Option<Vec<u8>>)> = vec![(429, Some(reset)), (200, None)];
    let mut notifications = 0;
    let mut attempts = 0;
    let mut done = false;
    for (status, header) in &responses {
        attempts += 1;
        match classify_response(*status, header.as_ref(), now) {
            SendStep::Done => {
                done = true;
                break;
            }
            SendStep::Limited { limit, wait_secs } => {
                notifications += 1;
                assert_eq!(limit, RateLimit::Until(50_005));
                assert_eq!(wait_secs, 5);
            }
            other => panic!("unexpected step {:?}", other),
        }
    }
    assert!(done);
    assert_eq!(notifications, 1, "exactly one rate-limit notification");
    assert_eq!(attempts, 2, "exactly one retry after the rate limit");
}

#[test]
fn rate_limit_fallbacks_cover_missing_past_and_malformed_resets() {
    let now: i64 = 1_000_000;
    assert_eq!(
        classify_response(429, None, now),
        SendStep::Limited { limit: RateLimit::Unknown, wait_secs: 900 }
    );
    let past = (now - 10).to_string().into_bytes();
    assert_eq!(
        classify_response(429, Some(&past), now),
        SendStep::Limited { limit: RateLimit::Until(999_990), wait_secs: 900 }
    );
    let garbage = b"soon".to_vec();
    assert_eq!(
        classify_response(429, Some(&garbage), now),
        SendStep::Limited { limit: RateLimit::Unknown, wait_secs: 900 }
    );
}

#[test]
fn server_errors_back_off_and_client_errors_fail() {
    assert_eq!(
        classify_response(503, None, 0),
        SendStep::Transient { wait_secs: 60 }
    );
    assert_eq!(classify_response(500, None, 0), SendStep::Transient { wait_secs: 60 });
    assert_eq!(classify_response(404, None, 0), SendStep::Failed);
    assert_eq!(classify_response(400, None, 0), SendStep::Failed);
    assert_eq!(classify_response(301, None, 0), SendStep::Retry);
}

#[test]
fn two_hundred_fifty_ids_make_three_batches() {
    let ids: Vec<Vec<u8>> = (0..250u32).map(|n| n.to_string().into_bytes()).collect();
    let payloads = lookup_payloads(&ids);
    assert_eq!(payloads.len(), 3, "exactly three lookup requests");

    let strings: Vec<String> = ids
        .iter()
        .map(|b| String::from_utf8(b.clone()).unwrap())
        .collect();
    let expect = |range: std::ops::Range<usize>| strings[range].join(",").into_bytes();
    assert_eq!(payloads[0], expect(0..100));
    assert_eq!(payloads[1], expect(100..200));
    assert_eq!(payloads[2], expect(200..250));
}

#[test]
fn no_ids_make_no_batches() {
    assert_eq!(lookup_payloads(&Vec::new()).len(), 0);
    let one: Vec<Vec<u8>> = vec![b"42".to_vec()];
    let payloads = lookup_payloads(&one);
    assert_eq!(payloads.len(), 1);
    assert_eq!(payloads[0], b"42".to_vec());
}

#[test]
fn lookup_request_parameters_carry_ids_and_map_flag() {
    let ps = lookup_params(b"1,2,3".to_vec());
    assert_eq!(ps.len(), 2);
    assert_eq!(ps[0], (b"id".to_vec(), b"1,2,3".to_vec()));
    assert_eq!(ps[1], (b"map".to_vec(), b"true".to_vec()));
}

#[test]
fn destroy_url_embeds_the_id() {
    assert_eq!(
        destroy_url_for(&b"123".to_vec()),
        b"https://api.twitter.com/1.1/statuses/destroy/123.json".to_vec()
    );
}

#[test]
fn delete_outcomes_distinguish_forbidden_and_gone() {
    assert_eq!(classify_delete_response(200, None, 0), DeleteStep::Deleted);
    assert_eq!(classify_delete_response(403, None, 0), DeleteStep::Forbidden);
    assert_eq!(classify_delete_response(404, None, 0), DeleteStep::Gone);
    assert_eq!(classify_delete_response(401, None, 0), DeleteStep::Failed);
    assert_eq!(
        classify_delete_response(502, None, 0),
        DeleteStep::Transient { wait_secs: 60 }
    );
    let reset = b"100".to_vec();
    assert_eq!(
        classify_delete_response(429, Some(&reset), 40),
        DeleteStep::Limited { limit: RateLimit::Until(100), wait_secs: 60 }
    );
}
