//! Rate-limited sending: the decision core of the retry loop.
//!
//! The surrounding program builds and sends one attempt, then hands the
//! response's status and reset-time header here; [`classify_response`] says
//! whether to return the response, notify the rate-limit hook and sleep,
//! back off on a transient server error, fail, or retry at once.  The loop
//! itself performs the send and the sleep; every decision is made here.

use vstd::prelude::*;

use crate::digits::{all_digits, dec_val, parse_u64};

verus! {

/// How long to wait when the provider does not say when its rate limit
/// resets, or says so unusably: fifteen minutes.
pub const FALLBACK_WAIT_SECS: u64 = 900;

/// How long to wait before retrying after a transient server error.
pub const TRANSIENT_WAIT_SECS: u64 = 60;

/// The rate limit as reported by the remote service.
#[derive(Debug, Clone, Copy, PartialEq, Eq, Structural)]
pub enum RateLimit {
    /// The rate limit resets at this absolute UTC Unix time (not a number of
    /// seconds to wait).
    Until(u64),
    /// The reset time is unknown; handled by waiting the fallback interval.
    Unknown,
}

/// What the sender does after seeing one response.
#[derive(Debug, Clone, Copy, PartialEq, Eq, Structural)]
pub enum SendStep {
    /// A success status: the response is the result.
    Done,
    /// Rate limited: notify the hook with `limit`, sleep `wait_secs`, then
    /// retry with a freshly signed request.
    Limited { limit: RateLimit, wait_secs: u64 },
    /// A transient server error: sleep `wait_secs`, then retry.
    Transient { wait_secs: u64 },
    /// Any other client error: a terminal failure.
    Failed,
    /// Any other status: retry at once.
    Retry,
}

/// The reset-time header parsed as a decimal number, if it is one.
pub open spec fn parsed_reset(h: Seq<u8>) -> Option<u64> {
    if h.len() > 0 && all_digits(h) && dec_val(h) <= u64::MAX {
        Some(dec_val(h) as u64)
    } else {
        None
    }
}

/// Seconds to wait until the absolute reset time `reset`, seen at time
/// `now`: the difference, or the fallback when the reset time has passed.
pub open spec fn wait_for_reset(reset: u64, now: int) -> u64 {
    if reset <= now {
        FALLBACK_WAIT_SECS
    } else if reset - now > u64::MAX {
        u64::MAX
    } else {
        (reset - now) as u64
    }
}

/// The decision for one response: its status, its reset-time header if any,
/// and the current Unix time.
pub open spec fn spec_classify(status: u16, reset: Option<Seq<u8>>, now: int) -> SendStep {
    if 200 <= status < 300 {
        SendStep::Done
    } else if status == 429 {
        match reset {
            Some(h) => match parsed_reset(h) {
                Some(t) => SendStep::Limited {
                    limit: RateLimit::Until(t),
                    wait_secs: wait_for_reset(t, now),
                },
                None => SendStep::Limited {
                    limit: RateLimit::Unknown,
                    wait_secs: FALLBACK_WAIT_SECS,
                },
            },
            None => SendStep::Limited { limit: RateLimit::Unknown, wait_secs: FALLBACK_WAIT_SECS },
        }
    } else if 500 <= status < 600 {
        SendStep::Transient { wait_secs: TRANSIENT_WAIT_SECS }
    } else if 400 <= status < 500 {
        SendStep::Failed
    } else {
        SendStep::Retry
    }
}

fn wait_secs_for(reset: u64, now: i64) -> (w: u64)
    ensures
        w == wait_for_reset(reset, now as int),
{
    if now >= 0 {
        if reset <= now as u64 {
            FALLBACK_WAIT_SECS
        } else {
            reset - (now as u64)
        }
    } else {
        let mag: u64 = ((-(now + 1)) as u64) + 1;
        proof {
            assert(mag as int == -(now as int));
        }
        if reset > u64::MAX - mag {
            u64::MAX
        } else {
            reset + mag
        }
    }
}

/// Decide what to do with one response: return it on success, notify and
/// sleep on a rate limit (using the provider's reset time where it is a
/// usable number, the fallback otherwise), back off and retry on a transient
/// server error, fail on any other client error, retry at once otherwise.
pub fn classify_response(status: u16, reset_header: Option<&Vec<u8>>, now: i64) -> (r: SendStep)
    ensures
        r == spec_classify(
            status,
            match reset_header {
                Some(h) => Some(h@),
                None => None,
            },
            now as int,
        ),
{
    if 200 <= status && status < 300 {
        SendStep::Done
    } else if status == 429 {
        match reset_header {
            Some(h) => match parse_u64(h.as_slice()) {
                Some(t) => SendStep::Limited {
                    limit: RateLimit::Until(t),
                    wait_secs: wait_secs_for(t, now),
                },
                None => SendStep::Limited {
                    limit: RateLimit::Unknown,
                    wait_secs: FALLBACK_WAIT_SECS,
                },
            },
            None => SendStep::Limited { limit: RateLimit::Unknown, wait_secs: FALLBACK_WAIT_SECS },
        }
    } else if 500 <= status && status < 600 {
        SendStep::Transient { wait_secs: TRANSIENT_WAIT_SECS }
    } else if 400 <= status && status < 500 {
        SendStep::Failed
    } else {
        SendStep::Retry
    }
}

} // verus!
