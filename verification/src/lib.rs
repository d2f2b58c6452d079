//! Verified core of a tool that tracks previously posted items in a local
//! store, looks them up against a remote REST API in signed, rate-limited
//! batches, and marks the ones that have vanished or were deleted on request.
//!
//! The store, the request signing, the batch planning, and the rate-limit
//! decisions are all verified; the surrounding I/O (HTTP, files, console)
//! lives outside this crate and only hands plain values in and out.

use vstd::prelude::*;

pub mod batch;
pub mod bytestr;
pub mod db;
pub mod digits;
pub mod encode;
pub mod models;
pub mod sender;
pub mod sign;
pub mod twitter;
pub mod util;

verus! {

/// Credentials for the remote API: consumer key and secret, access token and
/// token secret, all as raw byte strings.
#[derive(Debug)]
pub struct Access {
    pub api_key: Vec<u8>,
    pub api_secret: Vec<u8>,
    pub access: Vec<u8>,
    pub access_secret: Vec<u8>,
}

} // verus!
