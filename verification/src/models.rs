//! The stored record types: one tracked item and one account.

use vstd::prelude::*;

verus! {

/// One tracked item in the store.
#[derive(Debug)]
pub struct Tweet {
    /// Item id: raw bytes of the decimal id string. Primary key, unique.
    pub id_str: Vec<u8>,
    /// Number of reposts, captured at import time.
    pub retweets: i32,
    /// Number of likes, captured at import time.
    pub likes: i32,
    /// Creation time, UTC Unix seconds.
    pub created_at: i64,
    /// Whether the item is confirmed gone from the remote service.
    pub deleted: bool,
    /// Whether a remote lookup has reported this item's status at least once.
    pub checked: bool,
    /// Id of the owning account.
    pub account_id: Vec<u8>,
}

impl Tweet {
    /// A freshly imported record: both lifecycle flags start false.
    pub fn new(
        id_str: Vec<u8>,
        retweets: i32,
        likes: i32,
        created_at: i64,
        account_id: Vec<u8>,
    ) -> (t: Tweet)
        ensures
            t.id_str == id_str,
            t.retweets == retweets,
            t.likes == likes,
            t.created_at == created_at,
            t.deleted == false,
            t.checked == false,
            t.account_id == account_id,
    {
        Tweet { id_str, retweets, likes, created_at, deleted: false, checked: false, account_id }
    }
}

/// One account: static metadata only.
#[derive(Debug)]
pub struct Account {
    pub id_str: Vec<u8>,
    pub user_name: Vec<u8>,
    pub display_name: Vec<u8>,
}

} // verus!
