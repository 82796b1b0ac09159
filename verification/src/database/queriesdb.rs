//! The `queries` table: the wire of each query under its key.

use vstd::prelude::*;
use crate::wire::{le_value, read_u32_le};
use crate::QKey;

verus! {

/// Name of the table.
pub const NAME: &'static str = "queries";

/// Query stored in the database.
///
/// Each query is identified by `QKey`, which is the key under which it is
/// stored in the ``queries`` table.
#[derive(Debug, Clone)]
pub struct Query {
    /// Identifier which is used in the ``queries`` table.
    pub key: QKey,
    /// Binary data of the DNS message.
    pub wire: Vec<u8>,
}

impl Query {
    /// The query that a key of the table and its value stand for. The key
    /// is read from the first four octets, little-endian.
    pub fn from(item: (&[u8], &[u8])) -> (r: Query)
        requires
            item.0@.len() >= 4,
        ensures
            r.key == le_value(item.0@.subrange(0, 4)),
            r.wire@ == item.1@,
    {
        let (key, val) = item;
        Query { key: read_u32_le(&key[0..4]), wire: vstd::slice::slice_to_vec(val) }
    }
}

} // verus!
