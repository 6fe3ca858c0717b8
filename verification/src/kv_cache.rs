//! A cache of values in a store of keys and texts.
use vstd::prelude::*;

use crate::text;
use crate::text::decimal;
use crate::value::{shown, Value};

verus! {

/// What is put into the store.
#[derive(Debug, PartialEq, Eq)]
pub struct KvEntry {
    pub key: String,
    pub value: String,
    /// The seconds after which the entry may be dropped.
    pub expiration_ttl: u64,
}

/// The key of the store for a key of the cache.
pub fn kv_key(key: u64) -> (res: String)
    ensures
        res@ == decimal(key as nat),
{
    text::u64_text(key)
}

/// The entry of the store for a value of the cache.
pub fn kv_entry(key: u64, value: &Value, ttl: u64) -> (res: KvEntry)
    ensures
        res.key@ == decimal(key as nat),
        res.value@ == shown(value@),
        res.expiration_ttl == ttl,
{
    KvEntry { key: kv_key(key), value: value.to_string(), expiration_ttl: ttl }
}

} // verus!
