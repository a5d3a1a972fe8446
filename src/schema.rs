use vstd::prelude::*;

use crate::codec::Json;

verus! {

/// One event or document of a collection.
#[derive(Clone, Debug)]
pub struct Record {
    /// Identity of the underlying entity.
    pub id: String,
    /// How `value` is to be read.
    pub typ: String,
    /// Content or identity key; absent when `None`.
    pub key: Option<Vec<u8>>,
    pub timestamp: Option<u32>,
    /// Position of the record in the collection's append log.
    pub lseq: Option<u64>,
    /// The embedded JSON payload, kept as it was received.
    pub value: Option<Json>,
}

/// The answer to one pull of a subscription.
#[derive(Clone, Debug)]
pub struct PullResponse {
    /// Position marker to echo back when acknowledging.
    pub cursor: u64,
    /// Records in ascending `lseq` order; possibly empty.
    pub messages: Vec<Record>,
    /// The collection held nothing beyond `cursor` when the pull was answered.
    pub finished: bool,
}

/// A reference to the record with key `key` at sequence `seq`.
#[derive(Clone, Debug, PartialEq, Eq)]
pub struct Link {
    pub key: Vec<u8>,
    pub seq: u64,
}

} // verus!
