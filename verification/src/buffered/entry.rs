//! Entries of a buffer, as the store holds them.

use crate::buffered::state::BufferFault;
use crate::change::{same_schema, Change, Schema};
use vstd::prelude::*;

verus! {

/// The encoded bytes of one delivery, and of one entry, may not exceed this.
pub const MAX_DELIVERY_BYTES: u64 = 8388608;

/// No batch for a target may be charged with more bytes than this.
pub const MAX_TARGET_BATCH_BYTES: u64 = 8388608;

/// The bytes that an entry takes up: its encoding and its key.
pub fn encoded_item_bytes(encoded_length: u64) -> (result: Result<u64, BufferFault>)
    ensures
        match result {
            Ok(bytes) => bytes == encoded_length + 8,
            Err(fault) => encoded_length + 8 > u64::MAX && fault == BufferFault::EncodedOverflow,
        },
{
    match encoded_length.checked_add(8) {
        Some(bytes) => Ok(bytes),
        None => Err(BufferFault::EncodedOverflow),
    }
}

/// An entry as the store holds it: its length, and what its bytes decode to, if to anything.
/// For each row stands what an event of it is charged, unless the target refused to say.
#[derive(Debug)]
pub struct StoredEntry {
    pub sequence: u64,
    pub encoded_length: u64,
    pub change: Option<Change>,
    pub event_bytes: Option<Vec<u64>>,
}

impl StoredEntry {
    pub open spec fn wf(&self) -> bool {
        match self.change {
            Some(change) => {
                &&& change.wf()
                &&& self.event_bytes matches Some(sizes) ==> sizes@.len() == change.records.rows
            },
            None => true,
        }
    }
}

/// Why a stored entry is not one of a buffer of `schema`, if it is not.
pub open spec fn content_fault(entry: StoredEntry, max_bytes: u64, schema: Schema) -> Option<
    BufferFault,
> {
    if entry.encoded_length + 8 > u64::MAX {
        Some(BufferFault::EncodedOverflow)
    } else if entry.encoded_length + 8 > max_bytes {
        Some(BufferFault::EntryTooLarge { sequence: entry.sequence })
    } else if entry.change is None {
        Some(BufferFault::EntryUndecodable { sequence: entry.sequence })
    } else if entry.change->0.records.schema@ != schema@ {
        Some(BufferFault::SchemaMismatch)
    } else {
        None
    }
}

/// Checks a stored entry: its length, that it decodes, and its schema.
pub fn decode_entry(entry: &StoredEntry, max_bytes: u64, schema: &Schema) -> (result: Result<
    u64,
    BufferFault,
>)
    ensures
        match result {
            Ok(item_bytes) => {
                &&& content_fault(*entry, max_bytes, *schema) is None
                &&& item_bytes == entry.encoded_length + 8
            },
            Err(fault) => content_fault(*entry, max_bytes, *schema) == Some(fault),
        },
{
    let item_bytes: u64 = encoded_item_bytes(entry.encoded_length)?;
    if item_bytes > max_bytes {
        return Err(BufferFault::EntryTooLarge { sequence: entry.sequence });
    }
    match &entry.change {
        None => Err(BufferFault::EntryUndecodable { sequence: entry.sequence }),
        Some(change) => if !same_schema(&change.records.schema, schema) {
            Err(BufferFault::SchemaMismatch)
        } else {
            Ok(item_bytes)
        },
    }
}

} // verus!
