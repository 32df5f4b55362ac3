//! The index file: a flat table of 16-byte records with no count, each
//! locating one asset in the data file.

use vstd::prelude::*;

use super::bytes::{le_u32, read_u32_le};

verus! {

/// Bytes taken by one record of the index.
pub const RECORD_LEN: usize = 16;

#[derive(Debug, Default, PartialEq, Eq, Structural, Clone, Copy)]
pub struct IdxRecord {
    pub file_offset: u32,
    pub compressed_file_length: u32,
    pub decompressed_file_length: u32,
    pub unused: u32,
}

/// The record whose four little-endian words start at `at`.
pub open spec fn record_at(s: Seq<u8>, at: int) -> IdxRecord {
    IdxRecord {
        file_offset: le_u32(s, at) as u32,
        compressed_file_length: le_u32(s, at + 4) as u32,
        decompressed_file_length: le_u32(s, at + 8) as u32,
        unused: le_u32(s, at + 12) as u32,
    }
}

fn record(input: &[u8], at: usize) -> (r: IdxRecord)
    requires
        at + RECORD_LEN <= input@.len(),
    ensures
        r == record_at(input@, at as int),
{
    let _len = input.len();
    IdxRecord {
        file_offset: read_u32_le(input, at),
        compressed_file_length: read_u32_le(input, at + 4),
        decompressed_file_length: read_u32_le(input, at + 8),
        unused: read_u32_le(input, at + 12),
    }
}

/// Reads every whole record of the index, in file order; bytes after the
/// last whole record are ignored.
pub fn parse_records(input: &[u8]) -> (r: Vec<IdxRecord>)
    ensures
        r@.len() == input@.len() / 16,
        forall|i: int| 0 <= i < r@.len() ==> #[trigger] r@[i] == record_at(input@, 16 * i),
{
    let mut records: Vec<IdxRecord> = Vec::new();
    let mut at: usize = 0;
    while input.len() - at >= RECORD_LEN
        invariant
            at <= input@.len(),
            at == 16 * records@.len(),
            forall|i: int| 0 <= i < records@.len() ==> #[trigger] records@[i] == record_at(input@, 16 * i),
        decreases input@.len() - at,
    {
        records.push(record(input, at));
        at = at + RECORD_LEN;
    }
    records
}

} // verus!
