//! From the raw data of one block to its record.
//!
//! The header of a block carries no wall-clock time. The time is read from the chain
//! state as of that block: a storage cell whose first eight bytes hold the milliseconds
//! since the epoch, least significant byte first.

use crate::record::{BlockHash, BlockRecord};
use vstd::prelude::*;

verus! {

/// The storage cell that holds the current timestamp.
pub const TIMESTAMP_STORAGE_KEY: &'static str = "0x26aa394eea5630e07c48ae0c9558cef7";

/// How many bytes of the cell make up the timestamp.
pub const TIMESTAMP_WIDTH: usize = 8;

/// The number that `bytes` spell, least significant byte first.
pub open spec fn little_endian(bytes: Seq<u8>) -> nat
    decreases bytes.len(),
{
    if bytes.len() == 0 {
        0
    } else {
        bytes[0] as nat + 256 * little_endian(bytes.drop_first())
    }
}

/// The timestamp that a storage read yields: none where the cell is absent or shorter
/// than eight bytes, else the number in its first eight bytes.
pub open spec fn timestamp_of(cell: Option<Seq<u8>>) -> Option<u64> {
    match cell {
        Some(bytes) if bytes.len() >= TIMESTAMP_WIDTH => Some(
            little_endian(bytes.take(TIMESTAMP_WIDTH as int)) as u64,
        ),
        _ => None,
    }
}

/// The record of a block with `body_len` entries in its body and `cell` as the content
/// of the timestamp cell in its state.
pub open spec fn record_of(
    height: u64,
    hash: BlockHash,
    body_len: u64,
    cell: Option<Seq<u8>>,
) -> BlockRecord {
    BlockRecord { height, hash, timestamp: timestamp_of(cell), tx_count: body_len }
}

/// `256^n`.
pub open spec fn pow256(n: nat) -> nat
    decreases n,
{
    if n == 0 {
        1
    } else {
        256 * pow256((n - 1) as nat)
    }
}

/// `width` bytes spell a number below `256^width`; for eight bytes that is `2^64`.
pub proof fn lemma_little_endian_bound(bytes: Seq<u8>)
    requires
        bytes.len() <= 8,
    ensures
        little_endian(bytes) < pow256(bytes.len()),
        pow256(8) == 0x1_0000_0000_0000_0000,
    decreases bytes.len(),
{
    reveal_with_fuel(pow256, 9);
    if bytes.len() > 0 {
        lemma_little_endian_bound(bytes.drop_first());
    }
}

/// The timestamp of a cell of eight bytes or more is the number that its first eight
/// bytes spell: that number fits in 64 bits, so nothing of it is cut off.
pub proof fn lemma_timestamp_exact(bytes: Seq<u8>)
    requires
        bytes.len() >= TIMESTAMP_WIDTH,
    ensures
        timestamp_of(Some(bytes)) is Some,
        timestamp_of(Some(bytes))->0 == little_endian(bytes.take(TIMESTAMP_WIDTH as int)),
{
    lemma_little_endian_bound(bytes.take(TIMESTAMP_WIDTH as int));
}

/// Reads a timestamp out of the content of the timestamp cell.
pub fn decode_timestamp(cell: Option<&Vec<u8>>) -> (timestamp: Option<u64>)
    ensures
        timestamp == timestamp_of(
            match cell {
                Some(bytes) => Some(bytes@),
                None => None,
            },
        ),
{
    match cell {
        None => None,
        Some(bytes) => {
            if bytes.len() < TIMESTAMP_WIDTH {
                return None;
            }
            let ghost word = bytes@.take(TIMESTAMP_WIDTH as int);
            let mut value: u64 = 0;
            let mut i: usize = TIMESTAMP_WIDTH;
            proof {
                assert(word.skip(8) =~= Seq::<u8>::empty());
            }
            while i > 0
                invariant
                    i <= 8,
                    bytes.len() >= 8,
                    word == bytes@.take(8),
                    value == little_endian(word.skip(i as int)),
                decreases i,
            {
                i = i - 1;
                proof {
                    let tail = word.skip(i as int);
                    assert(tail.drop_first() =~= word.skip(i as int + 1));
                    assert(tail[0] == bytes@[i as int]);
                    lemma_little_endian_bound(tail.drop_first());
                    lemma_little_endian_bound(tail);
                    reveal_with_fuel(pow256, 9);
                }
                value = value * 256 + bytes[i] as u64;
            }
            proof {
                assert(word.skip(0) =~= word);
            }
            Some(value)
        },
    }
}

/// Makes the record of one block from its height, its hash, the number of entries in
/// its body and the content of the timestamp cell in its state.
///
/// Every entry of the body counts as a transaction. A block whose timestamp cannot be
/// read still gets its record, without a timestamp.
pub fn extract(height: u64, hash: BlockHash, body_len: u64, cell: Option<&Vec<u8>>) -> (record:
    BlockRecord)
    ensures
        record == record_of(
            height,
            hash,
            body_len,
            match cell {
                Some(bytes) => Some(bytes@),
                None => None,
            },
        ),
{
    BlockRecord { height, hash, timestamp: decode_timestamp(cell), tx_count: body_len }
}

/// Extraction is a function of the block alone: two records made from the same height,
/// hash, body length and cell content are equal field by field.
pub proof fn lemma_extract_idempotent(
    height: u64,
    hash: BlockHash,
    body_len: u64,
    cell: Option<Seq<u8>>,
    first: BlockRecord,
    second: BlockRecord,
)
    requires
        first == record_of(height, hash, body_len, cell),
        second == record_of(height, hash, body_len, cell),
    ensures
        first.height == second.height,
        first.hash == second.hash,
        first.timestamp == second.timestamp,
        first.tx_count == second.tx_count,
        first == second,
{
}

} // verus!
