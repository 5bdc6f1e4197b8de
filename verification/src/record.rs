//! Per-block measurements and the ordered series built from them.

use vstd::prelude::*;

verus! {

/// Opaque 32-byte block identifier.
pub type BlockHash = [u8; 32];

/// What the pipeline keeps of one block.
#[derive(Clone, Copy, Debug, PartialEq, Eq)]
pub struct BlockRecord {
    /// The number of the block in the chain.
    pub height: u64,
    pub hash: BlockHash,
    /// Milliseconds since the epoch; `None` when the chain state held no usable value.
    pub timestamp: Option<u64>,
    /// The number of entries in the body of the block.
    pub tx_count: u64,
}

impl BlockRecord {
    /// The same record with `timestamp` as its timestamp.
    pub open spec fn with_timestamp(self, timestamp: u64) -> BlockRecord {
        BlockRecord { timestamp: Some(timestamp), ..self }
    }

    /// A record of these four values.
    pub fn new(height: u64, hash: BlockHash, timestamp: Option<u64>, tx_count: u64) -> (record:
        Self)
        ensures
            record == (BlockRecord { height, hash, timestamp, tx_count }),
    {
        BlockRecord { height, hash, timestamp, tx_count }
    }
}

/// Heights strictly increase along `records`, as they do along a series.
pub open spec fn ascending_heights(records: Seq<BlockRecord>) -> bool {
    forall|i: int, j: int|
        0 <= i < j < records.len() ==> (#[trigger] records[i]).height < (
        #[trigger] records[j]).height
}

} // verus!
