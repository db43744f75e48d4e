//! Deciding what a save task writes.
use vstd::prelude::*;

use crate::chunk::{ChunkData, ChunkError};
use crate::codec::{chunk_record, le_u64};

verus! {

/// What a save of `c` does, given the record that storage holds for its position.
pub open spec fn save_planned(stored: Option<Seq<u8>>, c: ChunkData, r: Result<Option<Vec<u8>>, ChunkError>) -> bool {
    match stored {
        Some(b) => if b.len() < 8 {
            r == Err::<Option<Vec<u8>>, ChunkError>(ChunkError::HeaderTooShort)
        } else if b.subrange(0, 8) == le_u64(c.hash) {
            r == Ok::<Option<Vec<u8>>, ChunkError>(None)
        } else {
            r matches Ok(Some(v)) && v@ == chunk_record(c)
        },
        None => r matches Ok(Some(v)) && v@ == chunk_record(c),
    }
}

/// The record to write for `chunk`, or `None` when the stored record already
/// carries the same content hash, so that writing it again would change nothing.
pub fn plan_save(stored: Option<&[u8]>, chunk: &ChunkData) -> (r: Result<Option<Vec<u8>>, ChunkError>)
    requires
        chunk.wf(),
    ensures
        save_planned(
            match stored {
                Some(b) => Some(b@),
                None => None,
            },
            *chunk,
            r,
        ),
{
    if let Some(bytes) = stored {
        let hash = ChunkData::read_header(bytes)?;
        if hash == chunk.hash {
            return Ok(None);
        }
        proof {
            vstd::bytes::lemma_auto_spec_u64_to_from_le_bytes();
        }
    }
    let data = chunk.encode()?;
    Ok(Some(data))
}

/// Saving a chunk whose content hash equals the one in the stored record's
/// header writes nothing.
pub proof fn redundant_save_elided(c: ChunkData, stored: Seq<u8>, r: Result<Option<Vec<u8>>, ChunkError>)
    requires
        c.wf(),
        stored.len() >= 8,
        stored.subrange(0, 8) == le_u64(c.hash),
        save_planned(Some(stored), c, r),
    ensures
        r == Ok::<Option<Vec<u8>>, ChunkError>(None),
{
}

} // verus!
