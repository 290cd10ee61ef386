//! The cue point codec: named sample-offset markers within the data chunk,
//! 24 bytes each on disk.

use vstd::prelude::*;

use crate::utils::{le32_bytes, le32_val, push_u32_le};

verus! {

/// One cue point: six 32-bit fields.
#[derive(Clone, Copy, Debug, PartialEq, Eq, Structural)]
pub struct CuePoint {
    /// Unique identification value used to associate this cue point with
    /// information in other chunks.
    pub id: u32,
    /// Sample offset of the cue point in the play-list sample stream; 0
    /// when no play list is present.
    pub position: u32,
    /// The four-byte id of the chunk holding the sample, conventionally the
    /// ASCII bytes of `data`, stored as a 32-bit value.
    pub data_chunk_id: u32,
    /// Byte offset of that chunk within a wave list chunk, or 0.
    pub chunk_start: u32,
    /// Byte offset of the block holding the sample within the data chunk.
    pub block_start: u32,
    /// Offset of the sample within that block.
    pub sample_offset: u32,
}

/// The 24 on-disk bytes of one cue point, in field order.
pub open spec fn spec_cue_bytes(c: CuePoint) -> Seq<u8> {
    le32_bytes(c.id as int) + le32_bytes(c.position as int) + le32_bytes(c.data_chunk_id as int)
        + le32_bytes(c.chunk_start as int) + le32_bytes(c.block_start as int) + le32_bytes(
        c.sample_offset as int,
    )
}

/// One cue point read at byte offset `off`.
pub open spec fn spec_cue_decode(d: Seq<u8>, off: int) -> CuePoint
    recommends
        0 <= off,
        off + 24 <= d.len(),
{
    CuePoint {
        id: le32_val(d.subrange(off, off + 4)) as u32,
        position: le32_val(d.subrange(off + 4, off + 8)) as u32,
        data_chunk_id: le32_val(d.subrange(off + 8, off + 12)) as u32,
        chunk_start: le32_val(d.subrange(off + 12, off + 16)) as u32,
        block_start: le32_val(d.subrange(off + 16, off + 20)) as u32,
        sample_offset: le32_val(d.subrange(off + 20, off + 24)) as u32,
    }
}

/// The concatenated bytes of a cue point list, in order.
pub open spec fn spec_cues_bytes(cs: Seq<CuePoint>) -> Seq<u8>
    decreases cs.len(),
{
    if cs.len() == 0 {
        Seq::empty()
    } else {
        spec_cue_bytes(cs[0]) + spec_cues_bytes(cs.drop_first())
    }
}

/// Appending a cue point appends its bytes.
pub proof fn lemma_cues_bytes_push(cs: Seq<CuePoint>, c: CuePoint)
    ensures
        spec_cues_bytes(cs.push(c)) == spec_cues_bytes(cs) + spec_cue_bytes(c),
    decreases cs.len(),
{
    let cb = spec_cue_bytes(c);
    if cs.len() == 0 {
        assert(cs.push(c)[0] == c);
        assert(cs.push(c).drop_first() =~= Seq::<CuePoint>::empty());
        assert(spec_cues_bytes(cs.push(c)) == cb + spec_cues_bytes(Seq::<CuePoint>::empty()));
        assert(cb + Seq::<u8>::empty() =~= cb);
        assert(Seq::<u8>::empty() + cb =~= cb);
    } else {
        let hb = spec_cue_bytes(cs[0]);
        assert(cs.push(c).drop_first() =~= cs.drop_first().push(c));
        assert(cs.push(c)[0] == cs[0]);
        lemma_cues_bytes_push(cs.drop_first(), c);
        assert(spec_cues_bytes(cs.push(c)) == hb + (spec_cues_bytes(cs.drop_first()) + cb));
        assert(hb + (spec_cues_bytes(cs.drop_first()) + cb) =~= (hb + spec_cues_bytes(
            cs.drop_first(),
        )) + cb);
    }
}

/// The cue points occupy 24 bytes each.
pub proof fn lemma_cues_bytes_len(cs: Seq<CuePoint>)
    ensures
        spec_cues_bytes(cs).len() == 24 * cs.len(),
    decreases cs.len(),
{
    if cs.len() > 0 {
        lemma_cues_bytes_len(cs.drop_first());
    }
}

impl CuePoint {
    /// Encode the cue point as its exact 24 payload bytes.
    pub fn serialise(&self) -> (r: Vec<u8>)
        ensures
            r@ == spec_cue_bytes(*self),
            r@.len() == 24,
    {
        let mut out: Vec<u8> = Vec::new();
        push_u32_le(&mut out, self.id);
        push_u32_le(&mut out, self.position);
        push_u32_le(&mut out, self.data_chunk_id);
        push_u32_le(&mut out, self.chunk_start);
        push_u32_le(&mut out, self.block_start);
        push_u32_le(&mut out, self.sample_offset);
        proof {
            assert(out@ =~= spec_cue_bytes(*self));
        }
        out
    }
}

} // verus!
