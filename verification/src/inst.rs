//! The instrument chunk codec: a fixed seven-byte record describing how a
//! sample is played as a pitched instrument region.

use vstd::prelude::*;

use crate::riff::{
    lemma_find_index, spec_find_index, spec_replace, ChunkType, RiffChunk, RiffFile,
};
use crate::RiffError;

verus! {

/// A fixed 7-field instrument region record; every field is an 8-bit
/// unsigned integer, stored in this order on disk.
#[derive(Clone, Copy, Debug, PartialEq, Eq, Structural)]
pub struct InstrumentChunk {
    /// The musical note at which the sample plays at its original sample
    /// rate (0 to 127), as in the sampler chunk's MIDI unity note.
    pub unshifted_note: u8,
    /// Pitch adjustment in cents applied on playback.
    pub fine_tune: u8,
    /// Output gain adjustment in decibels applied on playback.
    pub gain: u8,
    pub low_note: u8,
    pub high_note: u8,
    pub low_vel: u8,
    pub high_vel: u8,
}

/// The seven payload bytes of an instrument chunk, in field order.
pub open spec fn spec_inst_bytes(c: InstrumentChunk) -> Seq<u8> {
    seq![
        c.unshifted_note,
        c.fine_tune,
        c.gain,
        c.low_note,
        c.high_note,
        c.low_vel,
        c.high_vel,
    ]
}

/// The instrument record held in the first seven payload bytes.
pub open spec fn spec_inst_decode(d: Seq<u8>) -> InstrumentChunk
    recommends
        d.len() >= 7,
{
    InstrumentChunk {
        unshifted_note: d[0],
        fine_tune: d[1],
        gain: d[2],
        low_note: d[3],
        high_note: d[4],
        low_vel: d[5],
        high_vel: d[6],
    }
}

/// The defaults used when a file has no instrument chunk and one is
/// requested: root note 60, full note range, full velocity range.
pub open spec fn spec_inst_default() -> InstrumentChunk {
    InstrumentChunk {
        unshifted_note: 60,
        fine_tune: 0,
        gain: 0,
        low_note: 0,
        high_note: 127,
        low_vel: 0,
        high_vel: 127,
    }
}

impl Default for InstrumentChunk {
    /// Root note 60, note range 0 to 127, velocity range 0 to 127.
    fn default() -> (r: Self)
        ensures
            r == spec_inst_default(),
    {
        InstrumentChunk {
            unshifted_note: 60,
            fine_tune: 0,
            gain: 0,
            low_note: 0,
            high_note: 127,
            low_vel: 0,
            high_vel: 127,
        }
    }
}

impl InstrumentChunk {
    /// Decode an instrument chunk's payload: fails with `WrongChunkKind` on
    /// a chunk of another kind and with `TruncatedInput` on a payload
    /// shorter than seven bytes.
    pub fn from_chunk(chunk: &RiffChunk) -> (r: Result<Self, RiffError>)
        ensures
            chunk@.0 != ChunkType::Instrument ==> (r matches Err(e) && e
                == RiffError::WrongChunkKind),
            chunk@.0 == ChunkType::Instrument && chunk@.1.len() < 7 ==> (r matches Err(e) && e
                == RiffError::TruncatedInput),
            chunk@.0 == ChunkType::Instrument && chunk@.1.len() >= 7 ==> (r matches Ok(c) && c
                == spec_inst_decode(chunk@.1)),
    {
        if !(chunk.header == ChunkType::Instrument) {
            return Err(RiffError::WrongChunkKind);
        }
        if chunk.data.len() < 7 {
            return Err(RiffError::TruncatedInput);
        }
        Ok(InstrumentChunk {
            unshifted_note: chunk.data[0],
            fine_tune: chunk.data[1],
            gain: chunk.data[2],
            low_note: chunk.data[3],
            high_note: chunk.data[4],
            low_vel: chunk.data[5],
            high_vel: chunk.data[6],
        })
    }

    /// Encode the record as its exact seven payload bytes; the even-byte
    /// alignment padding, if any, is applied by the container, not here.
    pub fn serialise(&self) -> (r: Vec<u8>)
        ensures
            r@ == spec_inst_bytes(*self),
            r@.len() == 7,
    {
        let mut r: Vec<u8> = Vec::new();
        r.push(self.unshifted_note);
        r.push(self.fine_tune);
        r.push(self.gain);
        r.push(self.low_note);
        r.push(self.high_note);
        r.push(self.low_vel);
        r.push(self.high_vel);
        proof {
            assert(r@ =~= spec_inst_bytes(*self));
        }
        r
    }
}

impl RiffFile {
    /// True when the file's first instrument chunk, if there is one, is long
    /// enough to decode.
    pub open spec fn inst_decodable(&self) -> bool {
        let i = spec_find_index(self.chunks_model(), ChunkType::Instrument);
        i != -1 ==> self.chunks_model()[i].1.len() >= 7
    }

    /// The record decoded from the file's first instrument chunk, or the
    /// default record if the file has none.
    pub fn get_instrument_chunk(&self) -> (r: InstrumentChunk)
        requires
            self.inst_decodable(),
        ensures
            spec_find_index(self.chunks_model(), ChunkType::Instrument) == -1 ==> r
                == spec_inst_default(),
            spec_find_index(self.chunks_model(), ChunkType::Instrument) != -1 ==> r
                == spec_inst_decode(
                self.chunks_model()[spec_find_index(self.chunks_model(), ChunkType::Instrument)].1,
            ),
    {
        proof {
            lemma_find_index(self.chunks_model(), ChunkType::Instrument);
        }
        match self.find_chunk_by_type(ChunkType::Instrument) {
            Some(c) => match InstrumentChunk::from_chunk(c) {
                Ok(inst) => inst,
                Err(_) => {
                    proof {
                        assert(false);
                    }
                    InstrumentChunk::default()
                },
            },
            None => InstrumentChunk::default(),
        }
    }

    /// Store the record as the file's single instrument chunk, replacing any
    /// existing instrument chunks and appending at the end of the sequence.
    pub fn set_instrument_chunk(&mut self, chunk: InstrumentChunk)
        ensures
            final(self).chunks_model() == spec_replace(
                old(self).chunks_model(),
                ChunkType::Instrument,
                spec_inst_bytes(chunk),
            ),
            final(self).filename == old(self).filename,
    {
        let data = chunk.serialise();
        self.add_or_replace_chunk_by_type(RiffChunk { header: ChunkType::Instrument, data });
    }
}

} // verus!
