//! The sampler chunk codec: MIDI tuning fields plus an ordered list of
//! sample-loop records and trailing opaque extra data.
//!
//! The encoder writes every loop record, declares the true loop count, and
//! declares the extra-data size as the length of the extra bytes it appends;
//! the decoder reads the declared number of loop records and leaves the
//! extra data empty.

use vstd::prelude::*;

use crate::riff::{
    lemma_find_index, spec_find_index, spec_replace, ChunkType, RiffChunk, RiffFile,
};
use crate::utils::{le32_bytes, le32_val, push_bytes, push_u32_le, read_u32_le};
use crate::RiffError;

verus! {

/// How the waveform samples are looped: forward (0), alternating (1), or
/// backward (2) in the on-disk encoding.
#[derive(Clone, Copy, Debug, PartialEq, Eq, Structural)]
pub enum LoopType {
    Forward,
    PingPong,
    Reverse,
}

/// One sample-loop record: 24 bytes on disk, six 32-bit fields.
#[derive(Clone, Copy, Debug, PartialEq, Eq, Structural)]
pub struct SampleLoop {
    /// The cue point this loop corresponds to.
    pub id: u32,
    /// How the waveform samples are looped.
    pub loop_type: LoopType,
    pub start: u32,
    pub end: u32,
    pub fraction: u32,
    /// How many times to play the loop; 0 is an infinite sustain loop.
    pub play_count: u32,
}

/// The sampler chunk: seven fixed 32-bit fields, the loop list, and opaque
/// extra data.
#[derive(Clone, Debug, PartialEq, Eq)]
pub struct SamplerChunk {
    /// MIDI Manufacturers Association code of the target sampler, or 0.
    pub manufacturer: u32,
    /// MIDI model id defined by the manufacturer, or 0.
    pub product: u32,
    /// Duration of one sample on playback, in nanoseconds.
    pub sample_period: u32,
    /// The note at which the sample plays at its original rate.
    pub midi_unity_note: u32,
    /// Fraction of a semitone up from the unity note; 0x80000000 is half a
    /// semitone.
    pub midi_pitch_fraction: u32,
    /// SMPTE time format of the offset field; 0 means no offset.
    pub smpte_format: u32,
    pub smpte_offset: u32,
    pub sample_loops: Vec<SampleLoop>,
    /// Opaque bytes following the loop list on disk.
    pub sampler_data: Vec<u8>,
}

/// The mathematical model of a sampler chunk.
pub struct SamplerModel {
    pub manufacturer: u32,
    pub product: u32,
    pub sample_period: u32,
    pub midi_unity_note: u32,
    pub midi_pitch_fraction: u32,
    pub smpte_format: u32,
    pub smpte_offset: u32,
    pub sample_loops: Seq<SampleLoop>,
    pub sampler_data: Seq<u8>,
}

impl View for SamplerChunk {
    type V = SamplerModel;

    open spec fn view(&self) -> SamplerModel {
        SamplerModel {
            manufacturer: self.manufacturer,
            product: self.product,
            sample_period: self.sample_period,
            midi_unity_note: self.midi_unity_note,
            midi_pitch_fraction: self.midi_pitch_fraction,
            smpte_format: self.smpte_format,
            smpte_offset: self.smpte_offset,
            sample_loops: self.sample_loops@,
            sampler_data: self.sampler_data@,
        }
    }
}

/// The on-disk code of a loop type.
pub open spec fn spec_loop_code(t: LoopType) -> u32 {
    match t {
        LoopType::Forward => 0,
        LoopType::PingPong => 1,
        LoopType::Reverse => 2,
    }
}

/// The loop type of an on-disk code; reserved and sampler-specific codes
/// are read as forward loops.
pub open spec fn spec_loop_of_code(v: int) -> LoopType {
    if v == 1 {
        LoopType::PingPong
    } else if v == 2 {
        LoopType::Reverse
    } else {
        LoopType::Forward
    }
}

/// The 24 on-disk bytes of one loop record.
pub open spec fn spec_loop_bytes(l: SampleLoop) -> Seq<u8> {
    le32_bytes(l.id as int) + le32_bytes(spec_loop_code(l.loop_type) as int) + le32_bytes(
        l.start as int,
    ) + le32_bytes(l.end as int) + le32_bytes(l.fraction as int) + le32_bytes(l.play_count as int)
}

/// The concatenated bytes of a loop list, in order.
pub open spec fn spec_loops_bytes(ls: Seq<SampleLoop>) -> Seq<u8>
    decreases ls.len(),
{
    if ls.len() == 0 {
        Seq::empty()
    } else {
        spec_loop_bytes(ls[0]) + spec_loops_bytes(ls.drop_first())
    }
}

/// Appending a loop record appends its bytes.
pub proof fn lemma_loops_bytes_push(ls: Seq<SampleLoop>, l: SampleLoop)
    ensures
        spec_loops_bytes(ls.push(l)) == spec_loops_bytes(ls) + spec_loop_bytes(l),
    decreases ls.len(),
{
    let lb = spec_loop_bytes(l);
    if ls.len() == 0 {
        assert(ls.push(l)[0] == l);
        assert(ls.push(l).drop_first() =~= Seq::<SampleLoop>::empty());
        assert(spec_loops_bytes(ls.push(l)) == lb + spec_loops_bytes(Seq::<SampleLoop>::empty()));
        assert(lb + Seq::<u8>::empty() =~= lb);
        assert(Seq::<u8>::empty() + lb =~= lb);
    } else {
        let hb = spec_loop_bytes(ls[0]);
        assert(ls.push(l).drop_first() =~= ls.drop_first().push(l));
        assert(ls.push(l)[0] == ls[0]);
        lemma_loops_bytes_push(ls.drop_first(), l);
        assert(spec_loops_bytes(ls.push(l)) == hb + (spec_loops_bytes(ls.drop_first()) + lb));
        assert(hb + (spec_loops_bytes(ls.drop_first()) + lb) =~= (hb + spec_loops_bytes(
            ls.drop_first(),
        )) + lb);
    }
}

/// The loops occupy 24 bytes each.
pub proof fn lemma_loops_bytes_len(ls: Seq<SampleLoop>)
    ensures
        spec_loops_bytes(ls).len() == 24 * ls.len(),
    decreases ls.len(),
{
    if ls.len() > 0 {
        lemma_loops_bytes_len(ls.drop_first());
    }
}

/// The payload bytes of a sampler chunk: the seven fixed fields, the loop
/// count, the extra-data size, every loop record, then the extra data.
pub open spec fn spec_smpl_bytes(m: SamplerModel) -> Seq<u8> {
    le32_bytes(m.manufacturer as int) + le32_bytes(m.product as int) + le32_bytes(
        m.sample_period as int,
    ) + le32_bytes(m.midi_unity_note as int) + le32_bytes(m.midi_pitch_fraction as int)
        + le32_bytes(m.smpte_format as int) + le32_bytes(m.smpte_offset as int) + le32_bytes(
        m.sample_loops.len() as int,
    ) + le32_bytes(m.sampler_data.len() as int) + spec_loops_bytes(m.sample_loops)
        + m.sampler_data
}

/// The declared loop count of a sampler payload.
pub open spec fn spec_smpl_count(d: Seq<u8>) -> int
    recommends
        d.len() >= 32,
{
    le32_val(d.subrange(28, 32))
}

/// A sampler payload is long enough when it holds the 36 fixed bytes and
/// the declared number of 24-byte loop records.
pub open spec fn spec_smpl_len_ok(d: Seq<u8>) -> bool {
    d.len() >= 36 && 36 + 24 * spec_smpl_count(d) <= d.len()
}

/// One loop record read at byte offset `off`.
pub open spec fn spec_loop_decode(d: Seq<u8>, off: int) -> SampleLoop
    recommends
        0 <= off,
        off + 24 <= d.len(),
{
    SampleLoop {
        id: le32_val(d.subrange(off, off + 4)) as u32,
        loop_type: spec_loop_of_code(le32_val(d.subrange(off + 4, off + 8))),
        start: le32_val(d.subrange(off + 8, off + 12)) as u32,
        end: le32_val(d.subrange(off + 12, off + 16)) as u32,
        fraction: le32_val(d.subrange(off + 16, off + 20)) as u32,
        play_count: le32_val(d.subrange(off + 20, off + 24)) as u32,
    }
}

/// The sampler record held in a payload: seven fixed fields, then the
/// declared number of loop records; the extra data is left empty.
pub open spec fn spec_smpl_decode(d: Seq<u8>) -> SamplerModel
    recommends
        spec_smpl_len_ok(d),
{
    SamplerModel {
        manufacturer: le32_val(d.subrange(0, 4)) as u32,
        product: le32_val(d.subrange(4, 8)) as u32,
        sample_period: le32_val(d.subrange(8, 12)) as u32,
        midi_unity_note: le32_val(d.subrange(12, 16)) as u32,
        midi_pitch_fraction: le32_val(d.subrange(16, 20)) as u32,
        smpte_format: le32_val(d.subrange(20, 24)) as u32,
        smpte_offset: le32_val(d.subrange(24, 28)) as u32,
        sample_loops: Seq::new(
            spec_smpl_count(d) as nat,
            |i: int| spec_loop_decode(d, 36 + 24 * i),
        ),
        sampler_data: Seq::empty(),
    }
}

/// The zero-valued sampler record with no loops and no extra data.
pub open spec fn spec_smpl_default() -> SamplerModel {
    SamplerModel {
        manufacturer: 0,
        product: 0,
        sample_period: 0,
        midi_unity_note: 0,
        midi_pitch_fraction: 0,
        smpte_format: 0,
        smpte_offset: 0,
        sample_loops: Seq::empty(),
        sampler_data: Seq::empty(),
    }
}

impl Default for SamplerChunk {
    /// All fields zero, no loops, no extra data.
    fn default() -> (r: Self)
        ensures
            r@ == spec_smpl_default(),
    {
        let r = SamplerChunk {
            manufacturer: 0,
            product: 0,
            sample_period: 0,
            midi_unity_note: 0,
            midi_pitch_fraction: 0,
            smpte_format: 0,
            smpte_offset: 0,
            sample_loops: Vec::new(),
            sampler_data: Vec::new(),
        };
        proof {
            assert(r@.sample_loops =~= spec_smpl_default().sample_loops);
            assert(r@.sampler_data =~= spec_smpl_default().sampler_data);
        }
        r
    }
}

impl SamplerChunk {
    /// The payload size this chunk occupies: 36 fixed bytes plus 24 per
    /// loop plus the extra data.
    pub fn len(&self) -> (r: u32)
        requires
            36 + 24 * self.sample_loops@.len() + self.sampler_data@.len() <= u32::MAX,
        ensures
            r == 36 + 24 * self.sample_loops@.len() + self.sampler_data@.len(),
    {
        36 + (self.sample_loops.len() as u32) * 24 + self.sampler_data.len() as u32
    }

    /// Decode a sampler chunk's payload: fails with `WrongChunkKind` on a
    /// chunk of another kind and with `TruncatedInput` when the payload is
    /// shorter than the fixed fields and the declared loop records require.
    pub fn from_chunk(chunk: &RiffChunk) -> (r: Result<Self, RiffError>)
        ensures
            chunk@.0 != ChunkType::Sampler ==> (r matches Err(e) && e == RiffError::WrongChunkKind),
            chunk@.0 == ChunkType::Sampler && !spec_smpl_len_ok(chunk@.1) ==> (r matches Err(e)
                && e == RiffError::TruncatedInput),
            chunk@.0 == ChunkType::Sampler && spec_smpl_len_ok(chunk@.1) ==> (r matches Ok(c) && c@
                == spec_smpl_decode(chunk@.1)),
    {
        if !(chunk.header == ChunkType::Sampler) {
            return Err(RiffError::WrongChunkKind);
        }
        let d = &chunk.data;
        if d.len() < 36 {
            return Err(RiffError::TruncatedInput);
        }
        let count = match read_u32_le(d, 28) {
            Ok(v) => v,
            Err(_) => {
                proof {
                    assert(false);
                }
                return Err(RiffError::TruncatedInput);
            },
        };
        if (((d.len() - 36) / 24) as u64) < count as u64 {
            proof {
                assert(!spec_smpl_len_ok(chunk@.1));
            }
            return Err(RiffError::TruncatedInput);
        }
        proof {
            assert(spec_smpl_len_ok(chunk@.1));
        }
        let dlen = d.len();
        let mut loops: Vec<SampleLoop> = Vec::new();
        let mut k: usize = 0;
        while k < count as usize
            invariant
                k <= count,
                d@ == chunk@.1,
                d@.len() == dlen,
                d@.len() >= 36,
                count == spec_smpl_count(d@),
                36 + 24 * (count as int) <= d@.len(),
                loops@.len() == k,
                forall|j: int|
                    0 <= j < k ==> loops@[j] == spec_loop_decode(d@, 36 + 24 * j),
            decreases count - k,
        {
            let base: usize = 36 + 24 * k;
            let id = read_u32_le(d, base).unwrap();
            let code = read_u32_le(d, base + 4).unwrap();
            let start = read_u32_le(d, base + 8).unwrap();
            let end = read_u32_le(d, base + 12).unwrap();
            let fraction = read_u32_le(d, base + 16).unwrap();
            let play_count = read_u32_le(d, base + 20).unwrap();
            let loop_type = if code == 1 {
                LoopType::PingPong
            } else if code == 2 {
                LoopType::Reverse
            } else {
                LoopType::Forward
            };
            let l = SampleLoop { id, loop_type, start, end, fraction, play_count };
            proof {
                assert(l == spec_loop_decode(d@, 36 + 24 * (k as int)));
            }
            loops.push(l);
            k = k + 1;
        }
        let c = SamplerChunk {
            manufacturer: read_u32_le(d, 0).unwrap(),
            product: read_u32_le(d, 4).unwrap(),
            sample_period: read_u32_le(d, 8).unwrap(),
            midi_unity_note: read_u32_le(d, 12).unwrap(),
            midi_pitch_fraction: read_u32_le(d, 16).unwrap(),
            smpte_format: read_u32_le(d, 20).unwrap(),
            smpte_offset: read_u32_le(d, 24).unwrap(),
            sample_loops: loops,
            sampler_data: Vec::new(),
        };
        proof {
            assert(c@.sample_loops =~= spec_smpl_decode(chunk@.1).sample_loops);
            assert(c@.sampler_data =~= spec_smpl_decode(chunk@.1).sampler_data);
        }
        Ok(c)
    }

    /// Encode the record: seven fixed fields, the true loop count, the
    /// extra-data size, every loop record, then the extra data.
    pub fn serialise(&self) -> (r: Vec<u8>)
        requires
            self.sample_loops@.len() <= u32::MAX,
            self.sampler_data@.len() <= u32::MAX,
        ensures
            r@ == spec_smpl_bytes(self@),
            r@.len() == 36 + 24 * self.sample_loops@.len() + self.sampler_data@.len(),
    {
        let mut out: Vec<u8> = Vec::new();
        push_u32_le(&mut out, self.manufacturer);
        push_u32_le(&mut out, self.product);
        push_u32_le(&mut out, self.sample_period);
        push_u32_le(&mut out, self.midi_unity_note);
        push_u32_le(&mut out, self.midi_pitch_fraction);
        push_u32_le(&mut out, self.smpte_format);
        push_u32_le(&mut out, self.smpte_offset);
        push_u32_le(&mut out, self.sample_loops.len() as u32);
        push_u32_le(&mut out, self.sampler_data.len() as u32);
        let ghost head = out@;
        let ghost ls = self.sample_loops@;
        proof {
            assert(spec_loops_bytes(ls.take(0)) =~= Seq::<u8>::empty());
            assert(out@ =~= head + spec_loops_bytes(ls.take(0)));
        }
        let mut k: usize = 0;
        while k < self.sample_loops.len()
            invariant
                k <= ls.len(),
                ls == self.sample_loops@,
                out@ == head + spec_loops_bytes(ls.take(k as int)),
            decreases ls.len() - k,
        {
            let ghost pre = out@;
            let l = self.sample_loops[k];
            push_u32_le(&mut out, l.id);
            let code: u32 = match l.loop_type {
                LoopType::Forward => 0,
                LoopType::PingPong => 1,
                LoopType::Reverse => 2,
            };
            push_u32_le(&mut out, code);
            push_u32_le(&mut out, l.start);
            push_u32_le(&mut out, l.end);
            push_u32_le(&mut out, l.fraction);
            push_u32_le(&mut out, l.play_count);
            proof {
                assert(out@ =~= pre + spec_loop_bytes(ls[k as int]));
                lemma_loops_bytes_push(ls.take(k as int), ls[k as int]);
                assert(ls.take(k as int).push(ls[k as int]) =~= ls.take(k + 1 as int));
                assert(out@ =~= head + spec_loops_bytes(ls.take(k + 1 as int)));
            }
            k = k + 1;
        }
        push_bytes(&mut out, &self.sampler_data);
        proof {
            assert(ls.take(ls.len() as int) =~= ls);
            assert(out@ =~= spec_smpl_bytes(self@));
            lemma_loops_bytes_len(ls);
        }
        out
    }
}

impl RiffFile {
    /// True when the file's first sampler chunk, if there is one, is long
    /// enough to decode.
    pub open spec fn smpl_decodable(&self) -> bool {
        let i = spec_find_index(self.chunks_model(), ChunkType::Sampler);
        i != -1 ==> spec_smpl_len_ok(self.chunks_model()[i].1)
    }

    /// The record decoded from the file's first sampler chunk, or the
    /// zero-valued default if the file has none.
    pub fn get_sampler_chunk(&self) -> (r: SamplerChunk)
        requires
            self.smpl_decodable(),
        ensures
            spec_find_index(self.chunks_model(), ChunkType::Sampler) == -1 ==> r@
                == spec_smpl_default(),
            spec_find_index(self.chunks_model(), ChunkType::Sampler) != -1 ==> r@
                == spec_smpl_decode(
                self.chunks_model()[spec_find_index(self.chunks_model(), ChunkType::Sampler)].1,
            ),
    {
        proof {
            lemma_find_index(self.chunks_model(), ChunkType::Sampler);
        }
        match self.find_chunk_by_type(ChunkType::Sampler) {
            Some(c) => match SamplerChunk::from_chunk(c) {
                Ok(smpl) => smpl,
                Err(_) => {
                    proof {
                        assert(false);
                    }
                    SamplerChunk::default()
                },
            },
            None => SamplerChunk::default(),
        }
    }

    /// Store the record as the file's single sampler chunk, replacing any
    /// existing sampler chunks and appending at the end of the sequence.
    pub fn set_sampler_chunk(&mut self, chunk: SamplerChunk)
        requires
            chunk.sample_loops@.len() <= u32::MAX,
            chunk.sampler_data@.len() <= u32::MAX,
        ensures
            final(self).chunks_model() == spec_replace(
                old(self).chunks_model(),
                ChunkType::Sampler,
                spec_smpl_bytes(chunk@),
            ),
            final(self).filename == old(self).filename,
    {
        let data = chunk.serialise();
        self.add_or_replace_chunk_by_type(RiffChunk { header: ChunkType::Sampler, data });
    }
}

} // verus!
