//! The typed WAVE file view: a required format chunk and data chunk plus
//! optional sampler, instrument and cue-point metadata, parsed from and
//! serialized to whole-file bytes.

use vstd::prelude::*;

use crate::cue::{
    lemma_cues_bytes_len, lemma_cues_bytes_push, spec_cue_decode, spec_cues_bytes, CuePoint,
};
use crate::inst::{spec_inst_bytes, spec_inst_decode, InstrumentChunk};
use crate::midi::{note_num_to_name, spec_note_name};
use crate::riff::{
    spec_chunk_bytes, spec_parse_chunks, spec_read_err, spec_read_ok, ChunkType, RiffFile,
};
use crate::smpl::{
    spec_smpl_bytes, spec_smpl_decode, spec_smpl_len_ok, SamplerChunk, SamplerModel,
};
use crate::utils::{
    le32_bytes, le32_val, push_bytes, push_u32_le, read_bytes, read_u32_le, spec_padded_size,
    spec_trim, trim,
};
use crate::RiffError;

verus! {

/// The audio-format chunk, opaque to this crate beyond its length.
pub struct FormatChunk {
    pub data: Vec<u8>,
}

impl FormatChunk {
    /// The payload length.
    pub fn len(&self) -> (r: u32)
        requires
            self.data@.len() <= u32::MAX,
        ensures
            r == self.data@.len(),
    {
        self.data.len() as u32
    }
}

/// The raw audio sample bytes, opaque to this crate.
pub struct DataChunk {
    pub data: Vec<u8>,
}

impl DataChunk {
    /// The payload length.
    pub fn len(&self) -> (r: u32)
        requires
            self.data@.len() <= u32::MAX,
        ensures
            r == self.data@.len(),
    {
        self.data.len() as u32
    }
}

/// A WAVE file seen through its typed chunks: the required format and data
/// chunks, the optional sampler and instrument chunks, and the cue points.
pub struct WavFile {
    pub format_chunk: FormatChunk,
    pub data_chunk: DataChunk,
    pub sampler_chunk: Option<SamplerChunk>,
    /// Describes how the waveform is played as an instrument sound; at most
    /// one instrument chunk appears in a WAVE file.
    pub instrument_chunk: Option<InstrumentChunk>,
    pub cue_points: Vec<CuePoint>,
}

/// The mathematical model of a typed WAVE file.
pub struct WavModel {
    pub fmt: Seq<u8>,
    pub data: Seq<u8>,
    pub smpl: Option<SamplerModel>,
    pub inst: Option<InstrumentChunk>,
    pub cues: Seq<CuePoint>,
}

impl View for WavFile {
    type V = WavModel;

    open spec fn view(&self) -> WavModel {
        WavModel {
            fmt: self.format_chunk.data@,
            data: self.data_chunk.data@,
            smpl: match self.sampler_chunk {
                Some(s) => Some(s@),
                None => None,
            },
            inst: self.instrument_chunk,
            cues: self.cue_points@,
        }
    }
}

/// The payload size of a sampler record: 36 fixed bytes plus 24 per loop
/// plus the extra data.
pub open spec fn spec_smpl_payload_len(m: SamplerModel) -> int {
    36 + 24 * m.sample_loops.len() as int + m.sampler_data.len() as int
}

/// The cue chunk payload size: a four-byte count plus 24 bytes per point.
pub open spec fn spec_cue_payload_len(cs: Seq<CuePoint>) -> int {
    4 + 24 * cs.len() as int
}

/// The declared whole-file size of a typed file: 4 for the `WAVE` marker
/// plus 8 header bytes and the padded payload for every chunk present.
pub open spec fn spec_wav_total(w: WavModel) -> int {
    4 + 8 + spec_padded_size(w.fmt.len() as int) + 8 + spec_padded_size(w.data.len() as int)
        + (match w.inst {
        Some(_) => 16int,
        None => 0int,
    }) + (if w.cues.len() > 0 {
        8 + spec_cue_payload_len(w.cues)
    } else {
        0int
    }) + (match w.smpl {
        Some(s) => 8 + spec_padded_size(spec_smpl_payload_len(s)),
        None => 0int,
    })
}

/// The cue chunk payload: the point count, then every point in order.
pub open spec fn spec_cue_payload(cs: Seq<CuePoint>) -> Seq<u8> {
    le32_bytes(cs.len() as int) + spec_cues_bytes(cs)
}

/// The whole-file bytes of a typed file: the `RIFF` marker, the declared
/// total size, the `WAVE` marker, then the format, data, instrument, cue
/// and sampler chunks, each present chunk with canonical tag, unpadded
/// length, and payload padded to an even byte count.
pub open spec fn spec_wav_bytes(w: WavModel) -> Seq<u8> {
    seq![0x52u8, 0x49u8, 0x46u8, 0x46u8] + le32_bytes(spec_wav_total(w)) + seq![
        0x57u8,
        0x41u8,
        0x56u8,
        0x45u8,
    ] + spec_chunk_bytes(ChunkType::Format, w.fmt) + spec_chunk_bytes(ChunkType::Data, w.data) + (
    match w.inst {
        Some(i) => spec_chunk_bytes(ChunkType::Instrument, spec_inst_bytes(i)),
        None => Seq::<u8>::empty(),
    }) + (if w.cues.len() > 0 {
        spec_chunk_bytes(ChunkType::Cue, spec_cue_payload(w.cues))
    } else {
        Seq::<u8>::empty()
    }) + (match w.smpl {
        Some(s) => spec_chunk_bytes(ChunkType::Sampler, spec_smpl_bytes(s)),
        None => Seq::<u8>::empty(),
    })
}

/// The intermediate state of folding a chunk sequence into a typed file.
pub struct WavAcc {
    pub fmt: Option<Seq<u8>>,
    pub data: Option<Seq<u8>>,
    pub smpl: Option<SamplerModel>,
    pub inst: Option<InstrumentChunk>,
    pub cues: Seq<CuePoint>,
}

/// The empty fold state: nothing seen yet.
pub open spec fn spec_wav_acc0() -> WavAcc {
    WavAcc { fmt: None, data: None, smpl: None, inst: None, cues: Seq::empty() }
}

/// How one chunk updates the fold state. A later chunk of the same kind
/// replaces an earlier one; each cue chunk contributes its first point; a
/// format chunk shorter than 16 bytes and a count field that implies more
/// bytes than the chunk holds are invalid; unrecognized and purely
/// informational chunks are skipped.
pub open spec fn spec_wav_step(acc: WavAcc, c: (ChunkType, Seq<u8>)) -> Result<WavAcc, RiffError> {
    match c.0 {
        ChunkType::Format => if c.1.len() < 16 {
            Err(RiffError::InvalidChunkSize)
        } else {
            Ok(WavAcc { fmt: Some(c.1), ..acc })
        },
        ChunkType::Data => Ok(WavAcc { data: Some(c.1), ..acc }),
        ChunkType::Cue => if c.1.len() < 4 {
            Err(RiffError::TruncatedInput)
        } else {
            let n = le32_val(c.1.subrange(0, 4));
            if c.1.len() < 4 + 24 * n {
                Err(RiffError::InvalidChunkSize)
            } else if n == 0 {
                Ok(acc)
            } else {
                Ok(WavAcc { cues: acc.cues.push(spec_cue_decode(c.1, 4)), ..acc })
            }
        },
        ChunkType::Playlist => if c.1.len() < 4 {
            Err(RiffError::TruncatedInput)
        } else {
            let n = le32_val(c.1.subrange(0, 4));
            if c.1.len() < 12 * n {
                Err(RiffError::InvalidChunkSize)
            } else {
                Ok(acc)
            }
        },
        ChunkType::Sampler => if !spec_smpl_len_ok(c.1) {
            Err(RiffError::TruncatedInput)
        } else {
            Ok(WavAcc { smpl: Some(spec_smpl_decode(c.1)), ..acc })
        },
        ChunkType::Instrument => if c.1.len() < 7 {
            Err(RiffError::TruncatedInput)
        } else {
            Ok(WavAcc { inst: Some(spec_inst_decode(c.1)), ..acc })
        },
        _ => Ok(acc),
    }
}

/// Fold a chunk sequence left to right; the first invalid chunk aborts.
pub open spec fn spec_wav_fold(m: Seq<(ChunkType, Seq<u8>)>, acc: WavAcc) -> Result<
    WavAcc,
    RiffError,
>
    decreases m.len(),
{
    if m.len() == 0 {
        Ok(acc)
    } else {
        match spec_wav_step(acc, m[0]) {
            Ok(a2) => spec_wav_fold(m.drop_first(), a2),
            Err(e) => Err(e),
        }
    }
}

/// What reading whole-file bytes as a typed file yields: the container
/// parse, the fold over its chunks, and the demand that a format chunk and
/// a data chunk were present.
pub open spec fn spec_wav_outcome(b: Seq<u8>) -> Result<WavModel, RiffError> {
    if !spec_read_ok(b) {
        Err(spec_read_err(b))
    } else {
        match spec_wav_fold(spec_parse_chunks(b, 12), spec_wav_acc0()) {
            Err(e) => Err(e),
            Ok(acc) => match (acc.fmt, acc.data) {
                (Some(f), Some(d)) => Ok(
                    WavModel { fmt: f, data: d, smpl: acc.smpl, inst: acc.inst, cues: acc.cues },
                ),
                _ => Err(RiffError::TruncatedInput),
            },
        }
    }
}

/// Append one chunk to `out`: canonical tag, unpadded length, payload, and
/// one zero byte when the payload length is odd.
fn write_chunk(out: &mut Vec<u8>, kind: ChunkType, data: &Vec<u8>)
    requires
        data@.len() < u32::MAX,
    ensures
        final(out)@ == old(out)@ + spec_chunk_bytes(kind, data@),
{
    let ghost pre = out@;
    let tag = kind.to_tag();
    out.push(tag[0]);
    out.push(tag[1]);
    out.push(tag[2]);
    out.push(tag[3]);
    push_u32_le(out, data.len() as u32);
    push_bytes(out, data);
    if data.len() % 2 == 1 {
        out.push(0u8);
    }
    proof {
        assert(out@ =~= pre + spec_chunk_bytes(kind, data@));
    }
}

impl WavFile {
    /// The declared whole-file size: 4 for the `WAVE` marker plus 8 header
    /// bytes and the padded payload size of every chunk present.
    pub fn len(&self) -> (r: u32)
        requires
            spec_wav_total(self@) <= u32::MAX,
        ensures
            r == spec_wav_total(self@),
    {
        let mut total: u32 = 4;
        let flen = self.format_chunk.data.len();
        total = total + 8 + (flen as u32) + (flen as u32) % 2;
        let dlen = self.data_chunk.data.len();
        total = total + 8 + (dlen as u32) + (dlen as u32) % 2;
        if self.instrument_chunk.is_some() {
            total = total + 16;
        }
        total = total + self.cue_chunk_len();
        if self.cue_points.len() > 0 {
            total = total + 8;
        }
        match &self.sampler_chunk {
            Some(s) => {
                let sl = s.len();
                total = total + 8 + sl + sl % 2;
            },
            None => {},
        }
        total
    }

    /// The cue chunk's payload size: a four-byte count plus 24 bytes per
    /// point, or 0 when there are no cue points.
    pub fn cue_chunk_len(&self) -> (r: u32)
        requires
            4 + 24 * self.cue_points@.len() <= u32::MAX,
        ensures
            self.cue_points@.len() == 0 ==> r == 0,
            self.cue_points@.len() > 0 ==> r == spec_cue_payload_len(self.cue_points@),
    {
        if self.cue_points.len() == 0 {
            0
        } else {
            4u32 + (self.cue_points.len() as u32) * 24
        }
    }

    /// Parse whole-file bytes into a typed file: the container parse
    /// followed by the typed decode of each recognized chunk; fails if the
    /// file lacks a format or data chunk.
    pub fn read(bytes: &Vec<u8>) -> (r: Result<Self, RiffError>)
        ensures
            spec_wav_outcome(bytes@) matches Err(e) ==> (r matches Err(e2) && e2 == e),
            spec_wav_outcome(bytes@) matches Ok(wm) ==> (r matches Ok(w) && w@ == wm),
    {
        let rf = match RiffFile::read(bytes, String::new()) {
            Ok(f) => f,
            Err(e) => {
                return Err(e);
            },
        };
        let ghost m = spec_parse_chunks(bytes@, 12);
        let mut fmt: Option<FormatChunk> = None;
        let mut dat: Option<DataChunk> = None;
        let mut smpl: Option<SamplerChunk> = None;
        let mut inst: Option<InstrumentChunk> = None;
        let mut cues: Vec<CuePoint> = Vec::new();
        let mut i: usize = 0;
        proof {
            assert(m.skip(0) =~= m);
            assert(cues@ =~= Seq::<CuePoint>::empty());
        }
        while i < rf.chunks.len()
            invariant
                0 <= i <= rf.chunks@.len(),
                spec_read_ok(bytes@),
                m == spec_parse_chunks(bytes@, 12),
                rf.chunks_model() == m,
                m.len() == rf.chunks@.len(),
                spec_wav_fold(m, spec_wav_acc0()) == spec_wav_fold(
                    m.skip(i as int),
                    WavAcc {
                        fmt: match fmt {
                            Some(ref f) => Some(f.data@),
                            None => None,
                        },
                        data: match dat {
                            Some(ref d) => Some(d.data@),
                            None => None,
                        },
                        smpl: match smpl {
                            Some(ref s) => Some(s@),
                            None => None,
                        },
                        inst: inst,
                        cues: cues@,
                    },
                ),
            decreases rf.chunks@.len() - i,
        {
            let ghost acc = WavAcc {
                fmt: match fmt {
                    Some(ref f) => Some(f.data@),
                    None => None,
                },
                data: match dat {
                    Some(ref d) => Some(d.data@),
                    None => None,
                },
                smpl: match smpl {
                    Some(ref s) => Some(s@),
                    None => None,
                },
                inst: inst,
                cues: cues@,
            };
            proof {
                assert(m.skip(i as int)[0] == m[i as int]);
                assert(m.skip(i as int).drop_first() =~= m.skip(i + 1 as int));
            }
            let c = &rf.chunks[i];
            proof {
                assert(c@ == m[i as int]);
            }
            match c.header {
                ChunkType::Format => {
                    if c.data.len() < 16 {
                        proof {
                            assert(spec_wav_fold(m.skip(i as int), acc) == Err::<WavAcc, RiffError>(
                                RiffError::InvalidChunkSize,
                            ));
                        }
                        return Err(RiffError::InvalidChunkSize);
                    }
                    let d = match read_bytes(&c.data, 0, c.data.len()) {
                        Ok(d) => d,
                        Err(_) => {
                            proof {
                                assert(false);
                            }
                            return Err(RiffError::TruncatedInput);
                        },
                    };
                    proof {
                        assert(d@ =~= c@.1);
                        assert(spec_wav_step(acc, m[i as int]) == Ok::<WavAcc, RiffError>(
                            WavAcc { fmt: Some(c@.1), ..acc },
                        ));
                    }
                    fmt = Some(FormatChunk { data: d });
                },
                ChunkType::Data => {
                    let d = match read_bytes(&c.data, 0, c.data.len()) {
                        Ok(d) => d,
                        Err(_) => {
                            proof {
                                assert(false);
                            }
                            return Err(RiffError::TruncatedInput);
                        },
                    };
                    proof {
                        assert(d@ =~= c@.1);
                        assert(spec_wav_step(acc, m[i as int]) == Ok::<WavAcc, RiffError>(
                            WavAcc { data: Some(c@.1), ..acc },
                        ));
                    }
                    dat = Some(DataChunk { data: d });
                },
                ChunkType::Cue => {
                    if c.data.len() < 4 {
                        proof {
                            assert(spec_wav_fold(m.skip(i as int), acc) == Err::<WavAcc, RiffError>(
                                RiffError::TruncatedInput,
                            ));
                        }
                        return Err(RiffError::TruncatedInput);
                    }
                    let n = match read_u32_le(&c.data, 0) {
                        Ok(v) => v,
                        Err(_) => {
                            proof {
                                assert(false);
                            }
                            return Err(RiffError::TruncatedInput);
                        },
                    };
                    if (c.data.len() as u64) < 4 + 24 * (n as u64) {
                        proof {
                            assert(spec_wav_fold(m.skip(i as int), acc) == Err::<WavAcc, RiffError>(
                                RiffError::InvalidChunkSize,
                            ));
                        }
                        return Err(RiffError::InvalidChunkSize);
                    }
                    if n > 0 {
                        let p = CuePoint {
                            id: read_u32_le(&c.data, 4).unwrap(),
                            position: read_u32_le(&c.data, 8).unwrap(),
                            data_chunk_id: read_u32_le(&c.data, 12).unwrap(),
                            chunk_start: read_u32_le(&c.data, 16).unwrap(),
                            block_start: read_u32_le(&c.data, 20).unwrap(),
                            sample_offset: read_u32_le(&c.data, 24).unwrap(),
                        };
                        proof {
                            assert(p == spec_cue_decode(c@.1, 4));
                            assert(spec_wav_step(acc, m[i as int]) == Ok::<WavAcc, RiffError>(
                                WavAcc { cues: acc.cues.push(spec_cue_decode(c@.1, 4)), ..acc },
                            ));
                        }
                        cues.push(p);
                    } else {
                        proof {
                            assert(spec_wav_step(acc, m[i as int]) == Ok::<WavAcc, RiffError>(acc));
                        }
                    }
                },
                ChunkType::Playlist => {
                    if c.data.len() < 4 {
                        proof {
                            assert(spec_wav_fold(m.skip(i as int), acc) == Err::<WavAcc, RiffError>(
                                RiffError::TruncatedInput,
                            ));
                        }
                        return Err(RiffError::TruncatedInput);
                    }
                    let n = match read_u32_le(&c.data, 0) {
                        Ok(v) => v,
                        Err(_) => {
                            proof {
                                assert(false);
                            }
                            return Err(RiffError::TruncatedInput);
                        },
                    };
                    if (c.data.len() as u64) < 12 * (n as u64) {
                        proof {
                            assert(spec_wav_fold(m.skip(i as int), acc) == Err::<WavAcc, RiffError>(
                                RiffError::InvalidChunkSize,
                            ));
                        }
                        return Err(RiffError::InvalidChunkSize);
                    }
                    proof {
                        assert(spec_wav_step(acc, m[i as int]) == Ok::<WavAcc, RiffError>(acc));
                    }
                },
                ChunkType::Sampler => {
                    match SamplerChunk::from_chunk(c) {
                        Ok(s) => {
                            proof {
                                assert(spec_wav_step(acc, m[i as int]) == Ok::<WavAcc, RiffError>(
                                    WavAcc { smpl: Some(spec_smpl_decode(c@.1)), ..acc },
                                ));
                            }
                            smpl = Some(s);
                        },
                        Err(e) => {
                            proof {
                                assert(spec_wav_fold(m.skip(i as int), acc) == Err::<WavAcc, RiffError>(e));
                            }
                            return Err(e);
                        },
                    }
                },
                ChunkType::Instrument => {
                    match InstrumentChunk::from_chunk(c) {
                        Ok(ic) => {
                            proof {
                                assert(spec_wav_step(acc, m[i as int]) == Ok::<WavAcc, RiffError>(
                                    WavAcc { inst: Some(spec_inst_decode(c@.1)), ..acc },
                                ));
                            }
                            inst = Some(ic);
                        },
                        Err(e) => {
                            proof {
                                assert(spec_wav_fold(m.skip(i as int), acc) == Err::<WavAcc, RiffError>(e));
                            }
                            return Err(e);
                        },
                    }
                },
                _ => {
                    proof {
                        assert(spec_wav_step(acc, m[i as int]) == Ok::<WavAcc, RiffError>(acc));
                    }
                },
            }
            i = i + 1;
        }
        proof {
            assert(m.skip(m.len() as int) =~= Seq::<(ChunkType, Seq<u8>)>::empty());
        }
        match (fmt, dat) {
            (Some(f), Some(d)) => {
                let w = WavFile {
                    format_chunk: f,
                    data_chunk: d,
                    sampler_chunk: smpl,
                    instrument_chunk: inst,
                    cue_points: cues,
                };
                Ok(w)
            },
            _ => Err(RiffError::TruncatedInput),
        }
    }

    /// Serialize a typed file to whole-file bytes, emitting the format,
    /// data, instrument, cue and sampler chunks in that order. Every cue
    /// point is written and the declared count is the true count.
    #[verifier::rlimit(100)]
    pub fn write(wav: &WavFile) -> (r: Vec<u8>)
        requires
            spec_wav_total(wav@) <= u32::MAX,
        ensures
            r@ == spec_wav_bytes(wav@),
    {
        let total = wav.len();
        let mut out: Vec<u8> = Vec::new();
        out.push(0x52u8);
        out.push(0x49u8);
        out.push(0x46u8);
        out.push(0x46u8);
        push_u32_le(&mut out, total);
        out.push(0x57u8);
        out.push(0x41u8);
        out.push(0x56u8);
        out.push(0x45u8);
        let ghost g0 = seq![0x52u8, 0x49u8, 0x46u8, 0x46u8] + le32_bytes(spec_wav_total(wav@))
            + seq![0x57u8, 0x41u8, 0x56u8, 0x45u8];
        proof {
            assert(out@ =~= g0);
        }
        write_chunk(&mut out, ChunkType::Format, &wav.format_chunk.data);
        let ghost g1 = g0 + spec_chunk_bytes(ChunkType::Format, wav@.fmt);
        write_chunk(&mut out, ChunkType::Data, &wav.data_chunk.data);
        let ghost g2 = g1 + spec_chunk_bytes(ChunkType::Data, wav@.data);
        let ghost g3 = g2 + (match wav@.inst {
            Some(i) => spec_chunk_bytes(ChunkType::Instrument, spec_inst_bytes(i)),
            None => Seq::<u8>::empty(),
        });
        match &wav.instrument_chunk {
            Some(ic) => {
                let b = ic.serialise();
                write_chunk(&mut out, ChunkType::Instrument, &b);
                proof {
                    assert(out@ =~= g3);
                }
            },
            None => {
                proof {
                    assert(out@ =~= g3);
                }
            },
        }
        if wav.cue_points.len() > 0 {
            let ghost cs = wav.cue_points@;
            let mut payload: Vec<u8> = Vec::new();
            push_u32_le(&mut payload, wav.cue_points.len() as u32);
            proof {
                assert(spec_cues_bytes(cs.take(0)) =~= Seq::<u8>::empty());
                assert(payload@ =~= le32_bytes(cs.len() as int) + spec_cues_bytes(cs.take(0)));
            }
            let mut k: usize = 0;
            while k < wav.cue_points.len()
                invariant
                    0 <= k <= cs.len(),
                    cs == wav.cue_points@,
                    payload@ == le32_bytes(cs.len() as int) + spec_cues_bytes(cs.take(k as int)),
                decreases cs.len() - k,
            {
                let ghost pre = payload@;
                let b = wav.cue_points[k].serialise();
                push_bytes(&mut payload, &b);
                proof {
                    lemma_cues_bytes_push(cs.take(k as int), cs[k as int]);
                    assert(cs.take(k as int).push(cs[k as int]) =~= cs.take(k + 1 as int));
                    assert(payload@ =~= le32_bytes(cs.len() as int) + spec_cues_bytes(
                        cs.take(k + 1 as int),
                    ));
                }
                k = k + 1;
            }
            proof {
                assert(cs.take(cs.len() as int) =~= cs);
                lemma_cues_bytes_len(cs);
                assert(payload@ == spec_cue_payload(wav@.cues));
            }
            write_chunk(&mut out, ChunkType::Cue, &payload);
        }
        let ghost g4 = g3 + (if wav@.cues.len() > 0 {
            spec_chunk_bytes(ChunkType::Cue, spec_cue_payload(wav@.cues))
        } else {
            Seq::<u8>::empty()
        });
        proof {
            assert(out@ =~= g4);
        }
        let ghost g5 = g4 + (match wav@.smpl {
            Some(s) => spec_chunk_bytes(ChunkType::Sampler, spec_smpl_bytes(s)),
            None => Seq::<u8>::empty(),
        });
        match &wav.sampler_chunk {
            Some(s) => {
                let b = s.serialise();
                write_chunk(&mut out, ChunkType::Sampler, &b);
                proof {
                    assert(out@ =~= g5);
                }
            },
            None => {
                proof {
                    assert(out@ =~= g5);
                }
            },
        }
        proof {
            assert(out@ == spec_wav_bytes(wav@));
        }
        out
    }

    /// The output name for this file: the trimmed base name, then the
    /// sampler chunk's unity note name if a sampler chunk is present, then
    /// the `wav` extension.
    pub fn file_name(&self, name: &str) -> (r: String)
        requires
            self@.smpl matches Some(s) ==> s.midi_unity_note <= 255,
        ensures
            self@.smpl matches Some(s) ==> r@ == spec_trim(name@) + seq![' '] + spec_note_name(
                s.midi_unity_note as int,
            ) + seq!['.', 'w', 'a', 'v'],
            self@.smpl is None ==> r@ == spec_trim(name@) + seq!['.', 'w', 'a', 'v'],
    {
        proof {
            reveal_strlit(" ");
            reveal_strlit(".wav");
        }
        let base = trim(name);
        let mut r = String::new();
        r.append(base);
        match &self.sampler_chunk {
            Some(s) => {
                let note = note_num_to_name(s.midi_unity_note);
                r.append(" ");
                r.append(note.as_str());
            },
            None => {},
        }
        r.append(".wav");
        r
    }

    /// The note name of the sampler chunk's unity note; fails with
    /// `WrongChunkKind` when the file has no sampler chunk.
    pub fn pitch_keycenter(&self) -> (r: Result<String, RiffError>)
        requires
            self@.smpl matches Some(s) ==> s.midi_unity_note <= 255,
        ensures
            self@.smpl matches Some(s) ==> (r matches Ok(name) && name@ == spec_note_name(
                s.midi_unity_note as int,
            )),
            self@.smpl is None ==> (r matches Err(e) && e == RiffError::WrongChunkKind),
    {
        match &self.sampler_chunk {
            Some(s) => Ok(note_num_to_name(s.midi_unity_note)),
            None => Err(RiffError::WrongChunkKind),
        }
    }

    /// The note names of the instrument chunk's low and high notes; fails
    /// with `WrongChunkKind` when the file has no instrument chunk.
    pub fn key_range(&self) -> (r: Result<(String, String), RiffError>)
        ensures
            self@.inst matches Some(i) ==> (r matches Ok(p) && p.0@ == spec_note_name(
                i.low_note as int,
            ) && p.1@ == spec_note_name(i.high_note as int)),
            self@.inst is None ==> (r matches Err(e) && e == RiffError::WrongChunkKind),
    {
        match &self.instrument_chunk {
            Some(i) => Ok(
                (note_num_to_name(i.low_note as u32), note_num_to_name(i.high_note as u32)),
            ),
            None => Err(RiffError::WrongChunkKind),
        }
    }

    /// The first sample loop's start and end offsets; fails with
    /// `WrongChunkKind` when the file has no sampler chunk or its loop list
    /// is empty.
    pub fn loop_points(&self) -> (r: Result<(u32, u32), RiffError>)
        ensures
            (self@.smpl matches Some(s) && s.sample_loops.len() > 0) ==> (r matches Ok(p) && p.0
                == self@.smpl.unwrap().sample_loops[0].start && p.1
                == self@.smpl.unwrap().sample_loops[0].end),
            (self@.smpl matches Some(s) && s.sample_loops.len() == 0) ==> (r matches Err(e) && e
                == RiffError::WrongChunkKind),
            self@.smpl is None ==> (r matches Err(e) && e == RiffError::WrongChunkKind),
    {
        match &self.sampler_chunk {
            Some(s) => {
                if s.sample_loops.len() > 0 {
                    let l = s.sample_loops[0];
                    Ok((l.start, l.end))
                } else {
                    Err(RiffError::WrongChunkKind)
                }
            },
            None => Err(RiffError::WrongChunkKind),
        }
    }
}

} // verus!
