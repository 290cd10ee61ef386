//! Reader/writer for the RIFF/WAVE container format, specialized for
//! round-tripping and mutating instrument-metadata sub-chunks (format, data,
//! instrument, sampler, cue) used by music sample libraries.
//!
//! The crate models a WAVE file as an ordered sequence of raw chunks
//! ([`riff::RiffFile`]), offers typed codecs for the instrument, sampler and
//! cue chunks, and a small MIDI note-name codec. Payloads are stored unpadded
//! in memory; the single zero padding byte for odd-length chunks exists only
//! on disk.

use vstd::prelude::*;

pub mod utils;
pub mod midi;
pub mod riff;
pub mod inst;
pub mod smpl;
pub mod cue;
pub mod wav;
pub mod commands;
pub mod defaults;

pub use commands::{assign_key_ranges, file_name, DestinationSample};
pub use cue::CuePoint;
pub use defaults::{InstrumentDefaults, RegionDefaults};
pub use inst::InstrumentChunk;
pub use midi::{name_to_note_num, note_num_to_name};
pub use riff::{header_to_rifftype, ChunkType, RiffChunk, RiffFile};
pub use smpl::{LoopType, SampleLoop, SamplerChunk};
pub use utils::{pad_vec, padded_size, read_bytes, str_to_int, trim};
pub use wav::{DataChunk, FormatChunk, WavFile};

verus! {

/// The failure modes of the library.
///
/// `BadMagic`: the `RIFF` or `WAVE` marker is missing or wrong.
/// `TruncatedInput`: the input ended before a complete header, payload or
/// required chunk was available.
/// `InvalidChunkSize`: a self-declared count field implies a payload larger
/// than the chunk actually contains.
/// `WrongChunkKind`: a typed codec was invoked on a chunk of another kind.
/// `MalformedNoteName`: a note name does not match the note-name grammar.
#[derive(Clone, Copy, Debug, PartialEq, Eq, Structural)]
pub enum RiffError {
    BadMagic,
    TruncatedInput,
    InvalidChunkSize,
    WrongChunkKind,
    MalformedNoteName,
}

} // verus!
