//! Helpers for the tagging workflow: the description of one output sample
//! and the output-name rule.

use vstd::prelude::*;

use crate::inst::spec_inst_decode;
use crate::midi::{note_num_to_name, spec_note_name};
use crate::riff::{spec_find_index, ChunkType, RiffFile};
use crate::utils::{spec_trim, trim};

verus! {

/// One sample file about to be written, with the instrument-region values
/// chosen for it.
pub struct DestinationSample {
    pub output_filename: String,
    pub file: RiffFile,
    pub unity_note: u8,
    pub lokey: u8,
    pub hikey: u8,
    pub lovel: u8,
    pub hivel: u8,
    pub loop_start: u32,
    pub loop_end: u32,
}

/// The key-range guess for a set of samples sorted by unity note: the first
/// region reaches down to note 0 and the last up to note 127, and each
/// region ends one semitone below the next sample's unity note (so every
/// other region starts at its own unity note).
pub fn assign_key_ranges(notes: &Vec<u8>) -> (r: Vec<(u8, u8)>)
    requires
        forall|i: int| 1 <= i < notes@.len() ==> #[trigger] notes@[i] >= 1,
    ensures
        r@.len() == notes@.len(),
        forall|i: int|
            0 <= i < r@.len() ==> #[trigger] r@[i].0 == if i == 0 {
                0u8
            } else {
                notes@[i]
            },
        forall|i: int|
            0 <= i < r@.len() ==> #[trigger] r@[i].1 == if i + 1 == r@.len() {
                127u8
            } else {
                (notes@[i + 1] - 1) as u8
            },
{
    let n = notes.len();
    let mut r: Vec<(u8, u8)> = Vec::new();
    let mut i: usize = 0;
    while i < n
        invariant
            0 <= i <= n,
            n == notes@.len(),
            r@.len() == i,
            forall|j: int| 1 <= j < notes@.len() ==> #[trigger] notes@[j] >= 1,
            forall|j: int|
                0 <= j < i ==> #[trigger] r@[j].0 == if j == 0 {
                    0u8
                } else {
                    notes@[j]
                },
            forall|j: int|
                0 <= j < i ==> #[trigger] r@[j].1 == if j + 1 == n {
                    127u8
                } else {
                    (notes@[j + 1] - 1) as u8
                },
        decreases n - i,
    {
        let lo: u8 = if i == 0 {
            0
        } else {
            notes[i]
        };
        let hi: u8 = if i + 1 == n {
            127
        } else {
            notes[i + 1] - 1
        };
        r.push((lo, hi));
        i = i + 1;
    }
    r
}

/// The output name for a file: the trimmed instrument name, then the
/// instrument chunk's unshifted note name if the file has an instrument
/// chunk, then the `wav` extension.
pub fn file_name(wav: &RiffFile, name: &str) -> (r: String)
    requires
        wav.inst_decodable(),
    ensures
        spec_find_index(wav.chunks_model(), ChunkType::Instrument) != -1 ==> r@ == spec_trim(name@)
            + seq![' '] + spec_note_name(
            spec_inst_decode(
                wav.chunks_model()[spec_find_index(wav.chunks_model(), ChunkType::Instrument)].1,
            ).unshifted_note as int,
        ) + seq!['.', 'w', 'a', 'v'],
        spec_find_index(wav.chunks_model(), ChunkType::Instrument) == -1 ==> r@ == spec_trim(name@)
            + seq!['.', 'w', 'a', 'v'],
{
    proof {
        reveal_strlit(" ");
        reveal_strlit(".wav");
    }
    let base = trim(name);
    let mut r = String::new();
    r.append(base);
    if wav.find_chunk_by_type(ChunkType::Instrument).is_some() {
        let inst = wav.get_instrument_chunk();
        let note = note_num_to_name(inst.unshifted_note as u32);
        r.append(" ");
        r.append(note.as_str());
    }
    r.append(".wav");
    r
}

} // verus!
