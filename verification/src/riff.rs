//! The generic RIFF chunk container: tag classification, the ordered chunk
//! sequence representing one file, whole-file length computation, sequential
//! parsing and sequential serialization with padding.

use vstd::prelude::*;
use vstd::seq_lib::*;

use crate::utils::{
    le32_bytes, le32_val, lemma_le32_bytes_of_val, lemma_le32_roundtrip, padded_size,
    push_bytes, push_u32_le,
    read_bytes, read_u32_le, spec_padded_size,
};
use crate::RiffError;

verus! {

/// One raw chunk: a classification and an exact-length payload. The payload
/// is stored unpadded; the zero padding byte for odd lengths exists only on
/// disk.
pub struct RiffChunk {
    pub header: ChunkType,
    pub data: Vec<u8>,
}

/// A chunk is modelled by its classification and its payload bytes.
impl View for RiffChunk {
    type V = (ChunkType, Seq<u8>);

    open spec fn view(&self) -> (ChunkType, Seq<u8>) {
        (self.header, self.data@)
    }
}

impl RiffChunk {
    /// The unpadded payload length.
    pub fn len(&self) -> (r: usize)
        ensures
            r == self@.1.len(),
    {
        self.data.len()
    }
}

/// The closed set of recognized chunk kinds, plus an opaque variant that
/// carries the exact original tag bytes of an unrecognized chunk so that it
/// round-trips unmodified.
#[derive(Clone, Copy, Debug, PartialEq, Eq, Structural)]
pub enum ChunkType {
    Format,
    Data,
    Fact,
    Cue,
    Playlist,
    List,
    Label,
    Note,
    Acid,
    Instrument,
    Sampler,
    Unknown(u8, u8, u8, u8),
}

/// The ASCII lowercase of a tag byte: tag classification is
/// case-insensitive on read.
pub open spec fn spec_tag_lower(b: u8) -> u8 {
    if 0x41 <= b <= 0x5a {
        (b + 0x20) as u8
    } else {
        b
    }
}

/// True when `t`, case-folded byte by byte, is the four lowercase bytes
/// `a b c d`.
pub open spec fn tag_is(t: Seq<u8>, a: u8, b: u8, c: u8, d: u8) -> bool {
    t.len() == 4 && spec_tag_lower(t[0]) == a && spec_tag_lower(t[1]) == b && spec_tag_lower(t[2])
        == c && spec_tag_lower(t[3]) == d
}

/// The canonical on-disk tag of a chunk kind. The instrument chunk
/// historically has two competing tags (`ltxt` and `inst`); both are accepted
/// on read, and `inst` is the canonical tag emitted on write, matching common
/// modern tooling.
pub open spec fn spec_tag_of(k: ChunkType) -> Seq<u8> {
    match k {
        ChunkType::Format => seq![0x66u8, 0x6du8, 0x74u8, 0x20u8],
        ChunkType::Data => seq![0x64u8, 0x61u8, 0x74u8, 0x61u8],
        ChunkType::Fact => seq![0x66u8, 0x61u8, 0x63u8, 0x74u8],
        ChunkType::Cue => seq![0x63u8, 0x75u8, 0x65u8, 0x20u8],
        ChunkType::Playlist => seq![0x70u8, 0x6cu8, 0x73u8, 0x74u8],
        ChunkType::List => seq![0x6cu8, 0x69u8, 0x73u8, 0x74u8],
        ChunkType::Label => seq![0x6cu8, 0x61u8, 0x62u8, 0x6cu8],
        ChunkType::Note => seq![0x6eu8, 0x6fu8, 0x74u8, 0x65u8],
        ChunkType::Sampler => seq![0x73u8, 0x6du8, 0x70u8, 0x6cu8],
        ChunkType::Instrument => seq![0x69u8, 0x6eu8, 0x73u8, 0x74u8],
        ChunkType::Acid => seq![0x61u8, 0x63u8, 0x69u8, 0x64u8],
        ChunkType::Unknown(a, b, c, d) => seq![a, b, c, d],
    }
}

/// Classification of a four-byte tag: case-insensitive for the recognized
/// tags (each byte is case-folded before comparison), with `ltxt`/`inst`
/// both classified as the instrument chunk; any other tag is preserved
/// verbatim in the `Unknown` variant.
pub open spec fn spec_classify(t: Seq<u8>) -> ChunkType
    recommends
        t.len() == 4,
{
    if tag_is(t, 0x66u8, 0x6du8, 0x74u8, 0x20u8) {
        ChunkType::Format
    } else if tag_is(t, 0x64u8, 0x61u8, 0x74u8, 0x61u8) {
        ChunkType::Data
    } else if tag_is(t, 0x66u8, 0x61u8, 0x63u8, 0x74u8) {
        ChunkType::Fact
    } else if tag_is(t, 0x63u8, 0x75u8, 0x65u8, 0x20u8) {
        ChunkType::Cue
    } else if tag_is(t, 0x70u8, 0x6cu8, 0x73u8, 0x74u8) {
        ChunkType::Playlist
    } else if tag_is(t, 0x6cu8, 0x69u8, 0x73u8, 0x74u8) {
        ChunkType::List
    } else if tag_is(t, 0x6cu8, 0x61u8, 0x62u8, 0x6cu8) {
        ChunkType::Label
    } else if tag_is(t, 0x6eu8, 0x6fu8, 0x74u8, 0x65u8) {
        ChunkType::Note
    } else if tag_is(t, 0x73u8, 0x6du8, 0x70u8, 0x6cu8) {
        ChunkType::Sampler
    } else if tag_is(t, 0x6cu8, 0x74u8, 0x78u8, 0x74u8) || tag_is(t, 0x69u8, 0x6eu8, 0x73u8, 0x74u8) {
        ChunkType::Instrument
    } else if tag_is(t, 0x61u8, 0x63u8, 0x69u8, 0x64u8) {
        ChunkType::Acid
    } else {
        ChunkType::Unknown(t[0], t[1], t[2], t[3])
    }
}

/// A kind is well formed when classifying its canonical tag yields the kind
/// itself; for the `Unknown` variant this says the carried tag bytes are not
/// one of the recognized tags.
pub open spec fn kind_wf(k: ChunkType) -> bool {
    spec_classify(spec_tag_of(k)) == k
}

/// Every recognized kind is well formed, and classification never produces
/// an ill-formed `Unknown`.
pub proof fn lemma_classify_wf(t: Seq<u8>)
    requires
        t.len() == 4,
    ensures
        kind_wf(spec_classify(t)),
        spec_classify(t) matches ChunkType::Unknown(a, b, c, d) ==> spec_tag_of(spec_classify(t))
            == t,
{
    assert(spec_tag_of(spec_classify(t)).len() == 4);
}

/// Every chunk of the sequence has a well-formed kind and a payload that
/// fits the 32-bit length field.
pub open spec fn chunks_wf(m: Seq<(ChunkType, Seq<u8>)>) -> bool {
    forall|i: int|
        0 <= i < m.len() ==> kind_wf(#[trigger] m[i].0) && m[i].1.len() <= u32::MAX
}

impl ChunkType {
    /// The canonical four-byte tag emitted on write for this kind.
    pub fn to_tag(self) -> (r: [u8; 4])
        ensures
            r@ == spec_tag_of(self),
    {
        let r: [u8; 4] = match self {
            ChunkType::Format => [0x66u8, 0x6du8, 0x74u8, 0x20u8],
            ChunkType::Data => [0x64u8, 0x61u8, 0x74u8, 0x61u8],
            ChunkType::Fact => [0x66u8, 0x61u8, 0x63u8, 0x74u8],
            ChunkType::Cue => [0x63u8, 0x75u8, 0x65u8, 0x20u8],
            ChunkType::Playlist => [0x70u8, 0x6cu8, 0x73u8, 0x74u8],
            ChunkType::List => [0x6cu8, 0x69u8, 0x73u8, 0x74u8],
            ChunkType::Label => [0x6cu8, 0x61u8, 0x62u8, 0x6cu8],
            ChunkType::Note => [0x6eu8, 0x6fu8, 0x74u8, 0x65u8],
            ChunkType::Sampler => [0x73u8, 0x6du8, 0x70u8, 0x6cu8],
            ChunkType::Instrument => [0x69u8, 0x6eu8, 0x73u8, 0x74u8],
            ChunkType::Acid => [0x61u8, 0x63u8, 0x69u8, 0x64u8],
            ChunkType::Unknown(a, b, c, d) => [a, b, c, d],
        };
        proof {
            assert(r@ =~= spec_tag_of(self));
        }
        r
    }
}

/// The ASCII lowercase of a tag byte.
fn tag_lower(b: u8) -> (r: u8)
    ensures
        r == spec_tag_lower(b),
{
    if 0x41 <= b && b <= 0x5a {
        b + 0x20
    } else {
        b
    }
}

/// Classify a four-byte chunk tag, case-insensitively.
pub fn header_to_rifftype(tag: [u8; 4]) -> (r: ChunkType)
    ensures
        r == spec_classify(tag@),
{
    let t0 = tag_lower(tag[0]);
    let t1 = tag_lower(tag[1]);
    let t2 = tag_lower(tag[2]);
    let t3 = tag_lower(tag[3]);
    if t0 == 0x66u8 && t1 == 0x6du8 && t2 == 0x74u8 && t3 == 0x20u8 {
        ChunkType::Format
    } else if t0 == 0x64u8 && t1 == 0x61u8 && t2 == 0x74u8 && t3 == 0x61u8 {
        ChunkType::Data
    } else if t0 == 0x66u8 && t1 == 0x61u8 && t2 == 0x63u8 && t3 == 0x74u8 {
        ChunkType::Fact
    } else if t0 == 0x63u8 && t1 == 0x75u8 && t2 == 0x65u8 && t3 == 0x20u8 {
        ChunkType::Cue
    } else if t0 == 0x70u8 && t1 == 0x6cu8 && t2 == 0x73u8 && t3 == 0x74u8 {
        ChunkType::Playlist
    } else if t0 == 0x6cu8 && t1 == 0x69u8 && t2 == 0x73u8 && t3 == 0x74u8 {
        ChunkType::List
    } else if t0 == 0x6cu8 && t1 == 0x61u8 && t2 == 0x62u8 && t3 == 0x6cu8 {
        ChunkType::Label
    } else if t0 == 0x6eu8 && t1 == 0x6fu8 && t2 == 0x74u8 && t3 == 0x65u8 {
        ChunkType::Note
    } else if t0 == 0x73u8 && t1 == 0x6du8 && t2 == 0x70u8 && t3 == 0x6cu8 {
        ChunkType::Sampler
    } else if t0 == 0x6cu8 && t1 == 0x74u8 && t2 == 0x78u8 && t3 == 0x74u8 {
        ChunkType::Instrument
    } else if t0 == 0x69u8 && t1 == 0x6eu8 && t2 == 0x73u8 && t3 == 0x74u8 {
        ChunkType::Instrument
    } else if t0 == 0x61u8 && t1 == 0x63u8 && t2 == 0x69u8 && t3 == 0x64u8 {
        ChunkType::Acid
    } else {
        ChunkType::Unknown(tag[0], tag[1], tag[2], tag[3])
    }
}

/// An ordered sequence of raw chunks plus an informational source name.
/// Order is read order and is significant for re-serialization.
pub struct RiffFile {
    pub filename: String,
    pub chunks: Vec<RiffChunk>,
}

/// The declared whole-file size of a chunk sequence: 4 bytes for the `WAVE`
/// marker plus, for every chunk, 8 header bytes and the padded payload size.
pub open spec fn spec_total_size(m: Seq<(ChunkType, Seq<u8>)>) -> int
    decreases m.len(),
{
    if m.len() == 0 {
        4
    } else {
        spec_total_size(m.drop_last()) + 8 + spec_padded_size(m.last().1.len() as int)
    }
}

/// The declared size of any chunk sequence is at least the 4 bytes of the
/// `WAVE` marker.
pub proof fn lemma_total_size_ge(m: Seq<(ChunkType, Seq<u8>)>)
    ensures
        spec_total_size(m) >= 4,
    decreases m.len(),
{
    if m.len() > 0 {
        lemma_total_size_ge(m.drop_last());
    }
}

/// Growing the chunk sequence grows the declared size.
pub proof fn lemma_total_size_monotonic(m: Seq<(ChunkType, Seq<u8>)>, i: int, j: int)
    requires
        0 <= i <= j <= m.len(),
    ensures
        spec_total_size(m.take(i)) <= spec_total_size(m.take(j)),
    decreases j - i,
{
    if i < j {
        lemma_total_size_monotonic(m, i, j - 1);
        assert(m.take(j).drop_last() =~= m.take(j - 1));
        assert(spec_padded_size(m.take(j).last().1.len() as int) >= 0);
    }
}

/// The first index of a chunk of kind `k` in `m`, or `-1` if there is none.
pub open spec fn spec_find_index(m: Seq<(ChunkType, Seq<u8>)>, k: ChunkType) -> int
    decreases m.len(),
{
    if m.len() == 0 {
        -1
    } else if m[0].0 == k {
        0
    } else {
        let r = spec_find_index(m.drop_first(), k);
        if r == -1 {
            -1
        } else {
            r + 1
        }
    }
}

/// What `spec_find_index` returns: `-1` exactly when no chunk has kind `k`,
/// and otherwise the first index whose chunk has kind `k`.
pub proof fn lemma_find_index(m: Seq<(ChunkType, Seq<u8>)>, k: ChunkType)
    ensures
        spec_find_index(m, k) == -1 ==> forall|j: int| 0 <= j < m.len() ==> m[j].0 != k,
        spec_find_index(m, k) != -1 ==> {
            let i = spec_find_index(m, k);
            &&& 0 <= i < m.len()
            &&& m[i].0 == k
            &&& forall|j: int| 0 <= j < i ==> m[j].0 != k
        },
    decreases m.len(),
{
    if m.len() > 0 && m[0].0 != k {
        lemma_find_index(m.drop_first(), k);
        let r = spec_find_index(m.drop_first(), k);
        if r == -1 {
            assert forall|j: int| 0 <= j < m.len() implies m[j].0 != k by {
                if j >= 1 {
                    assert(m[j] == m.drop_first()[j - 1]);
                }
            }
        } else {
            assert(m[r + 1] == m.drop_first()[r]);
            assert forall|j: int| 0 <= j < r + 1 implies m[j].0 != k by {
                if j >= 1 {
                    assert(m[j] == m.drop_first()[j - 1]);
                }
            }
        }
    }
}

impl RiffFile {
    /// The chunk sequence as its mathematical model.
    pub open spec fn chunks_model(&self) -> Seq<(ChunkType, Seq<u8>)> {
        self.chunks@.map_values(|c: RiffChunk| c@)
    }

    /// The declared whole-file size: 4 for the `WAVE` marker plus 8 header
    /// bytes and the padded payload size of every chunk (the `RIFF` marker
    /// and the size field themselves are not counted).
    pub fn len(&self) -> (r: usize)
        requires
            spec_total_size(self.chunks_model()) <= u32::MAX,
        ensures
            r == spec_total_size(self.chunks_model()),
    {
        let ghost m = self.chunks_model();
        let mut sum: u32 = 4;
        let mut i: usize = 0;
        proof {
            assert(m.take(0) =~= Seq::<(ChunkType, Seq<u8>)>::empty());
        }
        while i < self.chunks.len()
            invariant
                0 <= i <= self.chunks.len(),
                m == self.chunks_model(),
                m.len() == self.chunks@.len(),
                spec_total_size(m) <= u32::MAX,
                sum == spec_total_size(m.take(i as int)),
            decreases self.chunks.len() - i,
        {
            proof {
                lemma_total_size_monotonic(m, i + 1 as int, m.len() as int);
                assert(m.take(m.len() as int) =~= m);
                assert(m.take(i + 1 as int).drop_last() =~= m.take(i as int));
                assert(m.take(i + 1 as int).last() == m[i as int]);
                assert(m[i as int].1 == self.chunks@[i as int].data@);
            }
            let dlen = self.chunks[i].data.len();
            let padded = padded_size(dlen as u32);
            sum = sum + 8 + padded;
            i = i + 1;
        }
        proof {
            assert(m.take(m.len() as int) =~= m);
        }
        sum as usize
    }

    /// Validation hook; every file is currently accepted.
    pub fn validate(&self) -> (r: Result<(), RiffError>)
        ensures
            r matches Ok(u) && u == (),
    {
        Ok(())
    }

    /// The first chunk classified as `chunktype`, if any.
    pub fn find_chunk_by_type(&self, chunktype: ChunkType) -> (r: Option<&RiffChunk>)
        ensures
            spec_find_index(self.chunks_model(), chunktype) == -1 <==> r is None,
            r matches Some(c) ==> c@ == self.chunks_model()[spec_find_index(
                self.chunks_model(),
                chunktype,
            )],
    {
        let ghost m = self.chunks_model();
        proof {
            lemma_find_index(m, chunktype);
        }
        let mut i: usize = 0;
        while i < self.chunks.len()
            invariant
                0 <= i <= self.chunks.len(),
                m == self.chunks_model(),
                m.len() == self.chunks@.len(),
                forall|j: int| 0 <= j < i ==> m[j].0 != chunktype,
            decreases self.chunks.len() - i,
        {
            if self.chunks[i].header == chunktype {
                proof {
                    lemma_find_index_witness(m, chunktype, i as int);
                }
                return Some(&self.chunks[i]);
            }
            i = i + 1;
        }
        None
    }

    /// Remove every chunk of the new chunk's kind, then append the new chunk
    /// at the end of the sequence: at most one chunk per kind going forward.
    pub fn add_or_replace_chunk_by_type(&mut self, chunk: RiffChunk)
        ensures
            final(self).chunks_model() == spec_replace(
                old(self).chunks_model(),
                chunk.header,
                chunk@.1,
            ),
            final(self).filename == old(self).filename,
    {
        let ghost m = old(self).chunks_model();
        let ghost keep = spec_other_kind(chunk.header);
        let kind = chunk.header;
        let mut i: usize = 0;
        let ghost j: int = 0;
        proof {
            assert(m.take(0).filter(keep) =~= Seq::<(ChunkType, Seq<u8>)>::empty());
            assert(m.skip(0) =~= m);
            assert(self.chunks_model() =~= m.take(0).filter(keep) + m.skip(0));
        }
        while i < self.chunks.len()
            invariant
                0 <= j <= m.len(),
                i == m.take(j).filter(keep).len(),
                i <= self.chunks@.len(),
                self.chunks_model() == m.take(j).filter(keep) + m.skip(j),
                self.chunks_model().len() == self.chunks@.len(),
                chunk.header == kind,
                keep == spec_other_kind(chunk.header),
                self.filename == old(self).filename,
            decreases m.len() - j,
        {
            let ghost pre = self.chunks_model();
            let ghost fpart = m.take(j).filter(keep);
            proof {
                assert(pre[i as int] == m.skip(j)[0]);
                assert(m.skip(j)[0] == m[j]);
                Seq::filter_distributes_over_add(m.take(j), seq![m[j]], keep);
                assert(m.take(j) + seq![m[j]] =~= m.take(j + 1));
                reveal_with_fuel(Seq::filter, 2);
                assert(seq![m[j]].drop_last() =~= Seq::<(ChunkType, Seq<u8>)>::empty());
                assert(seq![m[j]].filter(keep) == if keep(m[j]) {
                    seq![m[j]]
                } else {
                    Seq::<(ChunkType, Seq<u8>)>::empty()
                });
            }
            if self.chunks[i].header == kind {
                proof {
                    assert(self.chunks@[i as int].header == pre[i as int].0);
                    assert(!keep(m[j]));
                    assert(m.take(j + 1).filter(keep) =~= fpart);
                }
                self.chunks.remove(i);
                proof {
                    assert(self.chunks_model() =~= pre.remove(i as int));
                    assert(pre.remove(i as int) =~= fpart + m.skip(j + 1)) by {
                        assert(fpart.len() == i);
                        assert(forall|x: int| 0 <= x < m.skip(j + 1).len() ==> m.skip(j + 1)[x]
                            == #[trigger] m.skip(j)[x + 1]);
                    }
                    assert(self.chunks_model() =~= m.take(j + 1).filter(keep) + m.skip(j + 1));
                }
            } else {
                proof {
                    assert(self.chunks@[i as int].header == pre[i as int].0);
                    assert(keep(m[j]));
                    assert(m.take(j + 1).filter(keep) =~= fpart.push(m[j]));
                    assert(self.chunks_model() =~= m.take(j + 1).filter(keep) + m.skip(j + 1))
                        by {
                        assert(forall|x: int| 0 <= x < m.skip(j + 1).len() ==> m.skip(j + 1)[x]
                            == #[trigger] m.skip(j)[x + 1]);
                    }
                }
                i = i + 1;
            }
            proof {
                j = j + 1;
            }
        }
        proof {
            assert(j == m.len());
            assert(m.take(j) =~= m);
            assert(m.skip(j) =~= Seq::<(ChunkType, Seq<u8>)>::empty());
            assert(self.chunks_model() =~= m.filter(keep));
        }
        self.chunks.push(chunk);
        proof {
            assert(self.chunks_model() =~= m.filter(keep).push(chunk@));
        }
    }
}

/// The chunk sequence encoded in `b` from position `pos` on: each chunk is a
/// four-byte tag, a little-endian length, and `padded_size(length)` payload
/// bytes of which the first `length` are kept. Parsing stops at the end of
/// the input or at a truncated trailing chunk, whose bytes are dropped.
pub open spec fn spec_parse_chunks(b: Seq<u8>, pos: int) -> Seq<(ChunkType, Seq<u8>)>
    decreases b.len() - pos,
{
    if pos < 0 || pos + 8 > b.len() {
        Seq::empty()
    } else {
        let len = le32_val(b.subrange(pos + 4, pos + 8));
        let pl = spec_padded_size(len);
        if pos + 8 + pl > b.len() {
            Seq::empty()
        } else {
            seq![(spec_classify(b.subrange(pos, pos + 4)), b.subrange(pos + 8, pos + 8 + len))]
                + spec_parse_chunks(b, pos + 8 + pl)
        }
    }
}

/// Every parsed chunk has a well-formed kind and a payload that fits the
/// 32-bit length field.
pub proof fn lemma_parse_chunks_wf(b: Seq<u8>, pos: int)
    ensures
        chunks_wf(spec_parse_chunks(b, pos)),
    decreases b.len() - pos,
{
    if pos < 0 || pos + 8 > b.len() {
    } else {
        let len = le32_val(b.subrange(pos + 4, pos + 8));
        let pl = spec_padded_size(len);
        if pos + 8 + pl > b.len() {
        } else {
            lemma_classify_wf(b.subrange(pos, pos + 4));
            lemma_parse_chunks_wf(b, pos + 8 + pl);
            assert(0 <= len <= u32::MAX);
            let whole = spec_parse_chunks(b, pos);
            let rest = spec_parse_chunks(b, pos + 8 + pl);
            assert forall|i: int| 0 <= i < whole.len() implies kind_wf(#[trigger] whole[i].0)
                && whole[i].1.len() <= u32::MAX by {
                if i == 0 {
                    assert(whole[0] == (spec_classify(b.subrange(pos, pos + 4)), b.subrange(
                        pos + 8,
                        pos + 8 + len,
                    )));
                } else {
                    assert(whole[i] == rest[i - 1]);
                }
            }
        }
    }
}

/// The first four bytes are the `RIFF` marker.
pub open spec fn spec_is_riff(b: Seq<u8>) -> bool {
    b.len() >= 4 && b[0] == 0x52u8 && b[1] == 0x49u8 && b[2] == 0x46u8 && b[3] == 0x46u8
}

/// Bytes 8 to 11 are the `WAVE` marker.
pub open spec fn spec_is_wave(b: Seq<u8>) -> bool {
    b.len() >= 12 && b[8] == 0x57u8 && b[9] == 0x41u8 && b[10] == 0x56u8 && b[11] == 0x45u8
}

/// A whole file parses when the `RIFF` marker, the 32-bit size field and
/// the `WAVE` marker are all present (the size field itself is
/// informational and not re-validated), and truncation, if any, strikes
/// only after at least one complete chunk: an input that ends inside its
/// first chunk is fatal, while a truncated chunk after a complete one is
/// tolerated.
pub open spec fn spec_read_ok(b: Seq<u8>) -> bool {
    &&& spec_is_riff(b)
    &&& b.len() >= 8
    &&& spec_is_wave(b)
    &&& (spec_parse_chunks(b, 12).len() > 0 || b.len() == 12)
}

/// Which error a failing parse reports: a missing or wrong marker is
/// `BadMagic`; an input that ends inside the size field or inside its first
/// chunk is `TruncatedInput`.
pub open spec fn spec_read_err(b: Seq<u8>) -> RiffError {
    if !spec_is_riff(b) {
        RiffError::BadMagic
    } else if b.len() < 8 {
        RiffError::TruncatedInput
    } else if !(b.len() >= 12 && spec_is_wave(b)) {
        RiffError::BadMagic
    } else {
        RiffError::TruncatedInput
    }
}

/// The on-disk bytes of one chunk: canonical tag, little-endian unpadded
/// length, then the payload padded with one zero byte if its length is odd.
pub open spec fn spec_chunk_bytes(k: ChunkType, data: Seq<u8>) -> Seq<u8> {
    spec_tag_of(k) + le32_bytes(data.len() as int) + data + if data.len() % 2 == 1 {
        seq![0u8]
    } else {
        Seq::<u8>::empty()
    }
}

/// The concatenated on-disk bytes of a chunk sequence, in order.
pub open spec fn spec_chunks_bytes(m: Seq<(ChunkType, Seq<u8>)>) -> Seq<u8>
    decreases m.len(),
{
    if m.len() == 0 {
        Seq::empty()
    } else {
        spec_chunk_bytes(m[0].0, m[0].1) + spec_chunks_bytes(m.drop_first())
    }
}

/// Appending a chunk appends its bytes.
pub proof fn lemma_chunks_bytes_push(m: Seq<(ChunkType, Seq<u8>)>, c: (ChunkType, Seq<u8>))
    ensures
        spec_chunks_bytes(m.push(c)) == spec_chunks_bytes(m) + spec_chunk_bytes(c.0, c.1),
    decreases m.len(),
{
    let cb = spec_chunk_bytes(c.0, c.1);
    if m.len() == 0 {
        assert(m.push(c)[0] == c);
        assert(m.push(c).drop_first() =~= Seq::<(ChunkType, Seq<u8>)>::empty());
        assert(spec_chunks_bytes(m.push(c)) == cb + spec_chunks_bytes(
            Seq::<(ChunkType, Seq<u8>)>::empty(),
        ));
        assert(cb + Seq::<u8>::empty() =~= cb);
        assert(Seq::<u8>::empty() + cb =~= cb);
    } else {
        let hb = spec_chunk_bytes(m[0].0, m[0].1);
        assert(m.push(c).drop_first() =~= m.drop_first().push(c));
        assert(m.push(c)[0] == m[0]);
        lemma_chunks_bytes_push(m.drop_first(), c);
        assert(spec_chunks_bytes(m.push(c)) == hb + (spec_chunks_bytes(m.drop_first()) + cb));
        assert(spec_chunks_bytes(m) + cb == (hb + spec_chunks_bytes(m.drop_first())) + cb);
        assert(hb + (spec_chunks_bytes(m.drop_first()) + cb) =~= (hb + spec_chunks_bytes(
            m.drop_first(),
        )) + cb);
    }
}

/// The whole-file bytes of a chunk sequence: the `RIFF` marker, the declared
/// total size, the `WAVE` marker, then every chunk in order.
pub open spec fn spec_file_bytes(m: Seq<(ChunkType, Seq<u8>)>) -> Seq<u8> {
    seq![0x52u8, 0x49u8, 0x46u8, 0x46u8] + le32_bytes(spec_total_size(m)) + seq![
        0x57u8,
        0x41u8,
        0x56u8,
        0x45u8,
    ] + spec_chunks_bytes(m)
}

impl RiffFile {
    /// Parse a whole file: verify the `RIFF` marker, skip the declared size,
    /// verify the `WAVE` marker, then read chunks until the input ends. A
    /// truncated trailing chunk after at least one complete chunk is
    /// tolerated: parsing stops and the chunks read so far are returned. An
    /// input that ends inside its first chunk fails with `TruncatedInput`.
    pub fn read(bytes: &Vec<u8>, filename: String) -> (r: Result<RiffFile, RiffError>)
        ensures
            spec_read_ok(bytes@) ==> (r matches Ok(f) && f.filename@ == filename@
                && f.chunks_model() == spec_parse_chunks(bytes@, 12)),
            !spec_read_ok(bytes@) ==> (r matches Err(e) && e == spec_read_err(bytes@)),
            chunks_wf(spec_parse_chunks(bytes@, 12)),
    {
        proof {
            lemma_parse_chunks_wf(bytes@, 12);
        }
        if bytes.len() < 4 || !(bytes[0] == 0x52u8 && bytes[1] == 0x49u8 && bytes[2] == 0x46u8
            && bytes[3] == 0x46u8) {
            return Err(RiffError::BadMagic);
        }
        if bytes.len() < 8 {
            return Err(RiffError::TruncatedInput);
        }
        if bytes.len() < 12 || !(bytes[8] == 0x57u8 && bytes[9] == 0x41u8 && bytes[10] == 0x56u8
            && bytes[11] == 0x45u8) {
            return Err(RiffError::BadMagic);
        }
        let n = bytes.len();
        let mut chunks: Vec<RiffChunk> = Vec::new();
        let mut pos: usize = 12;
        proof {
            assert(chunks@.map_values(|c: RiffChunk| c@) =~= Seq::<(ChunkType, Seq<u8>)>::empty());
        }
        loop
            invariant
                12 <= pos <= n,
                n == bytes@.len(),
                spec_parse_chunks(bytes@, 12) == chunks@.map_values(|c: RiffChunk| c@)
                    + spec_parse_chunks(bytes@, pos as int),
            ensures
                spec_parse_chunks(bytes@, 12) == chunks@.map_values(|c: RiffChunk| c@),
            decreases n - pos,
        {
            let ghost pre = chunks@.map_values(|c: RiffChunk| c@);
            if n - pos < 8 {
                proof {
                    assert(spec_parse_chunks(bytes@, pos as int) =~= Seq::<(
                        ChunkType,
                        Seq<u8>,
                    )>::empty());
                    assert(pre + Seq::<(ChunkType, Seq<u8>)>::empty() =~= pre);
                }
                break;
            }
            let tag = [bytes[pos], bytes[pos + 1], bytes[pos + 2], bytes[pos + 3]];
            let chunk_len = match read_u32_le(bytes, pos + 4) {
                Ok(v) => v,
                Err(_) => {
                    proof {
                        assert(false);
                    }
                    return Err(RiffError::TruncatedInput);
                },
            };
            proof {
                assert(tag@ =~= bytes@.subrange(pos as int, pos + 4));
                assert(chunk_len == le32_val(bytes@.subrange(pos + 4, pos + 8)));
            }
            let pl64: u64 = chunk_len as u64 + (chunk_len % 2) as u64;
            let rem: usize = n - (pos + 8);
            if (rem as u64) < pl64 {
                proof {
                    assert(spec_parse_chunks(bytes@, pos as int) =~= Seq::<(
                        ChunkType,
                        Seq<u8>,
                    )>::empty());
                    assert(pre + Seq::<(ChunkType, Seq<u8>)>::empty() =~= pre);
                }
                break;
            }
            let pl = pl64 as usize;
            let data = match read_bytes(bytes, pos + 8, chunk_len as usize) {
                Ok(d) => d,
                Err(_) => {
                    proof {
                        assert(false);
                    }
                    return Err(RiffError::TruncatedInput);
                },
            };
            let header = header_to_rifftype(tag);
            let chunk = RiffChunk { header, data };
            proof {
                assert(chunk@ == (spec_classify(bytes@.subrange(pos as int, pos + 4)),
                    bytes@.subrange(pos + 8, pos + 8 + chunk_len)));
                assert(spec_parse_chunks(bytes@, pos as int) == seq![chunk@]
                    + spec_parse_chunks(bytes@, pos + 8 + pl));
            }
            chunks.push(chunk);
            proof {
                assert(chunks@.map_values(|c: RiffChunk| c@) =~= pre.push(chunk@));
                assert(pre.push(chunk@) + spec_parse_chunks(bytes@, pos + 8 + pl) =~= pre + (
                    seq![chunk@] + spec_parse_chunks(bytes@, pos + 8 + pl)));
            }
            pos = pos + 8 + pl;
        }
        if chunks.len() == 0 && n > 12 {
            return Err(RiffError::TruncatedInput);
        }
        let file = RiffFile { filename, chunks };
        proof {
            assert(file.chunks_model() =~= spec_parse_chunks(bytes@, 12));
        }
        Ok(file)
    }

    /// Serialize a whole file: the `RIFF` marker, the declared total size,
    /// the `WAVE` marker, then each chunk in stored order with its canonical
    /// tag, its unpadded length, and its payload padded to an even number of
    /// bytes with one zero byte if the unpadded length is odd.
    pub fn write(&self) -> (r: Result<Vec<u8>, RiffError>)
        requires
            spec_total_size(self.chunks_model()) <= u32::MAX,
        ensures
            r matches Ok(b) && b@ == spec_file_bytes(self.chunks_model()),
    {
        self.validate()?;
        let ghost m = self.chunks_model();
        let total = self.len();
        let mut out: Vec<u8> = Vec::new();
        out.push(0x52u8);
        out.push(0x49u8);
        out.push(0x46u8);
        out.push(0x46u8);
        push_u32_le(&mut out, total as u32);
        out.push(0x57u8);
        out.push(0x41u8);
        out.push(0x56u8);
        out.push(0x45u8);
        let ghost header = seq![0x52u8, 0x49u8, 0x46u8, 0x46u8] + le32_bytes(spec_total_size(m))
            + seq![0x57u8, 0x41u8, 0x56u8, 0x45u8];
        proof {
            assert(out@ =~= header + spec_chunks_bytes(m.take(0)));
        }
        let mut i: usize = 0;
        while i < self.chunks.len()
            invariant
                0 <= i <= self.chunks@.len(),
                m == self.chunks_model(),
                m.len() == self.chunks@.len(),
                spec_total_size(m) <= u32::MAX,
                out@ == header + spec_chunks_bytes(m.take(i as int)),
            decreases self.chunks@.len() - i,
        {
            let ghost pre = out@;
            proof {
                lemma_total_size_monotonic(m, i + 1 as int, m.len() as int);
                assert(m.take(m.len() as int) =~= m);
                assert(m.take(i + 1 as int).drop_last() =~= m.take(i as int));
                assert(m.take(i + 1 as int).last() == m[i as int]);
                lemma_total_size_ge(m.take(i as int));
                assert(m[i as int].1 == self.chunks@[i as int].data@);
            }
            let tag = self.chunks[i].header.to_tag();
            out.push(tag[0]);
            out.push(tag[1]);
            out.push(tag[2]);
            out.push(tag[3]);
            proof {
                assert(out@ =~= pre + spec_tag_of(m[i as int].0));
            }
            let dlen = self.chunks[i].data.len();
            push_u32_le(&mut out, dlen as u32);
            push_bytes(&mut out, &self.chunks[i].data);
            if dlen % 2 == 1 {
                out.push(0u8);
            }
            proof {
                assert(out@ =~= pre + spec_chunk_bytes(m[i as int].0, m[i as int].1));
                lemma_chunks_bytes_push(m.take(i as int), m[i as int]);
                assert(m.take(i as int).push(m[i as int]) =~= m.take(i + 1 as int));
                assert(out@ =~= header + spec_chunks_bytes(m.take(i + 1 as int)));
            }
            i = i + 1;
        }
        proof {
            assert(m.take(m.len() as int) =~= m);
            assert(out@ =~= spec_file_bytes(m));
        }
        Ok(out)
    }
}

/// Serialized chunks parse back to exactly the chunks that were serialized.
pub proof fn lemma_parse_serialized(b: Seq<u8>, m: Seq<(ChunkType, Seq<u8>)>, pos: int)
    requires
        0 <= pos <= b.len(),
        b.len() == pos + spec_chunks_bytes(m).len(),
        b.subrange(pos, b.len() as int) == spec_chunks_bytes(m),
        chunks_wf(m),
    ensures
        spec_parse_chunks(b, pos) == m,
    decreases m.len(),
{
    if m.len() == 0 {
        assert(spec_parse_chunks(b, pos) =~= m);
    } else {
        let k = m[0].0;
        let d = m[0].1;
        let dl = d.len() as int;
        let pl = spec_padded_size(dl);
        let cb = spec_chunk_bytes(k, d);
        let rest = m.drop_first();
        let rb = spec_chunks_bytes(rest);
        assert(spec_tag_of(k).len() == 4);
        assert(cb.len() == 8 + pl);
        assert(spec_chunks_bytes(m) == cb + rb);
        let tail = b.subrange(pos, b.len() as int);
        assert(b.subrange(pos, pos + 4) =~= cb.subrange(0, 4)) by {
            assert forall|x: int| 0 <= x < 4 implies b.subrange(pos, pos + 4)[x] == cb.subrange(
                0,
                4,
            )[x] by {
                assert(b.subrange(pos, pos + 4)[x] == tail[x]);
            }
        }
        assert(cb.subrange(0, 4) =~= spec_tag_of(k));
        assert(spec_classify(b.subrange(pos, pos + 4)) == k);
        assert(b.subrange(pos + 4, pos + 8) =~= le32_bytes(dl)) by {
            lemma_le32_roundtrip(dl);
            assert forall|x: int| 0 <= x < 4 implies b.subrange(pos + 4, pos + 8)[x] == le32_bytes(
                dl,
            )[x] by {
                assert(b.subrange(pos + 4, pos + 8)[x] == tail[x + 4]);
                assert(cb[x + 4] == le32_bytes(dl)[x]);
            }
        }
        lemma_le32_roundtrip(dl);
        assert(le32_val(b.subrange(pos + 4, pos + 8)) == dl);
        assert(pos + 8 + pl <= b.len());
        assert(b.subrange(pos + 8, pos + 8 + dl) =~= d) by {
            assert forall|x: int| 0 <= x < dl implies b.subrange(pos + 8, pos + 8 + dl)[x] == d[x]
                by {
                assert(b.subrange(pos + 8, pos + 8 + dl)[x] == tail[x + 8]);
                assert(cb[x + 8] == d[x]);
            }
        }
        assert(spec_parse_chunks(b, pos) == seq![(k, d)] + spec_parse_chunks(b, pos + 8 + pl));
        assert(b.subrange(pos + 8 + pl, b.len() as int) =~= rb) by {
            assert forall|x: int| 0 <= x < rb.len() implies b.subrange(
                pos + 8 + pl,
                b.len() as int,
            )[x] == rb[x] by {
                assert(b.subrange(pos + 8 + pl, b.len() as int)[x] == tail[x + 8 + pl]);
                assert((cb + rb)[x + 8 + pl] == rb[x]);
            }
        }
        assert forall|i: int| 0 <= i < rest.len() implies kind_wf(#[trigger] rest[i].0)
            && rest[i].1.len() <= u32::MAX by {
            assert(rest[i] == m[i + 1]);
        }
        assert(chunks_wf(rest));
        lemma_parse_serialized(b, rest, pos + 8 + pl);
        assert(seq![(k, d)] + rest =~= m);
    }
}

/// The serializer writes canonically: the bytes of any well-formed chunk
/// sequence satisfy `spec_chunks_canonical`, so they are in the domain of
/// `lemma_read_write_identity`.
pub proof fn lemma_serialized_canonical(b: Seq<u8>, m: Seq<(ChunkType, Seq<u8>)>, pos: int)
    requires
        0 <= pos <= b.len(),
        b.len() == pos + spec_chunks_bytes(m).len(),
        b.subrange(pos, b.len() as int) == spec_chunks_bytes(m),
        chunks_wf(m),
    ensures
        spec_chunks_canonical(b, pos),
    decreases m.len(),
{
    if m.len() == 0 {
        assert(pos == b.len());
    } else {
        let k = m[0].0;
        let d = m[0].1;
        let dl = d.len() as int;
        let pl = spec_padded_size(dl);
        let cb = spec_chunk_bytes(k, d);
        let rest = m.drop_first();
        let rb = spec_chunks_bytes(rest);
        assert(spec_tag_of(k).len() == 4);
        assert(cb.len() == 8 + pl);
        assert(spec_chunks_bytes(m) == cb + rb);
        let tail = b.subrange(pos, b.len() as int);
        assert(b.subrange(pos, pos + 4) =~= cb.subrange(0, 4)) by {
            assert forall|x: int| 0 <= x < 4 implies b.subrange(pos, pos + 4)[x] == cb.subrange(
                0,
                4,
            )[x] by {
                assert(b.subrange(pos, pos + 4)[x] == tail[x]);
            }
        }
        assert(cb.subrange(0, 4) =~= spec_tag_of(k));
        assert(spec_classify(b.subrange(pos, pos + 4)) == k);
        assert(b.subrange(pos, pos + 4) == spec_tag_of(spec_classify(b.subrange(pos, pos + 4))));
        assert(b.subrange(pos + 4, pos + 8) =~= le32_bytes(dl)) by {
            lemma_le32_roundtrip(dl);
            assert forall|x: int| 0 <= x < 4 implies b.subrange(pos + 4, pos + 8)[x] == le32_bytes(
                dl,
            )[x] by {
                assert(b.subrange(pos + 4, pos + 8)[x] == tail[x + 4]);
                assert(cb[x + 4] == le32_bytes(dl)[x]);
            }
        }
        lemma_le32_roundtrip(dl);
        assert(le32_val(b.subrange(pos + 4, pos + 8)) == dl);
        assert(pos + 8 + pl <= b.len());
        if dl % 2 == 1 {
            assert(cb[8 + dl] == 0);
            assert(b[pos + 8 + dl] == tail[8 + dl]);
        }
        assert(b.subrange(pos + 8 + pl, b.len() as int) =~= rb) by {
            assert forall|x: int| 0 <= x < rb.len() implies b.subrange(
                pos + 8 + pl,
                b.len() as int,
            )[x] == rb[x] by {
                assert(b.subrange(pos + 8 + pl, b.len() as int)[x] == tail[x + 8 + pl]);
                assert((cb + rb)[x + 8 + pl] == rb[x]);
            }
        }
        assert forall|i: int| 0 <= i < rest.len() implies kind_wf(#[trigger] rest[i].0)
            && rest[i].1.len() <= u32::MAX by {
            assert(rest[i] == m[i + 1]);
        }
        assert(chunks_wf(rest));
        lemma_serialized_canonical(b, rest, pos + 8 + pl);
    }
}

/// Round-trip identity: the on-disk bytes of any well-formed chunk sequence
/// parse back to exactly that sequence, so serializing what was read
/// reproduces the input bytes unchanged (the padding byte emitted for an
/// odd-length chunk is always zero). Well-formed means every kind classifies
/// back to itself and every payload fits the 32-bit length field.
pub proof fn lemma_round_trip(m: Seq<(ChunkType, Seq<u8>)>)
    requires
        chunks_wf(m),
    ensures
        spec_read_ok(spec_file_bytes(m)),
        spec_parse_chunks(spec_file_bytes(m), 12) == m,
        spec_file_bytes(spec_parse_chunks(spec_file_bytes(m), 12)) == spec_file_bytes(m),
        spec_chunks_canonical(spec_file_bytes(m), 12),
{
    let b = spec_file_bytes(m);
    assert(le32_bytes(spec_total_size(m)).len() == 4);
    assert(spec_is_riff(b));
    assert(spec_is_wave(b));
    assert(b.subrange(12, b.len() as int) =~= spec_chunks_bytes(m));
    lemma_parse_serialized(b, m, 12);
    lemma_serialized_canonical(b, m, 12);
}

/// The chunk region of `b` from `pos` on is written canonically: each chunk
/// carries the canonical spelling of its tag, the padding byte of each
/// odd-length payload is zero, and the chunks fill the input exactly, with
/// no truncated trailing bytes.
pub open spec fn spec_chunks_canonical(b: Seq<u8>, pos: int) -> bool
    decreases b.len() - pos,
{
    if pos < 0 || pos + 8 > b.len() {
        pos == b.len()
    } else {
        let len = le32_val(b.subrange(pos + 4, pos + 8));
        let pl = spec_padded_size(len);
        if pos + 8 + pl > b.len() {
            false
        } else {
            &&& b.subrange(pos, pos + 4) == spec_tag_of(spec_classify(b.subrange(pos, pos + 4)))
            &&& (len % 2 == 1 ==> b[pos + 8 + len] == 0)
            &&& spec_chunks_canonical(b, pos + 8 + pl)
        }
    }
}

/// Parsed chunks of a canonically written region serialize back to exactly
/// the bytes they were parsed from.
pub proof fn lemma_serialize_parsed(b: Seq<u8>, pos: int)
    requires
        0 <= pos <= b.len(),
        spec_chunks_canonical(b, pos),
    ensures
        spec_chunks_bytes(spec_parse_chunks(b, pos)) == b.subrange(pos, b.len() as int),
    decreases b.len() - pos,
{
    if pos + 8 > b.len() {
        assert(pos == b.len());
        assert(spec_chunks_bytes(spec_parse_chunks(b, pos)) =~= b.subrange(pos, b.len() as int));
    } else {
        let len = le32_val(b.subrange(pos + 4, pos + 8));
        let pl = spec_padded_size(len);
        assert(pos + 8 + pl <= b.len());
        let k = spec_classify(b.subrange(pos, pos + 4));
        let d = b.subrange(pos + 8, pos + 8 + len);
        let m = spec_parse_chunks(b, pos);
        let rest = spec_parse_chunks(b, pos + 8 + pl);
        assert(m == seq![(k, d)] + rest);
        assert(m[0] == (k, d));
        assert(m.drop_first() =~= rest);
        assert(spec_chunks_bytes(m) == spec_chunk_bytes(k, d) + spec_chunks_bytes(rest));
        // the head chunk re-serializes to its own byte range
        lemma_le32_bytes_of_val(b.subrange(pos + 4, pos + 8));
        assert(le32_bytes(d.len() as int) == b.subrange(pos + 4, pos + 8));
        assert(spec_chunk_bytes(k, d) =~= b.subrange(pos, pos + 8 + pl)) by {
            assert(spec_tag_of(k) == b.subrange(pos, pos + 4));
            if len % 2 == 1 {
                assert(spec_chunk_bytes(k, d).len() == 8 + pl);
                assert(spec_chunk_bytes(k, d)[8 + len] == 0);
            }
            assert forall|x: int| 0 <= x < 8 + pl implies spec_chunk_bytes(k, d)[x] == b[pos + x]
                by {
                if x < 4 {
                    assert(spec_chunk_bytes(k, d)[x] == b.subrange(pos, pos + 4)[x]);
                } else if x < 8 {
                    assert(spec_chunk_bytes(k, d)[x] == b.subrange(pos + 4, pos + 8)[x - 4]);
                } else if x < 8 + len {
                    assert(spec_chunk_bytes(k, d)[x] == d[x - 8]);
                } else {
                    assert(x == 8 + len && len % 2 == 1);
                    assert(spec_chunk_bytes(k, d)[x] == 0);
                }
            }
        }
        // the remaining chunks re-serialize to the remaining bytes
        lemma_serialize_parsed(b, pos + 8 + pl);
        assert(spec_chunks_bytes(m) =~= b.subrange(pos, b.len() as int)) by {
            assert(spec_chunks_bytes(rest) == b.subrange(pos + 8 + pl, b.len() as int));
            assert(b.subrange(pos, b.len() as int) =~= b.subrange(pos, pos + 8 + pl) + b.subrange(
                pos + 8 + pl,
                b.len() as int,
            ));
        }
    }
}

/// Round-trip identity, read-then-write direction: a file whose chunks are
/// canonically written (canonical tags, zero padding bytes, no truncated
/// trailing bytes) and whose size field equals the computed total
/// re-serializes, after parsing, to exactly the input bytes. Together with
/// `lemma_round_trip` this states the round-trip identity of reading and
/// re-writing an unmutated file.
pub proof fn lemma_read_write_identity(b: Seq<u8>)
    requires
        spec_read_ok(b),
        spec_chunks_canonical(b, 12),
        le32_val(b.subrange(4, 8)) == spec_total_size(spec_parse_chunks(b, 12)),
    ensures
        spec_file_bytes(spec_parse_chunks(b, 12)) == b,
{
    let m = spec_parse_chunks(b, 12);
    lemma_serialize_parsed(b, 12);
    lemma_le32_bytes_of_val(b.subrange(4, 8));
    assert(le32_bytes(spec_total_size(m)) == b.subrange(4, 8));
    assert(spec_file_bytes(m) =~= b) by {
        assert(spec_chunks_bytes(m).len() == b.len() - 12);
        assert forall|x: int| 0 <= x < b.len() implies spec_file_bytes(m)[x] == b[x] by {
            if 4 <= x < 8 {
                assert(spec_file_bytes(m)[x] == b.subrange(4, 8)[x - 4]);
            } else if 12 <= x {
                assert(spec_file_bytes(m)[x] == spec_chunks_bytes(m)[x - 12]);
                assert(spec_chunks_bytes(m)[x - 12] == b.subrange(12, b.len() as int)[x - 12]);
            }
        }
    }
}

/// The predicate holding of chunks whose kind differs from `k`.
pub open spec fn spec_other_kind(k: ChunkType) -> spec_fn((ChunkType, Seq<u8>)) -> bool {
    |c: (ChunkType, Seq<u8>)| c.0 != k
}

/// The predicate holding of chunks whose kind is `k`.
pub open spec fn spec_kind_is(k: ChunkType) -> spec_fn((ChunkType, Seq<u8>)) -> bool {
    |c: (ChunkType, Seq<u8>)| c.0 == k
}

/// The model of `add_or_replace_chunk_by_type`: drop every chunk of kind
/// `k`, then append one chunk of kind `k` with payload `d`.
pub open spec fn spec_replace(
    m: Seq<(ChunkType, Seq<u8>)>,
    k: ChunkType,
    d: Seq<u8>,
) -> Seq<(ChunkType, Seq<u8>)> {
    m.filter(spec_other_kind(k)).push((k, d))
}

/// Filtering a sequence whose elements all satisfy the predicate keeps it
/// unchanged.
proof fn lemma_filter_all_pos<A>(s: Seq<A>, p: spec_fn(A) -> bool)
    requires
        forall|i: int| 0 <= i < s.len() ==> p(#[trigger] s[i]),
    ensures
        s.filter(p) == s,
    decreases s.len(),
{
    reveal_with_fuel(Seq::filter, 2);
    if s.len() > 0 {
        lemma_filter_all_pos(s.drop_last(), p);
        assert(s.drop_last().push(s.last()) =~= s);
    }
}

/// Replace idempotence: replacing a kind twice is the same as replacing it
/// once with the second payload, and the result holds exactly one chunk of
/// that kind, carrying the second payload.
pub proof fn lemma_replace_idempotent(
    m: Seq<(ChunkType, Seq<u8>)>,
    k: ChunkType,
    d1: Seq<u8>,
    d2: Seq<u8>,
)
    ensures
        spec_replace(spec_replace(m, k, d1), k, d2) == spec_replace(m, k, d2),
        spec_replace(m, k, d2).filter(spec_kind_is(k)) == seq![(k, d2)],
{
    let keep = spec_other_kind(k);
    let isk = spec_kind_is(k);
    broadcast use vstd::seq_lib::group_filter_ensures;

    let f = m.filter(keep);
    reveal_with_fuel(Seq::filter, 2);
    // Re-filtering the once-replaced sequence drops only the appended chunk.
    Seq::filter_distributes_over_add(f, seq![(k, d1)], keep);
    assert(seq![(k, d1)].drop_last() =~= Seq::<(ChunkType, Seq<u8>)>::empty());
    assert(seq![(k, d1)].filter(keep) =~= Seq::<(ChunkType, Seq<u8>)>::empty());
    assert(f + seq![(k, d1)] =~= spec_replace(m, k, d1));
    lemma_filter_all_pos(f, keep);
    assert(f + Seq::<(ChunkType, Seq<u8>)>::empty() =~= f);
    assert(spec_replace(m, k, d1).filter(keep) == f);
    // One chunk of kind `k` remains: the appended one.
    Seq::filter_distributes_over_add(f, seq![(k, d2)], isk);
    assert(seq![(k, d2)].drop_last() =~= Seq::<(ChunkType, Seq<u8>)>::empty());
    assert(seq![(k, d2)].filter(isk) =~= seq![(k, d2)]);
    assert(f + seq![(k, d2)] =~= spec_replace(m, k, d2));
    f.lemma_all_neg_filter_empty(isk);
    assert(Seq::<(ChunkType, Seq<u8>)>::empty() + seq![(k, d2)] =~= seq![(k, d2)]);
}

/// If position `i` holds kind `k` and no earlier position does, then `i` is
/// the first index of kind `k`.
pub proof fn lemma_find_index_witness(m: Seq<(ChunkType, Seq<u8>)>, k: ChunkType, i: int)
    requires
        0 <= i < m.len(),
        m[i].0 == k,
        forall|j: int| 0 <= j < i ==> m[j].0 != k,
    ensures
        spec_find_index(m, k) == i,
    decreases m.len(),
{
    if i > 0 {
        assert(m.drop_first()[i - 1] == m[i]);
        assert forall|j: int| 0 <= j < i - 1 implies m.drop_first()[j].0 != k by {
            assert(m.drop_first()[j] == m[j + 1]);
        }
        lemma_find_index_witness(m.drop_first(), k, i - 1);
    }
}

} // verus!
