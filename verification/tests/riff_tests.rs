use wavtag::{
    header_to_rifftype, pad_vec, padded_size, read_bytes, ChunkType, RiffChunk, RiffError,
    RiffFile,
};

fn le32(v: u32) -> [u8; 4] {
    [
        (v % 256) as u8,
        ((v / 256) % 256) as u8,
        ((v / 65536) % 256) as u8,
        ((v / 16777216) % 256) as u8,
    ]
}

fn header(total: u32) -> Vec<u8> {
    let mut b = Vec::new();
    b.extend_from_slice(b"RIFF");
    b.extend_from_slice(&le32(total));
    b.extend_from_slice(b"WAVE");
    b
}

fn chunk(tag: &[u8; 4], payload: &[u8]) -> Vec<u8> {
    let mut b = Vec::new();
    b.extend_from_slice(tag);
    b.extend_from_slice(&le32(payload.len() as u32));
    b.extend_from_slice(payload);
    if payload.len() % 2 == 1 {
        b.push(0);
    }
    b
}

#[test]
fn padded_size_rounds_odd_up() {
    assert_eq!(padded_size(0), 0);
    assert_eq!(padded_size(1), 2);
    assert_eq!(padded_size(2), 2);
    assert_eq!(padded_size(15), 16);
    assert_eq!(padded_size(16), 16);
}

#[test]
fn pad_vec_appends_zeros() {
    let mut v = vec![1u8, 2];
    pad_vec(&mut v, 3);
    assert_eq!(v, vec![1, 2, 0, 0, 0]);
}

#[test]
fn read_bytes_exact_and_truncated() {
    let data = vec![10u8, 11, 12, 13];
    assert_eq!(read_bytes(&data, 1, 2).unwrap(), vec![11, 12]);
    assert_eq!(read_bytes(&data, 2, 3), Err(RiffError::TruncatedInput));
}

#[test]
fn classification_is_case_insensitive() {
    assert_eq!(header_to_rifftype(*b"fmt "), ChunkType::Format);
    assert_eq!(header_to_rifftype(*b"FMT "), ChunkType::Format);
    assert_eq!(header_to_rifftype(*b"data"), ChunkType::Data);
    assert_eq!(header_to_rifftype(*b"DATA"), ChunkType::Data);
    assert_eq!(header_to_rifftype(*b"cue "), ChunkType::Cue);
    assert_eq!(header_to_rifftype(*b"smpl"), ChunkType::Sampler);
    assert_eq!(header_to_rifftype(*b"plst"), ChunkType::Playlist);
    assert_eq!(header_to_rifftype(*b"list"), ChunkType::List);
    assert_eq!(header_to_rifftype(*b"labl"), ChunkType::Label);
    assert_eq!(header_to_rifftype(*b"note"), ChunkType::Note);
    assert_eq!(header_to_rifftype(*b"fact"), ChunkType::Fact);
    assert_eq!(header_to_rifftype(*b"acid"), ChunkType::Acid);
}

#[test]
fn instrument_has_two_read_tags_one_write_tag() {
    assert_eq!(header_to_rifftype(*b"ltxt"), ChunkType::Instrument);
    assert_eq!(header_to_rifftype(*b"LTXT"), ChunkType::Instrument);
    assert_eq!(header_to_rifftype(*b"inst"), ChunkType::Instrument);
    assert_eq!(header_to_rifftype(*b"INST"), ChunkType::Instrument);
    assert_eq!(ChunkType::Instrument.to_tag(), *b"inst");
}

#[test]
fn unknown_tag_bytes_survive() {
    let k = header_to_rifftype(*b"zzzz");
    assert_eq!(k, ChunkType::Unknown(0x7a, 0x7a, 0x7a, 0x7a));
    assert_eq!(k.to_tag(), *b"zzzz");
}

#[test]
fn declared_total_size_formula() {
    // 4 for WAVE, plus 8 + padded_size(15) == 4 + 8 + 16 == 28.
    let f = RiffFile {
        filename: String::new(),
        chunks: vec![RiffChunk { header: ChunkType::Data, data: vec![0u8; 15] }],
    };
    assert_eq!(f.len(), 28);
    let empty = RiffFile { filename: String::new(), chunks: Vec::new() };
    assert_eq!(empty.len(), 4);
}

#[test]
fn riff_chunk_len_is_unpadded() {
    let c = RiffChunk { header: ChunkType::Data, data: vec![0u8; 15] };
    assert_eq!(c.len(), 15);
}

#[test]
fn validate_accepts() {
    let f = RiffFile { filename: String::new(), chunks: Vec::new() };
    assert_eq!(f.validate(), Ok(()));
}

#[test]
fn read_write_round_trip_is_identity() {
    let mut bytes = Vec::new();
    let body = {
        let mut b = Vec::new();
        b.extend_from_slice(&chunk(b"fmt ", &[1u8; 16]));
        b.extend_from_slice(&chunk(b"data", &[2u8; 10]));
        b.extend_from_slice(&chunk(b"zzzz", &[3u8; 5]));
        b
    };
    bytes.extend_from_slice(&header(4 + body.len() as u32));
    bytes.extend_from_slice(&body);

    let f = RiffFile::read(&bytes, String::from("x.wav")).unwrap();
    assert_eq!(f.chunks.len(), 3);
    assert_eq!(f.chunks[0].header, ChunkType::Format);
    assert_eq!(f.chunks[1].header, ChunkType::Data);
    assert_eq!(f.chunks[2].header, ChunkType::Unknown(0x7a, 0x7a, 0x7a, 0x7a));
    // payloads are stored unpadded
    assert_eq!(f.chunks[2].data.len(), 5);

    let out = f.write().unwrap();
    assert_eq!(out, bytes);
}

#[test]
fn read_rejects_bad_magic() {
    assert!(matches!(
        RiffFile::read(&b"RIFX\x00\x00\x00\x00WAVE".to_vec(), String::new()),
        Err(RiffError::BadMagic)
    ));
    assert!(matches!(RiffFile::read(&Vec::new(), String::new()), Err(RiffError::BadMagic)));
    assert!(matches!(
        RiffFile::read(&b"RIFF\x04\x00\x00\x00WAVX".to_vec(), String::new()),
        Err(RiffError::BadMagic)
    ));
}

#[test]
fn read_rejects_truncated_size_field() {
    assert!(matches!(
        RiffFile::read(&b"RIFF\x04\x00".to_vec(), String::new()),
        Err(RiffError::TruncatedInput)
    ));
}

#[test]
fn truncated_trailing_chunk_is_tolerated() {
    let mut bytes = header(100);
    bytes.extend_from_slice(&chunk(b"fmt ", &[1u8; 16]));
    // a trailing chunk whose declared payload is longer than what follows
    bytes.extend_from_slice(b"data");
    bytes.extend_from_slice(&le32(50));
    bytes.extend_from_slice(&[9u8; 7]);
    let f = RiffFile::read(&bytes, String::new()).unwrap();
    assert_eq!(f.chunks.len(), 1);
    assert_eq!(f.chunks[0].header, ChunkType::Format);
}

#[test]
fn empty_chunk_list_parses() {
    let f = RiffFile::read(&header(4), String::new()).unwrap();
    assert_eq!(f.chunks.len(), 0);
}

#[test]
fn find_chunk_returns_first_match() {
    let f = RiffFile {
        filename: String::new(),
        chunks: vec![
            RiffChunk { header: ChunkType::Data, data: vec![1] },
            RiffChunk { header: ChunkType::Data, data: vec![2] },
        ],
    };
    let c = f.find_chunk_by_type(ChunkType::Data).unwrap();
    assert_eq!(c.data, vec![1]);
    assert!(f.find_chunk_by_type(ChunkType::Sampler).is_none());
}

#[test]
fn add_or_replace_keeps_one_chunk_per_kind() {
    let mut f = RiffFile {
        filename: String::new(),
        chunks: vec![
            RiffChunk { header: ChunkType::Instrument, data: vec![1] },
            RiffChunk { header: ChunkType::Data, data: vec![9] },
            RiffChunk { header: ChunkType::Instrument, data: vec![2] },
        ],
    };
    f.add_or_replace_chunk_by_type(RiffChunk { header: ChunkType::Instrument, data: vec![3] });
    f.add_or_replace_chunk_by_type(RiffChunk { header: ChunkType::Instrument, data: vec![4] });
    let insts: Vec<&RiffChunk> =
        f.chunks.iter().filter(|c| c.header == ChunkType::Instrument).collect();
    assert_eq!(insts.len(), 1);
    assert_eq!(insts[0].data, vec![4]);
    // replacement appends at the end, after the untouched data chunk
    assert_eq!(f.chunks[0].header, ChunkType::Data);
    assert_eq!(f.chunks[1].header, ChunkType::Instrument);
}

#[test]
fn uppercase_tags_are_canonicalized_on_write() {
    let mut bytes = Vec::new();
    let body = {
        let mut b = Vec::new();
        b.extend_from_slice(&chunk(b"FMT ", &[1u8; 16]));
        b.extend_from_slice(&chunk(b"LTXT", &[7u8; 7]));
        b
    };
    bytes.extend_from_slice(&header(4 + body.len() as u32));
    bytes.extend_from_slice(&body);
    let f = RiffFile::read(&bytes, String::new()).unwrap();
    assert_eq!(f.chunks[0].header, ChunkType::Format);
    assert_eq!(f.chunks[1].header, ChunkType::Instrument);
    let out = f.write().unwrap();
    assert_eq!(&out[12..16], b"fmt ");
    assert_eq!(&out[36..40], b"inst");
}

#[test]
fn classification_accepts_mixed_case() {
    assert_eq!(header_to_rifftype(*b"fMt "), ChunkType::Format);
    assert_eq!(header_to_rifftype(*b"Fmt "), ChunkType::Format);
    assert_eq!(header_to_rifftype(*b"Data"), ChunkType::Data);
    assert_eq!(header_to_rifftype(*b"dAtA"), ChunkType::Data);
    assert_eq!(header_to_rifftype(*b"LtXt"), ChunkType::Instrument);
    assert_eq!(header_to_rifftype(*b"iNsT"), ChunkType::Instrument);
    assert_eq!(header_to_rifftype(*b"SmPl"), ChunkType::Sampler);
    assert_eq!(header_to_rifftype(*b"Cue "), ChunkType::Cue);
    // case folding touches only ASCII letters
    assert_eq!(header_to_rifftype(*b"zZ!9"), ChunkType::Unknown(0x7a, 0x5a, 0x21, 0x39));
}

#[test]
fn mixed_case_tags_parse_and_canonicalize() {
    let mut bytes = Vec::new();
    let body = chunk(b"fMt ", &[1u8; 16]);
    bytes.extend_from_slice(&header(4 + body.len() as u32));
    bytes.extend_from_slice(&body);
    let f = RiffFile::read(&bytes, String::new()).unwrap();
    assert_eq!(f.chunks[0].header, ChunkType::Format);
    let out = f.write().unwrap();
    assert_eq!(&out[12..16], b"fmt ");
}

#[test]
fn truncation_before_first_chunk_is_fatal() {
    // stray bytes after "WAVE" that never form a complete chunk
    let mut bytes = header(7);
    bytes.extend_from_slice(&[1u8, 2, 3]);
    assert!(matches!(
        RiffFile::read(&bytes, String::new()),
        Err(RiffError::TruncatedInput)
    ));
    // a full header whose declared payload is missing
    let mut bytes = header(20);
    bytes.extend_from_slice(b"data");
    bytes.extend_from_slice(&le32(16));
    bytes.extend_from_slice(&[9u8; 4]);
    assert!(matches!(
        RiffFile::read(&bytes, String::new()),
        Err(RiffError::TruncatedInput)
    ));
}
