use wavtag::{
    file_name, ChunkType, CuePoint, DataChunk, FormatChunk, InstrumentChunk, InstrumentDefaults,
    LoopType, RiffChunk, RiffError, RiffFile, SampleLoop, SamplerChunk, WavFile,
};

fn le32(v: u32) -> [u8; 4] {
    [
        (v % 256) as u8,
        ((v / 256) % 256) as u8,
        ((v / 65536) % 256) as u8,
        ((v / 16777216) % 256) as u8,
    ]
}

fn header(total: u32) -> Vec<u8> {
    let mut b = Vec::new();
    b.extend_from_slice(b"RIFF");
    b.extend_from_slice(&le32(total));
    b.extend_from_slice(b"WAVE");
    b
}

fn chunk(tag: &[u8; 4], payload: &[u8]) -> Vec<u8> {
    let mut b = Vec::new();
    b.extend_from_slice(tag);
    b.extend_from_slice(&le32(payload.len() as u32));
    b.extend_from_slice(payload);
    if payload.len() % 2 == 1 {
        b.push(0);
    }
    b
}

fn minimal_file() -> Vec<u8> {
    let mut body = Vec::new();
    body.extend_from_slice(&chunk(b"fmt ", &[1u8; 16]));
    body.extend_from_slice(&chunk(b"data", &[2u8; 10]));
    let mut bytes = header(4 + body.len() as u32);
    bytes.extend_from_slice(&body);
    bytes
}

#[test]
fn tagging_scenario_appends_instrument_chunk() {
    // Read a minimal file, set an instrument region, write, and check the
    // output holds exactly three chunks in order with the 7-byte payload.
    let bytes = minimal_file();
    let mut f = RiffFile::read(&bytes, String::from("s.wav")).unwrap();
    assert_eq!(f.chunks.len(), 2);
    f.set_instrument_chunk(InstrumentChunk {
        unshifted_note: 60,
        fine_tune: 0,
        gain: 0,
        low_note: 0,
        high_note: 127,
        low_vel: 0,
        high_vel: 127,
    });
    let out = f.write().unwrap();
    let g = RiffFile::read(&out, String::new()).unwrap();
    assert_eq!(g.chunks.len(), 3);
    assert_eq!(g.chunks[0].header, ChunkType::Format);
    assert_eq!(g.chunks[1].header, ChunkType::Data);
    assert_eq!(g.chunks[2].header, ChunkType::Instrument);
    assert_eq!(g.chunks[2].data, vec![60, 0, 0, 0, 127, 0, 127]);
    // the instrument chunk declares 7 bytes and is padded to 8 on disk
    let tail = &out[out.len() - 16..];
    assert_eq!(&tail[0..4], b"inst");
    assert_eq!(&tail[4..8], &le32(7));
    assert_eq!(&tail[8..15], &[60, 0, 0, 0, 127, 0, 127]);
    assert_eq!(tail[15], 0);
}

#[test]
fn zero_byte_chunk_needs_no_padding() {
    let f = RiffFile {
        filename: String::new(),
        chunks: vec![RiffChunk { header: ChunkType::Data, data: Vec::new() }],
    };
    let out = f.write().unwrap();
    // RIFF + size + WAVE + tag + length(0), and not a byte more
    assert_eq!(out.len(), 20);
    assert_eq!(&out[12..16], b"data");
    assert_eq!(&out[16..20], &le32(0));
}

#[test]
fn one_byte_chunk_gets_one_zero_pad() {
    let f = RiffFile {
        filename: String::new(),
        chunks: vec![RiffChunk { header: ChunkType::Data, data: vec![0xAB] }],
    };
    let out = f.write().unwrap();
    assert_eq!(out.len(), 22);
    assert_eq!(&out[16..20], &le32(1));
    assert_eq!(out[20], 0xAB);
    assert_eq!(out[21], 0);
}

#[test]
fn wav_read_splits_typed_chunks() {
    let bytes = minimal_file();
    let w = WavFile::read(&bytes).unwrap();
    assert_eq!(w.format_chunk.data, vec![1u8; 16]);
    assert_eq!(w.data_chunk.data, vec![2u8; 10]);
    assert!(w.sampler_chunk.is_none());
    assert!(w.instrument_chunk.is_none());
    assert!(w.cue_points.is_empty());
    assert_eq!(w.format_chunk.len(), 16);
    assert_eq!(w.data_chunk.len(), 10);
}

#[test]
fn wav_read_rejects_short_format_chunk() {
    let mut body = Vec::new();
    body.extend_from_slice(&chunk(b"fmt ", &[1u8; 8]));
    body.extend_from_slice(&chunk(b"data", &[2u8; 10]));
    let mut bytes = header(4 + body.len() as u32);
    bytes.extend_from_slice(&body);
    assert!(matches!(WavFile::read(&bytes), Err(RiffError::InvalidChunkSize)));
}

#[test]
fn wav_read_needs_format_and_data() {
    let mut body = Vec::new();
    body.extend_from_slice(&chunk(b"fmt ", &[1u8; 16]));
    let mut bytes = header(4 + body.len() as u32);
    bytes.extend_from_slice(&body);
    assert!(matches!(WavFile::read(&bytes), Err(RiffError::TruncatedInput)));
}

#[test]
fn wav_read_rejects_oversized_cue_count() {
    let mut cue_payload = Vec::new();
    cue_payload.extend_from_slice(&le32(2)); // two points declared, none present
    let mut body = Vec::new();
    body.extend_from_slice(&chunk(b"fmt ", &[1u8; 16]));
    body.extend_from_slice(&chunk(b"data", &[2u8; 10]));
    body.extend_from_slice(&chunk(b"cue ", &cue_payload));
    let mut bytes = header(4 + body.len() as u32);
    bytes.extend_from_slice(&body);
    assert!(matches!(WavFile::read(&bytes), Err(RiffError::InvalidChunkSize)));
}

#[test]
fn wav_read_keeps_first_cue_point() {
    let mut cue_payload = Vec::new();
    cue_payload.extend_from_slice(&le32(2));
    for p in [3u32, 4] {
        cue_payload.extend_from_slice(&le32(p)); // id
        cue_payload.extend_from_slice(&le32(100 + p)); // position
        cue_payload.extend_from_slice(&le32(0x61746164)); // "data"
        cue_payload.extend_from_slice(&le32(0));
        cue_payload.extend_from_slice(&le32(0));
        cue_payload.extend_from_slice(&le32(200 + p));
    }
    let mut body = Vec::new();
    body.extend_from_slice(&chunk(b"fmt ", &[1u8; 16]));
    body.extend_from_slice(&chunk(b"data", &[2u8; 10]));
    body.extend_from_slice(&chunk(b"cue ", &cue_payload));
    let mut bytes = header(4 + body.len() as u32);
    bytes.extend_from_slice(&body);
    let w = WavFile::read(&bytes).unwrap();
    assert_eq!(w.cue_points.len(), 1);
    assert_eq!(w.cue_points[0].id, 3);
    assert_eq!(w.cue_points[0].position, 103);
    assert_eq!(w.cue_points[0].sample_offset, 203);
}

#[test]
fn instrument_codec_round_trips() {
    let inst = InstrumentChunk {
        unshifted_note: 61,
        fine_tune: 5,
        gain: 3,
        low_note: 10,
        high_note: 100,
        low_vel: 1,
        high_vel: 120,
    };
    let data = inst.serialise();
    assert_eq!(data, vec![61, 5, 3, 10, 100, 1, 120]);
    let c = RiffChunk { header: ChunkType::Instrument, data };
    assert_eq!(InstrumentChunk::from_chunk(&c), Ok(inst));
}

#[test]
fn instrument_codec_rejects_wrong_kind_and_short_payload() {
    let c = RiffChunk { header: ChunkType::Data, data: vec![0u8; 7] };
    assert_eq!(InstrumentChunk::from_chunk(&c), Err(RiffError::WrongChunkKind));
    let c = RiffChunk { header: ChunkType::Instrument, data: vec![0u8; 6] };
    assert_eq!(InstrumentChunk::from_chunk(&c), Err(RiffError::TruncatedInput));
}

#[test]
fn instrument_default_is_full_range_root_60() {
    let d = InstrumentChunk::default();
    assert_eq!(d.unshifted_note, 60);
    assert_eq!(d.low_note, 0);
    assert_eq!(d.high_note, 127);
    assert_eq!(d.low_vel, 0);
    assert_eq!(d.high_vel, 127);
}

fn sample_sampler() -> SamplerChunk {
    SamplerChunk {
        manufacturer: 7,
        product: 8,
        sample_period: 10,
        midi_unity_note: 60,
        midi_pitch_fraction: 0,
        smpte_format: 0,
        smpte_offset: 0,
        sample_loops: vec![
            SampleLoop {
                id: 0,
                loop_type: LoopType::Forward,
                start: 100,
                end: 200,
                fraction: 0,
                play_count: 0,
            },
            SampleLoop {
                id: 1,
                loop_type: LoopType::PingPong,
                start: 300,
                end: 400,
                fraction: 0,
                play_count: 2,
            },
        ],
        sampler_data: Vec::new(),
    }
}

#[test]
fn sampler_codec_round_trips_all_loops() {
    let s = sample_sampler();
    let data = s.serialise();
    assert_eq!(data.len(), 36 + 2 * 24);
    assert_eq!(s.len(), data.len() as u32);
    // the loop count field declares the true count
    assert_eq!(&data[28..32], &le32(2));
    let c = RiffChunk { header: ChunkType::Sampler, data };
    let t = SamplerChunk::from_chunk(&c).unwrap();
    assert_eq!(t, s);
    assert_eq!(t.sample_loops[1].loop_type, LoopType::PingPong);
}

#[test]
fn sampler_codec_rejects_wrong_kind_and_short_payload() {
    let c = RiffChunk { header: ChunkType::Cue, data: vec![0u8; 40] };
    assert_eq!(SamplerChunk::from_chunk(&c), Err(RiffError::WrongChunkKind));
    let c = RiffChunk { header: ChunkType::Sampler, data: vec![0u8; 30] };
    assert_eq!(SamplerChunk::from_chunk(&c), Err(RiffError::TruncatedInput));
    // declared loop count larger than the payload holds
    let mut data = vec![0u8; 36];
    data[28] = 3;
    let c = RiffChunk { header: ChunkType::Sampler, data };
    assert_eq!(SamplerChunk::from_chunk(&c), Err(RiffError::TruncatedInput));
}

#[test]
fn sampler_default_is_zeroed() {
    let d = SamplerChunk::default();
    assert_eq!(d.manufacturer, 0);
    assert_eq!(d.midi_unity_note, 0);
    assert!(d.sample_loops.is_empty());
    assert!(d.sampler_data.is_empty());
}

#[test]
fn get_and_set_typed_chunks_on_riff_file() {
    let bytes = minimal_file();
    let mut f = RiffFile::read(&bytes, String::new()).unwrap();
    // absent chunks yield the defaults
    assert_eq!(f.get_instrument_chunk(), InstrumentChunk::default());
    assert_eq!(f.get_sampler_chunk(), SamplerChunk::default());
    let s = sample_sampler();
    f.set_sampler_chunk(s.clone());
    assert_eq!(f.get_sampler_chunk(), s);
    let inst = InstrumentChunk { unshifted_note: 72, ..InstrumentChunk::default() };
    f.set_instrument_chunk(inst);
    assert_eq!(f.get_instrument_chunk(), inst);
}

#[test]
fn cue_point_serialises_to_24_bytes() {
    let p = CuePoint {
        id: 1,
        position: 2,
        data_chunk_id: 0x61746164,
        chunk_start: 0,
        block_start: 3,
        sample_offset: 4,
    };
    let b = p.serialise();
    assert_eq!(b.len(), 24);
    assert_eq!(&b[0..4], &le32(1));
    assert_eq!(&b[4..8], &le32(2));
    assert_eq!(&b[8..12], b"data");
    assert_eq!(&b[20..24], &le32(4));
}

#[test]
fn wav_write_emits_chunks_in_fixed_order() {
    let w = WavFile {
        format_chunk: FormatChunk { data: vec![1u8; 16] },
        data_chunk: DataChunk { data: vec![2u8; 10] },
        sampler_chunk: Some(sample_sampler()),
        instrument_chunk: Some(InstrumentChunk::default()),
        cue_points: vec![CuePoint {
            id: 0,
            position: 0,
            data_chunk_id: 0x61746164,
            chunk_start: 0,
            block_start: 0,
            sample_offset: 9,
        }],
    };
    let out = WavFile::write(&w);
    let f = RiffFile::read(&out, String::new()).unwrap();
    assert_eq!(f.chunks.len(), 5);
    assert_eq!(f.chunks[0].header, ChunkType::Format);
    assert_eq!(f.chunks[1].header, ChunkType::Data);
    assert_eq!(f.chunks[2].header, ChunkType::Instrument);
    assert_eq!(f.chunks[3].header, ChunkType::Cue);
    assert_eq!(f.chunks[4].header, ChunkType::Sampler);
    // the cue chunk declares its true point count
    assert_eq!(&f.chunks[3].data[0..4], &le32(1));
    assert_eq!(f.chunks[3].data.len(), 4 + 24);
    // the whole-file size field matches the exact layout
    assert_eq!(&out[4..8], &le32(w.len()));
    assert_eq!(out.len() as u32, w.len() + 8);
    // and the typed reader recovers the same metadata
    let w2 = WavFile::read(&out).unwrap();
    assert_eq!(w2.sampler_chunk, Some(sample_sampler()));
    assert_eq!(w2.instrument_chunk, Some(InstrumentChunk::default()));
    assert_eq!(w2.cue_points.len(), 1);
    assert_eq!(w2.cue_points[0].sample_offset, 9);
}

#[test]
fn wav_len_counts_present_chunks() {
    let w = WavFile {
        format_chunk: FormatChunk { data: vec![1u8; 16] },
        data_chunk: DataChunk { data: vec![2u8; 10] },
        sampler_chunk: None,
        instrument_chunk: None,
        cue_points: Vec::new(),
    };
    assert_eq!(w.len(), 4 + 8 + 16 + 8 + 10);
    assert_eq!(w.cue_chunk_len(), 0);
    let w = WavFile { instrument_chunk: Some(InstrumentChunk::default()), ..w };
    assert_eq!(w.len(), 4 + 8 + 16 + 8 + 10 + 16);
}

#[test]
fn wav_getters_report_missing_chunks() {
    let bytes = minimal_file();
    let w = WavFile::read(&bytes).unwrap();
    assert_eq!(w.pitch_keycenter(), Err(RiffError::WrongChunkKind));
    assert_eq!(w.key_range(), Err(RiffError::WrongChunkKind));
    assert_eq!(w.loop_points(), Err(RiffError::WrongChunkKind));
    assert_eq!(w.file_name("kick "), "kick.wav");
}

#[test]
fn wav_getters_read_sampler_and_instrument() {
    let bytes = minimal_file();
    let mut w = WavFile::read(&bytes).unwrap();
    w.sampler_chunk = Some(sample_sampler());
    w.instrument_chunk = Some(InstrumentChunk {
        low_note: 24,
        high_note: 36,
        ..InstrumentChunk::default()
    });
    assert_eq!(w.pitch_keycenter(), Ok(String::from("C3")));
    assert_eq!(w.key_range(), Ok((String::from("C0"), String::from("C1"))));
    assert_eq!(w.loop_points(), Ok((100, 200)));
    assert_eq!(w.file_name(" piano "), "piano C3.wav");
}

#[test]
fn riff_file_name_uses_instrument_root_note() {
    let bytes = minimal_file();
    let mut f = RiffFile::read(&bytes, String::new()).unwrap();
    assert_eq!(file_name(&f, " epiano "), "epiano.wav");
    f.set_instrument_chunk(InstrumentChunk { unshifted_note: 57, ..InstrumentChunk::default() });
    assert_eq!(file_name(&f, " epiano "), "epiano A2.wav");
}

#[test]
fn instrument_defaults_start_empty() {
    assert_eq!(InstrumentDefaults::new().regions.len(), 0);
    let d = InstrumentDefaults::parse_sfz(&b"<region> key=36".to_vec()).unwrap();
    assert_eq!(d.regions.len(), 0);
}

#[test]
fn key_ranges_spread_between_neighbours() {
    let notes = vec![36u8, 48, 60];
    let ranges = wavtag::assign_key_ranges(&notes);
    assert_eq!(ranges, vec![(0, 47), (48, 59), (60, 127)]);
    let one = wavtag::assign_key_ranges(&vec![60u8]);
    assert_eq!(one, vec![(0, 127)]);
    assert_eq!(wavtag::assign_key_ranges(&Vec::new()), Vec::new());
}

#[test]
fn wav_read_is_fatal_on_first_chunk_truncation() {
    let mut bytes = header(7);
    bytes.extend_from_slice(&[1u8, 2, 3]);
    assert!(matches!(WavFile::read(&bytes), Err(RiffError::TruncatedInput)));
}
