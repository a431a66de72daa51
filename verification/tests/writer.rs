use bwavfile::writer::must_promote;
use bwavfile::{Error, FourCC, Wave, WaveWriter};

fn id(bytes: &[u8; 4]) -> FourCC {
    FourCC::make(*bytes)
}

#[test]
fn new_writer_emits_an_empty_riff_form() {
    let writer = WaveWriter::new();
    assert_eq!(writer.emitted(), b"RIFF\x04\0\0\0WAVE");
    assert!(!writer.is_promoted());
    assert!(!writer.is_closed());
    assert_eq!(writer.bytes_written_in_form(), 4);
}

#[test]
fn appended_chunk_is_framed_and_padded() {
    let mut writer = WaveWriter::new();
    assert_eq!(writer.append_chunk(id(b"odd "), &[1, 2, 3, 4, 5]), Ok(()));
    assert_eq!(&writer.emitted()[12..], b"odd \x05\0\0\0\x01\x02\x03\x04\x05\0");
    assert_eq!(writer.bytes_written_in_form(), 4 + 8 + 6);
    assert_eq!(writer.append_chunk(id(b"even"), &[9, 9]), Ok(()));
    assert_eq!(&writer.emitted()[26..], b"even\x02\0\0\0\x09\x09");
    assert_eq!(writer.append_chunk(id(b"none"), &[]), Ok(()));
    assert_eq!(&writer.emitted()[36..], b"none\0\0\0\0");
    assert!(!writer.is_promoted());
}

#[test]
fn finalize_patches_the_form_length() {
    let mut writer = WaveWriter::new();
    writer.append_chunk(id(b"data"), &[7; 300]).unwrap();
    assert_eq!(&writer.emitted()[4..8], &4u32.to_le_bytes());
    assert_eq!(writer.finalize(), Ok(()));
    assert!(writer.is_closed());
    let bytes = writer.into_inner();
    assert_eq!(bytes.len(), 12 + 8 + 300);
    assert_eq!(&bytes[0..4], b"RIFF");
    assert_eq!(&bytes[4..8], &312u32.to_le_bytes());
    assert_eq!(&bytes[8..12], b"WAVE");
    assert_eq!(&bytes[12..20], b"data\x2c\x01\0\0");
}

#[test]
fn closed_writer_takes_nothing() {
    let mut writer = WaveWriter::new();
    writer.append_chunk(id(b"data"), &[1, 2]).unwrap();
    writer.finalize().unwrap();
    let emitted = writer.emitted().to_vec();
    assert_eq!(writer.append_chunk(id(b"more"), &[3]), Err(Error::WriterClosed));
    assert_eq!(writer.finalize(), Err(Error::WriterClosed));
    assert_eq!(writer.promote(), Err(Error::WriterClosed));
    assert_eq!(writer.emitted(), &emitted[..]);
    assert!(!writer.is_promoted());
}

#[test]
fn round_trip_in_the_standard_form() {
    let chunks: Vec<(&[u8; 4], Vec<u8>)> = vec![
        (b"fmt ", vec![1, 0, 2, 0, 0x80, 0xBB, 0, 0, 0, 0xEE, 2, 0, 4, 0, 16, 0]),
        (b"cue ", vec![1, 2, 3]),
        (b"data", (0..=254).collect()),
        (b"cue ", vec![]),
        (b"LIST", b"adtlnote".to_vec()),
        (b"cue ", vec![42]),
    ];
    let mut writer = WaveWriter::new();
    for (ident, content) in &chunks {
        writer.append_chunk(id(ident), content).unwrap();
    }
    writer.finalize().unwrap();
    let mut wave = Wave::open(writer.into_inner()).unwrap();
    assert_eq!(wave.is_rf64(), Ok(false));
    let mut buffer = Vec::new();
    for (position, (ident, content)) in chunks.iter().enumerate() {
        let occurrence = chunks[..position].iter().filter(|(other, _)| other == ident).count();
        assert_eq!(wave.read_chunk(id(ident), occurrence as u32, &mut buffer), Ok(content.len()));
        assert_eq!(&buffer, content);
    }
    assert_eq!(
        wave.read_chunk(id(b"cue "), 3, &mut buffer),
        Err(Error::ChunkMissing { signature: id(b"cue ") })
    );
    assert_eq!(wave.format().unwrap().sample_rate, 48000);
    assert_eq!(wave.frame_length(), Ok(63));
    assert_eq!(wave.locate_list(id(b"adtl"), 0).map(|range| range.1), Ok(4));
}

#[test]
fn promotion_rewrites_the_opening() {
    let mut writer = WaveWriter::new();
    writer.append_chunk(id(b"fmt "), &[0; 16]).unwrap();
    writer.append_chunk(id(b"data"), &[5; 7]).unwrap();
    let before = writer.emitted().to_vec();
    assert_eq!(writer.promote(), Ok(()));
    assert!(writer.is_promoted());
    let after = writer.emitted().to_vec();
    assert_eq!(&after[0..4], b"RF64");
    assert_eq!(&after[4..8], &[0xFF; 4]);
    assert_eq!(&after[8..12], b"WAVE");
    assert_eq!(&after[12..16], b"ds64");
    assert_eq!(&after[16..20], &28u32.to_le_bytes());
    // The form size that the ds64 chunk states is what the form then holds.
    assert_eq!(&after[20..28], &((after.len() - 8) as u64).to_le_bytes());
    assert_eq!(&after[28..36], &7u64.to_le_bytes());
    assert_eq!(&after[36..44], &0u64.to_le_bytes());
    assert_eq!(&after[44..48], &0u32.to_le_bytes());
    assert_eq!(&after[48..], &before[12..]);
    assert_eq!(writer.bytes_written_in_form(), (before.len() - 8 + 36) as u64);
    // A second promotion changes nothing.
    assert_eq!(writer.promote(), Ok(()));
    assert_eq!(writer.emitted(), &after[..]);
}

#[test]
fn ds64_form_size_covers_what_is_written() {
    let mut writer = WaveWriter::new();
    writer.append_chunk(id(b"fmt "), &[0; 16]).unwrap();
    writer.promote().unwrap();
    let mut stages: Vec<Vec<u8>> = vec![writer.emitted().to_vec()];
    writer.append_chunk(id(b"data"), &[3; 9]).unwrap();
    stages.push(writer.emitted().to_vec());
    writer.append_chunk(id(b"iXML"), b"<x/>").unwrap();
    stages.push(writer.emitted().to_vec());
    writer.append_chunk(id(b"data"), &[4; 2]).unwrap();
    stages.push(writer.emitted().to_vec());
    writer.finalize().unwrap();
    stages.push(writer.into_inner());
    let data_sizes = [0u64, 9, 9, 2, 2];
    for (stage, data_size) in stages.into_iter().zip(data_sizes) {
        let written = stage.len() as u64 - 8;
        assert_eq!(&stage[0..4], b"RF64");
        assert_eq!(&stage[20..28], &written.to_le_bytes());
        assert_eq!(&stage[28..36], &data_size.to_le_bytes());
        let mut wave = Wave::new(stage);
        assert_eq!(wave.get_ds64_length(id(b"RF64")), Ok(written));
        assert_eq!(wave.get_ds64_length(id(b"BW64")), Ok(written));
        assert_eq!(wave.get_ds64_length(id(b"data")), Ok(data_size));
        assert_eq!(wave.locate(id(b"fmt "), 0), Ok((56, 16)));
    }
}

#[test]
fn round_trip_in_the_extended_form() {
    let mut writer = WaveWriter::new();
    writer.append_chunk(id(b"fmt "), &[1, 0, 1, 0, 0x44, 0xAC, 0, 0, 0x88, 0x58, 1, 0, 2, 0, 16, 0]).unwrap();
    writer.promote().unwrap();
    writer.append_chunk(id(b"data"), &[1, 2, 3, 4, 5, 6]).unwrap();
    writer.append_chunk(id(b"iXML"), b"<x/>!").unwrap();
    writer.finalize().unwrap();
    let bytes = writer.into_inner();
    assert_eq!(&bytes[0..4], b"RF64");
    assert_eq!(&bytes[20..28], &((bytes.len() - 8) as u64).to_le_bytes());
    assert_eq!(&bytes[28..36], &6u64.to_le_bytes());
    let mut wave = Wave::open(bytes).unwrap();
    assert_eq!(wave.is_rf64(), Ok(true));
    let mut buffer = Vec::new();
    assert_eq!(wave.read_chunk(id(b"data"), 0, &mut buffer), Ok(6));
    assert_eq!(buffer, vec![1, 2, 3, 4, 5, 6]);
    assert_eq!(wave.read_ixml(&mut buffer), Ok(5));
    assert_eq!(buffer, b"<x/>!".to_vec());
    assert_eq!(wave.frame_length(), Ok(3));
    assert_eq!(wave.get_ds64_length(id(b"data")), Ok(6));
    assert_eq!(wave.locate(id(b"ds64"), 0), Err(Error::ChunkMissing { signature: id(b"ds64") }));
}

#[test]
fn promotion_boundary() {
    // A form of exactly 0xFFFFFFFE bytes stays in the 32-bit form.
    assert!(!must_promote(4, 0xFFFF_FFFE - 12));
    assert!(!must_promote(4 + 24, 0xFFFF_FFFE - 12 - 24));
    // One pad byte or one content byte more crosses.
    assert!(must_promote(4, 0xFFFF_FFFE - 11));
    assert!(must_promote(4 + 24, 0xFFFF_FFFE - 12 - 24 + 1));
    assert!(must_promote(4, 0xFFFF_FFFE - 10));
    assert!(must_promote(4, 0xFFFF_FFFF));
    assert!(must_promote(0xFFFF_FFFE, 0));
    assert!(!must_promote(0xFFFF_FFFE - 8, 0));
    assert!(must_promote(4, u64::MAX));
    assert!(must_promote(u64::MAX, 0));
    assert!(!must_promote(4, 0));
    assert!(!must_promote(4, 5));
}

#[test]
fn written_chunks_tile_the_form() {
    let contents: Vec<(&[u8; 4], Vec<u8>)> = vec![
        (b"fmt ", vec![0; 16]),
        (b"odd ", vec![1; 5]),
        (b"LIST", b"adtlxyz".to_vec()),
        (b"data", vec![2; 11]),
        (b"axml", vec![]),
    ];
    let mut writer = WaveWriter::new();
    for (ident, content) in &contents {
        writer.append_chunk(id(ident), content).unwrap();
    }
    writer.finalize().unwrap();
    let bytes = writer.into_inner();
    let budget = u32::from_le_bytes([bytes[4], bytes[5], bytes[6], bytes[7]]) as u64 - 4;
    let wave = Wave::new(bytes.clone());
    // Each chunk starts where the displacements before it end.
    let mut walked: u64 = 0;
    for (ident, content) in &contents {
        let (offset, length) = wave.locate(id(ident), 0).unwrap();
        assert_eq!(offset, 12 + walked + 8);
        assert_eq!(length, content.len() as u64);
        walked += 8 + length + length % 2;
    }
    assert_eq!(walked, budget);
    assert_eq!(12 + walked, bytes.len() as u64);
}
