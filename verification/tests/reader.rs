use bwavfile::ds64::{resolve, Ds64Table};
use bwavfile::endian::{read_u16_at, read_u32_at, read_u64_at};
use bwavfile::fourcc::{
    read_fourcc_at, AXML_SIG, BEXT_SIG, BW64_SIG, DATA_SIG, DS64_SIG, FMT__SIG, IXML_SIG, LIST_SIG,
    RF64_SIG, RIFF_SIG, WAVE_SIG,
};
use bwavfile::traverse::{locate, locate_list, read_header_at};
use bwavfile::{ContainerForm, Error, FourCC, Wave};

fn id(bytes: &[u8; 4]) -> FourCC {
    FourCC::make(*bytes)
}

fn chunk(ident: &[u8; 4], content: &[u8]) -> Vec<u8> {
    let mut out = Vec::new();
    out.extend_from_slice(ident);
    out.extend_from_slice(&(content.len() as u32).to_le_bytes());
    out.extend_from_slice(content);
    if content.len() % 2 == 1 {
        out.push(0);
    }
    out
}

fn riff(chunks: &[Vec<u8>]) -> Vec<u8> {
    let body: Vec<u8> = chunks.iter().flatten().copied().collect();
    let mut out = Vec::new();
    out.extend_from_slice(b"RIFF");
    out.extend_from_slice(&((body.len() + 4) as u32).to_le_bytes());
    out.extend_from_slice(b"WAVE");
    out.extend_from_slice(&body);
    out
}

fn ds64_chunk(form_size: u64, data_size: u64, records: &[(&[u8; 4], u64)]) -> Vec<u8> {
    let mut content = Vec::new();
    content.extend_from_slice(&form_size.to_le_bytes());
    content.extend_from_slice(&data_size.to_le_bytes());
    content.extend_from_slice(&0u64.to_le_bytes());
    content.extend_from_slice(&(records.len() as u32).to_le_bytes());
    for (ident, size) in records {
        content.extend_from_slice(*ident);
        content.extend_from_slice(&size.to_le_bytes());
    }
    chunk(b"ds64", &content)
}

fn rf64(magic: &[u8; 4], ds64: Vec<u8>, body: &[u8]) -> Vec<u8> {
    let mut out = Vec::new();
    out.extend_from_slice(magic);
    out.extend_from_slice(&0xFFFF_FFFFu32.to_le_bytes());
    out.extend_from_slice(b"WAVE");
    out.extend_from_slice(&ds64);
    out.extend_from_slice(body);
    out
}

fn pcm_fmt(channels: u16, block_alignment: u16) -> Vec<u8> {
    let mut content = Vec::new();
    content.extend_from_slice(&1u16.to_le_bytes());
    content.extend_from_slice(&channels.to_le_bytes());
    content.extend_from_slice(&48000u32.to_le_bytes());
    content.extend_from_slice(&192000u32.to_le_bytes());
    content.extend_from_slice(&block_alignment.to_le_bytes());
    content.extend_from_slice(&16u16.to_le_bytes());
    content
}

fn extensible_fmt(channels: u16, channel_mask: u32) -> Vec<u8> {
    let mut content = Vec::new();
    content.extend_from_slice(&0xFFFEu16.to_le_bytes());
    content.extend_from_slice(&channels.to_le_bytes());
    content.extend_from_slice(&48000u32.to_le_bytes());
    content.extend_from_slice(&864000u32.to_le_bytes());
    content.extend_from_slice(&18u16.to_le_bytes());
    content.extend_from_slice(&24u16.to_le_bytes());
    content.extend_from_slice(&22u16.to_le_bytes());
    content.extend_from_slice(&24u16.to_le_bytes());
    content.extend_from_slice(&channel_mask.to_le_bytes());
    content.extend_from_slice(&[
        0x01, 0x00, 0x00, 0x00, 0x00, 0x00, 0x10, 0x00, 0x80, 0x00, 0x00, 0xAA, 0x00, 0x38, 0x9B,
        0x71,
    ]);
    content
}

#[test]
fn fourcc_constants_are_wire_exact() {
    assert_eq!(id(b"RIFF"), FourCC::make(RIFF_SIG));
    assert_eq!(id(b"RF64"), FourCC::make(RF64_SIG));
    assert_eq!(id(b"BW64"), FourCC::make(BW64_SIG));
    assert_eq!(id(b"WAVE"), FourCC::make(WAVE_SIG));
    assert_eq!(id(b"ds64"), FourCC::make(DS64_SIG));
    assert_eq!(id(b"LIST"), FourCC::make(LIST_SIG));
    assert_eq!(id(b"fmt "), FourCC::make(FMT__SIG));
    assert_eq!(id(b"data"), FourCC::make(DATA_SIG));
    assert_eq!(id(b"bext"), FourCC::make(BEXT_SIG));
    assert_eq!(id(b"iXML"), FourCC::make(IXML_SIG));
    assert_eq!(id(b"axml"), FourCC::make(AXML_SIG));
}

#[test]
fn fourcc_is_case_sensitive() {
    assert_ne!(id(b"data"), id(b"DATA"));
    assert_eq!(id(b"fmt ").bytes(), *b"fmt ");
}

#[test]
fn little_endian_reads() {
    let bytes = [0x01u8, 0x02, 0x03, 0x04, 0x05, 0x06, 0x07, 0x08, 0x09];
    assert_eq!(read_u16_at(&bytes, 0), Ok(0x0201));
    assert_eq!(read_u32_at(&bytes, 1), Ok(0x0504_0302));
    assert_eq!(read_u64_at(&bytes, 1), Ok(0x0908_0706_0504_0302));
    assert_eq!(read_u64_at(&bytes, 2), Err(Error::UnexpectedEof));
    assert_eq!(read_u32_at(&bytes, 6), Err(Error::UnexpectedEof));
    assert_eq!(read_u16_at(&bytes, 8), Err(Error::UnexpectedEof));
    assert_eq!(read_u16_at(&bytes, u64::MAX), Err(Error::UnexpectedEof));
    assert_eq!(read_fourcc_at(&bytes, 5), Ok(FourCC::make([6, 7, 8, 9])));
    assert_eq!(read_fourcc_at(&bytes, 6), Err(Error::UnexpectedEof));
}

#[test]
fn detects_standard_form() {
    let bytes = riff(&[chunk(b"fmt ", &pcm_fmt(2, 4)), chunk(b"data", &[0; 8])]);
    let mut wave = Wave::new(bytes);
    assert_eq!(wave.is_rf64(), Ok(false));
    match wave.detect_form() {
        Ok(ContainerForm::Standard { form_budget }) => assert_eq!(form_budget, 24 + 16),
        other => panic!("unexpected form: {:?}", other),
    }
}

#[test]
fn detects_extended_form() {
    for magic in [b"RF64", b"BW64"] {
        let body = chunk(b"data", &[1, 2, 3, 4]);
        let bytes = rf64(magic, ds64_chunk(4 + 36 + 12, 4, &[]), &body);
        let mut wave = Wave::new(bytes);
        assert_eq!(wave.is_rf64(), Ok(true));
        match wave.detect_form() {
            Ok(ContainerForm::Extended(ds64)) => {
                assert_eq!(ds64.form_budget, 12);
                assert_eq!(ds64.body_start, 48);
                assert_eq!(ds64.table.get(id(b"data")), Some(4));
                assert_eq!(ds64.table.get(id(b"RF64")), Some(52));
                assert_eq!(ds64.table.get(id(b"BW64")), Some(52));
                assert_eq!(ds64.table.get(id(b"fmt ")), None);
            }
            other => panic!("unexpected form: {:?}", other),
        }
    }
}

#[test]
fn detection_is_idempotent_and_keeps_the_cursor() {
    let bytes = riff(&[chunk(b"fmt ", &pcm_fmt(2, 4))]);
    let mut wave = Wave::new(bytes.clone());
    wave.seek(17);
    let first = wave.is_rf64();
    assert_eq!(wave.position(), 17);
    let second = wave.is_rf64();
    assert_eq!(wave.position(), 17);
    assert_eq!(first, second);
    assert_eq!(first, Ok(false));
    assert_eq!(wave.into_inner(), bytes);

    let mut broken = Wave::new(b"RIFX....WAVE".to_vec());
    broken.seek(5);
    assert_eq!(broken.is_rf64(), Err(Error::HeaderNotRecognized));
    assert_eq!(broken.position(), 5);
    assert_eq!(broken.is_rf64(), Err(Error::HeaderNotRecognized));
    assert_eq!(broken.position(), 5);
}

#[test]
fn unknown_openings_are_not_recognized() {
    assert_eq!(Wave::new(b"RIFF\x04\0\0\0AVI ".to_vec()).is_rf64(), Err(Error::HeaderNotRecognized));
    assert_eq!(Wave::new(b"FORM\x04\0\0\0WAVE".to_vec()).is_rf64(), Err(Error::HeaderNotRecognized));
    // A 64-bit magic without the sentinel length is no container either.
    assert_eq!(
        Wave::new(b"RF64\x04\0\0\0WAVEds64".to_vec()).is_rf64(),
        Err(Error::HeaderNotRecognized)
    );
    assert_eq!(Wave::new(b"RIFF\x04\0\0\0WAV".to_vec()).is_rf64(), Err(Error::UnexpectedEof));
    assert_eq!(Wave::new(Vec::new()).is_rf64(), Err(Error::UnexpectedEof));
    assert!(matches!(Wave::open(b"RIFF\x04\0\0\0AVI ".to_vec()), Err(Error::HeaderNotRecognized)));
}

#[test]
fn sentinel_without_ds64_fails_to_open() {
    let mut bytes = Vec::new();
    bytes.extend_from_slice(b"RF64");
    bytes.extend_from_slice(&0xFFFF_FFFFu32.to_le_bytes());
    bytes.extend_from_slice(b"WAVE");
    bytes.extend_from_slice(&chunk(b"fmt ", &pcm_fmt(2, 4)));
    bytes.extend_from_slice(&chunk(b"data", &[0; 8]));
    assert!(matches!(Wave::open(bytes.clone()), Err(Error::MissingRequiredDS64)));
    let mut wave = Wave::new(bytes.clone());
    assert_eq!(wave.is_rf64(), Err(Error::MissingRequiredDS64));
    // No chunk is scanned behind the failure.
    assert_eq!(wave.locate(id(b"fmt "), 0), Err(Error::MissingRequiredDS64));
    assert_eq!(wave.seek_chunk(id(b"data"), 0), Err(Error::MissingRequiredDS64));
    assert_eq!(resolve(&bytes, true).err(), Some(Error::MissingRequiredDS64));
    // The length lookup fails in the same way, whatever is asked for.
    for ident in [b"RF64", b"BW64", b"data", b"fmt "] {
        assert_eq!(wave.get_ds64_length(id(ident)), Err(Error::MissingRequiredDS64));
    }
    assert_eq!(wave.position(), 0);
}

#[test]
fn length_lookup_in_a_standard_container_finds_no_ds64() {
    let mut wave = Wave::new(riff(&[chunk(b"fmt ", &pcm_fmt(2, 4)), chunk(b"data", &[0; 8])]));
    wave.seek(9);
    assert_eq!(wave.get_ds64_length(id(b"data")), Err(Error::MissingRequiredDS64));
    assert_eq!(wave.position(), 9);
    let mut short = Wave::new(b"RF64\xFF\xFF\xFF\xFFWAVEds6".to_vec());
    assert_eq!(short.get_ds64_length(id(b"data")), Err(Error::UnexpectedEof));
}

#[test]
fn open_accepts_a_container() {
    let bytes = riff(&[chunk(b"data", &[9, 9])]);
    let wave = Wave::open(bytes.clone()).unwrap();
    assert_eq!(wave.position(), 0);
    assert_eq!(wave.locate(id(b"data"), 0), Ok((20, 2)));
    assert_eq!(wave.into_inner(), bytes);
}

#[test]
fn locate_walks_the_form() {
    let bytes = riff(&[
        chunk(b"fmt ", &pcm_fmt(2, 4)),
        chunk(b"LIST", b"adtlabc"),
        chunk(b"data", &[0; 10]),
    ]);
    let wave = Wave::new(bytes);
    assert_eq!(wave.locate(id(b"fmt "), 0), Ok((20, 16)));
    assert_eq!(wave.locate(id(b"LIST"), 0), Ok((44, 7)));
    assert_eq!(wave.locate(id(b"data"), 0), Ok((60, 10)));
    assert_eq!(
        wave.locate(id(b"data"), 1),
        Err(Error::ChunkMissing { signature: id(b"data") })
    );
    assert_eq!(
        wave.locate(id(b"bext"), 0),
        Err(Error::ChunkMissing { signature: id(b"bext") })
    );
}

#[test]
fn odd_length_chunk_is_followed_by_one_pad_byte() {
    let bytes = riff(&[chunk(b"odd ", &[1, 2, 3, 4, 5]), chunk(b"next", &[7, 7])]);
    let wave = Wave::new(bytes.clone());
    let (offset, length) = wave.locate(id(b"odd "), 0).unwrap();
    assert_eq!((offset, length), (20, 5));
    let header_start = offset - 8;
    let (next_offset, next_length) = wave.locate(id(b"next"), 0).unwrap();
    assert_eq!(next_offset - 8, header_start + 8 + 5 + 1);
    assert_eq!(next_length, 2);
    assert_eq!(bytes[(offset + 5) as usize], 0);
    assert_eq!(&bytes[(next_offset - 8) as usize..next_offset as usize - 4], b"next");
}

#[test]
fn repeated_chunks_are_told_apart_by_occurrence() {
    let bytes = riff(&[
        chunk(b"cue ", &[1]),
        chunk(b"data", &[2, 2]),
        chunk(b"cue ", &[3, 3, 3]),
        chunk(b"cue ", &[4, 4, 4, 4]),
    ]);
    let wave = Wave::new(bytes);
    assert_eq!(wave.locate(id(b"cue "), 0), Ok((20, 1)));
    assert_eq!(wave.locate(id(b"cue "), 1), Ok((40, 3)));
    assert_eq!(wave.locate(id(b"cue "), 2), Ok((52, 4)));
    assert_eq!(wave.locate(id(b"cue "), 3), Err(Error::ChunkMissing { signature: id(b"cue ") }));
}

#[test]
fn second_list_sub_form_is_located() {
    let fmt = chunk(b"fmt ", &pcm_fmt(2, 4));
    let first = chunk(b"LIST", b"adtlfirst");
    let second = chunk(b"LIST", b"adtlsecond!");
    let data = chunk(b"data", &[0; 6]);
    let bytes = riff(&[fmt.clone(), first.clone(), second.clone(), data]);
    let wave = Wave::new(bytes.clone());
    let second_list_start = 12 + fmt.len() as u64 + first.len() as u64;
    assert_eq!(second_list_start, 12 + 24 + 18);
    // The range starts behind the chunk header and the sub-form tag.
    assert_eq!(wave.locate_list(id(b"adtl"), 1), Ok((second_list_start + 8 + 4, 7)));
    assert_eq!(wave.locate_list(id(b"adtl"), 0), Ok((12 + 24 + 12, 5)));
    assert_eq!(wave.read_raw(second_list_start + 12, 7).unwrap(), b"second!".to_vec());
    assert_eq!(
        wave.locate_list(id(b"adtl"), 2),
        Err(Error::ChunkMissing { signature: id(b"adtl") })
    );
    // The same chunk by its identifier alone: the content starts behind the header.
    assert_eq!(wave.locate(id(b"LIST"), 1), Ok((second_list_start + 8, 11)));
}

#[test]
fn list_occurrences_count_one_sub_form_only() {
    let bytes = riff(&[
        chunk(b"LIST", b"INFOaa"),
        chunk(b"LIST", b"adtlbb"),
        chunk(b"LIST", b""),
        chunk(b"LIST", b"INFOcccc"),
    ]);
    let wave = Wave::new(bytes);
    assert_eq!(wave.locate_list(id(b"INFO"), 0), Ok((24, 2)));
    assert_eq!(wave.locate_list(id(b"adtl"), 0), Ok((38, 2)));
    assert_eq!(wave.locate_list(id(b"INFO"), 1), Ok((60, 4)));
    assert_eq!(
        wave.locate_list(id(b"adtl"), 1),
        Err(Error::ChunkMissing { signature: id(b"adtl") })
    );
}

#[test]
fn budget_bounds_the_walk() {
    let fmt = chunk(b"fmt ", &pcm_fmt(1, 2));
    let data = chunk(b"data", &[0; 4]);
    let mut bytes = riff(&[fmt]);
    // A chunk behind the form's declared length is not part of the form.
    bytes.extend_from_slice(&data);
    let wave = Wave::new(bytes.clone());
    assert_eq!(wave.locate(id(b"data"), 0), Err(Error::ChunkMissing { signature: id(b"data") }));
    let table = Ds64Table::new();
    assert_eq!(locate(&bytes, 12, 24 + 12, &table, id(b"data"), 0), Ok((44, 4)));
    assert_eq!(
        locate(&bytes, 12, 24 + 7, &table, id(b"data"), 0),
        Err(Error::ChunkMissing { signature: id(b"data") })
    );
    assert_eq!(locate(&bytes, 12, 24 + 8, &table, id(b"data"), 0), Ok((44, 4)));
    assert_eq!(
        locate(&bytes, 12, 7, &table, id(b"fmt "), 0),
        Err(Error::ChunkMissing { signature: id(b"fmt ") })
    );
    assert_eq!(
        locate_list(&bytes, 12, 36, &table, id(b"adtl"), 0),
        Err(Error::ChunkMissing { signature: id(b"adtl") })
    );
}

#[test]
fn truncated_store_is_an_io_failure() {
    let mut bytes = riff(&[chunk(b"fmt ", &pcm_fmt(1, 2)), chunk(b"data", &[0; 4])]);
    bytes.truncate(12 + 24 + 6);
    let wave = Wave::new(bytes);
    assert_eq!(wave.locate(id(b"fmt "), 0), Ok((20, 16)));
    assert_eq!(wave.locate(id(b"data"), 0), Err(Error::UnexpectedEof));
}

#[test]
fn sentinel_in_a_standard_container_is_fatal() {
    let mut big = Vec::new();
    big.extend_from_slice(b"big ");
    big.extend_from_slice(&0xFFFF_FFFFu32.to_le_bytes());
    let mut bytes = Vec::new();
    bytes.extend_from_slice(b"RIFF");
    bytes.extend_from_slice(&1000u32.to_le_bytes());
    bytes.extend_from_slice(b"WAVE");
    bytes.extend_from_slice(&chunk(b"fmt ", &pcm_fmt(1, 2)));
    bytes.extend_from_slice(&big);
    bytes.extend_from_slice(&[0; 32]);
    let mut wave = Wave::new(bytes);
    assert_eq!(wave.locate(id(b"fmt "), 0), Ok((20, 16)));
    assert_eq!(wave.locate(id(b"big "), 0), Err(Error::MissingDS64Length(id(b"big "))));
    assert_eq!(wave.locate(id(b"data"), 0), Err(Error::MissingDS64Length(id(b"big "))));
    wave.seek(36);
    assert_eq!(
        wave.read_chunk_header_immediate(),
        Err(Error::MissingDS64Length(id(b"big ")))
    );
    assert_eq!(wave.position(), 36);
}

#[test]
fn ds64_overrides_resolve_sentinel_sizes() {
    let mut body = Vec::new();
    body.extend_from_slice(&chunk(b"fmt ", &pcm_fmt(2, 4)));
    body.extend_from_slice(b"data");
    body.extend_from_slice(&0xFFFF_FFFFu32.to_le_bytes());
    let data_size: u64 = 0x1_0000_0010;
    let form_size: u64 = 4 + 36 + 24 + 8 + data_size;
    let bytes = rf64(b"RF64", ds64_chunk(form_size, data_size, &[]), &body);
    let mut wave = Wave::new(bytes);
    assert_eq!(wave.is_rf64(), Ok(true));
    assert_eq!(wave.locate(id(b"data"), 0), Ok((48 + 24 + 8, data_size)));
    assert_eq!(wave.get_ds64_length(id(b"data")), Ok(data_size));
    assert_eq!(wave.get_ds64_length(id(b"RF64")), Ok(form_size));
    assert_eq!(wave.get_ds64_length(id(b"BW64")), Ok(form_size));
    assert_eq!(
        wave.get_ds64_length(id(b"fmt ")),
        Err(Error::MissingDS64Length(id(b"fmt ")))
    );
    assert_eq!(wave.seek_chunk(id(b"data"), 0), Ok(data_size));
    assert_eq!(wave.position(), 80);
    // The content itself is not in the store.
    let mut buffer = vec![1, 2, 3];
    assert_eq!(wave.read_chunk(id(b"data"), 0, &mut buffer), Err(Error::UnexpectedEof));
    assert_eq!(buffer, vec![1, 2, 3]);
    assert_eq!(wave.position(), 80);
}

#[test]
fn missing_override_in_extended_container_is_fatal() {
    let mut body = Vec::new();
    body.extend_from_slice(b"big ");
    body.extend_from_slice(&0xFFFF_FFFFu32.to_le_bytes());
    body.extend_from_slice(&[0; 16]);
    let bytes = rf64(b"RF64", ds64_chunk(4 + 36 + 24, 0, &[(b"othr", 77)]), &body);
    let wave = Wave::new(bytes);
    assert_eq!(wave.locate(id(b"big "), 0), Err(Error::MissingDS64Length(id(b"big "))));
}

#[test]
fn ds64_records_are_last_write_wins() {
    let records: [(&[u8; 4], u64); 4] =
        [(b"big ", 10), (b"data", 6), (b"big ", 0x2_0000_0000), (b"othr", 5)];
    let mut body = Vec::new();
    body.extend_from_slice(b"big ");
    body.extend_from_slice(&0xFFFF_FFFFu32.to_le_bytes());
    let ds64 = ds64_chunk(1 << 40, 99, &records);
    assert_eq!(ds64.len(), 8 + 28 + 48);
    let bytes = rf64(b"BW64", ds64, &body);
    let resolved = resolve(&bytes, true).unwrap();
    assert_eq!(resolved.table.get(id(b"big ")), Some(0x2_0000_0000));
    // A record under the name of `data` stands in place of the data size field.
    assert_eq!(resolved.table.get(id(b"data")), Some(6));
    assert_eq!(resolved.table.get(id(b"othr")), Some(5));
    assert_eq!(resolved.table.get(id(b"RF64")), Some(1 << 40));
    assert_eq!(resolved.body_start, 12 + 84);
    assert_eq!(resolved.form_budget, (1 << 40) - (4 + 84));
    let wave = Wave::new(bytes);
    assert_eq!(wave.locate(id(b"big "), 0), Ok((96 + 8, 0x2_0000_0000)));
}

#[test]
fn resolve_of_a_standard_container_is_empty() {
    let bytes = riff(&[chunk(b"data", &[0; 2])]);
    let ds64 = resolve(&bytes, false).unwrap();
    assert_eq!(ds64.table.get(id(b"data")), None);
    assert_eq!(ds64.table.entries.len(), 0);
    assert_eq!(ds64.body_start, 12);
}

#[test]
fn resolve_honors_odd_ds64_length_and_truncation() {
    // An odd ds64 length is followed by a pad byte.
    let mut ds64 = ds64_chunk(200, 0, &[]);
    ds64[4] = 29;
    ds64.push(0xEE);
    ds64.push(0);
    let bytes = rf64(b"RF64", ds64, &chunk(b"data", &[5, 5]));
    let resolved = resolve(&bytes, true).unwrap();
    assert_eq!(resolved.body_start, 12 + 8 + 30);
    assert_eq!(resolved.form_budget, 200 - (4 + 8 + 30));
    assert_eq!(Wave::new(bytes.clone()).locate(id(b"data"), 0), Ok((58, 2)));

    // A form size smaller than the ds64 chunk leaves nothing to walk.
    let small = rf64(b"RF64", ds64_chunk(10, 0, &[]), &chunk(b"data", &[5, 5]));
    assert_eq!(resolve(&small, true).unwrap().form_budget, 0);

    // The store must hold the records that the chunk announces.
    let mut cut = rf64(b"RF64", ds64_chunk(100, 0, &[(b"big ", 1), (b"oth ", 2)]), &[]);
    cut.truncate(48 + 12 + 11);
    assert_eq!(resolve(&cut, true).err(), Some(Error::UnexpectedEof));
    cut.truncate(15);
    assert_eq!(resolve(&cut, true).err(), Some(Error::UnexpectedEof));
}

#[test]
fn header_is_read_at_the_cursor() {
    let bytes = riff(&[chunk(b"odd ", &[1, 2, 3]), chunk(b"data", &[0; 4])]);
    let mut wave = Wave::new(bytes.clone());
    wave.seek(12);
    assert_eq!(wave.read_chunk_header_immediate(), Ok((id(b"odd "), 3, 4)));
    assert_eq!(wave.position(), 20);
    wave.seek(24);
    assert_eq!(wave.read_chunk_header_immediate(), Ok((id(b"data"), 4, 4)));
    assert_eq!(wave.position(), 32);
    wave.seek(bytes.len() as u64 - 7);
    assert_eq!(wave.read_chunk_header_immediate(), Err(Error::UnexpectedEof));
    assert_eq!(wave.position(), bytes.len() as u64 - 7);
    let table = Ds64Table::new();
    let header = read_header_at(&bytes, &table, 12).unwrap();
    assert_eq!(header.ident, id(b"odd "));
    assert_eq!(header.declared_length, 3);
    assert_eq!(header.resolved_length, 3);
}

#[test]
fn seek_chunk_moves_the_cursor() {
    let bytes = riff(&[chunk(b"fmt ", &pcm_fmt(2, 4)), chunk(b"data", &[0; 12])]);
    let mut wave = Wave::new(bytes);
    assert_eq!(wave.seek_chunk(id(b"data"), 0), Ok(12));
    assert_eq!(wave.position(), 44);
    assert_eq!(wave.seek_chunk(id(b"bext"), 0), Err(Error::ChunkMissing { signature: id(b"bext") }));
    assert_eq!(wave.position(), 44);
}

#[test]
fn format_is_decoded() {
    let bytes = riff(&[chunk(b"fmt ", &pcm_fmt(2, 4)), chunk(b"data", &[0; 12])]);
    let mut wave = Wave::new(bytes);
    let fmt = wave.format().unwrap();
    assert_eq!(fmt.tag, 1);
    assert_eq!(fmt.channel_count, 2);
    assert_eq!(fmt.sample_rate, 48000);
    assert_eq!(fmt.bytes_per_second, 192000);
    assert_eq!(fmt.block_alignment, 4);
    assert_eq!(fmt.bits_per_sample, 16);
    assert_eq!(fmt.extended_format, None);
    assert_eq!(wave.position(), 36);
    assert_eq!(wave.frame_length(), Ok(3));
}

#[test]
fn extensible_format_is_decoded() {
    let bytes = riff(&[chunk(b"fmt ", &extensible_fmt(6, 0x3F)), chunk(b"data", &[0; 36])]);
    let mut wave = Wave::new(bytes);
    let fmt = wave.format().unwrap();
    assert_eq!(fmt.tag, 0xFFFE);
    assert_eq!(fmt.channel_count, 6);
    assert_eq!(fmt.block_alignment, 18);
    let extended = fmt.extended_format.unwrap();
    assert_eq!(extended.valid_bits_per_sample, 24);
    assert_eq!(extended.channel_mask, 0x3F);
    assert_eq!(
        extended.type_guid,
        [0x01, 0, 0, 0, 0, 0, 0x10, 0, 0x80, 0, 0, 0xAA, 0, 0x38, 0x9B, 0x71]
    );
    assert_eq!(wave.position(), 20 + 40);
    assert_eq!(wave.frame_length(), Ok(2));
}

#[test]
fn format_failures() {
    let mut no_fmt = Wave::new(riff(&[chunk(b"data", &[0; 4])]));
    assert_eq!(no_fmt.format().err(), Some(Error::ChunkMissing { signature: id(b"fmt ") }));
    assert_eq!(no_fmt.frame_length(), Err(Error::ChunkMissing { signature: id(b"fmt ") }));

    let mut no_data = Wave::new(riff(&[chunk(b"fmt ", &pcm_fmt(2, 4))]));
    no_data.seek(3);
    assert_eq!(no_data.frame_length(), Err(Error::ChunkMissing { signature: id(b"data") }));
    assert_eq!(no_data.position(), 3);

    let mut cut = riff(&[chunk(b"fmt ", &pcm_fmt(2, 4))]);
    cut.truncate(30);
    let mut cut = Wave::new(cut);
    assert_eq!(cut.format().err(), Some(Error::UnexpectedEof));
    assert_eq!(cut.position(), 0);

    let mut zero = Wave::new(riff(&[chunk(b"fmt ", &pcm_fmt(2, 0)), chunk(b"data", &[0; 4])]));
    zero.seek(7);
    assert_eq!(zero.frame_length(), Err(Error::ZeroBlockAlignment));
    assert_eq!(zero.position(), 7);
}

#[test]
fn chunk_content_is_read() {
    let bytes = riff(&[
        chunk(b"fmt ", &pcm_fmt(1, 2)),
        chunk(b"bext", b"broadcast"),
        chunk(b"iXML", b"<ixml/>"),
        chunk(b"axml", b"<axml></axml>"),
        chunk(b"data", &[0; 2]),
    ]);
    let mut wave = Wave::new(bytes);
    assert_eq!(wave.broadcast_extension(), Ok(b"broadcast".to_vec()));
    let mut buffer = vec![0xAA; 3];
    assert_eq!(wave.read_ixml(&mut buffer), Ok(7));
    assert_eq!(buffer, b"<ixml/>".to_vec());
    assert_eq!(wave.read_axml(&mut buffer), Ok(13));
    assert_eq!(buffer, b"<axml></axml>".to_vec());
    assert_eq!(wave.read_chunk(id(b"data"), 0, &mut buffer), Ok(2));
    assert_eq!(buffer, vec![0, 0]);
    let (offset, length) = wave.locate(id(b"data"), 0).unwrap();
    assert_eq!(wave.position(), offset + length);
    assert_eq!(
        wave.read_chunk(id(b"cue "), 0, &mut buffer),
        Err(Error::ChunkMissing { signature: id(b"cue ") })
    );
    assert_eq!(buffer, vec![0, 0]);
    assert_eq!(wave.read_raw(12, 4), Ok(b"fmt ".to_vec()));
    assert_eq!(wave.read_raw(0, 1 << 20), Err(Error::UnexpectedEof));
    assert_eq!(wave.read_raw(u64::MAX, 1), Err(Error::UnexpectedEof));
}

#[test]
fn missing_metadata_chunks() {
    let mut wave = Wave::new(riff(&[chunk(b"data", &[0; 2])]));
    let mut buffer = Vec::new();
    assert_eq!(wave.read_ixml(&mut buffer), Err(Error::ChunkMissing { signature: id(b"iXML") }));
    assert_eq!(wave.read_axml(&mut buffer), Err(Error::ChunkMissing { signature: id(b"axml") }));
    assert_eq!(
        wave.broadcast_extension(),
        Err(Error::ChunkMissing { signature: id(b"bext") })
    );
}
