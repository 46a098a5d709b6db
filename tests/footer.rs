use flatbuffers::FlatBufferBuilder;
use vortex_flatbuffers::footer as fb;
use vortex_inspect::footer::{
    footer_encodings, footer_lists_from_decoded, footer_segment, footer_segment_from_decoded, locate_and_decode,
    parse_trailer, postscript_range, unique_ids, FooterError, FooterSegment, RecordKind, Trailer,
};

fn strings(items: &[&str]) -> Vec<String> {
    items.iter().map(|s| s.to_string()).collect()
}

fn trailer_bytes(version: u16, postscript_length: u16) -> Vec<u8> {
    let mut t = Vec::new();
    t.extend_from_slice(&version.to_le_bytes());
    t.extend_from_slice(&postscript_length.to_le_bytes());
    t.extend_from_slice(b"VTXF");
    t
}

fn postscript_bytes(footer: Option<(u64, u32)>) -> Vec<u8> {
    let mut fbb = FlatBufferBuilder::new();
    let segment = footer.map(|(offset, length)| {
        fb::PostscriptSegment::create(
            &mut fbb,
            &fb::PostscriptSegmentArgs { offset, length, ..Default::default() },
        )
    });
    let ps = fb::Postscript::create(&mut fbb, &fb::PostscriptArgs { footer: segment, ..Default::default() });
    fbb.finish(ps, None);
    fbb.finished_data().to_vec()
}

fn footer_bytes(arrays: &[&str], layouts: &[&str]) -> Vec<u8> {
    let mut fbb = FlatBufferBuilder::new();
    let mut array_specs = Vec::new();
    for id in arrays {
        let id = fbb.create_string(id);
        array_specs.push(fb::ArraySpec::create(&mut fbb, &fb::ArraySpecArgs { id: Some(id) }));
    }
    let mut layout_specs = Vec::new();
    for id in layouts {
        let id = fbb.create_string(id);
        layout_specs.push(fb::LayoutSpec::create(&mut fbb, &fb::LayoutSpecArgs { id: Some(id) }));
    }
    let array_specs = fbb.create_vector(&array_specs);
    let layout_specs = fbb.create_vector(&layout_specs);
    let footer = fb::Footer::create(
        &mut fbb,
        &fb::FooterArgs { array_specs: Some(array_specs), layout_specs: Some(layout_specs), ..Default::default() },
    );
    fbb.finish(footer, None);
    fbb.finished_data().to_vec()
}

/// A file of `data_len` zero bytes, then the footer, the postscript naming
/// it, and the trailer.
fn laid_out_file(data_len: usize, arrays: &[&str], layouts: &[&str]) -> Vec<u8> {
    let mut file = vec![0u8; data_len];
    let footer = footer_bytes(arrays, layouts);
    let postscript = postscript_bytes(Some((data_len as u64, footer.len() as u32)));
    file.extend_from_slice(&footer);
    file.extend_from_slice(&postscript);
    file.extend_from_slice(&trailer_bytes(1, postscript.len() as u16));
    file
}

#[test]
fn short_buffers_are_too_small() {
    for n in 0..8usize {
        let buf = vec![b'V'; n];
        assert_eq!(parse_trailer(&buf), Err(FooterError::TooSmall { file_size: n as u64 }));
        assert_eq!(locate_and_decode(&buf), Err(FooterError::TooSmall { file_size: n as u64 }));
    }
}

#[test]
fn eight_bytes_without_magic_is_bad_magic() {
    let buf = [1u8, 0, 12, 0, b'V', b'T', b'X', b'G'];
    assert_eq!(parse_trailer(&buf), Err(FooterError::BadMagic));
    assert_eq!(locate_and_decode(&buf), Err(FooterError::BadMagic));
    let buf = [1u8, 0, 12, 0, 0, 0, 0, 0];
    assert_eq!(locate_and_decode(&buf), Err(FooterError::BadMagic));
}

#[test]
fn zero_postscript_length_is_empty_postscript() {
    let buf = trailer_bytes(1, 0);
    assert_eq!(parse_trailer(&buf), Err(FooterError::EmptyPostscript));
    assert_eq!(locate_and_decode(&buf), Err(FooterError::EmptyPostscript));
}

#[test]
fn trailer_fields_are_little_endian() {
    let mut buf = vec![9u8; 20];
    buf.extend_from_slice(&trailer_bytes(0x0201, 0x0403));
    assert_eq!(parse_trailer(&buf), Ok(Trailer { version: 0x0201, postscript_length: 0x0403 }));
}

#[test]
fn postscript_longer_than_file_overflows() {
    let buf = trailer_bytes(1, 12);
    assert_eq!(
        locate_and_decode(&buf),
        Err(FooterError::PostscriptOverflow { postscript_length: 12, file_size: 8 })
    );
    let t = Trailer { version: 1, postscript_length: 12 };
    assert_eq!(postscript_range(t, 19), Err(FooterError::PostscriptOverflow { postscript_length: 12, file_size: 19 }));
    assert_eq!(postscript_range(t, 20), Ok((0, 12)));
    assert_eq!(postscript_range(t, 120), Ok((100, 12)));
    let mut buf = vec![0u8; 3];
    buf.extend_from_slice(&trailer_bytes(1, 4));
    assert_eq!(
        locate_and_decode(&buf),
        Err(FooterError::PostscriptOverflow { postscript_length: 4, file_size: 11 })
    );
}

#[test]
fn unique_ids_keep_first_seen_order() {
    let ids = strings(&["a", "b", "a", "c", "b"]);
    assert_eq!(unique_ids(&ids), strings(&["a", "b", "c"]));
}

#[test]
fn unique_ids_skip_empty_ids() {
    let ids = strings(&["", "x", "", "y", "x", ""]);
    assert_eq!(unique_ids(&ids), strings(&["x", "y"]));
    assert_eq!(unique_ids(&strings(&["", ""])), Vec::<String>::new());
    assert_eq!(unique_ids(&Vec::new()), Vec::<String>::new());
}

#[test]
fn decoded_segment_is_checked_against_file_size() {
    assert_eq!(
        footer_segment_from_decoded(Some(Some((100, 50))), 170),
        Ok(FooterSegment { offset: 100, length: 50 })
    );
    assert_eq!(
        footer_segment_from_decoded(Some(Some((100, 50))), 150),
        Ok(FooterSegment { offset: 100, length: 50 })
    );
    assert_eq!(
        footer_segment_from_decoded(Some(Some((100, 50))), 149),
        Err(FooterError::FooterOverflow { offset: 100, length: 50, file_size: 149 })
    );
    assert_eq!(
        footer_segment_from_decoded(Some(Some((u64::MAX, 1))), 10),
        Err(FooterError::FooterOverflow { offset: u64::MAX, length: 1, file_size: 10 })
    );
    assert_eq!(footer_segment_from_decoded(Some(Some((100, 0))), 170), Err(FooterError::EmptyFooter { offset: 100 }));
    assert_eq!(footer_segment_from_decoded(Some(None), 170), Err(FooterError::MissingFooterSegment));
    assert_eq!(
        footer_segment_from_decoded(None, 170),
        Err(FooterError::MalformedRecord { record: RecordKind::Postscript })
    );
}

#[test]
fn decoded_footer_lists_are_deduplicated() {
    let decoded = Some((
        Some(strings(&["vortex.zstd", "vortex.dict", "vortex.zstd"])),
        Some(strings(&["vortex.struct", ""])),
    ));
    assert_eq!(
        footer_lists_from_decoded(decoded),
        Ok((strings(&["vortex.zstd", "vortex.dict"]), strings(&["vortex.struct"])))
    );
    assert_eq!(
        footer_lists_from_decoded(Some((None, Some(strings(&["vortex.flat"]))))),
        Ok((Vec::new(), strings(&["vortex.flat"])))
    );
    assert_eq!(footer_lists_from_decoded(Some((None, None))), Ok((Vec::new(), Vec::new())));
    assert_eq!(footer_lists_from_decoded(None), Err(FooterError::MalformedRecord { record: RecordKind::Footer }));
}

#[test]
fn postscript_record_names_footer_segment() {
    let ps = postscript_bytes(Some((100, 50)));
    assert_eq!(footer_segment(&ps, 1000), Ok(FooterSegment { offset: 100, length: 50 }));
    assert_eq!(
        footer_segment(&ps, 120),
        Err(FooterError::FooterOverflow { offset: 100, length: 50, file_size: 120 })
    );
    let ps = postscript_bytes(Some((100, 0)));
    assert_eq!(footer_segment(&ps, 1000), Err(FooterError::EmptyFooter { offset: 100 }));
    let ps = postscript_bytes(None);
    assert_eq!(footer_segment(&ps, 1000), Err(FooterError::MissingFooterSegment));
}

#[test]
fn empty_reads_are_reported() {
    assert_eq!(footer_segment(&[], 1000), Err(FooterError::EmptyPostscriptRead));
    assert_eq!(footer_encodings(&[]), Err(FooterError::EmptyFooterRead));
}

#[test]
fn malformed_records_are_reported() {
    let junk = [0xffu8; 12];
    assert_eq!(footer_segment(&junk, 1000), Err(FooterError::MalformedRecord { record: RecordKind::Postscript }));
    assert_eq!(footer_encodings(&junk), Err(FooterError::MalformedRecord { record: RecordKind::Footer }));
}

#[test]
fn footer_record_lists_encodings() {
    let footer = footer_bytes(&["a", "b", "a", "c", "b", ""], &["vortex.struct", "vortex.flat", "vortex.struct"]);
    assert_eq!(
        footer_encodings(&footer),
        Ok((strings(&["a", "b", "c"]), strings(&["vortex.struct", "vortex.flat"])))
    );
}

#[test]
fn synthetic_file_round_trips() {
    let file = laid_out_file(100, &["vortex.zstd", "vortex.dict"], &["vortex.struct"]);
    assert_eq!(file[file.len() - 8..file.len() - 6], [1u8, 0]);
    assert_eq!(
        locate_and_decode(&file),
        Ok((strings(&["vortex.zstd", "vortex.dict"]), strings(&["vortex.struct"])))
    );
}

#[test]
fn footer_past_end_of_file_overflows() {
    let mut file = vec![0u8; 10];
    let postscript = postscript_bytes(Some((5, 1000)));
    file.extend_from_slice(&postscript);
    file.extend_from_slice(&trailer_bytes(1, postscript.len() as u16));
    let size = file.len() as u64;
    assert_eq!(
        locate_and_decode(&file),
        Err(FooterError::FooterOverflow { offset: 5, length: 1000, file_size: size })
    );
}

#[test]
fn file_without_footer_segment_is_reported() {
    let mut file = vec![0u8; 10];
    let postscript = postscript_bytes(None);
    file.extend_from_slice(&postscript);
    file.extend_from_slice(&trailer_bytes(1, postscript.len() as u16));
    assert_eq!(locate_and_decode(&file), Err(FooterError::MissingFooterSegment));
}

#[test]
fn footer_without_layout_list_gives_no_layouts() {
    let mut fbb = FlatBufferBuilder::new();
    let id = fbb.create_string("vortex.zstd");
    let spec = fb::ArraySpec::create(&mut fbb, &fb::ArraySpecArgs { id: Some(id) });
    let array_specs = fbb.create_vector(&[spec]);
    let footer = fb::Footer::create(&mut fbb, &fb::FooterArgs { array_specs: Some(array_specs), ..Default::default() });
    fbb.finish(footer, None);
    let bytes = fbb.finished_data().to_vec();
    assert_eq!(footer_encodings(&bytes), Ok((strings(&["vortex.zstd"]), Vec::new())));
}
