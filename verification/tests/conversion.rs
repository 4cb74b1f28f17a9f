use qsv2flv::convert_qsv::{
    convert_qsv_to_flv, meta_data_from_tag_blocks, seek_qsv_to_start, skip_qsv_metadata,
    tag_blocks_from_qsv, validate_qsv_format, FlvTagType,
};
use qsv2flv::ErrorKind;

fn push_be24(v: &mut Vec<u8>, x: u32) {
    v.push((x >> 16) as u8);
    v.push((x >> 8) as u8);
    v.push(x as u8);
}

// The timestamp field stores the value's bytes in the order [1, 2, 3, 0]:
// reading [b3, b0, b1, b2] big-endian recovers it.
fn push_ts(v: &mut Vec<u8>, ts: u32) {
    v.push(((ts >> 16) & 0xFF) as u8);
    v.push(((ts >> 8) & 0xFF) as u8);
    v.push((ts & 0xFF) as u8);
    v.push(((ts >> 24) & 0xFF) as u8);
}

fn push_tag(v: &mut Vec<u8>, kind: u8, ts: u32, payload: &[u8]) {
    v.push(kind);
    push_be24(v, payload.len() as u32);
    push_ts(v, ts);
    v.extend_from_slice(&[0, 0, 0]);
    v.extend_from_slice(payload);
    v.extend_from_slice(&[0, 0, 0, 0]);
}

fn make_qsv(tags: &[(u8, u32, Vec<u8>)]) -> Vec<u8> {
    let mut v = vec![0u8; 0x56];
    v[..10].copy_from_slice(b"QIYI VIDEO");
    v[10..14].copy_from_slice(&2i32.to_le_bytes());
    v[0x4A..0x52].copy_from_slice(&0x56u64.to_le_bytes());
    v[0x52..0x56].copy_from_slice(&0u32.to_le_bytes());
    v.extend_from_slice(&[0u8; 13]);
    v.push(0x09);
    v.extend_from_slice(&1u32.to_be_bytes());
    for (k, ts, p) in tags {
        push_tag(&mut v, *k, *ts, p);
    }
    v
}

const KEY: u8 = 0x17; // keyframe flag set, codec id 7
const INTER: u8 = 0x27; // keyframe flag clear, codec id 7

#[test]
fn validate_accepts_good_header() {
    let v = make_qsv(&[]);
    assert!(validate_qsv_format(&v).is_ok());
}

#[test]
fn validate_rejects_wrong_version() {
    let mut v = make_qsv(&[]);
    v[10..14].copy_from_slice(&3i32.to_le_bytes());
    let e = validate_qsv_format(&v).unwrap_err();
    assert!(matches!(e.kind(), ErrorKind::IncorrectQsvVersion));
}

#[test]
fn validate_rejects_wrong_signature() {
    let mut v = make_qsv(&[]);
    v[0] = b'X';
    let e = validate_qsv_format(&v).unwrap_err();
    assert!(matches!(e.kind(), ErrorKind::IncorrectQsvFormat));
}

#[test]
fn validate_checks_version_before_signature() {
    let mut v = make_qsv(&[]);
    v[0] = b'X';
    v[10..14].copy_from_slice(&7i32.to_le_bytes());
    let e = validate_qsv_format(&v).unwrap_err();
    assert!(matches!(e.kind(), ErrorKind::IncorrectQsvVersion));
}

#[test]
fn validate_short_input_reads_zero_version() {
    let v = vec![0u8; 4];
    let e = validate_qsv_format(&v).unwrap_err();
    assert!(matches!(e.kind(), ErrorKind::IncorrectQsvVersion));
}

#[test]
fn seek_finds_region_end() {
    let v = make_qsv(&[]);
    assert_eq!(seek_qsv_to_start(&v).unwrap(), Some(0x56));
}

#[test]
fn seek_reports_truncated_region() {
    let mut v = make_qsv(&[]);
    v[0x4A..0x52].copy_from_slice(&100000u64.to_le_bytes());
    assert_eq!(seek_qsv_to_start(&v).unwrap(), None);
}

#[test]
fn seek_fails_on_short_input() {
    let v = vec![0u8; 0x30];
    assert!(seek_qsv_to_start(&v).unwrap_err().is_io_error());
}

#[test]
fn skip_metadata_resumes_after_false_positive() {
    let mut v = vec![0u8; 13];
    v.extend_from_slice(&[0x09, 0, 0, 0, 2]); // sentinel, but count is 1
    v.extend_from_slice(&[0x09, 0, 0, 0, 6]); // true terminator: count is 6
    assert_eq!(skip_qsv_metadata(&v, 0).unwrap(), 23);
}

#[test]
fn skip_metadata_fails_past_end() {
    let v = vec![0u8; 20];
    assert!(skip_qsv_metadata(&v, 0).unwrap_err().is_io_error());
}

#[test]
fn scan_finds_all_tags_in_order() {
    let v = make_qsv(&[
        (0x09, 10, vec![KEY, 1, 2]),
        (0x08, 20, vec![0xAF]),
        (0x12, 30, vec![9, 9, 9, 9]),
    ]);
    let blocks = tag_blocks_from_qsv(&v).unwrap();
    assert_eq!(blocks.len(), 3);
    assert!(matches!(blocks[0].tag_type, FlvTagType::Video));
    assert!(matches!(blocks[1].tag_type, FlvTagType::Audio));
    assert!(matches!(blocks[2].tag_type, FlvTagType::Script));
    assert_eq!(blocks[0].offset, 0x68);
    assert_eq!(blocks[0].size, 14); // 3-byte payload + 11
    assert_eq!(blocks[1].offset, 0x68 + 14 + 4);
    assert_eq!(blocks[1].size, 12);
    assert_eq!(blocks[2].offset, 0x68 + 18 + 16);
    assert_eq!(blocks[2].size, 15);
}

#[test]
fn scan_empty_stream_yields_no_tags() {
    let v = make_qsv(&[]);
    let blocks = tag_blocks_from_qsv(&v).unwrap();
    assert_eq!(blocks.len(), 0);
}

#[test]
fn scan_truncated_region_is_rejected() {
    let mut v = make_qsv(&[]);
    v[0x4A..0x52].copy_from_slice(&100000u64.to_le_bytes());
    let e = tag_blocks_from_qsv(&v).unwrap_err();
    assert!(matches!(e.kind(), ErrorKind::IncorrectQsvFormat));
}

#[test]
fn derive_empty_tag_set_is_its_own_error() {
    let v = make_qsv(&[]);
    let e = meta_data_from_tag_blocks(&v, &Vec::new()).unwrap_err();
    assert!(matches!(e.kind(), ErrorKind::QsvTagsIsEmpty));
}

#[test]
fn derive_one_tag_is_too_short_not_empty() {
    let v = make_qsv(&[(0x09, 500, vec![KEY])]);
    let tags = tag_blocks_from_qsv(&v).unwrap();
    assert_eq!(tags.len(), 1);
    let e = meta_data_from_tag_blocks(&v, &tags).unwrap_err();
    assert!(matches!(e.kind(), ErrorKind::MediaDurationIsTooShort));
}

#[test]
fn derive_computes_frame_rate_denominator() {
    let v = make_qsv(&[
        (0x09, 1000, vec![KEY]),
        (0x09, 3500, vec![KEY]),
        (0x09, 6000, vec![KEY]),
        (0x09, 8500, vec![KEY]),
        (0x09, 11000, vec![KEY]),
        (0x09, 13500, vec![KEY]),
    ]);
    let tags = tag_blocks_from_qsv(&v).unwrap();
    let meta = meta_data_from_tag_blocks(&v, &tags).unwrap();
    assert_eq!(meta.frame_rate_denom, 13500 + 11000 + 8500 - 6000 - 3500 - 1000);
    assert_eq!(meta.duration_ms, 13500);
    assert_eq!(meta.timestamp_last_ms, 13500);
    assert_eq!(meta.video_codec_id, 7);
    assert_eq!(meta.key_frames.len(), 6);
    assert_eq!(meta.timestamp_last_key_frame_ms, 13500);
}

#[test]
fn derive_collapses_close_keyframes() {
    let v = make_qsv(&[
        (0x09, 1000, vec![KEY]),
        (0x09, 1500, vec![KEY]),
        (0x09, 3500, vec![KEY]),
        (0x09, 4000, vec![INTER]),
        (0x09, 4100, vec![INTER]),
        (0x09, 4200, vec![INTER]),
    ]);
    let tags = tag_blocks_from_qsv(&v).unwrap();
    let meta = meta_data_from_tag_blocks(&v, &tags).unwrap();
    // 1500 lies under 2000 ms past 1000, so it collapses into that entry.
    assert_eq!(meta.key_frames.len(), 2);
    assert_eq!(meta.key_frames[0].time_pos_ms, 1000);
    assert_eq!(meta.key_frames[0].file_pos, 0);
    assert_eq!(meta.key_frames[1].time_pos_ms, 3500);
    assert_eq!(meta.key_frames[1].file_pos, 32); // two 12-byte tags + trailers
    assert_eq!(meta.timestamp_last_key_frame_ms, 3500);
}

#[test]
fn derive_reads_audio_parameters() {
    let v = make_qsv(&[
        (0x08, 10, vec![0xAF]),
        (0x09, 1000, vec![KEY]),
        (0x09, 3500, vec![KEY]),
        (0x09, 6000, vec![KEY]),
        (0x09, 8500, vec![KEY]),
        (0x09, 11000, vec![KEY]),
        (0x09, 13500, vec![KEY]),
    ]);
    let tags = tag_blocks_from_qsv(&v).unwrap();
    let meta = meta_data_from_tag_blocks(&v, &tags).unwrap();
    assert_eq!(meta.audio_codec_id, 0x0A);
    assert_eq!(meta.audio_sample_rate, 3);
    assert_eq!(meta.audio_sample_size, 1);
    assert!(meta.audio_stereo);
}

#[test]
fn derive_rejects_undersized_tag() {
    let v = make_qsv(&[(0x09, 10, vec![KEY])]);
    let mut tags = tag_blocks_from_qsv(&v).unwrap();
    tags[0].size = 5;
    let e = meta_data_from_tag_blocks(&v, &tags).unwrap_err();
    assert!(matches!(e.kind(), ErrorKind::IncorrectQsvFormat));
}

#[test]
fn tag_type_from_byte_decodes_known_kinds() {
    assert!(matches!(FlvTagType::from_byte(0x08), Some(FlvTagType::Audio)));
    assert!(matches!(FlvTagType::from_byte(0x09), Some(FlvTagType::Video)));
    assert!(matches!(FlvTagType::from_byte(0x12), Some(FlvTagType::Script)));
    assert!(FlvTagType::from_byte(0x0A).is_none());
}

#[test]
fn convert_writes_expected_container() {
    let src = make_qsv(&[
        (0x08, 10, vec![0xAF]),
        (0x09, 1000, vec![KEY, 5]),
        (0x09, 3500, vec![KEY]),
        (0x09, 6000, vec![KEY]),
        (0x09, 8500, vec![KEY]),
        (0x09, 11000, vec![KEY]),
        (0x09, 13500, vec![KEY]),
    ]);
    let tags = tag_blocks_from_qsv(&src).unwrap();
    let out = convert_qsv_to_flv(&src).unwrap();

    assert_eq!(&out[0..3], b"FLV");
    let nk = 6usize;
    let cl = 7usize; // "qsv2flv"
    let hs = 466 + cl + 18 * nk;

    // Scalar fields hold the exact double-precision encodings.
    assert_eq!(&out[53..61], &(13500f64 / 1000f64).to_be_bytes());
    let denom = (13500 + 11000 + 8500 - 6000 - 3500 - 1000) as f64;
    assert_eq!(&out[130..138], &(9000.0f64 / denom).to_be_bytes());
    assert_eq!(&out[153..161], &7f64.to_be_bytes());
    assert_eq!(&out[179..187], &3f64.to_be_bytes());
    assert_eq!(&out[205..213], &1f64.to_be_bytes());
    assert_eq!(out[222], 1); // stereo
    assert_eq!(&out[238..246], &10f64.to_be_bytes());
    assert_eq!(&out[302..310], &13.5f64.to_be_bytes());
    assert_eq!(&out[334..342], &13.5f64.to_be_bytes());
    assert_eq!(out[357], 1); // canSeekToEnd
    assert_eq!(&out[392..410], b"\x00\x0fmetadatacreator\x02");
    assert_eq!(&out[410..412], &7u16.to_be_bytes());
    assert_eq!(&out[412..419], b"qsv2flv");

    // Keyframe arrays: count, then marker + double per entry.
    assert_eq!(&out[440 + cl..444 + cl], &(nk as u32).to_be_bytes());
    let first_pos = 444 + cl;
    assert_eq!(out[first_pos], 0);
    // first keyframe: second tag, one 16-byte audio tag before it
    assert_eq!(&out[first_pos + 1..first_pos + 9], &((hs + 16) as f64).to_be_bytes());
    let times = 444 + cl + 9 * nk + 8 + 4;
    assert_eq!(out[times], 0);
    assert_eq!(&out[times + 1..times + 9], &1f64.to_be_bytes());

    // Backpointer: metadata object size including its 11-byte tag header.
    let ds = (438 + cl + 18 * nk) as u32;
    assert_eq!(&out[14..17], &ds.to_be_bytes()[1..4]);
    assert_eq!(&out[hs - 4..hs], &(ds + 11).to_be_bytes());

    // Byte identity: every tag's size + 4 bytes sit verbatim at its
    // rewritten position.
    let mut fpos = hs;
    for t in &tags {
        let n = (t.size + 4) as usize;
        let off = t.offset as usize;
        assert_eq!(&out[fpos..fpos + n], &src[off..off + n]);
        fpos += n;
    }
    assert_eq!(fpos, out.len());

    // Total length, written as the leading 4 bytes of a double.
    assert_eq!(&out[278..282], &(out.len() as f64).to_be_bytes()[..4]);
    assert_eq!(&out[282..286], &[0, 0, 0, 0]);
}

#[test]
fn convert_rejects_wrong_version_first() {
    let mut v = make_qsv(&[]);
    v[10] = 9;
    let e = convert_qsv_to_flv(&v).unwrap_err();
    assert!(matches!(e.kind(), ErrorKind::IncorrectQsvVersion));
}

#[test]
fn convert_propagates_short_media() {
    let v = make_qsv(&[(0x09, 500, vec![KEY])]);
    let e = convert_qsv_to_flv(&v).unwrap_err();
    assert!(matches!(e.kind(), ErrorKind::MediaDurationIsTooShort));
}
