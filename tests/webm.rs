use std::sync::Arc;

use webm_meta::error::{EbmlDefect, ParseWebmFailed};
use webm_meta::info::{parse_segment_info, FloatBits, ScaledDuration};
use webm_meta::partial_vec::PartialVec;
use webm_meta::seek::{parse_seek_entry, parse_seek_head, SeekEntry};
use webm_meta::tracks::{parse_tracks_info, TracksInfo};
use webm_meta::webm::{parse_webm, EbmlFileInfo};

fn el(id: &[u8], payload: &[u8]) -> Vec<u8> {
    let mut v = id.to_vec();
    if payload.len() < 0x7F {
        v.push(0x80 | payload.len() as u8);
    } else {
        v.push(0x01);
        v.extend_from_slice(&(payload.len() as u64).to_be_bytes()[1..]);
    }
    v.extend_from_slice(payload);
    v
}

fn cat(parts: &[Vec<u8>]) -> Vec<u8> {
    parts.concat()
}

const EBML: [u8; 4] = [0x1A, 0x45, 0xDF, 0xA3];
const SEGMENT: [u8; 4] = [0x18, 0x53, 0x80, 0x67];
const SEEK_HEAD: [u8; 4] = [0x11, 0x4D, 0x9B, 0x74];
const INFO: [u8; 4] = [0x15, 0x49, 0xA9, 0x66];
const TRACKS: [u8; 4] = [0x16, 0x54, 0xAE, 0x6B];

fn ebml_header(doc: &str) -> Vec<u8> {
    el(&EBML, &cat(&[el(&[0x42, 0x86], &[1]), el(&[0x42, 0x82], doc.as_bytes())]))
}

fn segment(payload: &[u8]) -> Vec<u8> {
    let mut v = SEGMENT.to_vec();
    v.push(0x01);
    v.extend_from_slice(&(payload.len() as u64).to_be_bytes()[1..]);
    v.extend_from_slice(payload);
    v
}

fn seek(id: &[u8], pos: u64) -> Vec<u8> {
    el(&[0x4D, 0xBB], &cat(&[el(&[0x53, 0xAB], id), el(&[0x53, 0xAC], &pos.to_be_bytes())]))
}

fn info_element(scale: Option<u32>, duration: f64, date: Option<i64>) -> Vec<u8> {
    let mut children = Vec::new();
    if let Some(s) = scale {
        children.push(el(&[0x2A, 0xD7, 0xB1], &s.to_be_bytes()));
    }
    children.push(el(&[0x44, 0x89], &duration.to_bits().to_be_bytes()));
    if let Some(d) = date {
        children.push(el(&[0x44, 0x61], &d.to_be_bytes()));
    }
    el(&INFO, &cat(&children))
}

fn video_entry(width: u16, height: u16) -> Vec<u8> {
    el(
        &[0xAE],
        &cat(&[
            el(&[0xD7], &[1]),
            el(&[0x83], &[1]),
            el(&[0xE0], &cat(&[el(&[0xB0], &width.to_be_bytes()), el(&[0xBA], &height.to_be_bytes())])),
        ]),
    )
}

fn audio_entry(n: u8) -> Vec<u8> {
    el(&[0xAE], &cat(&[el(&[0xD7], &[n]), el(&[0x83], &[2]), el(&[0xE1], &el(&[0xB5], &[0x40, 0xE7, 0x70, 0x00]))]))
}

fn tracks_element(entries: &[Vec<u8>]) -> Vec<u8> {
    el(&TRACKS, &cat(entries))
}

const DATE_NANOS: i64 = 500_000_000_000_000_000;

/// A file with a SeekHead in front of Info and Tracks.
fn sample_with_seek_head() -> Vec<u8> {
    let info = info_element(Some(1_000_000), 8_000.5, Some(DATE_NANOS));
    let tracks = tracks_element(&[audio_entry(2), video_entry(1280, 720)]);
    let head_len = el(&SEEK_HEAD, &cat(&[seek(&INFO, 0), seek(&TRACKS, 0)])).len() as u64;
    let seek_head = el(&SEEK_HEAD, &cat(&[seek(&INFO, head_len), seek(&TRACKS, head_len + info.len() as u64)]));
    cat(&[ebml_header("webm"), segment(&cat(&[seek_head, info, tracks]))])
}

fn sample_without_seek_head() -> Vec<u8> {
    let info = info_element(Some(1_000_000), 8_000.5, Some(DATE_NANOS));
    let tracks = tracks_element(&[audio_entry(2), video_entry(1280, 720)]);
    cat(&[ebml_header("webm"), segment(&cat(&[info, tracks]))])
}

fn expected_date_nanos(nanos_after_2001: i64) -> i128 {
    let epoch = chrono::NaiveDate::from_ymd_opt(2001, 1, 1).unwrap().and_hms_opt(0, 0, 0).unwrap().and_utc();
    epoch.timestamp() as i128 * 1_000_000_000 + nanos_after_2001 as i128
}

fn duration_ns(d: &ScaledDuration) -> f64 {
    let ticks = match d.ticks {
        FloatBits::Single(b) => f32::from_bits(b) as f64,
        FloatBits::Double(b) => f64::from_bits(b),
    };
    ticks * d.scale as f64
}

fn check_sample_result(f: &EbmlFileInfo) {
    assert_eq!(f.doc_type, "webm");
    let d = f.segment_info.duration.expect("duration");
    assert_eq!(d.ticks, FloatBits::Double(8_000.5f64.to_bits()));
    assert_eq!(d.scale, 1_000_000);
    assert_eq!(duration_ns(&d), 8_000_500_000.0);
    assert_eq!(f.segment_info.date.unix_nanos, expected_date_nanos(DATE_NANOS));
    assert_eq!(f.tracks_info, TracksInfo { width: 1280, height: 720 });
}

fn same(a: &EbmlFileInfo, b: &EbmlFileInfo) -> bool {
    a.doc_type == b.doc_type && a.segment_info == b.segment_info && a.tracks_info == b.tracks_info
}

#[test]
fn sample_with_seek_head_gives_expected_fields() {
    let f = parse_webm(&sample_with_seek_head()).unwrap();
    check_sample_result(&f);
}

#[test]
fn sample_without_seek_head_gives_same_fields() {
    let with = parse_webm(&sample_with_seek_head()).unwrap();
    let without = parse_webm(&sample_without_seek_head()).unwrap();
    check_sample_result(&without);
    assert!(same(&with, &without));
}

#[test]
fn truncated_input_asks_for_bytes_until_same_result() {
    for sample in [sample_with_seek_head(), sample_without_seek_head()] {
        let full = parse_webm(&sample).unwrap();
        for l in 0..sample.len() {
            let mut len = l;
            let mut rounds = 0;
            loop {
                match parse_webm(&sample[..len]) {
                    Ok(f) => {
                        assert!(same(&f, &full), "prefix {l}");
                        break;
                    }
                    Err(ParseWebmFailed::Need(n)) => {
                        assert!(n >= 1);
                        assert!(len + n <= sample.len(), "asks past the end, prefix {l}");
                        len += n;
                    }
                    Err(e) => panic!("prefix {l}: {e:?}"),
                }
                rounds += 1;
                assert!(rounds < 1000);
            }
        }
    }
}

#[test]
fn corrupted_seek_entry_between_valid_ones_is_skipped() {
    let bad = el(&[0x4D, 0xBB], &cat(&[el(&[0x53, 0xAB], &INFO), el(&[0x53, 0xAC], &[0, 0, 7])]));
    let payload = cat(&[seek(&INFO, 0x40), bad, seek(&TRACKS, 0x90)]);
    let table = parse_seek_head(&payload, 0, payload.len(), 0x1000).unwrap();
    assert_eq!(table.len(), 2);
    assert_eq!(table.get(&0x1549A966), Some(&0x1040));
    assert_eq!(table.get(&0x1654AE6B), Some(&0x1090));
}

#[test]
fn later_seek_entry_for_same_id_wins() {
    let payload = cat(&[seek(&INFO, 0x40), el(&[0xEC], &[0, 0]), seek(&INFO, 0x50)]);
    let table = parse_seek_head(&payload, 0, payload.len(), 0).unwrap();
    assert_eq!(table.len(), 1);
    assert_eq!(table.get(&0x1549A966), Some(&0x50));
}

#[test]
fn seek_entry_with_bad_position_width_is_invalid() {
    let body = cat(&[el(&[0x53, 0xAB], &INFO), el(&[0x53, 0xAC], &[0, 0, 7])]);
    assert_eq!(parse_seek_entry(&body, 0x4DBB, 0, body.len()), Err(ParseWebmFailed::InvalidSeekEntry));
    let good = cat(&[el(&[0x53, 0xAB], &INFO), el(&[0x53, 0xAC], &[0, 0, 0, 7])]);
    assert_eq!(
        parse_seek_entry(&good, 0x4DBB, 0, good.len()),
        Ok(Some(SeekEntry { seek_id: 0x1549A966, seek_pos: 7 }))
    );
    assert_eq!(parse_seek_entry(&good, 0xEC, 0, good.len()), Ok(None));
    assert_eq!(parse_seek_entry(&good, 0x1234, 0, good.len()), Err(ParseWebmFailed::InvalidSeekEntry));
}

#[test]
fn missing_timestamp_scale_uses_one_million() {
    let info = info_element(None, 2.5, None);
    let r = parse_segment_info(&info, 0).unwrap().unwrap();
    let d = r.duration.unwrap();
    assert_eq!(d.scale, 1_000_000);
    assert_eq!(duration_ns(&d), 2.5 * 1_000_000.0);
    assert_eq!(r.date.unix_nanos, 0);
}

#[test]
fn timestamp_scale_after_duration_is_not_applied() {
    let children = cat(&[el(&[0x44, 0x89], &(3.0f32).to_bits().to_be_bytes()), el(&[0x2A, 0xD7, 0xB1], &[0x03, 0xE8])]);
    let info = el(&INFO, &children);
    let d = parse_segment_info(&info, 0).unwrap().unwrap().duration.unwrap();
    assert_eq!(d, ScaledDuration { ticks: FloatBits::Single(3.0f32.to_bits()), scale: 1_000_000 });
}

#[test]
fn audio_tracks_only_give_zero_size() {
    let tracks = tracks_element(&[audio_entry(1), audio_entry(2), audio_entry(3)]);
    assert_eq!(parse_tracks_info(&tracks, 0), Ok(None));
    let file = cat(&[ebml_header("webm"), segment(&cat(&[info_element(None, 1.0, None), tracks]))]);
    let f = parse_webm(&file).unwrap();
    assert_eq!(f.tracks_info, TracksInfo { width: 0, height: 0 });
}

#[test]
fn video_track_without_height_gives_zero_height() {
    let entry = el(&[0xAE], &el(&[0xE0], &el(&[0xB0], &[0x01, 0x00])));
    let tracks = tracks_element(&[entry]);
    assert_eq!(parse_tracks_info(&tracks, 0), Ok(Some(TracksInfo { width: 256, height: 0 })));
}

#[test]
fn segment_without_info_and_tracks_gives_defaults() {
    let file = cat(&[ebml_header("webm"), segment(&el(&[0x1F, 0x43, 0xB6, 0x75], &[0xE7, 0x81, 0x00]))]);
    let f = parse_webm(&file).unwrap();
    assert_eq!(f.doc_type, "webm");
    assert_eq!(f.segment_info.duration, None);
    assert_eq!(f.segment_info.date.unix_nanos, 0);
    assert_eq!(f.tracks_info, TracksInfo { width: 0, height: 0 });
    let empty = cat(&[ebml_header("webm"), segment(&[])]);
    let f = parse_webm(&empty).unwrap();
    assert_eq!(f.tracks_info, TracksInfo { width: 0, height: 0 });
}

#[test]
fn date_zero_is_start_of_2001() {
    let info = info_element(None, 1.0, Some(0));
    let r = parse_segment_info(&info, 0).unwrap().unwrap();
    assert_eq!(r.date.unix_nanos, 978_307_200_000_000_000);
    let expected = chrono::NaiveDate::from_ymd_opt(2001, 1, 1).unwrap().and_hms_opt(0, 0, 0).unwrap().and_utc();
    assert_eq!(r.date.unix_nanos, expected.timestamp() as i128 * 1_000_000_000);
}

#[test]
fn negative_date_is_before_2001() {
    let info = info_element(None, 1.0, Some(-1_000_000_000));
    let r = parse_segment_info(&info, 0).unwrap().unwrap();
    assert_eq!(r.date.unix_nanos, 978_307_199_000_000_000);
}

#[test]
fn matroska_doc_type_is_read() {
    let file = cat(&[ebml_header("matroska"), segment(&[])]);
    assert_eq!(parse_webm(&file).unwrap().doc_type, "matroska");
}

#[test]
fn empty_input_needs_one_byte() {
    assert_eq!(parse_webm(&[]).unwrap_err(), ParseWebmFailed::Need(1));
}

#[test]
fn other_leading_element_is_not_webm() {
    let file = el(&[0x1A, 0x45, 0xDF, 0xA4], &[0x42, 0x82, 0x81, b'x']);
    assert_eq!(parse_webm(&file).unwrap_err(), ParseWebmFailed::NotWebmFile);
    let file = cat(&[ebml_header("webm"), el(&[0x1F, 0x43, 0xB6, 0x75], &[])]);
    assert_eq!(parse_webm(&file).unwrap_err(), ParseWebmFailed::NotWebmFile);
    assert_eq!(parse_webm(&[0x00, 0x01]).unwrap_err(), ParseWebmFailed::NotWebmFile);
}

#[test]
fn ebml_header_without_doc_type_is_invalid() {
    let file = cat(&[el(&EBML, &el(&[0x42, 0x86], &[1])), segment(&[])]);
    assert_eq!(
        parse_webm(&file).unwrap_err(),
        ParseWebmFailed::InvalidWebmFile(EbmlDefect::MissingDocType)
    );
}

#[test]
fn zero_byte_in_ebml_header_is_invalid_vint() {
    let file = cat(&[el(&EBML, &[0x00, 0x81, 0x00]), segment(&[])]);
    assert_eq!(
        parse_webm(&file).unwrap_err(),
        ParseWebmFailed::InvalidWebmFile(EbmlDefect::InvalidVInt)
    );
}

#[test]
fn info_offset_past_buffer_asks_for_bytes() {
    assert_eq!(parse_segment_info(&[0x15, 0x49], 10), Err(ParseWebmFailed::Need(9)));
    let info = info_element(None, 1.0, None);
    assert_eq!(parse_segment_info(&info[..info.len() - 3], 0), Err(ParseWebmFailed::Need(3)));
}

#[test]
fn partial_vec_views_share_buffer() {
    let v = PartialVec::from_vec(vec![1, 2, 3, 4, 5]);
    assert_eq!(v.as_slice(), &[1, 2, 3, 4, 5]);
    let p = v.partial(1..4);
    assert_eq!(p.as_slice(), &[2, 3, 4]);
    assert_eq!(p.len(), 3);
    assert!(Arc::ptr_eq(&v.data, &p.data));
    let q = PartialVec::from_arc_vec_slice(v.data.clone(), 4..5);
    assert_eq!(q.as_slice(), &[5]);
    let r = PartialVec::from_vec_range(vec![9, 8, 7], 1..1);
    assert_eq!(r.len(), 0);
    let c = p.clone();
    assert_eq!(c.as_slice(), p.as_slice());
    assert_eq!(PartialVec::new(Arc::new(vec![0, 1]), 0..2).as_slice(), &[0, 1]);
}


#[test]
fn void_only_segment_gives_defaults_and_prefix_asks_exactly() {
    let file: Vec<u8> = vec![
        0x1A, 0x45, 0xDF, 0xA3, 0x87, 0x42, 0x82, 0x84, 0x77, 0x65, 0x62, 0x6D, 0x18, 0x53, 0x80,
        0x67, 0x83, 0xEC, 0x81, 0x00,
    ];
    let f = parse_webm(&file).unwrap();
    assert_eq!(f.doc_type, "webm");
    assert_eq!(f.segment_info.duration, None);
    assert_eq!(f.segment_info.date.unix_nanos, 0);
    assert_eq!(f.tracks_info, TracksInfo { width: 0, height: 0 });
    assert_eq!(parse_webm(&file[..19]).unwrap_err(), ParseWebmFailed::Need(1));
}

#[test]
fn prefix_cut_before_info_asks_for_bytes() {
    let date = el(&[0x44, 0x61], &0i64.to_be_bytes());
    let payload = cat(&[el(&[0xEC], &[]), el(&INFO, &date)]);
    let mut file = ebml_header("webm");
    file.extend_from_slice(&SEGMENT);
    file.push(0x80 | payload.len() as u8);
    file.extend_from_slice(&payload);
    let whole = parse_webm(&file).unwrap();
    assert_eq!(whole.segment_info.date.unix_nanos, 978_307_200_000_000_000);
    let seg_start = file.len() - payload.len();
    for l in seg_start..file.len() {
        match parse_webm(&file[..l]) {
            Err(ParseWebmFailed::Need(n)) => assert!(n >= 1 && l + n <= file.len()),
            other => panic!("prefix {l}: {other:?}"),
        }
    }
}

#[test]
fn seek_entry_that_does_not_decode_is_skipped() {
    let broken = el(&[0x4D, 0xBB], &[0x00, 0x81, 0x00]);
    let payload = cat(&[seek(&INFO, 0x40), broken, seek(&TRACKS, 0x90)]);
    let table = parse_seek_head(&payload, 0, payload.len(), 0).unwrap();
    assert_eq!(table.len(), 2);
    assert_eq!(table.get(&0x1549A966), Some(&0x40));
    assert_eq!(table.get(&0x1654AE6B), Some(&0x90));
}

#[test]
fn short_negative_date_is_sign_extended() {
    let info = el(&INFO, &el(&[0x44, 0x61], &[0xFF]));
    let r = parse_segment_info(&info, 0).unwrap().unwrap();
    assert_eq!(r.date.unix_nanos, 978_307_200_000_000_000 - 1);
    let info = el(&INFO, &el(&[0x44, 0x61], &[0x7F, 0xFF]));
    let r = parse_segment_info(&info, 0).unwrap().unwrap();
    assert_eq!(r.date.unix_nanos, 978_307_200_000_000_000 + 0x7FFF);
}

#[test]
fn seek_head_child_that_does_not_decode_fails_with_its_error() {
    assert_eq!(
        parse_seek_head(&[0x00], 0, 1, 0).unwrap_err(),
        ParseWebmFailed::InvalidWebmFile(EbmlDefect::InvalidVInt)
    );
    let payload = cat(&[seek(&INFO, 0x40), vec![0xEC, 0x85, 0x00]]);
    assert_eq!(
        parse_seek_head(&payload, 0, payload.len(), 0).unwrap_err(),
        ParseWebmFailed::InvalidWebmFile(EbmlDefect::ChildPastParent)
    );
}

#[test]
fn partial_vec_equality_compares_bytes_and_range() {
    let a = PartialVec::from_vec(vec![1, 2, 3]);
    let b = PartialVec::from_vec(vec![1, 2, 3]);
    assert!(a == b);
    assert!(a.partial(0..2) == b.partial(0..2));
    assert!(a.partial(0..2) != a.partial(1..3));
    assert!(a != PartialVec::from_vec(vec![1, 2, 4]));
}
