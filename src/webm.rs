//! The whole-file driver: EBML header, Segment, then Info and Tracks found
//! through the seek table or, failing that, by a scan of the Segment.
use vstd::prelude::*;
use vstd::slice::slice_subrange;

use crate::element::{
    find_element, find_in, need_bytes, need_bytes_exec, read_header, spec_find, spec_find_in,
    spec_header,
};
use crate::error::{EbmlDefect, ParseWebmFailed};
use crate::ids::{SegmentId, DOC_TYPE_ID, EBML_ID, SEGMENT_ID};
use crate::info::{empty_segment_info, parse_segment_info, spec_segment_info, SegmentInfo};
use crate::seek::{parse_seeks, spec_seeks};
use crate::tracks::{parse_tracks_info, spec_tracks_info, TracksInfo};

verus! {

/// The text of `b` read as UTF-8, each invalid sequence replaced by U+FFFD.
pub uninterp spec fn utf8_lossy(b: Seq<u8>) -> Seq<char>;

pub open spec fn is_ascii_bytes(b: Seq<u8>) -> bool {
    forall|i: int| 0 <= i < b.len() ==> b[i] < 0x80
}

/// Relies on `String::from_utf8_lossy`: the text of the bytes, which for
/// ASCII bytes is one character per byte.
#[verifier::external_body]
fn text_of_bytes(b: &[u8]) -> (r: String)
    ensures
        r@ == utf8_lossy(b@),
        is_ascii_bytes(b@) ==> r@ == b@.map_values(|c: u8| c as char),
{
    String::from_utf8_lossy(b).into_owned()
}

/// What is read from a WebM or Matroska file. A part that the file does not
/// give keeps its empty value.
#[derive(Debug, Clone)]
pub struct EbmlFileInfo {
    pub doc_type: String,
    pub segment_info: SegmentInfo,
    pub tracks_info: TracksInfo,
}

/// The DocType bytes of the EBML header at the start of `s`, and the offset
/// just past that header.
pub open spec fn spec_doc_type(s: Seq<u8>) -> Result<(Seq<u8>, usize), ParseWebmFailed> {
    match spec_header(s, 0, s.len() as int) {
        Err(ParseWebmFailed::Need(n)) => Err(ParseWebmFailed::Need(n)),
        Err(_) => Err(ParseWebmFailed::NotWebmFile),
        Ok(h) => if h.id != EBML_ID {
            Err(ParseWebmFailed::NotWebmFile)
        } else {
            let start = h.header_size as int;
            let end = start + h.data_size;
            if end > s.len() {
                Err(need_bytes(end - s.len()))
            } else {
                match spec_find(s, start, end, DOC_TYPE_ID) {
                    Ok(Some((p, d))) => if p + d.header_size + d.data_size <= end {
                        Ok(
                            (
                                s.subrange(p + d.header_size, p + d.header_size + d.data_size),
                                end as usize,
                            ),
                        )
                    } else {
                        Err(ParseWebmFailed::InvalidWebmFile(EbmlDefect::MissingDocType))
                    },
                    Err(ParseWebmFailed::InvalidWebmFile(x)) => Err(
                        ParseWebmFailed::InvalidWebmFile(x),
                    ),
                    _ => Err(ParseWebmFailed::InvalidWebmFile(EbmlDefect::MissingDocType)),
                }
            }
        },
    }
}

/// The Segment element at `pos`: where its payload starts, where the part of
/// it in the buffer ends, and whether that is all of it.
pub open spec fn spec_segment_start(s: Seq<u8>, pos: int) -> Result<
    (usize, usize, bool),
    ParseWebmFailed,
> {
    match spec_header(s, pos, s.len() as int) {
        Err(ParseWebmFailed::Need(n)) => Err(ParseWebmFailed::Need(n)),
        Err(_) => Err(ParseWebmFailed::NotWebmFile),
        Ok(h) => if h.id != SEGMENT_ID {
            Err(ParseWebmFailed::NotWebmFile)
        } else {
            let start = pos + h.header_size;
            if start + h.data_size <= s.len() {
                Ok((start as usize, (start + h.data_size) as usize, true))
            } else {
                Ok((start as usize, s.len() as usize, false))
            }
        },
    }
}

/// Where a seek table places the element `id`.
pub open spec fn seek_lookup(table: Map<u32, u64>, id: SegmentId) -> Option<u64> {
    if table.contains_key(id.spec_id() as u32) {
        Some(table[id.spec_id() as u32])
    } else {
        None
    }
}

/// The offset of the first Segment child with ID `id` from `pos` on, within
/// the Segment bounded by `end` and `whole` as in `spec_find_in`.
pub open spec fn spec_scan(s: Seq<u8>, pos: int, end: int, whole: bool, id: SegmentId) -> Result<
    Option<u64>,
    ParseWebmFailed,
> {
    match spec_find_in(s, pos, end, whole, id.spec_id()) {
        Err(e) => Err(e),
        Ok(None) => Ok(None),
        Ok(Some((p, _))) => Ok(Some(p as u64)),
    }
}

/// The segment info found at `at`; empty where there is no Info there or it
/// cannot be read, an error only where more bytes are needed.
pub open spec fn spec_info_at(s: Seq<u8>, at: Option<u64>) -> Result<SegmentInfo, ParseWebmFailed> {
    match at {
        None => Ok(empty_segment_info()),
        Some(p) => match spec_segment_info(s, p) {
            Ok(Some(i)) => Ok(i),
            Err(ParseWebmFailed::Need(n)) => Err(ParseWebmFailed::Need(n)),
            _ => Ok(empty_segment_info()),
        },
    }
}

/// The tracks info found at `at`, in the manner of `spec_info_at`.
pub open spec fn spec_tracks_at(s: Seq<u8>, at: Option<u64>) -> Result<TracksInfo, ParseWebmFailed> {
    match at {
        None => Ok(TracksInfo { width: 0, height: 0 }),
        Some(p) => match spec_tracks_info(s, p) {
            Ok(Some(t)) => Ok(t),
            Err(ParseWebmFailed::Need(n)) => Err(ParseWebmFailed::Need(n)),
            _ => Ok(TracksInfo { width: 0, height: 0 }),
        },
    }
}

/// Info and Tracks read from where `info_at` and `tracks_at` place them,
/// Info first.
pub open spec fn spec_read_at(s: Seq<u8>, info_at: Option<u64>, tracks_at: Option<u64>) -> Result<
    (SegmentInfo, TracksInfo),
    ParseWebmFailed,
> {
    match spec_info_at(s, info_at) {
        Err(e) => Err(e),
        Ok(i) => match spec_tracks_at(s, tracks_at) {
            Err(e) => Err(e),
            Ok(t) => Ok((i, t)),
        },
    }
}

/// Info and Tracks found by a scan of the Segment children from `seg`: the
/// Info scan and read come first, then the Tracks scan and read.
pub open spec fn spec_fallback(s: Seq<u8>, seg: int, end: int, whole: bool) -> Result<
    (SegmentInfo, TracksInfo),
    ParseWebmFailed,
> {
    match spec_scan(s, seg, end, whole, SegmentId::Info) {
        Err(e) => Err(e),
        Ok(ip) => match spec_info_at(s, ip) {
            Err(e) => Err(e),
            Ok(i) => match spec_scan(s, seg, end, whole, SegmentId::Tracks) {
                Err(e) => Err(e),
                Ok(tp) => match spec_tracks_at(s, tp) {
                    Err(e) => Err(e),
                    Ok(t) => Ok((i, t)),
                },
            },
        },
    }
}

/// Info and Tracks of the Segment whose payload starts at `seg`: through the
/// seek table where one can be read, else through the scan.
pub open spec fn spec_segment_parts(s: Seq<u8>, seg: int, end: int, whole: bool) -> Result<
    (SegmentInfo, TracksInfo),
    ParseWebmFailed,
> {
    match spec_seeks(s, seg, end, whole) {
        Err(e) => Err(e),
        Ok(Some(t)) => spec_read_at(
            s,
            seek_lookup(t, SegmentId::Info),
            seek_lookup(t, SegmentId::Tracks),
        ),
        Ok(None) => spec_fallback(s, seg, end, whole),
    }
}

/// The DocType bytes, segment info and tracks info of the file whose first
/// `s.len()` bytes are `s`.
pub open spec fn spec_webm(s: Seq<u8>) -> Result<
    (Seq<u8>, SegmentInfo, TracksInfo),
    ParseWebmFailed,
> {
    match spec_doc_type(s) {
        Err(e) => Err(e),
        Ok((doc, hend)) => match spec_segment_start(s, hend as int) {
            Err(e) => Err(e),
            Ok((seg, end, whole)) => match spec_segment_parts(s, seg as int, end as int, whole) {
                Err(e) => Err(e),
                Ok((i, t)) => Ok((doc, i, t)),
            },
        },
    }
}

/// Reads the EBML header at the start of `s`: its DocType and the offset
/// just past the header.
pub fn parse_ebml_doc_type(s: &[u8]) -> (r: Result<(String, usize), ParseWebmFailed>)
    ensures
        match (r, spec_doc_type(s@)) {
            (Ok((d, end)), Ok((doc, e))) => d@ == utf8_lossy(doc) && (is_ascii_bytes(doc) ==> d@
                == doc.map_values(|c: u8| c as char)) && end == e,
            (Err(e), Err(e2)) => e == e2,
            _ => false,
        },
{
    let len = s.len();
    let h = match read_header(s, 0, len) {
        Ok(h) => h,
        Err(ParseWebmFailed::Need(n)) => return Err(ParseWebmFailed::Need(n)),
        Err(_) => return Err(ParseWebmFailed::NotWebmFile),
    };
    if h.id != EBML_ID {
        return Err(ParseWebmFailed::NotWebmFile);
    }
    let start = h.header_size;
    let rest = (len - start) as u64;
    if h.data_size > rest {
        return Err(need_bytes_exec(h.data_size - rest));
    }
    let end = start + h.data_size as usize;
    match find_element(s, start, end, DOC_TYPE_ID) {
        Ok(Some((p, d))) => {
            let a = p + d.header_size;
            if d.data_size <= (end - a) as u64 {
                let b = a + d.data_size as usize;
                let bytes = slice_subrange(s, a, b);
                Ok((text_of_bytes(bytes), end))
            } else {
                Err(ParseWebmFailed::InvalidWebmFile(EbmlDefect::MissingDocType))
            }
        },
        Err(ParseWebmFailed::InvalidWebmFile(x)) => Err(ParseWebmFailed::InvalidWebmFile(x)),
        _ => Err(ParseWebmFailed::InvalidWebmFile(EbmlDefect::MissingDocType)),
    }
}

/// Reads the Segment header at `pos`: where its payload starts, where the
/// part of it in `s` ends, and whether that is all of it.
pub fn parse_segment_start(s: &[u8], pos: usize) -> (r: Result<
    (usize, usize, bool),
    ParseWebmFailed,
>)
    requires
        pos <= s@.len(),
    ensures
        r == spec_segment_start(s@, pos as int),
        r matches Ok((p, e, _)) ==> p <= e <= s@.len(),
{
    let len = s.len();
    match read_header(s, pos, len) {
        Ok(h) => if h.id != SEGMENT_ID {
            Err(ParseWebmFailed::NotWebmFile)
        } else {
            let start = pos + h.header_size;
            if h.data_size <= (len - start) as u64 {
                Ok((start, start + h.data_size as usize, true))
            } else {
                Ok((start, len, false))
            }
        },
        Err(ParseWebmFailed::Need(n)) => Err(ParseWebmFailed::Need(n)),
        Err(_) => Err(ParseWebmFailed::NotWebmFile),
    }
}

fn scan_segment(s: &[u8], pos: usize, end: usize, whole: bool, id: SegmentId) -> (r: Result<
    Option<u64>,
    ParseWebmFailed,
>)
    requires
        pos <= end <= s@.len(),
    ensures
        r == spec_scan(s@, pos as int, end as int, whole, id),
{
    match find_in(s, pos, end, whole, id.id()) {
        Err(e) => Err(e),
        Ok(None) => Ok(None),
        Ok(Some((p, _))) => Ok(Some(p as u64)),
    }
}

fn info_at(s: &[u8], at: Option<u64>) -> (r: Result<SegmentInfo, ParseWebmFailed>)
    ensures
        r == spec_info_at(s@, at),
{
    match at {
        None => Ok(SegmentInfo::new()),
        Some(p) => match parse_segment_info(s, p) {
            Ok(Some(i)) => Ok(i),
            Err(ParseWebmFailed::Need(n)) => Err(ParseWebmFailed::Need(n)),
            _ => Ok(SegmentInfo::new()),
        },
    }
}

fn tracks_at(s: &[u8], at: Option<u64>) -> (r: Result<TracksInfo, ParseWebmFailed>)
    ensures
        r == spec_tracks_at(s@, at),
{
    match at {
        None => Ok(TracksInfo::new()),
        Some(p) => match parse_tracks_info(s, p) {
            Ok(Some(t)) => Ok(t),
            Err(ParseWebmFailed::Need(n)) => Err(ParseWebmFailed::Need(n)),
            _ => Ok(TracksInfo::new()),
        },
    }
}

/// Reads the Info and Tracks of the Segment whose children lie in
/// `[seg, end)`, all of it if `whole`.
pub fn parse_segment_parts(s: &[u8], seg: usize, end: usize, whole: bool) -> (r: Result<
    (SegmentInfo, TracksInfo),
    ParseWebmFailed,
>)
    requires
        seg <= end <= s@.len(),
    ensures
        r == spec_segment_parts(s@, seg as int, end as int, whole),
{
    match parse_seeks(s, seg, end, whole) {
        Err(e) => Err(e),
        Ok(Some(seeks)) => {
            let info_seek = match seeks.get(&SegmentId::Info.code()) {
                Some(p) => Some(*p),
                None => None,
            };
            let tracks_seek = match seeks.get(&SegmentId::Tracks.code()) {
                Some(p) => Some(*p),
                None => None,
            };
            let i = match info_at(s, info_seek) {
                Ok(i) => i,
                Err(e) => return Err(e),
            };
            let t = match tracks_at(s, tracks_seek) {
                Ok(t) => t,
                Err(e) => return Err(e),
            };
            Ok((i, t))
        },
        Ok(None) => {
            // the format places the first Info before the first Tracks, but
            // each is found by a scan of its own
            let ip = match scan_segment(s, seg, end, whole, SegmentId::Info) {
                Ok(p) => p,
                Err(e) => return Err(e),
            };
            let i = match info_at(s, ip) {
                Ok(i) => i,
                Err(e) => return Err(e),
            };
            let tp = match scan_segment(s, seg, end, whole, SegmentId::Tracks) {
                Ok(p) => p,
                Err(e) => return Err(e),
            };
            let t = match tracks_at(s, tp) {
                Ok(t) => t,
                Err(e) => return Err(e),
            };
            Ok((i, t))
        },
    }
}

/// Parses the first `s.len()` bytes of a WebM or Matroska file. Where a
/// step needs bytes past the end of `s`, the result is `Need(n)`: the caller
/// appends at least `n` bytes and calls again.
pub fn parse_webm(s: &[u8]) -> (r: Result<EbmlFileInfo, ParseWebmFailed>)
    ensures
        match (r, spec_webm(s@)) {
            (Ok(f), Ok((doc, i, t))) => f.doc_type@ == utf8_lossy(doc) && (is_ascii_bytes(doc)
                ==> f.doc_type@ == doc.map_values(|c: u8| c as char)) && f.segment_info == i
                && f.tracks_info == t,
            (Err(e), Err(e2)) => e == e2,
            _ => false,
        },
{
    let (doc_type, pos) = match parse_ebml_doc_type(s) {
        Ok(x) => x,
        Err(e) => return Err(e),
    };
    let (seg, end, whole) = match parse_segment_start(s, pos) {
        Ok(x) => x,
        Err(e) => return Err(e),
    };
    match parse_segment_parts(s, seg, end, whole) {
        Ok((segment_info, tracks_info)) => Ok(EbmlFileInfo { doc_type, segment_info, tracks_info }),
        Err(e) => Err(e),
    }
}

/// The seek table and the scan of the Segment lead to the same result
/// wherever the table places Info and Tracks at the elements that the scan
/// finds (and where the table leaves one out, the scan finds none).
pub proof fn lemma_seek_table_agrees_with_scan(
    s: Seq<u8>,
    seg: int,
    end: int,
    whole: bool,
    t: Map<u32, u64>,
)
    requires
        spec_seeks(s, seg, end, whole) == Ok::<Option<Map<u32, u64>>, ParseWebmFailed>(Some(t)),
        spec_scan(s, seg, end, whole, SegmentId::Info) == Ok::<Option<u64>, ParseWebmFailed>(
            seek_lookup(t, SegmentId::Info),
        ),
        spec_scan(s, seg, end, whole, SegmentId::Tracks) == Ok::<Option<u64>, ParseWebmFailed>(
            seek_lookup(t, SegmentId::Tracks),
        ),
    ensures
        spec_segment_parts(s, seg, end, whole) == spec_fallback(s, seg, end, whole),
{
}

/// Tracks found at `at` that give no video track leave the file's pixel
/// size at 0 by 0.
pub proof fn lemma_no_video_gives_zero_size(s: Seq<u8>, at: u64)
    requires
        spec_tracks_info(s, at) == Ok::<Option<TracksInfo>, ParseWebmFailed>(None),
    ensures
        spec_tracks_at(s, Some(at)) == Ok::<TracksInfo, ParseWebmFailed>(
            TracksInfo { width: 0, height: 0 },
        ),
{
}

} // verus!
