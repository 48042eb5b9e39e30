//! Parsing a prefix of a file: every step either asks for more bytes or
//! gives what it gives on the whole file.
use vstd::prelude::*;

use crate::element::{
    be_fold, lemma_find_bounds, lemma_header_size, spec_find, spec_find_in, spec_header, spec_vint,
    vint_marker, vint_width,
};
use crate::error::ParseWebmFailed;
use crate::ids::{SegmentId, TracksId, DOC_TYPE_ID};
use crate::info::{
    empty_segment_info, spec_info_step, spec_info_walk, spec_segment_info, SegmentInfo,
    DEFAULT_TIMESTAMP_SCALE,
};
use crate::seek::{
    add_entry, spec_seek_entry, spec_seek_fields, spec_seek_table, spec_seeks, INVALID_SEEK_ID,
};
use crate::tracks::{spec_pixel, spec_track, spec_tracks_info, spec_tracks_walk};
use crate::webm::{
    seek_lookup, spec_doc_type, spec_fallback, spec_info_at, spec_read_at, spec_scan,
    spec_segment_parts, spec_segment_start, spec_tracks_at, spec_webm,
};

verus! {

/// `s1` and `s2` hold the same bytes in `[a, b)`.
pub open spec fn agree(s1: Seq<u8>, s2: Seq<u8>, a: int, b: int) -> bool {
    &&& 0 <= a <= b
    &&& b <= s1.len()
    &&& b <= s2.len()
    &&& b <= usize::MAX
    &&& forall|i: int| a <= i < b ==> s1[i] == s2[i]
}

/// `s` is the start of `s2`.
pub open spec fn is_prefix(s: Seq<u8>, s2: Seq<u8>) -> bool {
    s.len() <= s2.len() && agree(s, s2, 0, s.len() as int)
}

/// The result asks for more bytes.
pub open spec fn is_need<T>(r: Result<T, ParseWebmFailed>) -> bool {
    r matches Err(ParseWebmFailed::Need(_))
}

proof fn lemma_agree_sub(s1: Seq<u8>, s2: Seq<u8>, a: int, b: int, c: int, d: int)
    requires
        agree(s1, s2, a, b),
        a <= c <= d <= b,
    ensures
        agree(s1, s2, c, d),
{
}

proof fn lemma_be_fold_agree(acc: nat, s1: Seq<u8>, s2: Seq<u8>, start: int, len: nat)
    requires
        agree(s1, s2, start, start + len),
    ensures
        be_fold(acc, s1, start, len) == be_fold(acc, s2, start, len),
    decreases len,
{
    if len > 0 {
        lemma_be_fold_agree(acc, s1, s2, start, (len - 1) as nat);
    }
}

proof fn lemma_vint_agree(s1: Seq<u8>, s2: Seq<u8>, pos: int, end: int, keep: bool)
    requires
        agree(s1, s2, pos, end),
    ensures
        spec_vint(s1, pos, end, keep) == spec_vint(s2, pos, end, keep),
{
    if pos < end {
        let w = vint_width(s1[pos]);
        if w > 0 && pos + w <= end {
            lemma_be_fold_agree(0, s1, s2, pos, w);
            let acc = (s1[pos] - vint_marker(s1[pos])) as nat;
            lemma_be_fold_agree(acc, s1, s2, pos + 1, (w - 1) as nat);
        }
    }
}

proof fn lemma_header_agree(s1: Seq<u8>, s2: Seq<u8>, pos: int, end: int)
    requires
        agree(s1, s2, pos, end),
    ensures
        spec_header(s1, pos, end) == spec_header(s2, pos, end),
{
    lemma_vint_agree(s1, s2, pos, end, true);
    if let Ok((_, wi)) = spec_vint(s1, pos, end, true) {
        lemma_vint_agree(s1, s2, pos + wi, end, false);
    }
}

proof fn lemma_find_agree(s1: Seq<u8>, s2: Seq<u8>, pos: int, end: int, id: u64)
    requires
        agree(s1, s2, pos, end),
    ensures
        spec_find(s1, pos, end, id) == spec_find(s2, pos, end, id),
    decreases end - pos,
{
    if pos < end {
        lemma_header_agree(s1, s2, pos, end);
        lemma_header_size(s1, pos, end);
        if let Ok(h) = spec_header(s1, pos, end) {
            let next = pos + h.header_size + h.data_size;
            if h.id != id && next <= end {
                lemma_find_agree(s1, s2, next, end, id);
            }
        }
    }
}

proof fn lemma_pixel_agree(s1: Seq<u8>, s2: Seq<u8>, pos: int, end: int, id: u64)
    requires
        agree(s1, s2, pos, end),
    ensures
        spec_pixel(s1, pos, end, id) == spec_pixel(s2, pos, end, id),
{
    lemma_find_agree(s1, s2, pos, end, id);
    if let Ok(Some((p, h))) = spec_find(s1, pos, end, id) {
        lemma_find_bounds(s1, pos, end, id);
        if p + h.header_size + h.data_size <= end && h.data_size <= 8 {
            lemma_be_fold_agree(0, s1, s2, p + h.header_size, h.data_size as nat);
        }
    }
}

proof fn lemma_track_agree(s1: Seq<u8>, s2: Seq<u8>, pos: int, end: int)
    requires
        agree(s1, s2, pos, end),
    ensures
        spec_track(s1, pos, end) == spec_track(s2, pos, end),
{
    let v = TracksId::VideoTrack.spec_id();
    lemma_find_agree(s1, s2, pos, end, v);
    if let Ok(Some((p, h))) = spec_find(s1, pos, end, v) {
        lemma_find_bounds(s1, pos, end, v);
        let start = p + h.header_size;
        if start + h.data_size <= end {
            lemma_pixel_agree(s1, s2, start, start + h.data_size, TracksId::PixelWidth.spec_id());
            lemma_pixel_agree(s1, s2, start, start + h.data_size, TracksId::PixelHeight.spec_id());
        }
    }
}

proof fn lemma_tracks_walk_agree(s1: Seq<u8>, s2: Seq<u8>, pos: int, end: int)
    requires
        agree(s1, s2, pos, end),
    ensures
        spec_tracks_walk(s1, pos, end) == spec_tracks_walk(s2, pos, end),
    decreases end - pos,
{
    if pos < end {
        lemma_header_agree(s1, s2, pos, end);
        lemma_header_size(s1, pos, end);
        if let Ok(h) = spec_header(s1, pos, end) {
            let start = pos + h.header_size;
            let next = start + h.data_size;
            if next <= end {
                lemma_track_agree(s1, s2, start, next);
                lemma_tracks_walk_agree(s1, s2, next, end);
            }
        }
    }
}

proof fn lemma_info_walk_agree(
    s1: Seq<u8>,
    s2: Seq<u8>,
    pos: int,
    end: int,
    scale: u64,
    info: SegmentInfo,
)
    requires
        agree(s1, s2, pos, end),
    ensures
        spec_info_walk(s1, pos, end, scale, info) == spec_info_walk(s2, pos, end, scale, info),
    decreases end - pos,
{
    if pos < end {
        lemma_header_agree(s1, s2, pos, end);
        lemma_header_size(s1, pos, end);
        if let Ok(h) = spec_header(s1, pos, end) {
            let start = pos + h.header_size;
            let next = start + h.data_size;
            if next <= end {
                if h.data_size <= 8 {
                    lemma_be_fold_agree(0, s1, s2, start, h.data_size as nat);
                }
                assert(spec_info_step(s1, h.id, start, h.data_size, scale, info) == spec_info_step(
                    s2,
                    h.id,
                    start,
                    h.data_size,
                    scale,
                    info,
                ));
                let (scale2, info2) = spec_info_step(s1, h.id, start, h.data_size, scale, info);
                lemma_info_walk_agree(s1, s2, next, end, scale2, info2);
            }
        }
    }
}

proof fn lemma_seek_fields_agree(s1: Seq<u8>, s2: Seq<u8>, pos: int, end: int, sid: u32, spos: u64)
    requires
        agree(s1, s2, pos, end),
    ensures
        spec_seek_fields(s1, pos, end, sid, spos) == spec_seek_fields(s2, pos, end, sid, spos),
    decreases end - pos,
{
    if pos < end {
        lemma_header_agree(s1, s2, pos, end);
        lemma_header_size(s1, pos, end);
        if let Ok(h) = spec_header(s1, pos, end) {
            let p = pos + h.header_size;
            lemma_vint_agree(s1, s2, p, end, true);
            if let Ok((v, w)) = spec_vint(s1, p, end, true) {
                lemma_seek_fields_agree(s1, s2, p + w, end, v as u32, spos);
            }
            if (h.data_size == 8 || h.data_size == 4) && p + h.data_size <= end {
                lemma_be_fold_agree(0, s1, s2, p, h.data_size as nat);
                let v = crate::element::be_uint(s1, p, h.data_size as nat) as u64;
                lemma_seek_fields_agree(s1, s2, p + h.data_size, end, sid, v);
            }
        }
    }
}

proof fn lemma_seek_table_agree(
    s1: Seq<u8>,
    s2: Seq<u8>,
    pos: int,
    end: int,
    base: u64,
    t: Map<u32, u64>,
)
    requires
        agree(s1, s2, pos, end),
    ensures
        spec_seek_table(s1, pos, end, base, t) == spec_seek_table(s2, pos, end, base, t),
    decreases end - pos,
{
    if pos < end {
        lemma_header_agree(s1, s2, pos, end);
        lemma_header_size(s1, pos, end);
        if let Ok(h) = spec_header(s1, pos, end) {
            let start = pos + h.header_size;
            let next = start + h.data_size;
            if next <= end {
                lemma_seek_fields_agree(s1, s2, start, next, INVALID_SEEK_ID, 0);
                assert(spec_seek_entry(s1, h.id, start, next) == spec_seek_entry(s2, h.id, start, next));
                match spec_seek_entry(s1, h.id, start, next) {
                    Ok(Some(e)) => {
                        let t2 = add_entry(t, base, e);
                        lemma_seek_table_agree(s1, s2, next, end, base, t2);
                    },
                    _ => lemma_seek_table_agree(s1, s2, next, end, base, t),
                }
            }
        }
    }
}

/// A read that does not ask for bytes past the end of `s` reads the same
/// from a longer buffer `s2`, bounded at `e2` instead of `s.len()`.
proof fn lemma_vint_ext(s: Seq<u8>, s2: Seq<u8>, pos: int, e2: int, keep: bool)
    requires
        is_prefix(s, s2),
        0 <= pos <= s.len() <= e2 <= s2.len(),
        !is_need(spec_vint(s, pos, s.len() as int, keep)),
    ensures
        spec_vint(s2, pos, e2, keep) == spec_vint(s, pos, s.len() as int, keep),
{
    if pos < s.len() {
        let w = vint_width(s[pos]);
        if w > 0 && pos + w <= s.len() {
            lemma_be_fold_agree(0, s, s2, pos, w);
            let acc = (s[pos] - vint_marker(s[pos])) as nat;
            lemma_be_fold_agree(acc, s, s2, pos + 1, (w - 1) as nat);
        }
    }
}

proof fn lemma_header_ext(s: Seq<u8>, s2: Seq<u8>, pos: int, e2: int)
    requires
        is_prefix(s, s2),
        0 <= pos <= s.len() <= e2 <= s2.len(),
        !is_need(spec_header(s, pos, s.len() as int)),
    ensures
        spec_header(s2, pos, e2) == spec_header(s, pos, s.len() as int),
{
    lemma_vint_ext(s, s2, pos, e2, true);
    if let Ok((_, wi)) = spec_vint(s, pos, s.len() as int, true) {
        lemma_vint_ext(s, s2, pos + wi, e2, false);
    }
}

/// A walk to the end of the buffer that finds its element or fails for a
/// reason other than missing bytes does the same on a longer buffer.
proof fn lemma_find_ext(s: Seq<u8>, s2: Seq<u8>, pos: int, e2: int, id: u64)
    requires
        is_prefix(s, s2),
        0 <= pos <= s.len() <= e2 <= s2.len(),
        !is_need(spec_find(s, pos, s.len() as int, id)),
        !(spec_find(s, pos, s.len() as int, id) matches Ok(None)),
    ensures
        spec_find(s2, pos, e2, id) == spec_find(s, pos, s.len() as int, id),
    decreases s.len() - pos,
{
    if pos < s.len() {
        lemma_header_size(s, pos, s.len() as int);
        lemma_header_ext(s, s2, pos, e2);
        if let Ok(h) = spec_header(s, pos, s.len() as int) {
            let next = pos + h.header_size + h.data_size;
            if h.id != id && next <= s.len() {
                lemma_find_ext(s, s2, next, e2, id);
            }
        }
    }
}

/// How the bounds of a Segment in `s` and in a longer buffer `s2` relate.
pub open spec fn bounds_grow(
    s: Seq<u8>,
    s2: Seq<u8>,
    end: int,
    whole: bool,
    end2: int,
    whole2: bool,
) -> bool {
    if whole {
        whole2 && end2 == end && end <= s.len()
    } else {
        end == s.len() <= end2 <= s2.len()
    }
}

proof fn lemma_find_in_ext(
    s: Seq<u8>,
    s2: Seq<u8>,
    pos: int,
    end: int,
    whole: bool,
    end2: int,
    whole2: bool,
    id: u64,
)
    requires
        is_prefix(s, s2),
        0 <= pos <= end,
        bounds_grow(s, s2, end, whole, end2, whole2),
        !is_need(spec_find_in(s, pos, end, whole, id)),
    ensures
        spec_find_in(s2, pos, end2, whole2, id) == spec_find_in(s, pos, end, whole, id),
{
    if whole {
        lemma_find_agree(s, s2, pos, end, id);
    } else {
        lemma_find_ext(s, s2, pos, end2, id);
    }
}

proof fn lemma_segment_info_ext(s: Seq<u8>, s2: Seq<u8>, pos: u64)
    requires
        is_prefix(s, s2),
        s2.len() <= usize::MAX,
        !is_need(spec_segment_info(s, pos)),
    ensures
        spec_segment_info(s2, pos) == spec_segment_info(s, pos),
{
    if pos < s.len() {
        lemma_header_size(s, pos as int, s.len() as int);
        lemma_header_ext(s, s2, pos as int, s2.len() as int);
        if let Ok(h) = spec_header(s, pos as int, s.len() as int) {
            let start = pos + h.header_size;
            if start + h.data_size <= s.len() {
                let none = empty_segment_info();
                lemma_info_walk_agree(s, s2, start, start + h.data_size, DEFAULT_TIMESTAMP_SCALE, none);
            }
        }
    }
}

proof fn lemma_tracks_info_ext(s: Seq<u8>, s2: Seq<u8>, pos: u64)
    requires
        is_prefix(s, s2),
        s2.len() <= usize::MAX,
        !is_need(spec_tracks_info(s, pos)),
    ensures
        spec_tracks_info(s2, pos) == spec_tracks_info(s, pos),
{
    if pos < s.len() {
        lemma_header_size(s, pos as int, s.len() as int);
        lemma_header_ext(s, s2, pos as int, s2.len() as int);
        if let Ok(h) = spec_header(s, pos as int, s.len() as int) {
            let start = pos + h.header_size;
            if start + h.data_size <= s.len() {
                lemma_tracks_walk_agree(s, s2, start, start + h.data_size);
            }
        }
    }
}

proof fn lemma_seeks_ext(
    s: Seq<u8>,
    s2: Seq<u8>,
    pos: int,
    end: int,
    whole: bool,
    end2: int,
    whole2: bool,
)
    requires
        is_prefix(s, s2),
        0 <= pos <= end,
        s2.len() <= usize::MAX,
        bounds_grow(s, s2, end, whole, end2, whole2),
        !is_need(spec_seeks(s, pos, end, whole)),
    ensures
        spec_seeks(s2, pos, end2, whole2) == spec_seeks(s, pos, end, whole),
{
    let id = SegmentId::SeekHead.spec_id();
    lemma_find_in_ext(s, s2, pos, end, whole, end2, whole2, id);
    lemma_find_bounds(s, pos, end, id);
    if let Ok(Some((hp, h))) = spec_find(s, pos, end, id) {
        let start = hp + h.header_size;
        if start + h.data_size <= end {
            lemma_seek_table_agree(s, s2, start, start + h.data_size, hp as u64, Map::empty());
        }
    }
}

proof fn lemma_doc_type_ext(s: Seq<u8>, s2: Seq<u8>)
    requires
        is_prefix(s, s2),
        s2.len() <= usize::MAX,
        !is_need(spec_doc_type(s)),
    ensures
        spec_doc_type(s2) == spec_doc_type(s),
{
    lemma_header_size(s, 0, s.len() as int);
    if !is_need(spec_header(s, 0, s.len() as int)) {
        lemma_header_ext(s, s2, 0, s2.len() as int);
    }
    if let Ok(h) = spec_header(s, 0, s.len() as int) {
        let start = h.header_size as int;
        let end = start + h.data_size;
        if end <= s.len() {
            lemma_find_agree(s, s2, start, end, DOC_TYPE_ID);
            lemma_find_bounds(s, start, end, DOC_TYPE_ID);
            if let Ok(Some((p, d))) = spec_find(s, start, end, DOC_TYPE_ID) {
                let a = p + d.header_size;
                if a + d.data_size <= end {
                    assert(s2.subrange(a, a + d.data_size) =~= s.subrange(a, a + d.data_size));
                }
            }
        }
    }
}

proof fn lemma_segment_start_ext(s: Seq<u8>, s2: Seq<u8>, pos: int)
    requires
        is_prefix(s, s2),
        0 <= pos <= s.len(),
        s2.len() <= usize::MAX,
        !is_need(spec_segment_start(s, pos)),
    ensures
        spec_segment_start(s, pos) matches Ok((seg, end, whole)) ==> (spec_segment_start(s2, pos)
            matches Ok((seg2, end2, whole2)) && seg2 == seg && seg <= end && bounds_grow(
            s,
            s2,
            end as int,
            whole,
            end2 as int,
            whole2,
        )),
        spec_segment_start(s, pos) is Err ==> spec_segment_start(s2, pos) == spec_segment_start(s, pos),
{
    lemma_header_size(s, pos, s.len() as int);
    if !is_need(spec_header(s, pos, s.len() as int)) {
        lemma_header_ext(s, s2, pos, s2.len() as int);
    }
}

proof fn lemma_read_at_ext(s: Seq<u8>, s2: Seq<u8>, ip: Option<u64>, tp: Option<u64>)
    requires
        is_prefix(s, s2),
        s2.len() <= usize::MAX,
        !is_need(spec_read_at(s, ip, tp)),
    ensures
        spec_read_at(s2, ip, tp) == spec_read_at(s, ip, tp),
{
    if let Some(p) = ip {
        lemma_segment_info_ext(s, s2, p);
    }
    assert(spec_info_at(s2, ip) == spec_info_at(s, ip));
    if let Some(p) = tp {
        if spec_info_at(s, ip) is Ok {
            lemma_tracks_info_ext(s, s2, p);
        }
    }
}

proof fn lemma_fallback_ext(
    s: Seq<u8>,
    s2: Seq<u8>,
    seg: int,
    end: int,
    whole: bool,
    end2: int,
    whole2: bool,
)
    requires
        is_prefix(s, s2),
        0 <= seg <= end,
        s2.len() <= usize::MAX,
        bounds_grow(s, s2, end, whole, end2, whole2),
        !is_need(spec_fallback(s, seg, end, whole)),
    ensures
        spec_fallback(s2, seg, end2, whole2) == spec_fallback(s, seg, end, whole),
{
    lemma_find_in_ext(s, s2, seg, end, whole, end2, whole2, SegmentId::Info.spec_id());
    if let Ok(ip) = spec_scan(s, seg, end, whole, SegmentId::Info) {
        if let Some(p) = ip {
            lemma_segment_info_ext(s, s2, p);
        }
        if spec_info_at(s, ip) is Ok {
            lemma_find_in_ext(s, s2, seg, end, whole, end2, whole2, SegmentId::Tracks.spec_id());
            if let Ok(Some(p)) = spec_scan(s, seg, end, whole, SegmentId::Tracks) {
                lemma_tracks_info_ext(s, s2, p);
            }
        }
    }
}

proof fn lemma_segment_parts_ext(
    s: Seq<u8>,
    s2: Seq<u8>,
    seg: int,
    end: int,
    whole: bool,
    end2: int,
    whole2: bool,
)
    requires
        is_prefix(s, s2),
        0 <= seg <= end,
        s2.len() <= usize::MAX,
        bounds_grow(s, s2, end, whole, end2, whole2),
        !is_need(spec_segment_parts(s, seg, end, whole)),
    ensures
        spec_segment_parts(s2, seg, end2, whole2) == spec_segment_parts(s, seg, end, whole),
{
    lemma_seeks_ext(s, s2, seg, end, whole, end2, whole2);
    match spec_seeks(s, seg, end, whole) {
        Ok(Some(t)) => {
            lemma_read_at_ext(
                s,
                s2,
                seek_lookup(t, SegmentId::Info),
                seek_lookup(t, SegmentId::Tracks),
            );
        },
        Ok(None) => {
            lemma_fallback_ext(s, s2, seg, end, whole, end2, whole2);
        },
        Err(_) => {},
    }
}

/// A parse of the first bytes of a file either asks for more bytes or gives
/// what parsing any longer start of the file, or the whole of it, gives.
pub proof fn lemma_prefix_result_is_final(s: Seq<u8>, s2: Seq<u8>)
    requires
        is_prefix(s, s2),
        s2.len() <= usize::MAX,
        !is_need(spec_webm(s)),
    ensures
        spec_webm(s2) == spec_webm(s),
{
    lemma_doc_type_ext(s, s2);
    if let Ok((doc, hend)) = spec_doc_type(s) {
        lemma_segment_start_ext(s, s2, hend as int);
        if let Ok((seg, end, whole)) = spec_segment_start(s, hend as int) {
            let (seg2, end2, whole2) = spec_segment_start(s2, hend as int).unwrap();
            lemma_segment_parts_ext(s, s2, seg as int, end as int, whole, end2 as int, whole2);
        }
    }
}

/// The result, where it asks for bytes, asks for at least one.
pub open spec fn asks_some<T>(r: Result<T, ParseWebmFailed>) -> bool {
    r matches Err(ParseWebmFailed::Need(n)) ==> n >= 1
}

proof fn lemma_header_asks_some(s: Seq<u8>, pos: int, end: int)
    requires
        0 <= pos <= end,
    ensures
        asks_some(spec_header(s, pos, end)),
{
    if let Ok((_, wi)) = spec_vint(s, pos, end, true) {
        assert(asks_some(spec_vint(s, pos + wi, end, false)));
    }
}

proof fn lemma_find_asks_some(s: Seq<u8>, pos: int, end: int, id: u64)
    requires
        0 <= pos <= end,
    ensures
        asks_some(spec_find(s, pos, end, id)),
    decreases end - pos,
{
    if pos < end {
        lemma_header_asks_some(s, pos, end);
        lemma_header_size(s, pos, end);
        if let Ok(h) = spec_header(s, pos, end) {
            let next = pos + h.header_size + h.data_size;
            if h.id != id && next <= end {
                lemma_find_asks_some(s, next, end, id);
            }
        }
    }
}

proof fn lemma_info_at_asks_some(s: Seq<u8>, at: Option<u64>)
    ensures
        asks_some(spec_info_at(s, at)),
{
    if let Some(p) = at {
        if p < s.len() {
            lemma_header_asks_some(s, p as int, s.len() as int);
        }
    }
}

proof fn lemma_tracks_at_asks_some(s: Seq<u8>, at: Option<u64>)
    ensures
        asks_some(spec_tracks_at(s, at)),
{
    if let Some(p) = at {
        if p < s.len() {
            lemma_header_asks_some(s, p as int, s.len() as int);
        }
    }
}

#[verifier::rlimit(40)]
proof fn lemma_parts_asks_some(s: Seq<u8>, seg: int, end: int, whole: bool)
    requires
        0 <= seg <= end,
    ensures
        asks_some(spec_segment_parts(s, seg, end, whole)),
{
    lemma_find_asks_some(s, seg, end, SegmentId::SeekHead.spec_id());
    lemma_find_asks_some(s, seg, end, SegmentId::Info.spec_id());
    lemma_find_asks_some(s, seg, end, SegmentId::Tracks.spec_id());
    if let Ok(Some(t)) = spec_seeks(s, seg, end, whole) {
        lemma_info_at_asks_some(s, seek_lookup(t, SegmentId::Info));
        lemma_tracks_at_asks_some(s, seek_lookup(t, SegmentId::Tracks));
    }
    if let Ok(ip) = spec_scan(s, seg, end, whole, SegmentId::Info) {
        lemma_info_at_asks_some(s, ip);
    }
    if let Ok(tp) = spec_scan(s, seg, end, whole, SegmentId::Tracks) {
        lemma_tracks_at_asks_some(s, tp);
    }
}

/// Where a parse asks for more bytes, it asks for at least one, so that a
/// caller that supplies them makes progress.
#[verifier::rlimit(40)]
pub proof fn lemma_need_is_positive(s: Seq<u8>)
    requires
        s.len() <= usize::MAX,
    ensures
        asks_some(spec_webm(s)),
{
    lemma_header_asks_some(s, 0, s.len() as int);
    if let Ok((doc, hend)) = spec_doc_type(s) {
        lemma_header_asks_some(s, hend as int, s.len() as int);
        if let Ok((seg, end, whole)) = spec_segment_start(s, hend as int) {
            lemma_parts_asks_some(s, seg as int, end as int, whole);
        }
    }
}

} // verus!
