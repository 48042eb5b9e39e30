//! The Tracks element of a Segment: pixel size of the first video track.
use vstd::prelude::*;

use crate::element::{
    find_element, lemma_header_size, need_bytes, need_bytes_exec, need_through, need_through_exec,
    read_header, read_uint, spec_find, spec_header, spec_uint, ElementHeader,
};
use crate::error::ParseWebmFailed;
use crate::ids::TracksId;

verus! {

/// Pixel width and height of a video track; zero where not given.
#[derive(Debug, Clone, Copy, PartialEq, Eq, Structural)]
pub struct TracksInfo {
    pub width: u64,
    pub height: u64,
}

impl TracksInfo {
    pub fn new() -> (r: TracksInfo)
        ensures
            r == (TracksInfo { width: 0, height: 0 }),
    {
        TracksInfo { width: 0, height: 0 }
    }
}

/// The unsigned value of the first child with ID `id` in `[pos, end)`; zero
/// where there is none or it cannot be read.
pub open spec fn spec_pixel(s: Seq<u8>, pos: int, end: int, id: u64) -> u64 {
    match spec_find(s, pos, end, id) {
        Ok(Some((p, h))) => if p + h.header_size + h.data_size <= end {
            match spec_uint(s, p + h.header_size, h.data_size) {
                Some(v) => v,
                None => 0,
            }
        } else {
            0
        },
        _ => 0,
    }
}

/// The pixel size that a Video payload `[pos, end)` gives; width and height
/// are each searched from the start of the payload.
pub open spec fn spec_video_track(s: Seq<u8>, pos: int, end: int) -> TracksInfo {
    TracksInfo {
        width: spec_pixel(s, pos, end, TracksId::PixelWidth.spec_id()),
        height: spec_pixel(s, pos, end, TracksId::PixelHeight.spec_id()),
    }
}

/// The video track of a TrackEntry payload `[pos, end)`, if it has a Video
/// element.
pub open spec fn spec_track(s: Seq<u8>, pos: int, end: int) -> Result<
    Option<TracksInfo>,
    ParseWebmFailed,
> {
    match spec_find(s, pos, end, TracksId::VideoTrack.spec_id()) {
        Err(e) => Err(e),
        Ok(None) => Ok(None),
        Ok(Some((p, h))) => {
            let start = p + h.header_size;
            if start + h.data_size > end {
                Err(need_bytes(start + h.data_size - end))
            } else {
                Ok(Some(spec_video_track(s, start, start + h.data_size)))
            }
        },
    }
}

/// The first TrackEntry with a video track among the children `[pos, end)`
/// of a Tracks payload.
pub open spec fn spec_tracks_walk(s: Seq<u8>, pos: int, end: int) -> Result<
    Option<TracksInfo>,
    ParseWebmFailed,
>
    decreases end - pos,
    when 0 <= pos <= end
{
    if pos == end {
        Ok(None)
    } else {
        match spec_header(s, pos, end) {
            Err(e) => Err(e),
            Ok(h) => {
                let start = pos + h.header_size;
                let next = start + h.data_size;
                if next > end {
                    Err(need_bytes(next - end))
                } else if h.id == TracksId::TrackEntry.spec_id() {
                    match spec_track(s, start, next) {
                        Ok(Some(t)) => Ok(Some(t)),
                        Ok(None) => spec_tracks_walk(s, next, end),
                        Err(e) => Err(e),
                    }
                } else {
                    spec_tracks_walk(s, next, end)
                }
            },
        }
    }
}

/// The Tracks element at `pos`: the pixel size of its first video track once
/// the whole element is in `s`; `None` where it has no video track or a
/// child's header runs past the element's end.
pub open spec fn spec_tracks_info(s: Seq<u8>, pos: u64) -> Result<Option<TracksInfo>, ParseWebmFailed> {
    if pos >= s.len() {
        Err(need_through(pos, s.len() as int))
    } else {
        match spec_header(s, pos as int, s.len() as int) {
            Err(e) => Err(e),
            Ok(h) => {
                let start = pos + h.header_size;
                if start + h.data_size > s.len() {
                    Err(need_bytes(start + h.data_size - s.len()))
                } else {
                    match spec_tracks_walk(s, start, start + h.data_size) {
                        Err(ParseWebmFailed::Need(_)) => Ok(None),
                        r => r,
                    }
                }
            },
        }
    }
}

fn parse_pixel(s: &[u8], pos: usize, end: usize, id: u64) -> (r: u64)
    requires
        pos <= end <= s@.len(),
    ensures
        r == spec_pixel(s@, pos as int, end as int, id),
{
    match find_element(s, pos, end, id) {
        Ok(Some((p, h))) => {
            let start = p + h.header_size;
            if h.data_size <= (end - start) as u64 {
                match read_uint(s, start, h.data_size) {
                    Some(v) => v,
                    None => 0,
                }
            } else {
                0
            }
        },
        _ => 0,
    }
}

/// Reads the pixel width and height of a Video payload `[pos, end)`.
pub fn parse_video_track(s: &[u8], pos: usize, end: usize) -> (r: TracksInfo)
    requires
        pos <= end <= s@.len(),
    ensures
        r == spec_video_track(s@, pos as int, end as int),
{
    let width = parse_pixel(s, pos, end, TracksId::PixelWidth.id());
    // the search for the height starts again from the payload's start
    let height = parse_pixel(s, pos, end, TracksId::PixelHeight.id());
    TracksInfo { width, height }
}

/// Looks for a Video element in a TrackEntry payload `[pos, end)`.
pub fn parse_track(s: &[u8], pos: usize, end: usize) -> (r: Result<
    Option<TracksInfo>,
    ParseWebmFailed,
>)
    requires
        pos <= end <= s@.len(),
    ensures
        r == spec_track(s@, pos as int, end as int),
{
    match find_element(s, pos, end, TracksId::VideoTrack.id()) {
        Err(e) => Err(e),
        Ok(None) => Ok(None),
        Ok(Some((p, h))) => {
            let start = p + h.header_size;
            let rest = (end - start) as u64;
            if h.data_size > rest {
                Err(need_bytes_exec(h.data_size - rest))
            } else {
                Ok(Some(parse_video_track(s, start, start + h.data_size as usize)))
            }
        },
    }
}

/// Finds the first TrackEntry with a video track in a Tracks payload
/// `[pos, end)`.
pub fn parse_tracks_body(s: &[u8], pos: usize, end: usize) -> (r: Result<
    Option<TracksInfo>,
    ParseWebmFailed,
>)
    requires
        pos <= end <= s@.len(),
    ensures
        r == spec_tracks_walk(s@, pos as int, end as int),
{
    let mut p: usize = pos;
    while p < end
        invariant
            pos <= p <= end <= s@.len(),
            spec_tracks_walk(s@, p as int, end as int) == spec_tracks_walk(
                s@,
                pos as int,
                end as int,
            ),
        decreases end - p,
    {
        let h = match read_header(s, p, end) {
            Ok(h) => h,
            Err(e) => return Err(e),
        };
        let start = p + h.header_size;
        let rest = (end - start) as u64;
        if h.data_size > rest {
            return Err(need_bytes_exec(h.data_size - rest));
        }
        let next = start + h.data_size as usize;
        if h.id == TracksId::TrackEntry.id() {
            match parse_track(s, start, next) {
                Ok(Some(t)) => return Ok(Some(t)),
                Ok(None) => {},
                Err(e) => return Err(e),
            }
        }
        p = next;
    }
    Ok(None)
}

/// Parses the Tracks element at absolute offset `pos`.
pub fn parse_tracks_info(s: &[u8], pos: u64) -> (r: Result<Option<TracksInfo>, ParseWebmFailed>)
    ensures
        r == spec_tracks_info(s@, pos),
{
    let len = s.len();
    if pos >= len as u64 {
        return Err(need_through_exec(pos, len));
    }
    let p = pos as usize;
    let h = match read_header(s, p, len) {
        Ok(h) => h,
        Err(e) => return Err(e),
    };
    let start = p + h.header_size;
    let rest = (len - start) as u64;
    if h.data_size > rest {
        return Err(need_bytes_exec(h.data_size - rest));
    }
    match parse_tracks_body(s, start, start + h.data_size as usize) {
        Err(ParseWebmFailed::Need(_)) => Ok(None),
        r => r,
    }
}

/// The children `[pos, end)` of a Tracks payload read, and none of them is
/// a TrackEntry that holds a Video element.
pub open spec fn no_video_entry(s: Seq<u8>, pos: int, end: int) -> bool
    decreases end - pos,
    when 0 <= pos <= end
{
    if pos == end {
        true
    } else {
        match spec_header(s, pos, end) {
            Err(_) => false,
            Ok(h) => {
                let start = pos + h.header_size;
                let next = start + h.data_size;
                next <= end && (h.id != TracksId::TrackEntry.spec_id() || spec_track(s, start, next)
                    == Ok::<Option<TracksInfo>, ParseWebmFailed>(None)) && no_video_entry(
                    s,
                    next,
                    end,
                )
            },
        }
    }
}

proof fn lemma_no_video_walk(s: Seq<u8>, pos: int, end: int)
    requires
        0 <= pos <= end,
        no_video_entry(s, pos, end),
    ensures
        spec_tracks_walk(s, pos, end) == Ok::<Option<TracksInfo>, ParseWebmFailed>(None),
    decreases end - pos,
{
    if pos < end {
        lemma_header_size(s, pos, end);
        let h = spec_header(s, pos, end).unwrap();
        lemma_no_video_walk(s, pos + h.header_size + h.data_size, end);
    }
}

/// A Tracks element whose TrackEntries hold no Video element (audio tracks
/// only, say) gives no video track: its pixel size is 0 by 0.
pub proof fn lemma_no_video_track(s: Seq<u8>, pos: u64, h: ElementHeader)
    requires
        pos < s.len(),
        spec_header(s, pos as int, s.len() as int) == Ok::<ElementHeader, ParseWebmFailed>(h),
        pos + h.header_size + h.data_size <= s.len(),
        no_video_entry(s, pos + h.header_size, pos + h.header_size + h.data_size),
    ensures
        spec_tracks_info(s, pos) == Ok::<Option<TracksInfo>, ParseWebmFailed>(None),
{
    lemma_header_size(s, pos as int, s.len() as int);
    lemma_no_video_walk(s, pos + h.header_size, pos + h.header_size + h.data_size);
}

} // verus!
