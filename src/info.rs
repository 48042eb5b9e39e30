//! The Info element of a Segment: duration and creation date.
use vstd::prelude::*;

use crate::element::{
    be_uint, lemma_be_fold_bound, lemma_header_size, lemma_pow256_mono, need_bytes,
    need_bytes_exec, need_through, need_through_exec, pow256, read_be, read_header, read_uint,
    spec_find, spec_header, spec_uint, ElementHeader,
};
use crate::error::ParseWebmFailed;
use crate::ids::InfoId;
use crate::timestamp::{matroska_date, spec_matroska_date, UtcTime};

verus! {

/// The raw bits of a floating-point element, of four or eight bytes.
#[derive(Debug, Clone, Copy, PartialEq, Eq, Structural)]
pub enum FloatBits {
    Single(u32),
    Double(u64),
}

/// A duration in ticks together with the nanoseconds per tick that were in
/// force when it was read: the duration in nanoseconds is `ticks * scale`.
#[derive(Debug, Clone, Copy, PartialEq, Eq, Structural)]
pub struct ScaledDuration {
    pub ticks: FloatBits,
    pub scale: u64,
}

/// What the Info element tells: the duration, if one was read, and the
/// creation date (the Unix epoch when none was read).
#[derive(Debug, Clone, Copy, PartialEq, Eq, Structural)]
pub struct SegmentInfo {
    pub duration: Option<ScaledDuration>,
    pub date: UtcTime,
}

/// Nanoseconds per tick where the Info element sets no TimestampScale.
pub const DEFAULT_TIMESTAMP_SCALE: u64 = 1_000_000;

pub open spec fn empty_segment_info() -> SegmentInfo {
    SegmentInfo { duration: None, date: UtcTime { unix_nanos: 0 } }
}

impl SegmentInfo {
    pub fn new() -> (r: SegmentInfo)
        ensures
            r == empty_segment_info(),
    {
        SegmentInfo { duration: None, date: UtcTime { unix_nanos: 0 } }
    }
}

/// The floating-point value of a payload of `size` bytes at `start`: four or
/// eight bytes, big-endian.
pub open spec fn spec_float(s: Seq<u8>, start: int, size: u64) -> Option<FloatBits> {
    if size == 4 {
        Some(FloatBits::Single(be_uint(s, start, 4) as u32))
    } else if size == 8 {
        Some(FloatBits::Double(be_uint(s, start, 8) as u64))
    } else {
        None
    }
}

/// The signed integer value of a payload of `size` bytes at `start`: the
/// big-endian two's complement of its width; `None` when wider than eight.
pub open spec fn spec_int(s: Seq<u8>, start: int, size: u64) -> Option<i64> {
    if size <= 8 {
        let v = be_uint(s, start, size as nat) as int;
        let p = pow256(size as nat) as int;
        Some((if size > 0 && 2 * v >= p {
            v - p
        } else {
            v
        }) as i64)
    } else {
        None
    }
}

fn pow256_exec(n: usize) -> (r: u128)
    requires
        n <= 8,
    ensures
        r == pow256(n as nat),
{
    let mut r: u128 = 1;
    let mut i: usize = 0;
    while i < n
        invariant
            i <= n <= 8,
            r == pow256(i as nat),
        decreases n - i,
    {
        proof {
            lemma_pow256_mono((i + 1) as nat, 8);
            reveal_with_fuel(pow256, 9);
        }
        r = r * 256;
        i = i + 1;
    }
    r
}

/// Reads the signed integer payload `s[start .. start + size]`.
pub fn read_int(s: &[u8], start: usize, size: u64) -> (r: Option<i64>)
    requires
        start + size <= s@.len(),
    ensures
        r == spec_int(s@, start as int, size),
{
    if size > 8 {
        return None;
    }
    let v = match read_uint(s, start, size) {
        Some(v) => v,
        None => return None,
    };
    let p = pow256_exec(size as usize);
    proof {
        lemma_be_fold_bound(0, s@, start as int, size as nat);
        lemma_pow256_mono(size as nat, 8);
        reveal_with_fuel(pow256, 9);
        let q = pow256(size as nat);
        assert((0nat + 1) * q == q) by (nonlinear_arith);
        assert(v < p);
        assert(p <= 0x1_0000_0000_0000_0000);
    }
    if size > 0 && (v as u128) * 2 >= p {
        let r = (v as i128 - p as i128) as i64;
        assert(r == v - p);
        Some(r)
    } else {
        assert(size == 0 ==> v == 0);
        assert(2 * v < p || size == 0);
        assert(v < 0x8000_0000_0000_0000);
        Some(v as i64)
    }
}

/// Reads the floating-point payload `s[start .. start + size]`.
pub fn read_float(s: &[u8], start: usize, size: u64) -> (r: Option<FloatBits>)
    requires
        start + size <= s@.len(),
    ensures
        r == spec_float(s@, start as int, size),
{
    reveal_with_fuel(pow256, 9);
    if size == 4 {
        let v = read_be(s, start, 4, 0);
        proof {
            crate::element::lemma_be_fold_bound(0, s@, start as int, 4);
        }
        Some(FloatBits::Single(v as u32))
    } else if size == 8 {
        Some(FloatBits::Double(read_be(s, start, 8, 0)))
    } else {
        None
    }
}

/// The timestamp scale and info after one Info child with header `id`, `size`
/// and payload at `start`. A value that cannot be read leaves both as they
/// were.
pub open spec fn spec_info_step(
    s: Seq<u8>,
    id: u64,
    start: int,
    size: u64,
    scale: u64,
    info: SegmentInfo,
) -> (u64, SegmentInfo) {
    if id == InfoId::TimestampScale.spec_id() {
        match spec_uint(s, start, size) {
            Some(v) => (v, info),
            None => (scale, info),
        }
    } else if id == InfoId::Duration.spec_id() {
        match spec_float(s, start, size) {
            Some(f) => {
                let d = ScaledDuration { ticks: f, scale };
                (scale, SegmentInfo { duration: Some(d), ..info })
            },
            None => (scale, info),
        }
    } else if id == InfoId::Date.spec_id() {
        match spec_int(s, start, size) {
            Some(v) => (scale, SegmentInfo { date: spec_matroska_date(v), ..info }),
            None => (scale, info),
        }
    } else {
        (scale, info)
    }
}

/// The info that the Info children in `[pos, end)` give, read in one forward
/// pass from `scale` and `info`. A child that runs past `end` ends the walk.
pub open spec fn spec_info_walk(s: Seq<u8>, pos: int, end: int, scale: u64, info: SegmentInfo) -> Result<
    SegmentInfo,
    ParseWebmFailed,
>
    decreases end - pos,
    when 0 <= pos <= end
{
    if pos == end {
        Ok(info)
    } else {
        match spec_header(s, pos, end) {
            Err(e) => Err(e),
            Ok(h) => {
                let start = pos + h.header_size;
                let next = start + h.data_size;
                if next > end {
                    Ok(info)
                } else {
                    let (scale2, info2) = spec_info_step(s, h.id, start, h.data_size, scale, info);
                    spec_info_walk(s, next, end, scale2, info2)
                }
            },
        }
    }
}

/// The Info element at `pos`: its info once the whole element is in `s`;
/// `None` where a child's header runs past the element's end.
pub open spec fn spec_segment_info(s: Seq<u8>, pos: u64) -> Result<
    Option<SegmentInfo>,
    ParseWebmFailed,
> {
    if pos >= s.len() {
        Err(need_through(pos, s.len() as int))
    } else {
        match spec_header(s, pos as int, s.len() as int) {
            Err(e) => Err(e),
            Ok(h) => {
                let start = pos + h.header_size;
                if start + h.data_size > s.len() {
                    Err(need_bytes(start + h.data_size - s.len()))
                } else {
                    match spec_info_walk(
                        s,
                        start,
                        start + h.data_size,
                        DEFAULT_TIMESTAMP_SCALE,
                        empty_segment_info(),
                    ) {
                        Ok(i) => Ok(Some(i)),
                        Err(ParseWebmFailed::Need(_)) => Ok(None),
                        Err(e) => Err(e),
                    }
                }
            },
        }
    }
}

fn info_step(s: &[u8], id: u64, start: usize, size: u64, scale: u64, info: SegmentInfo) -> (r: (
    u64,
    SegmentInfo,
))
    requires
        start + size <= s@.len(),
    ensures
        r == spec_info_step(s@, id, start as int, size, scale, info),
{
    match InfoId::from_id(id) {
        Some(InfoId::TimestampScale) => match read_uint(s, start, size) {
            Some(v) => (v, info),
            None => (scale, info),
        },
        Some(InfoId::Duration) => match read_float(s, start, size) {
            Some(f) => {
                let d = ScaledDuration { ticks: f, scale };
                (scale, SegmentInfo { duration: Some(d), ..info })
            },
            None => (scale, info),
        },
        Some(InfoId::Date) => match read_int(s, start, size) {
            Some(v) => (scale, SegmentInfo { date: matroska_date(v), ..info }),
            None => (scale, info),
        },
        None => (scale, info),
    }
}

/// Reads the children of an Info payload `[pos, end)`.
pub fn parse_segment_info_body(s: &[u8], pos: usize, end: usize) -> (r: Result<
    SegmentInfo,
    ParseWebmFailed,
>)
    requires
        pos <= end <= s@.len(),
    ensures
        r == spec_info_walk(s@, pos as int, end as int, DEFAULT_TIMESTAMP_SCALE, empty_segment_info()),
{
    let mut time_scale: u64 = DEFAULT_TIMESTAMP_SCALE;
    let mut info = SegmentInfo::new();
    let mut p: usize = pos;
    while p < end
        invariant
            pos <= p <= end <= s@.len(),
            spec_info_walk(s@, p as int, end as int, time_scale, info) == spec_info_walk(
                s@,
                pos as int,
                end as int,
                DEFAULT_TIMESTAMP_SCALE,
                empty_segment_info(),
            ),
        decreases end - p,
    {
        let h = match read_header(s, p, end) {
            Ok(h) => h,
            Err(e) => return Err(e),
        };
        let start = p + h.header_size;
        if h.data_size > (end - start) as u64 {
            return Ok(info);
        }
        let next = start + h.data_size as usize;
        let (scale2, info2) = info_step(s, h.id, start, h.data_size, time_scale, info);
        time_scale = scale2;
        info = info2;
        p = next;
    }
    Ok(info)
}

/// Parses the Info element at absolute offset `pos`.
pub fn parse_segment_info(s: &[u8], pos: u64) -> (r: Result<Option<SegmentInfo>, ParseWebmFailed>)
    ensures
        r == spec_segment_info(s@, pos),
{
    let len = s.len();
    if pos >= len as u64 {
        return Err(need_through_exec(pos, len));
    }
    let p = pos as usize;
    let h = match read_header(s, p, len) {
        Ok(h) => h,
        Err(e) => return Err(e),
    };
    let start = p + h.header_size;
    let rest = (len - start) as u64;
    if h.data_size > rest {
        return Err(need_bytes_exec(h.data_size - rest));
    }
    match parse_segment_info_body(s, start, start + h.data_size as usize) {
        Ok(i) => Ok(Some(i)),
        Err(ParseWebmFailed::Need(_)) => Ok(None),
        Err(e) => Err(e),
    }
}

/// An Info payload `[pos, end)` none of whose children is a TimestampScale
/// gives a duration, if any, in ticks of the default 1,000,000 nanoseconds.
pub proof fn lemma_default_scale(s: Seq<u8>, pos: int, end: int, info: SegmentInfo)
    requires
        0 <= pos <= end <= usize::MAX,
        spec_find(s, pos, end, InfoId::TimestampScale.spec_id()) == Ok::<
            Option<(usize, ElementHeader)>,
            ParseWebmFailed,
        >(None),
        info.duration matches Some(d) ==> d.scale == DEFAULT_TIMESTAMP_SCALE,
    ensures
        spec_info_walk(s, pos, end, DEFAULT_TIMESTAMP_SCALE, info) matches Ok(i) ==> (
        i.duration matches Some(d) ==> d.scale == DEFAULT_TIMESTAMP_SCALE),
    decreases end - pos,
{
    if pos < end {
        lemma_header_size(s, pos, end);
        if let Ok(h) = spec_header(s, pos, end) {
            let start = pos + h.header_size;
            let next = start + h.data_size;
            let (_, info2) = spec_info_step(s, h.id, start, h.data_size, DEFAULT_TIMESTAMP_SCALE, info);
            lemma_default_scale(s, next, end, info2);
        }
    }
}

} // verus!
