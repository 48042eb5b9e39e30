//! The seek table of a Segment: element IDs mapped to absolute byte offsets.
use std::collections::HashMap;

use vstd::prelude::*;

use crate::element::{
    be_uint, find_in, lemma_header_size, need_bytes, need_bytes_exec, read_header, read_uint,
    read_vint, spec_find_in, spec_header, spec_vint, ElementHeader,
};
use crate::error::{EbmlDefect, ParseWebmFailed};
use crate::ids::{SeekHeadId, SegmentId, CRC32_ID, VOID_ID};

verus! {

broadcast use vstd::std_specs::hash::group_hash_axioms;

/// The value a SeekID holds before one is read; no element has this ID.
pub const INVALID_SEEK_ID: u32 = 0xFF;

/// One row of a seek table.
#[derive(Debug, Clone, Copy, PartialEq, Eq, Structural)]
pub struct SeekEntry {
    pub seek_id: u32,
    pub seek_pos: u64,
}

/// The SeekID and SeekPosition read from the children of a Seek element in
/// `[pos, end)`, starting from `sid` and `spos`. Reading stops as soon as both
/// are set; an unknown child or a position of a width other than four or
/// eight bytes makes the entry invalid.
pub open spec fn spec_seek_fields(s: Seq<u8>, pos: int, end: int, sid: u32, spos: u64) -> Result<
    (u32, u64),
    ParseWebmFailed,
>
    decreases end - pos,
    when 0 <= pos <= end
{
    if pos == end || (sid != INVALID_SEEK_ID && spos != 0) {
        Ok((sid, spos))
    } else {
        match spec_header(s, pos, end) {
            Err(e) => Err(e),
            Ok(h) => {
                let p = pos + h.header_size;
                if h.id == SeekHeadId::SeekId.spec_id() {
                    match spec_vint(s, p, end, true) {
                        Err(e) => Err(e),
                        Ok((v, w)) => spec_seek_fields(s, p + w, end, v as u32, spos),
                    }
                } else if h.id == SeekHeadId::SeekPosition.spec_id() && (h.data_size == 8
                    || h.data_size == 4) && p + h.data_size <= end {
                    spec_seek_fields(
                        s,
                        p + h.data_size,
                        end,
                        sid,
                        be_uint(s, p, h.data_size as nat) as u64,
                    )
                } else {
                    Err(ParseWebmFailed::InvalidSeekEntry)
                }
            },
        }
    }
}

/// What a SeekHead child with ID `id` and payload `[start, end)` holds: an
/// entry, nothing (Void and CRC-32 fillers), or an invalid entry.
pub open spec fn spec_seek_entry(s: Seq<u8>, id: u64, start: int, end: int) -> Result<
    Option<SeekEntry>,
    ParseWebmFailed,
> {
    if id != SeekHeadId::Seek.spec_id() {
        if id == CRC32_ID || id == VOID_ID {
            Ok(None)
        } else {
            Err(ParseWebmFailed::InvalidSeekEntry)
        }
    } else {
        match spec_seek_fields(s, start, end, INVALID_SEEK_ID, 0) {
            Err(e) => Err(e),
            Ok((sid, spos)) => if sid == INVALID_SEEK_ID || spos == 0 {
                Err(ParseWebmFailed::InvalidSeekEntry)
            } else {
                Ok(Some(SeekEntry { seek_id: sid, seek_pos: spos }))
            },
        }
    }
}

/// `table` with `e` added at the absolute offset `base + e.seek_pos`; an
/// entry whose offset does not fit in 64 bits is left out.
pub open spec fn add_entry(table: Map<u32, u64>, base: u64, e: SeekEntry) -> Map<u32, u64> {
    if base + e.seek_pos <= u64::MAX {
        table.insert(e.seek_id, (base + e.seek_pos) as u64)
    } else {
        table
    }
}

/// The seek table that the SeekHead children in `[pos, end)` add to `table`.
/// Later entries for an ID replace earlier ones; fillers and entries that do
/// not read are passed over. A child whose header does not read fails the
/// table with that header's error, and one that runs past `end` with
/// `ChildPastParent`: the rest of the payload cannot be walked.
pub open spec fn spec_seek_table(
    s: Seq<u8>,
    pos: int,
    end: int,
    base: u64,
    table: Map<u32, u64>,
) -> Result<Map<u32, u64>, ParseWebmFailed>
    decreases end - pos,
    when 0 <= pos <= end
{
    if pos == end {
        Ok(table)
    } else {
        match spec_header(s, pos, end) {
            Err(e) => Err(e),
            Ok(h) => {
                let start = pos + h.header_size;
                let next = start + h.data_size;
                if next > end {
                    Err(ParseWebmFailed::InvalidWebmFile(EbmlDefect::ChildPastParent))
                } else {
                    match spec_seek_entry(s, h.id, start, next) {
                        Ok(Some(e)) => spec_seek_table(s, next, end, base, add_entry(table, base, e)),
                        _ => spec_seek_table(s, next, end, base, table),
                    }
                }
            },
        }
    }
}

/// The seek table of the first SeekHead among the Segment children from
/// `pos`, with offsets made absolute from the SeekHead's own start; `end` and
/// `whole` bound the Segment as in `spec_find_in`. `None` where the Segment
/// has no SeekHead or its table does not read.
pub open spec fn spec_seeks(s: Seq<u8>, pos: int, end: int, whole: bool) -> Result<
    Option<Map<u32, u64>>,
    ParseWebmFailed,
> {
    match spec_find_in(s, pos, end, whole, SegmentId::SeekHead.spec_id()) {
        Err(e) => Err(e),
        Ok(None) => Ok(None),
        Ok(Some((hp, h))) => {
            let start = hp + h.header_size;
            if start + h.data_size > end {
                if whole {
                    Ok(None)
                } else {
                    Err(need_bytes(start + h.data_size - end))
                }
            } else {
                match spec_seek_table(s, start, start + h.data_size, hp as u64, Map::empty()) {
                    Ok(t) => Ok(Some(t)),
                    Err(_) => Ok(None),
                }
            }
        },
    }
}

/// Reads the Seek child at `p`: the SeekID or SeekPosition it sets and the
/// position after it.
fn read_seek_field(s: &[u8], p: usize, end: usize, seek_id: u32, seek_pos: u64) -> (r: Result<
    (usize, u32, u64),
    ParseWebmFailed,
>)
    requires
        p < end <= s@.len(),
        seek_id == INVALID_SEEK_ID || seek_pos == 0,
    ensures
        match r {
            Ok((q, sid, spos)) => p < q <= end && spec_seek_fields(
                s@,
                p as int,
                end as int,
                seek_id,
                seek_pos,
            ) == spec_seek_fields(s@, q as int, end as int, sid, spos),
            Err(e) => spec_seek_fields(s@, p as int, end as int, seek_id, seek_pos) == Err::<
                (u32, u64),
                ParseWebmFailed,
            >(e),
        },
{
    let h = match read_header(s, p, end) {
        Ok(h) => h,
        Err(e) => return Err(e),
    };
    let q = p + h.header_size;
    if h.id == SeekHeadId::SeekId.id() {
        match read_vint(s, q, end, true) {
            Ok((v, w)) => Ok((q + w, #[verifier::truncate] (v as u32), seek_pos)),
            Err(e) => Err(e),
        }
    } else if h.id == SeekHeadId::SeekPosition.id() && (h.data_size == 8 || h.data_size == 4)
        && h.data_size <= (end - q) as u64 {
        match read_uint(s, q, h.data_size) {
            Some(v) => Ok((q + h.data_size as usize, seek_id, v)),
            None => Err(ParseWebmFailed::InvalidSeekEntry),
        }
    } else {
        Err(ParseWebmFailed::InvalidSeekEntry)
    }
}

/// Reads the SeekID and SeekPosition of a Seek element whose payload is
/// `[start, end)`; an entry of another ID is a filler or invalid.
pub fn parse_seek_entry(s: &[u8], id: u64, start: usize, end: usize) -> (r: Result<
    Option<SeekEntry>,
    ParseWebmFailed,
>)
    requires
        start <= end <= s@.len(),
    ensures
        r == spec_seek_entry(s@, id, start as int, end as int),
{
    if id != SeekHeadId::Seek.id() {
        if id == CRC32_ID || id == VOID_ID {
            return Ok(None);
        }
        return Err(ParseWebmFailed::InvalidSeekEntry);
    }
    let mut seek_id: u32 = INVALID_SEEK_ID;
    let mut seek_pos: u64 = 0;
    let mut p: usize = start;
    while p < end && (seek_id == INVALID_SEEK_ID || seek_pos == 0)
        invariant
            start <= p <= end <= s@.len(),
            id == SeekHeadId::Seek.spec_id(),
            spec_seek_fields(s@, p as int, end as int, seek_id, seek_pos) == spec_seek_fields(
                s@,
                start as int,
                end as int,
                INVALID_SEEK_ID,
                0,
            ),
        decreases end - p,
    {
        match read_seek_field(s, p, end, seek_id, seek_pos) {
            Ok((q, sid, spos)) => {
                p = q;
                seek_id = sid;
                seek_pos = spos;
            },
            Err(e) => return Err(e),
        }
    }
    if seek_id == INVALID_SEEK_ID || seek_pos == 0 {
        return Err(ParseWebmFailed::InvalidSeekEntry);
    }
    Ok(Some(SeekEntry { seek_id, seek_pos }))
}

/// Builds the seek table from the SeekHead payload `[pos, end)`, with each
/// offset made absolute by adding `base`.
pub fn parse_seek_head(s: &[u8], pos: usize, end: usize, base: u64) -> (r: Result<
    HashMap<u32, u64>,
    ParseWebmFailed,
>)
    requires
        pos <= end <= s@.len(),
    ensures
        match r {
            Ok(m) => spec_seek_table(s@, pos as int, end as int, base, Map::empty()) == Ok::<
                Map<u32, u64>,
                ParseWebmFailed,
            >(m@),
            Err(e) => spec_seek_table(s@, pos as int, end as int, base, Map::empty()) == Err::<
                Map<u32, u64>,
                ParseWebmFailed,
            >(e),
        },
{
    let mut entries: HashMap<u32, u64> = HashMap::new();
    let mut p: usize = pos;
    while p < end
        invariant
            pos <= p <= end <= s@.len(),
            spec_seek_table(s@, p as int, end as int, base, entries@) == spec_seek_table(
                s@,
                pos as int,
                end as int,
                base,
                Map::empty(),
            ),
        decreases end - p,
    {
        let h = match read_header(s, p, end) {
            Ok(h) => h,
            Err(e) => return Err(e),
        };
        let start = p + h.header_size;
        if h.data_size > (end - start) as u64 {
            return Err(ParseWebmFailed::InvalidWebmFile(EbmlDefect::ChildPastParent));
        }
        let next = start + h.data_size as usize;
        match parse_seek_entry(s, h.id, start, next) {
            Ok(Some(e)) => {
                if e.seek_pos <= u64::MAX - base {
                    entries.insert(e.seek_id, base + e.seek_pos);
                }
            },
            _ => {},
        }
        p = next;
    }
    Ok(entries)
}

/// Finds the first SeekHead among the Segment children `[pos, end)` and
/// builds its seek table, with offsets counted from the SeekHead's start.
pub fn parse_seeks(s: &[u8], pos: usize, end: usize, whole: bool) -> (r: Result<
    Option<HashMap<u32, u64>>,
    ParseWebmFailed,
>)
    requires
        pos <= end <= s@.len(),
    ensures
        match r {
            Ok(Some(m)) => spec_seeks(s@, pos as int, end as int, whole) == Ok::<
                Option<Map<u32, u64>>,
                ParseWebmFailed,
            >(Some(m@)),
            Ok(None) => spec_seeks(s@, pos as int, end as int, whole) == Ok::<
                Option<Map<u32, u64>>,
                ParseWebmFailed,
            >(None),
            Err(e) => spec_seeks(s@, pos as int, end as int, whole) == Err::<
                Option<Map<u32, u64>>,
                ParseWebmFailed,
            >(e),
        },
{
    let (hp, h) = match find_in(s, pos, end, whole, SegmentId::SeekHead.id()) {
        Ok(Some(x)) => x,
        Ok(None) => return Ok(None),
        Err(e) => return Err(e),
    };
    let start = hp + h.header_size;
    let rest = (end - start) as u64;
    if h.data_size > rest {
        if whole {
            return Ok(None);
        }
        return Err(need_bytes_exec(h.data_size - rest));
    }
    match parse_seek_head(s, start, start + h.data_size as usize, hp as u64) {
        Ok(m) => Ok(Some(m)),
        Err(_) => Ok(None),
    }
}

/// A Seek entry that does not read, between two valid ones, is passed over: the table
/// of a SeekHead payload made of the three holds both valid entries, at their
/// absolute offsets.
pub proof fn lemma_invalid_entry_between_valid_ones(
    s: Seq<u8>,
    p0: int,
    end: int,
    base: u64,
    h0: ElementHeader,
    h1: ElementHeader,
    h2: ElementHeader,
    a: SeekEntry,
    b: SeekEntry,
)
    requires
        0 <= p0 <= end,
        spec_header(s, p0, end) == Ok::<ElementHeader, ParseWebmFailed>(h0),
        spec_header(s, p0 + h0.header_size + h0.data_size, end) == Ok::<
            ElementHeader,
            ParseWebmFailed,
        >(h1),
        spec_header(
            s,
            p0 + h0.header_size + h0.data_size + h1.header_size + h1.data_size,
            end,
        ) == Ok::<ElementHeader, ParseWebmFailed>(h2),
        p0 + h0.header_size + h0.data_size + h1.header_size + h1.data_size + h2.header_size
            + h2.data_size == end,
        spec_seek_entry(s, h0.id, p0 + h0.header_size, p0 + h0.header_size + h0.data_size)
            == Ok::<Option<SeekEntry>, ParseWebmFailed>(Some(a)),
        spec_seek_entry(
            s,
            h1.id,
            p0 + h0.header_size + h0.data_size + h1.header_size,
            p0 + h0.header_size + h0.data_size + h1.header_size + h1.data_size,
        ) is Err,
        spec_seek_entry(
            s,
            h2.id,
            p0 + h0.header_size + h0.data_size + h1.header_size + h1.data_size + h2.header_size,
            end,
        ) == Ok::<Option<SeekEntry>, ParseWebmFailed>(Some(b)),
        a.seek_id != b.seek_id,
        base + a.seek_pos <= u64::MAX,
        base + b.seek_pos <= u64::MAX,
    ensures
        spec_seek_table(s, p0, end, base, Map::empty()) matches Ok(t) && t.contains_key(a.seek_id)
            && t[a.seek_id] == base + a.seek_pos && t.contains_key(b.seek_id) && t[b.seek_id]
            == base + b.seek_pos,
{
    lemma_header_size(s, p0, end);
    let p1 = p0 + h0.header_size + h0.data_size;
    lemma_header_size(s, p1, end);
    let p2 = p1 + h1.header_size + h1.data_size;
    lemma_header_size(s, p2, end);
    let t1 = add_entry(Map::empty(), base, a);
    let t2 = add_entry(t1, base, b);
    assert(spec_seek_table(s, end, end, base, t2) == Ok::<Map<u32, u64>, ParseWebmFailed>(t2));
    assert(spec_seek_table(s, p2, end, base, t1) == Ok::<Map<u32, u64>, ParseWebmFailed>(t2));
    assert(spec_seek_table(s, p1, end, base, t1) == Ok::<Map<u32, u64>, ParseWebmFailed>(t2));
    assert(spec_seek_table(s, p0, end, base, Map::empty()) == Ok::<Map<u32, u64>, ParseWebmFailed>(
        t2,
    ));
}

} // verus!
