//! Variable-length integers and element headers of EBML, read from a byte
//! buffer at an absolute position and within a bound.
use vstd::prelude::*;

use crate::error::{EbmlDefect, ParseWebmFailed};

verus! {

/// The number of bytes of a variable-length integer whose first byte is `b`;
/// zero when `b` is zero, which starts no valid integer.
pub open spec fn vint_width(b: u8) -> nat {
    if b >= 0x80 {
        1
    } else if b >= 0x40 {
        2
    } else if b >= 0x20 {
        3
    } else if b >= 0x10 {
        4
    } else if b >= 0x08 {
        5
    } else if b >= 0x04 {
        6
    } else if b >= 0x02 {
        7
    } else if b >= 0x01 {
        8
    } else {
        0
    }
}

/// The length-marker bit of a first byte `b`: the highest bit set in it.
pub open spec fn vint_marker(b: u8) -> nat {
    if b >= 0x80 {
        0x80
    } else if b >= 0x40 {
        0x40
    } else if b >= 0x20 {
        0x20
    } else if b >= 0x10 {
        0x10
    } else if b >= 0x08 {
        0x08
    } else if b >= 0x04 {
        0x04
    } else if b >= 0x02 {
        0x02
    } else {
        0x01
    }
}

pub open spec fn pow256(n: nat) -> nat
    decreases n,
{
    if n == 0 {
        1
    } else {
        256 * pow256((n - 1) as nat)
    }
}

/// `len` bytes of `s` from `start`, read big-endian after the digits `acc`.
pub open spec fn be_fold(acc: nat, s: Seq<u8>, start: int, len: nat) -> nat
    decreases len,
{
    if len == 0 {
        acc
    } else {
        be_fold(acc, s, start, (len - 1) as nat) * 256 + s[start + len - 1] as nat
    }
}

/// The unsigned big-endian integer held by `s[start .. start + len]`.
pub open spec fn be_uint(s: Seq<u8>, start: int, len: nat) -> nat {
    be_fold(0, s, start, len)
}

/// The variable-length integer at `pos`, read no further than `end`, with its
/// width. `keep_marker` keeps the length marker in the value, as element IDs
/// are written; without it the value is the integer that sizes carry.
pub open spec fn spec_vint(s: Seq<u8>, pos: int, end: int, keep_marker: bool) -> Result<
    (u64, usize),
    ParseWebmFailed,
> {
    if pos >= end {
        Err(ParseWebmFailed::Need((pos - end + 1) as usize))
    } else {
        let b = s[pos];
        let w = vint_width(b);
        if w == 0 {
            Err(ParseWebmFailed::InvalidWebmFile(EbmlDefect::InvalidVInt))
        } else if pos + w > end {
            Err(ParseWebmFailed::Need((pos + w - end) as usize))
        } else if keep_marker {
            Ok((be_uint(s, pos, w) as u64, w as usize))
        } else {
            Ok((be_fold((b - vint_marker(b)) as nat, s, pos + 1, (w - 1) as nat) as u64, w as usize))
        }
    }
}

/// The header of one element: its ID, the bytes the ID and size fields take,
/// and the length of its payload.
#[derive(Debug, Clone, Copy, PartialEq, Eq, Structural)]
pub struct ElementHeader {
    pub id: u64,
    pub header_size: usize,
    pub data_size: u64,
}

/// The element header at `pos`, read no further than `end`.
pub open spec fn spec_header(s: Seq<u8>, pos: int, end: int) -> Result<ElementHeader, ParseWebmFailed> {
    match spec_vint(s, pos, end, true) {
        Err(e) => Err(e),
        Ok((id, wi)) => match spec_vint(s, pos + wi, end, false) {
            Err(e) => Err(e),
            Ok((size, ws)) => Ok(ElementHeader { id, header_size: (wi + ws) as usize, data_size: size }),
        },
    }
}

pub proof fn lemma_pow256_mono(a: nat, b: nat)
    requires
        a <= b,
    ensures
        pow256(a) <= pow256(b),
    decreases b,
{
    if a < b {
        lemma_pow256_mono(a, (b - 1) as nat);
    }
}

pub proof fn lemma_be_fold_bound(acc: nat, s: Seq<u8>, start: int, len: nat)
    ensures
        be_fold(acc, s, start, len) < (acc + 1) * pow256(len),
    decreases len,
{
    if len > 0 {
        let l1 = (len - 1) as nat;
        lemma_be_fold_bound(acc, s, start, l1);
        let p = pow256(l1);
        let v = be_fold(acc, s, start, l1);
        let byte = s[start + len - 1] as nat;
        assert(v * 256 + byte < (acc + 1) * (256 * p)) by (nonlinear_arith)
            requires
                v < (acc + 1) * p,
                byte < 256,
        ;
        assert(be_fold(acc, s, start, len) == v * 256 + byte);
        assert(pow256(len) == 256 * p);
    } else {
        assert(acc < (acc + 1) * 1) by (nonlinear_arith);
    }
}

proof fn lemma_vint_fits(acc: nat, len: nat)
    requires
        (acc == 0 && len <= 8) || (acc < 256 && len <= 7),
    ensures
        (acc + 1) * pow256(len) <= 0x1_0000_0000_0000_0000,
{
    reveal_with_fuel(pow256, 9);
    assert(pow256(7) == 0x100_0000_0000_0000);
    assert(pow256(8) == 0x1_0000_0000_0000_0000);
    if acc == 0 {
        lemma_pow256_mono(len, 8);
        assert((acc + 1) * pow256(len) == pow256(len)) by (nonlinear_arith)
            requires
                acc == 0,
        ;
    } else {
        lemma_pow256_mono(len, 7);
        assert((acc + 1) * pow256(len) <= 256 * pow256(7)) by (nonlinear_arith)
            requires
                acc + 1 <= 256,
                pow256(len) <= pow256(7),
        ;
    }
}

/// Reads `len` bytes from `start` big-endian, after the digits `acc`.
pub fn read_be(s: &[u8], start: usize, len: usize, acc: u64) -> (r: u64)
    requires
        start + len <= s@.len(),
        (acc + 1) * pow256(len as nat) <= 0x1_0000_0000_0000_0000,
    ensures
        r == be_fold(acc as nat, s@, start as int, len as nat),
{
    let n: usize = s.len();
    let mut v: u64 = acc;
    let mut i: usize = 0;
    while i < len
        invariant
            i <= len,
            start + len <= n == s@.len(),
            (acc + 1) * pow256(len as nat) <= 0x1_0000_0000_0000_0000,
            v == be_fold(acc as nat, s@, start as int, i as nat),
        decreases len - i,
    {
        proof {
            lemma_be_fold_bound(acc as nat, s@, start as int, (i + 1) as nat);
            lemma_pow256_mono((i + 1) as nat, len as nat);
            assert((acc + 1) * pow256((i + 1) as nat) <= (acc + 1) * pow256(len as nat))
                by (nonlinear_arith)
                requires
                    pow256((i + 1) as nat) <= pow256(len as nat),
            ;
            assert(be_fold(acc as nat, s@, start as int, (i + 1) as nat) == v * 256
                + s@[start + i] as nat);
            assert(v * 256 + s@[start + i] < 0x1_0000_0000_0000_0000);
        }
        let b = s[start + i];
        v = v * 256 + b as u64;
        i = i + 1;
    }
    v
}

fn vint_width_of(b: u8) -> (r: (usize, u8))
    ensures
        r.0 as nat == vint_width(b),
        r.1 as nat == vint_marker(b),
{
    if b >= 0x80 {
        (1, 0x80)
    } else if b >= 0x40 {
        (2, 0x40)
    } else if b >= 0x20 {
        (3, 0x20)
    } else if b >= 0x10 {
        (4, 0x10)
    } else if b >= 0x08 {
        (5, 0x08)
    } else if b >= 0x04 {
        (6, 0x04)
    } else if b >= 0x02 {
        (7, 0x02)
    } else if b >= 0x01 {
        (8, 0x01)
    } else {
        (0, 0x01)
    }
}

proof fn lemma_size_bound(b: u8)
    requires
        vint_width(b) >= 1,
    ensures
        b - vint_marker(b) < vint_marker(b),
        vint_marker(b) * pow256((vint_width(b) - 1) as nat) <= 0x100_0000_0000_0000,
{
    reveal_with_fuel(pow256, 8);
}

/// Reads the variable-length integer at `pos`, no further than `end`.
pub fn read_vint(s: &[u8], pos: usize, end: usize, keep_marker: bool) -> (r: Result<
    (u64, usize),
    ParseWebmFailed,
>)
    requires
        pos <= end <= s@.len(),
    ensures
        r == spec_vint(s@, pos as int, end as int, keep_marker),
        r matches Ok((_, w)) ==> 1 <= w <= 8 && pos + w <= end,
        r matches Ok((v, _)) ==> keep_marker || v < 0x100_0000_0000_0000,
{
    if pos == end {
        return Err(ParseWebmFailed::Need(1));
    }
    let b = s[pos];
    let (w, marker) = vint_width_of(b);
    if w == 0 {
        return Err(ParseWebmFailed::InvalidWebmFile(EbmlDefect::InvalidVInt));
    }
    if w > end - pos {
        return Err(ParseWebmFailed::Need(w - (end - pos)));
    }
    if keep_marker {
        proof {
            lemma_vint_fits(0, w as nat);
        }
        let v = read_be(s, pos, w, 0);
        Ok((v, w))
    } else {
        proof {
            lemma_vint_fits((b - marker) as nat, (w - 1) as nat);
            lemma_size_bound(b);
            lemma_be_fold_bound((b - marker) as nat, s@, pos + 1, (w - 1) as nat);
            let acc = (b - marker) as nat;
            let p = pow256((w - 1) as nat);
            assert((acc + 1) * p <= marker * p) by (nonlinear_arith)
                requires
                    acc + 1 <= marker,
            ;
        }
        let v = read_be(s, pos + 1, w - 1, (b - marker) as u64);
        Ok((v, w))
    }
}

/// Reads the element header at `pos`, no further than `end`.
pub fn read_header(s: &[u8], pos: usize, end: usize) -> (r: Result<ElementHeader, ParseWebmFailed>)
    requires
        pos <= end <= s@.len(),
    ensures
        r == spec_header(s@, pos as int, end as int),
        r matches Ok(h) ==> 2 <= h.header_size && pos + h.header_size <= end && h.data_size
            < 0x100_0000_0000_0000,
{
    let (id, wi) = match read_vint(s, pos, end, true) {
        Ok(x) => x,
        Err(e) => return Err(e),
    };
    let (size, ws) = match read_vint(s, pos + wi, end, false) {
        Ok(x) => x,
        Err(e) => return Err(e),
    };
    Ok(ElementHeader { id, header_size: wi + ws, data_size: size })
}

/// The request for `n` more bytes, at most `usize::MAX`.
pub open spec fn need_bytes(n: int) -> ParseWebmFailed {
    if n >= usize::MAX {
        ParseWebmFailed::Need(usize::MAX)
    } else {
        ParseWebmFailed::Need(n as usize)
    }
}

pub fn need_bytes_exec(n: u64) -> (r: ParseWebmFailed)
    ensures
        r == need_bytes(n as int),
{
    if n >= usize::MAX as u64 {
        ParseWebmFailed::Need(usize::MAX)
    } else {
        ParseWebmFailed::Need(n as usize)
    }
}

/// Walks the sibling elements from `pos` to `end` and finds the first whose ID
/// is `id`: its position and header. `None` when the walk reaches `end` exactly.
/// An element that runs past `end` asks for the bytes up to its own end.
pub open spec fn spec_find(s: Seq<u8>, pos: int, end: int, id: u64) -> Result<
    Option<(usize, ElementHeader)>,
    ParseWebmFailed,
>
    decreases end - pos,
    when 0 <= pos <= end
{
    if pos == end {
        Ok(None)
    } else {
        match spec_header(s, pos, end) {
            Err(e) => Err(e),
            Ok(h) => if h.id == id {
                Ok(Some((pos as usize, h)))
            } else {
                let next = pos + h.header_size + h.data_size;
                if next > end {
                    Err(need_bytes(next - end))
                } else {
                    spec_find(s, next, end, id)
                }
            },
        }
    }
}

/// Finds the first element with ID `id` among the siblings from `pos` to `end`.
pub fn find_element(s: &[u8], pos: usize, end: usize, id: u64) -> (r: Result<
    Option<(usize, ElementHeader)>,
    ParseWebmFailed,
>)
    requires
        pos <= end <= s@.len(),
    ensures
        r == spec_find(s@, pos as int, end as int, id),
        r matches Ok(Some((p, h))) ==> pos <= p && p + h.header_size <= end && h.id == id,
{
    let mut p: usize = pos;
    while p < end
        invariant
            pos <= p <= end <= s@.len(),
            spec_find(s@, p as int, end as int, id) == spec_find(s@, pos as int, end as int, id),
        decreases end - p,
    {
        let h = match read_header(s, p, end) {
            Ok(h) => h,
            Err(e) => return Err(e),
        };
        if h.id == id {
            return Ok(Some((p, h)));
        }
        let rest = (end - p - h.header_size) as u64;
        if h.data_size > rest {
            return Err(need_bytes_exec(h.data_size - rest));
        }
        p = p + h.header_size + h.data_size as usize;
    }
    Ok(None)
}

/// Finds the first child with ID `id` of a container from `pos` on, where
/// `[pos, end)` is the part of its payload in the buffer and `whole` tells
/// that this is all of it. Where the container is whole, a walk that fails
/// or ends finds nothing; where it is not, the walk asks for the bytes it
/// needs to go on.
pub open spec fn spec_find_in(s: Seq<u8>, pos: int, end: int, whole: bool, id: u64) -> Result<
    Option<(usize, ElementHeader)>,
    ParseWebmFailed,
> {
    match spec_find(s, pos, end, id) {
        Ok(Some(x)) => Ok(Some(x)),
        Ok(None) => if whole {
            Ok(None)
        } else {
            Err(ParseWebmFailed::Need(1))
        },
        Err(ParseWebmFailed::Need(n)) => if whole {
            Ok(None)
        } else {
            Err(ParseWebmFailed::Need(n))
        },
        Err(_) => Ok(None),
    }
}

/// Finds the first child with ID `id` of a container in `[pos, end)`, all of
/// the container if `whole`, else its part in the buffer.
pub fn find_in(s: &[u8], pos: usize, end: usize, whole: bool, id: u64) -> (r: Result<
    Option<(usize, ElementHeader)>,
    ParseWebmFailed,
>)
    requires
        pos <= end <= s@.len(),
    ensures
        r == spec_find_in(s@, pos as int, end as int, whole, id),
        r matches Ok(Some((p, h))) ==> pos <= p && p + h.header_size <= end && h.id == id,
{
    match find_element(s, pos, end, id) {
        Ok(Some(x)) => Ok(Some(x)),
        Ok(None) => if whole {
            Ok(None)
        } else {
            Err(ParseWebmFailed::Need(1))
        },
        Err(ParseWebmFailed::Need(n)) => if whole {
            Ok(None)
        } else {
            Err(ParseWebmFailed::Need(n))
        },
        Err(_) => Ok(None),
    }
}

/// The unsigned integer value of an element whose payload of `size` bytes
/// starts at `start`; `None` for a payload wider than eight bytes.
pub open spec fn spec_uint(s: Seq<u8>, start: int, size: u64) -> Option<u64> {
    if size <= 8 {
        Some(be_uint(s, start, size as nat) as u64)
    } else {
        None
    }
}

/// Reads the unsigned integer value of the payload `s[start .. start + size]`.
pub fn read_uint(s: &[u8], start: usize, size: u64) -> (r: Option<u64>)
    requires
        start + size <= s@.len(),
    ensures
        r == spec_uint(s@, start as int, size),
{
    if size <= 8 {
        proof {
            lemma_vint_fits(0, size as nat);
        }
        Some(read_be(s, start, size as usize, 0))
    } else {
        None
    }
}

/// A header that reads has ID and size fields of at least one byte each, and
/// they lie before `end`.
pub proof fn lemma_header_size(s: Seq<u8>, pos: int, end: int)
    ensures
        spec_header(s, pos, end) matches Ok(h) ==> h.header_size >= 2 && pos + h.header_size
            <= end,
{
}

/// An element that a walk finds has its header before `end`.
pub proof fn lemma_find_bounds(s: Seq<u8>, pos: int, end: int, id: u64)
    requires
        0 <= pos <= end <= usize::MAX,
    ensures
        spec_find(s, pos, end, id) matches Ok(Some((p, h))) ==> pos <= p && p + h.header_size
            <= end,
    decreases end - pos,
{
    if pos < end {
        lemma_header_size(s, pos, end);
        if let Ok(h) = spec_header(s, pos, end) {
            let next = pos + h.header_size + h.data_size;
            if h.id != id && next <= end {
                lemma_find_bounds(s, next, end, id);
            }
        }
    }
}

/// The error that asks for the bytes up to and including offset `pos` of a
/// buffer of `len` bytes, at most `usize::MAX`.
pub open spec fn need_through(pos: u64, len: int) -> ParseWebmFailed {
    if pos - len >= usize::MAX {
        ParseWebmFailed::Need(usize::MAX)
    } else {
        ParseWebmFailed::Need((pos - len + 1) as usize)
    }
}

pub fn need_through_exec(pos: u64, len: usize) -> (r: ParseWebmFailed)
    requires
        pos >= len,
    ensures
        r == need_through(pos, len as int),
{
    let gap = pos - len as u64;
    if gap >= usize::MAX as u64 {
        ParseWebmFailed::Need(usize::MAX)
    } else {
        ParseWebmFailed::Need(gap as usize + 1)
    }
}

} // verus!
