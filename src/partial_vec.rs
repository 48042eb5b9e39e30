//! A shared, immutable byte buffer together with the range of it that a view
//! covers. Views of one buffer share it without copying.
use std::ops::Range;
use std::sync::Arc;

use vstd::prelude::*;
use vstd::slice::slice_subrange;

verus! {

/// A view of `data[start..end]`.
#[derive(Debug)]
pub struct PartialVec {
    pub data: Arc<Vec<u8>>,
    pub start: usize,
    pub end: usize,
}

impl Clone for PartialVec {
    fn clone(&self) -> (r: PartialVec)
        ensures
            r.data@ == self.data@,
            r.start == self.start,
            r.end == self.end,
    {
        PartialVec { data: self.data.clone(), start: self.start, end: self.end }
    }
}

impl PartialVec {
    /// The range lies within the buffer.
    pub open spec fn wf(&self) -> bool {
        self.start <= self.end <= self.data@.len()
    }

    /// The bytes the view covers.
    pub open spec fn bytes(&self) -> Seq<u8> {
        self.data@.subrange(self.start as int, self.end as int)
    }

    /// A view of `vec[range]`.
    pub fn new(vec: Arc<Vec<u8>>, range: Range<usize>) -> (r: PartialVec)
        requires
            range.start <= range.end <= vec@.len(),
        ensures
            r.wf(),
            r.data@ == vec@,
            r.start == range.start && r.end == range.end,
    {
        PartialVec { data: vec, start: range.start, end: range.end }
    }

    /// A view of all of `vec`.
    pub fn from_vec(vec: Vec<u8>) -> (r: PartialVec)
        ensures
            r.wf(),
            r.data@ == vec@,
            r.start == 0 && r.end == vec@.len(),
            r.bytes() == vec@,
    {
        let range = 0..vec.len();
        let r = Self::from_vec_range(vec, range);
        assert(r.bytes() =~= r.data@);
        r
    }

    /// A view of `vec[range]`, which takes the buffer over.
    pub fn from_vec_range(vec: Vec<u8>, range: Range<usize>) -> (r: PartialVec)
        requires
            range.start <= range.end <= vec@.len(),
        ensures
            r.wf(),
            r.data@ == vec@,
            r.start == range.start && r.end == range.end,
    {
        Self::new(Arc::new(vec), range)
    }

    /// A view of the part `sub` of the shared buffer `vec`.
    pub fn from_arc_vec_slice(vec: Arc<Vec<u8>>, sub: Range<usize>) -> (r: PartialVec)
        requires
            sub.start <= sub.end <= vec@.len(),
        ensures
            r.wf(),
            r.data@ == vec@,
            r.start == sub.start && r.end == sub.end,
            r.bytes() == vec@.subrange(sub.start as int, sub.end as int),
    {
        Self::new(vec, sub)
    }

    /// A second view of this view's buffer, covering its part `sub`.
    pub fn partial(&self, sub: Range<usize>) -> (r: PartialVec)
        requires
            sub.start <= sub.end <= self.data@.len(),
        ensures
            r.wf(),
            r.data@ == self.data@,
            r.start == sub.start && r.end == sub.end,
            r.bytes() == self.data@.subrange(sub.start as int, sub.end as int),
    {
        PartialVec::new(self.data.clone(), sub)
    }

    /// The bytes the view covers.
    pub fn as_slice(&self) -> (r: &[u8])
        requires
            self.wf(),
        ensures
            r@ == self.bytes(),
    {
        slice_subrange(self.data.as_slice(), self.start, self.end)
    }

    /// The number of bytes the view covers.
    pub fn len(&self) -> (r: usize)
        requires
            self.wf(),
        ensures
            r == self.bytes().len(),
    {
        self.end - self.start
    }
}

/// Two views are equal when they cover the same range of buffers that hold
/// the same bytes, whether or not they share one buffer.
impl PartialEq for PartialVec {
    fn eq(&self, o: &PartialVec) -> (r: bool) {
        if self.start != o.start || self.end != o.end {
            return false;
        }
        let a = self.data.as_slice();
        let b = o.data.as_slice();
        if a.len() != b.len() {
            return false;
        }
        let mut i: usize = 0;
        while i < a.len()
            invariant
                a@ == self.data@,
                b@ == o.data@,
                a@.len() == b@.len(),
                i <= a@.len(),
                forall|j: int| 0 <= j < i ==> a@[j] == b@[j],
            decreases a@.len() - i,
        {
            if a[i] != b[i] {
                return false;
            }
            i = i + 1;
        }
        assert(a@ =~= b@);
        true
    }
}

impl vstd::std_specs::cmp::PartialEqSpecImpl for PartialVec {
    open spec fn obeys_eq_spec() -> bool {
        true
    }

    open spec fn eq_spec(&self, o: &PartialVec) -> bool {
        self.data@ == o.data@ && self.start == o.start && self.end == o.end
    }
}

impl Eq for PartialVec {
}

} // verus!
