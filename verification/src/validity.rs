//! Validity bitmaps: one flag per logical element; a cleared flag marks the
//! element null (no value at all, not an empty geometry). An absent bitmap
//! means every element is valid, so emptiness and nullity stay orthogonal.

use vstd::prelude::*;

verus! {

/// A per-element null marker with the same windowed slicing discipline as
/// the other buffers.
#[derive(Debug)]
pub struct Validity {
    /// Backing storage; may extend beyond the logical window on either side.
    pub data: Vec<bool>,
    /// Index in `data` of the first logical flag.
    pub start: usize,
    /// Number of logical elements covered.
    pub len: usize,
}

/// Slicing keeps an optional bitmap's backing storage untouched and only
/// moves the window; an absent bitmap stays absent.
pub open spec fn validity_window_shifted(
    pre: Option<Validity>,
    post: Option<Validity>,
    offset: int,
    length: int,
) -> bool {
    match (pre, post) {
        (Option::None, Option::None) => true,
        (Option::Some(w), Option::Some(v)) => {
            &&& v.data@ == w.data@
            &&& v.start == w.start + offset
            &&& v.len == length
        },
        _ => false,
    }
}

/// Whether slot `i` is valid under an optional bitmap: an absent bitmap
/// marks every element valid.
pub open spec fn slot_valid(v: &Option<Validity>, i: int) -> bool {
    match v {
        Option::None => true,
        Option::Some(b) => b.bits()[i],
    }
}

impl Validity {
    /// The logical flags, one per element, in element order.
    pub open spec fn bits(&self) -> Seq<bool> {
        self.data@.subrange(self.start as int, self.start + self.len)
    }

    /// Well-formedness: the window lies inside the backing storage.
    pub open spec fn wf(&self) -> bool {
        &&& self.start + self.len <= self.data@.len()
        &&& self.data@.len() <= usize::MAX
    }

    /// The number of logical elements covered.
    pub open spec fn spec_len(&self) -> int {
        self.len as int
    }

    /// A compact bitmap has no hidden storage around its window.
    pub open spec fn is_compact(&self) -> bool {
        self.start == 0 && self.data@.len() == self.len
    }

    /// The number of logical elements covered.
    pub fn count(&self) -> (n: usize)
        ensures
            n == self.spec_len(),
    {
        self.len
    }

    /// Whether element `i` is valid (set) or null (cleared).
    pub fn is_valid(&self, i: usize) -> (r: bool)
        requires
            self.wf(),
            i < self.spec_len(),
        ensures
            r == self.bits()[i as int],
    {
        self.data[self.start + i]
    }

    /// Builds a compact bitmap from one flag per element.
    pub fn from_bools(v: Vec<bool>) -> (r: Validity)
        ensures
            r.wf(),
            r.is_compact(),
            r.bits() == v@,
    {
        let n: usize = v.len();
        let r = Validity { data: v, start: 0, len: n };
        proof {
            assert(r.bits() =~= r.data@);
        }
        r
    }

    /// Narrows the window to `length` elements beginning at `offset`, in
    /// place, sharing the backing storage.
    pub fn slice(&mut self, offset: usize, length: usize)
        requires
            old(self).wf(),
            offset + length <= old(self).spec_len(),
        ensures
            final(self).wf(),
            final(self).bits() == old(self).bits().subrange(
                offset as int,
                offset + length as int,
            ),
            final(self).data@ == old(self).data@,
            final(self).start == old(self).start + offset,
            final(self).len == length,
    {
        self.start = self.start + offset;
        self.len = length;
        proof {
            assert(self.bits() =~= old(self).bits().subrange(
                offset as int,
                offset + length as int,
            ));
        }
    }

    /// Copies the `length` flags beginning at `offset` into fresh, compact
    /// storage.
    pub fn owned_slice(&self, offset: usize, length: usize) -> (r: Validity)
        requires
            self.wf(),
            offset + length <= self.spec_len(),
        ensures
            r.wf(),
            r.is_compact(),
            r.bits() == self.bits().subrange(offset as int, offset + length as int),
    {
        let mut out: Vec<bool> = Vec::new();
        let mut k: usize = 0;
        while k < length
            invariant
                self.wf(),
                offset + length <= self.len,
                k <= length,
                out@.len() == k,
                forall|j: int| 0 <= j < k ==> #[trigger] out@[j] == self.bits()[offset + j],
            decreases length - k,
        {
            let b: bool = self.data[self.start + offset + k];
            proof {
                assert(self.bits()[offset + k] == self.data@[self.start + offset + k]);
            }
            out.push(b);
            k = k + 1;
        }
        let r = Validity { data: out, start: 0, len: length };
        proof {
            assert(r.bits() =~= self.bits().subrange(offset as int, offset + length as int));
        }
        r
    }
}

} // verus!
