//! Coordinate buffers: flat storage of planar coordinates in one of two
//! physical layouts, interleaved x,y pairs in a single buffer or two
//! index-aligned per-axis buffers.
//!
//! Coordinate values are carried as opaque 64-bit patterns; this module moves
//! them and never interprets them, so every operation here is required to be
//! value-preserving. Both layouts expose the same positional view, and no
//! consumer may assume a layout.

use vstd::prelude::*;

use crate::GeoArrowError;

verus! {

/// The physical layout of a coordinate buffer.
#[derive(Clone, Copy, Debug, PartialEq, Eq, Structural)]
pub enum CoordType {
    /// Adjacent x,y pairs in one buffer.
    Interleaved,
    /// Two index-aligned buffers, one per axis.
    Separated,
}

/// Flat storage of planar coordinates with a construction-time layout.
#[derive(Debug)]
pub enum CoordBuffer {
    /// Adjacent x,y pairs in one buffer; coordinate `i` of the window lives
    /// at positions `2*(start+i)` and `2*(start+i)+1`.
    Interleaved { data: Vec<u64>, start: usize, len: usize },
    /// Two index-aligned buffers; coordinate `i` of the window lives at
    /// position `start+i` of each.
    Separated { x: Vec<u64>, y: Vec<u64>, start: usize, len: usize },
}

impl CoordBuffer {
    /// The logical contents: a sequence of (x, y) coordinate patterns,
    /// identical for both layouts.
    pub open spec fn coords(&self) -> Seq<(u64, u64)> {
        match self {
            CoordBuffer::Interleaved { data, start, len } => Seq::new(
                *len as nat,
                |i: int| (data@[2 * (*start + i)], data@[2 * (*start + i) + 1]),
            ),
            CoordBuffer::Separated { x, y, start, len } => Seq::new(
                *len as nat,
                |i: int| (x@[*start + i], y@[*start + i]),
            ),
        }
    }

    /// Well-formedness: the window lies inside the backing storage.
    pub open spec fn wf(&self) -> bool {
        match self {
            CoordBuffer::Interleaved { data, start, len } => {
                &&& 2 * (*start + *len) <= data@.len()
                &&& data@.len() <= usize::MAX
            },
            CoordBuffer::Separated { x, y, start, len } => {
                &&& *start + *len <= x@.len()
                &&& *start + *len <= y@.len()
                &&& x@.len() <= usize::MAX
                &&& y@.len() <= usize::MAX
            },
        }
    }

    /// The construction-time layout of this buffer.
    pub open spec fn spec_coord_type(&self) -> CoordType {
        match self {
            CoordBuffer::Interleaved { .. } => CoordType::Interleaved,
            CoordBuffer::Separated { .. } => CoordType::Separated,
        }
    }

    /// The number of logical coordinates.
    pub open spec fn spec_len(&self) -> int {
        self.coords().len() as int
    }

    /// Slicing keeps the backing storage untouched and only moves the
    /// window: `post` is `pre` with its start advanced by `offset` and its
    /// length set to `length`, in whichever layout `pre` has.
    pub open spec fn window_shifted(
        pre: CoordBuffer,
        post: CoordBuffer,
        offset: int,
        length: int,
    ) -> bool {
        match (pre, post) {
            (
                CoordBuffer::Interleaved { data: d1, start: s1, len: _ },
                CoordBuffer::Interleaved { data: d2, start: s2, len: l2 },
            ) => d2@ == d1@ && s2 == s1 + offset && l2 == length,
            (
                CoordBuffer::Separated { x: x1, y: y1, start: s1, len: _ },
                CoordBuffer::Separated { x: x2, y: y2, start: s2, len: l2 },
            ) => x2@ == x1@ && y2@ == y1@ && s2 == s1 + offset && l2 == length,
            _ => false,
        }
    }

    /// A compact buffer has no hidden storage around its window.
    pub open spec fn is_compact(&self) -> bool {
        match self {
            CoordBuffer::Interleaved { data, start, len } => {
                *start == 0 && data@.len() == 2 * *len
            },
            CoordBuffer::Separated { x, y, start, len } => {
                *start == 0 && x@.len() == *len && y@.len() == *len
            },
        }
    }

    /// The number of logical coordinates.
    pub fn len(&self) -> (n: usize)
        requires
            self.wf(),
        ensures
            n == self.spec_len(),
    {
        match self {
            CoordBuffer::Interleaved { len, .. } => *len,
            CoordBuffer::Separated { len, .. } => *len,
        }
    }

    /// The construction-time layout of this buffer.
    pub fn coord_type(&self) -> (t: CoordType)
        ensures
            t == self.spec_coord_type(),
    {
        match self {
            CoordBuffer::Interleaved { .. } => CoordType::Interleaved,
            CoordBuffer::Separated { .. } => CoordType::Separated,
        }
    }

    /// Positional access: the coordinate at index `i`, independent of layout.
    /// Out-of-range access is a caller error, not a recoverable one.
    pub fn get(&self, i: usize) -> (c: (u64, u64))
        requires
            self.wf(),
            i < self.spec_len(),
        ensures
            c == self.coords()[i as int],
    {
        match self {
            CoordBuffer::Interleaved { data, start, len } => {
                let cx: u64 = data[2 * (*start + i)];
                let cy: u64 = data[2 * (*start + i) + 1];
                (cx, cy)
            },
            CoordBuffer::Separated { x, y, start, len } => {
                let cx: u64 = x[*start + i];
                let cy: u64 = y[*start + i];
                (cx, cy)
            },
        }
    }

    /// Narrows the window to `length` coordinates beginning at `offset`, in
    /// place, sharing the backing storage.
    pub fn slice(&mut self, offset: usize, length: usize)
        requires
            old(self).wf(),
            offset + length <= old(self).spec_len(),
        ensures
            final(self).wf(),
            final(self).coords() == old(self).coords().subrange(
                offset as int,
                offset + length as int,
            ),
            final(self).spec_coord_type() == old(self).spec_coord_type(),
            CoordBuffer::window_shifted(*old(self), *final(self), offset as int, length as int),
    {
        match self {
            CoordBuffer::Interleaved { data, start, len } => {
                *start = *start + offset;
                *len = length;
            },
            CoordBuffer::Separated { x, y, start, len } => {
                *start = *start + offset;
                *len = length;
            },
        }
        proof {
            assert(self.coords() =~= old(self).coords().subrange(
                offset as int,
                offset + length as int,
            ));
        }
    }

    /// Copies the `length` coordinates beginning at `offset` into fresh,
    /// compact storage of the same layout.
    pub fn owned_slice(&self, offset: usize, length: usize) -> (r: CoordBuffer)
        requires
            self.wf(),
            offset + length <= self.spec_len(),
        ensures
            r.wf(),
            r.is_compact(),
            r.spec_coord_type() == self.spec_coord_type(),
            r.coords() == self.coords().subrange(offset as int, offset + length as int),
    {
        match self {
            CoordBuffer::Interleaved { data, start, len } => {
                let mut out: Vec<u64> = Vec::new();
                let mut k: usize = 0;
                while k < length
                    invariant
                        self.wf(),
                        self == (CoordBuffer::Interleaved { data: *data, start: *start, len: *len }),
                        offset + length <= *len,
                        k <= length,
                        out@.len() == 2 * k,
                        forall|j: int| 0 <= j < k ==> {
                            &&& #[trigger] out@[2 * j] == self.coords()[offset + j].0
                            &&& out@[2 * j + 1] == self.coords()[offset + j].1
                        },
                    decreases length - k,
                {
                    let cx: u64 = data[2 * (*start + offset + k)];
                    let cy: u64 = data[2 * (*start + offset + k) + 1];
                    let ghost pre = out@;
                    out.push(cx);
                    out.push(cy);
                    proof {
                        assert(out@ == pre.push(cx).push(cy));
                        assert(out@[2 * (k as int)] == cx);
                        assert(out@[2 * (k as int) + 1] == cy);
                        assert(self.coords()[offset + k] == (
                            data@[2 * (*start + (offset + k))],
                            data@[2 * (*start + (offset + k)) + 1],
                        ));
                        assert forall|j: int| 0 <= j < k + 1 implies {
                            &&& #[trigger] out@[2 * j] == self.coords()[offset + j].0
                            &&& out@[2 * j + 1] == self.coords()[offset + j].1
                        } by {
                            if j < k {
                                assert(out@[2 * j] == pre[2 * j]);
                                assert(out@[2 * j + 1] == pre[2 * j + 1]);
                            }
                        }
                    }
                    k = k + 1;
                }
                let n: usize = out.len();
                let r = CoordBuffer::Interleaved { data: out, start: 0, len: length };
                proof {
                    assert(r.coords() =~= self.coords().subrange(
                        offset as int,
                        offset + length as int,
                    ));
                }
                r
            },
            CoordBuffer::Separated { x, y, start, len } => {
                let mut ox: Vec<u64> = Vec::new();
                let mut oy: Vec<u64> = Vec::new();
                let mut k: usize = 0;
                while k < length
                    invariant
                        self.wf(),
                        self == (CoordBuffer::Separated {
                            x: *x,
                            y: *y,
                            start: *start,
                            len: *len,
                        }),
                        offset + length <= *len,
                        k <= length,
                        ox@.len() == k,
                        oy@.len() == k,
                        forall|j: int| 0 <= j < k ==> {
                            &&& #[trigger] ox@[j] == self.coords()[offset + j].0
                            &&& oy@[j] == self.coords()[offset + j].1
                        },
                    decreases length - k,
                {
                    let cx: u64 = x[*start + offset + k];
                    let cy: u64 = y[*start + offset + k];
                    ox.push(cx);
                    oy.push(cy);
                    k = k + 1;
                }
                let n: usize = ox.len();
                let r = CoordBuffer::Separated { x: ox, y: oy, start: 0, len: length };
                proof {
                    assert(r.coords() =~= self.coords().subrange(
                        offset as int,
                        offset + length as int,
                    ));
                }
                r
            },
        }
    }

    /// Builds a compact buffer of the requested layout from a sequence of
    /// coordinate pairs.
    pub fn from_pairs(pairs: &Vec<(u64, u64)>, target: CoordType) -> (r: CoordBuffer)
        ensures
            r.wf(),
            r.is_compact(),
            r.spec_coord_type() == target,
            r.coords() == pairs@,
    {
        match target {
            CoordType::Interleaved => {
                let mut out: Vec<u64> = Vec::new();
                let mut k: usize = 0;
                while k < pairs.len()
                    invariant
                        k <= pairs@.len(),
                        out@.len() == 2 * k,
                        forall|j: int| 0 <= j < k ==> {
                            &&& #[trigger] out@[2 * j] == pairs@[j].0
                            &&& out@[2 * j + 1] == pairs@[j].1
                        },
                    decreases pairs@.len() - k,
                {
                    let c: (u64, u64) = pairs[k];
                    let ghost pre = out@;
                    out.push(c.0);
                    out.push(c.1);
                    proof {
                        assert(out@ == pre.push(c.0).push(c.1));
                        assert(out@[2 * (k as int)] == c.0);
                        assert(out@[2 * (k as int) + 1] == c.1);
                        assert forall|j: int| 0 <= j < k + 1 implies {
                            &&& #[trigger] out@[2 * j] == pairs@[j].0
                            &&& out@[2 * j + 1] == pairs@[j].1
                        } by {
                            if j < k {
                                assert(out@[2 * j] == pre[2 * j]);
                                assert(out@[2 * j + 1] == pre[2 * j + 1]);
                            }
                        }
                    }
                    k = k + 1;
                }
                let n: usize = out.len();
                let m: usize = pairs.len();
                let r = CoordBuffer::Interleaved { data: out, start: 0, len: m };
                proof {
                    assert(r.coords() =~= pairs@);
                }
                r
            },
            CoordType::Separated => {
                let mut ox: Vec<u64> = Vec::new();
                let mut oy: Vec<u64> = Vec::new();
                let mut k: usize = 0;
                while k < pairs.len()
                    invariant
                        k <= pairs@.len(),
                        ox@.len() == k,
                        oy@.len() == k,
                        forall|j: int| 0 <= j < k ==> {
                            &&& #[trigger] ox@[j] == pairs@[j].0
                            &&& oy@[j] == pairs@[j].1
                        },
                    decreases pairs@.len() - k,
                {
                    let c: (u64, u64) = pairs[k];
                    ox.push(c.0);
                    oy.push(c.1);
                    k = k + 1;
                }
                let n: usize = ox.len();
                let m: usize = pairs.len();
                let r = CoordBuffer::Separated { x: ox, y: oy, start: 0, len: m };
                proof {
                    assert(r.coords() =~= pairs@);
                }
                r
            },
        }
    }

    /// Repacks the buffer into the requested layout; the only operation
    /// permitted to reshuffle memory, and it must preserve every value.
    pub fn into_coord_type(self, target: CoordType) -> (r: CoordBuffer)
        requires
            self.wf(),
        ensures
            r.wf(),
            r.is_compact(),
            r.spec_coord_type() == target,
            r.coords() == self.coords(),
    {
        let n: usize = self.len();
        let mut pairs: Vec<(u64, u64)> = Vec::new();
        let mut k: usize = 0;
        while k < n
            invariant
                self.wf(),
                n == self.spec_len(),
                k <= n,
                pairs@.len() == k,
                forall|j: int| 0 <= j < k ==> #[trigger] pairs@[j] == self.coords()[j],
            decreases n - k,
        {
            let c: (u64, u64) = self.get(k);
            pairs.push(c);
            k = k + 1;
        }
        let r = CoordBuffer::from_pairs(&pairs, target);
        proof {
            assert(pairs@ =~= self.coords());
        }
        r
    }

    /// Validates an interleaved raw buffer: its length must be even.
    pub fn try_from_interleaved(data: Vec<u64>) -> (r: Result<CoordBuffer, GeoArrowError>)
        ensures
            match r {
                Ok(b) => {
                    &&& b.wf()
                    &&& b.is_compact()
                    &&& b.spec_coord_type() == CoordType::Interleaved
                    &&& 2 * b.spec_len() == data@.len()
                    &&& forall|j: int| 0 <= j < b.spec_len() ==>
                        #[trigger] b.coords()[j] == (data@[2 * j], data@[2 * j + 1])
                },
                Err(e) => {
                    &&& e == GeoArrowError::CoordLengthMismatch
                    &&& data@.len() % 2 != 0
                },
            },
    {
        let n: usize = data.len();
        if n % 2 != 0 {
            return Err(GeoArrowError::CoordLengthMismatch);
        }
        let half: usize = n / 2;
        Ok(CoordBuffer::Interleaved { data, start: 0, len: half })
    }

    /// Validates a separated raw buffer pair: the axes must be index-aligned.
    pub fn try_from_separated(x: Vec<u64>, y: Vec<u64>) -> (r: Result<
        CoordBuffer,
        GeoArrowError,
    >)
        ensures
            match r {
                Ok(b) => {
                    &&& b.wf()
                    &&& b.is_compact()
                    &&& b.spec_coord_type() == CoordType::Separated
                    &&& b.spec_len() == x@.len()
                    &&& forall|j: int| 0 <= j < b.spec_len() ==>
                        #[trigger] b.coords()[j] == (x@[j], y@[j])
                },
                Err(e) => {
                    &&& e == GeoArrowError::CoordLengthMismatch
                    &&& x@.len() != y@.len()
                },
            },
    {
        let nx: usize = x.len();
        let ny: usize = y.len();
        if nx != ny {
            return Err(GeoArrowError::CoordLengthMismatch);
        }
        Ok(CoordBuffer::Separated { x, y, start: 0, len: nx })
    }
}

} // verus!
