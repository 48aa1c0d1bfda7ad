//! Offset buffers: monotonically non-decreasing index sequences that delimit
//! where each variable-length sub-element lives in a companion buffer.
//!
//! A buffer holding `count` logical elements keeps a window of `count + 1`
//! offsets over its backing storage; slicing narrows the window without
//! rewriting any value, so sliced buffers address their companion buffer with
//! the same absolute positions as their source.

use vstd::prelude::*;

use crate::GeoArrowError;

verus! {

/// The wide (64-bit) offset buffer used by the array family.
#[derive(Debug)]
pub struct OffsetBuffer {
    /// Backing storage; may extend beyond the logical window on either side.
    pub data: Vec<i64>,
    /// Index in `data` of the first logical offset.
    pub start: usize,
    /// Number of logical elements; the window spans `count + 1` offsets.
    pub count: usize,
}

/// The narrow (32-bit) offset buffer, used only at the index-width boundary.
#[derive(Debug)]
pub struct NarrowOffsetBuffer {
    /// Backing storage; may extend beyond the logical window on either side.
    pub data: Vec<i32>,
    /// Index in `data` of the first logical offset.
    pub start: usize,
    /// Number of logical elements; the window spans `count + 1` offsets.
    pub count: usize,
}

/// A sequence of 64-bit offsets as mathematical integers.
pub open spec fn to_ints_i64(v: Seq<i64>) -> Seq<int> {
    Seq::new(v.len(), |j: int| v[j] as int)
}

/// A sequence of 32-bit offsets as mathematical integers.
pub open spec fn to_ints_i32(v: Seq<i32>) -> Seq<int> {
    Seq::new(v.len(), |j: int| v[j] as int)
}

/// The total of a sequence of per-element lengths.
pub open spec fn sum_lengths(ls: Seq<usize>) -> int
    decreases ls.len(),
{
    if ls.len() == 0 {
        0
    } else {
        sum_lengths(ls.drop_last()) + ls.last()
    }
}

/// Extending a length sequence by one element grows the total by it, and a
/// prefix never outweighs the whole.
pub proof fn lemma_sum_lengths_prefix(ls: Seq<usize>, i: int)
    requires
        0 <= i <= ls.len(),
    ensures
        i < ls.len() ==> sum_lengths(ls.subrange(0, i + 1))
            == sum_lengths(ls.subrange(0, i)) + ls[i],
        sum_lengths(ls.subrange(0, i)) <= sum_lengths(ls),
        sum_lengths(ls.subrange(0, i)) >= 0,
    decreases ls.len() - i, ls.len(),
{
    lemma_sum_lengths_nonneg(ls.subrange(0, i));
    if i < ls.len() {
        let pre1 = ls.subrange(0, i + 1);
        assert(pre1.drop_last() =~= ls.subrange(0, i));
        assert(pre1.last() == ls[i]);
        lemma_sum_lengths_prefix(ls, i + 1);
    } else {
        assert(ls.subrange(0, i) =~= ls);
    }
}

/// A total of unsigned lengths is never negative.
pub proof fn lemma_sum_lengths_nonneg(ls: Seq<usize>)
    ensures
        sum_lengths(ls) >= 0,
    decreases ls.len(),
{
    if ls.len() > 0 {
        lemma_sum_lengths_nonneg(ls.drop_last());
    }
}

/// Slicing keeps the backing storage untouched and only moves the window:
/// `post` is `pre` with its window start advanced by `offset` and its
/// element count set to `length`.
pub open spec fn offsets_window_shifted(
    pre: OffsetBuffer,
    post: OffsetBuffer,
    offset: int,
    length: int,
) -> bool {
    &&& post.data@ == pre.data@
    &&& post.start == pre.start + offset
    &&& post.count == length
}

/// Backing storage is well-formed when every value is non-negative,
/// addressable (fits a `usize`), and the sequence never decreases.
pub open spec fn storage_wf(d: Seq<int>) -> bool {
    &&& d.len() >= 1
    &&& d.len() <= usize::MAX
    &&& forall|k: int| 0 <= k < d.len() ==> 0 <= #[trigger] d[k] <= usize::MAX
    &&& forall|i: int, j: int| 0 <= i <= j < d.len() ==> #[trigger] d[i] <= #[trigger] d[j]
}

impl OffsetBuffer {
    /// The backing storage as a sequence of mathematical integers.
    pub open spec fn storage(&self) -> Seq<int> {
        to_ints_i64(self.data@)
    }

    /// The logical window: `count + 1` offsets delimiting `count` elements.
    pub open spec fn offsets(&self) -> Seq<int> {
        Seq::new((self.count + 1) as nat, |i: int| self.data@[self.start + i] as int)
    }

    /// Well-formedness: the window lies inside well-formed storage.
    pub open spec fn wf(&self) -> bool {
        &&& self.start + self.count < self.data@.len()
        &&& storage_wf(self.storage())
    }

    /// The number of logical elements delimited by this buffer.
    pub open spec fn spec_len(&self) -> int {
        self.count as int
    }

    /// The terminal offset of the window.
    pub open spec fn last_offset(&self) -> int {
        self.offsets()[self.count as int]
    }

    /// The first offset of the window.
    pub open spec fn first_offset(&self) -> int {
        self.offsets()[0]
    }

    /// A compact buffer starts its window at the very beginning of its
    /// storage, uses all of it, and is rebased to a zero first offset.
    pub open spec fn is_compact(&self) -> bool {
        &&& self.start == 0
        &&& self.data@.len() == self.count + 1
        &&& self.first_offset() == 0
    }

    /// Every offset of the window is addressable and the window is monotone.
    pub proof fn lemma_window_bounds(&self)
        requires
            self.wf(),
        ensures
            forall|i: int| 0 <= i <= self.count ==>
                0 <= #[trigger] self.offsets()[i] <= usize::MAX,
            forall|i: int, j: int| 0 <= i <= j <= self.count ==>
                #[trigger] self.offsets()[i] <= #[trigger] self.offsets()[j],
    {
        assert forall|i: int| 0 <= i <= self.count implies
            0 <= #[trigger] self.offsets()[i] <= usize::MAX by {
            assert(self.storage()[self.start + i] == self.offsets()[i]);
        }
        assert forall|i: int, j: int| 0 <= i <= j <= self.count implies
            #[trigger] self.offsets()[i] <= #[trigger] self.offsets()[j] by {
            assert(self.storage()[self.start + i] == self.offsets()[i]);
            assert(self.storage()[self.start + j] == self.offsets()[j]);
            assert(self.storage()[self.start + i] <= self.storage()[self.start + j]);
        }
    }

    /// The number of logical elements delimited by this buffer.
    pub fn len(&self) -> (n: usize)
        ensures
            n == self.spec_len(),
    {
        self.count
    }

    /// The positions in the companion buffer where element `i` begins and
    /// ends, read in O(1) from two adjacent offsets.
    pub fn start_end(&self, i: usize) -> (r: (usize, usize))
        requires
            self.wf(),
            i < self.spec_len(),
        ensures
            r.0 == self.offsets()[i as int],
            r.1 == self.offsets()[i as int + 1],
            r.0 <= r.1 <= self.last_offset(),
    {
        proof {
            self.lemma_window_bounds();
            assert(self.offsets()[i as int] == self.data@[self.start + i] as int);
            assert(self.offsets()[i as int + 1] == self.data@[self.start + i + 1] as int);
            assert(self.offsets()[i as int] <= self.offsets()[i as int + 1]);
            assert(self.offsets()[i as int + 1] <= self.offsets()[self.count as int]);
        }
        let s: i64 = self.data[self.start + i];
        let e: i64 = self.data[self.start + i + 1];
        (s as usize, e as usize)
    }

    /// The offset at window position `i`, which may be the terminal one.
    pub fn offset_at(&self, i: usize) -> (r: usize)
        requires
            self.wf(),
            i <= self.spec_len(),
        ensures
            r == self.offsets()[i as int],
            r <= self.last_offset(),
    {
        proof {
            self.lemma_window_bounds();
            assert(self.offsets()[i as int] == self.data@[self.start + i] as int);
            assert(self.offsets()[i as int] <= self.offsets()[self.count as int]);
        }
        self.data[self.start + i] as usize
    }

    /// The terminal offset: where the final element ends.
    pub fn last(&self) -> (r: usize)
        requires
            self.wf(),
        ensures
            r == self.last_offset(),
    {
        proof {
            self.lemma_window_bounds();
            assert(self.offsets()[self.count as int] == self.data@[self.start + self.count] as int);
        }
        self.data[self.start + self.count] as usize
    }

    /// The first offset of the window.
    pub fn first(&self) -> (r: usize)
        requires
            self.wf(),
        ensures
            r == self.first_offset(),
    {
        proof {
            self.lemma_window_bounds();
            assert(self.offsets()[0] == self.data@[self.start as int] as int);
        }
        self.data[self.start] as usize
    }

    /// Whether this buffer's window covers less than its backing storage.
    pub fn is_sliced(&self) -> (r: bool)
        requires
            self.wf(),
        ensures
            r == !(self.start == 0 && self.data@.len() == self.count + 1),
    {
        !(self.start == 0 && self.data.len() == self.count + 1)
    }

    /// Validates raw storage as an offset buffer holding `v.len() - 1`
    /// elements: non-empty, non-negative, monotone, addressable.
    pub fn try_new(v: Vec<i64>) -> (r: Result<OffsetBuffer, GeoArrowError>)
        ensures
            match r {
                Ok(b) => {
                    &&& b.wf()
                    &&& b.start == 0
                    &&& b.count + 1 == v@.len()
                    &&& b.data@ == v@
                    &&& storage_wf(to_ints_i64(v@))
                },
                Err(e) => {
                    &&& e == GeoArrowError::OffsetsNotMonotone
                    &&& !storage_wf(to_ints_i64(v@))
                },
            },
    {
        let ghost d = to_ints_i64(v@);
        let n: usize = v.len();
        if n == 0 {
            return Err(GeoArrowError::OffsetsNotMonotone);
        }
        if v[0] < 0 {
            proof {
                assert(d[0] < 0);
            }
            return Err(GeoArrowError::OffsetsNotMonotone);
        }
        let mut k: usize = 0;
        while k < n - 1
            invariant
                n == v@.len(),
                n >= 1,
                k < n,
                0 <= v@[0],
                forall|a: int, b: int| 0 <= a <= b <= k ==>
                    #[trigger] v@[a] <= #[trigger] v@[b],
            decreases n - k,
        {
            if v[k] > v[k + 1] {
                proof {
                    let dd = to_ints_i64(v@);
                    assert(dd[k as int] == v@[k as int] as int);
                    assert(dd[k + 1] == v@[k + 1] as int);
                    assert(!(dd[k as int] <= dd[k + 1]));
                }
                return Err(GeoArrowError::OffsetsNotMonotone);
            }
            k = k + 1;
        }
        let last_v: i64 = v[n - 1];
        if last_v >= 0 && last_v as u64 > usize::MAX as u64 {
            proof {
                assert(d[d.len() - 1] > usize::MAX);
            }
            return Err(GeoArrowError::OffsetsNotMonotone);
        }
        let count: usize = n - 1;
        let b = OffsetBuffer { data: v, start: 0, count };
        proof {
            assert forall|i: int, j: int| 0 <= i <= j < d.len() implies
                #[trigger] d[i] <= #[trigger] d[j] by {
                assert(v@[i] <= v@[j]);
            }
            assert(d[0] == v@[0] as int);
            assert(d[d.len() - 1] == v@[n - 1] as int);
            assert(d[0] <= d[d.len() - 1]);
            assert(0 <= d[d.len() - 1] <= usize::MAX);
            assert forall|j: int| 0 <= j < d.len() implies 0 <= #[trigger] d[j] <= usize::MAX by {
                assert(d[0] <= d[j]);
                assert(d[j] <= d[d.len() - 1]);
            }
            assert(b.storage() =~= d);
        }
        Ok(b)
    }

    /// Accumulates per-element lengths into offsets starting at zero. Fails
    /// exactly when the total does not fit the index width or a `usize`.
    pub fn from_lengths(lengths: &Vec<usize>) -> (r: Result<OffsetBuffer, GeoArrowError>)
        ensures
            match r {
                Ok(b) => {
                    &&& b.wf()
                    &&& b.is_compact()
                    &&& b.spec_len() == lengths@.len()
                    &&& forall|i: int| 0 <= i < lengths@.len() ==>
                        #[trigger] b.offsets()[i + 1] == b.offsets()[i] + lengths@[i]
                    &&& b.last_offset() == sum_lengths(lengths@)
                    &&& sum_lengths(lengths@) <= i64::MAX
                    &&& sum_lengths(lengths@) <= usize::MAX
                },
                Err(e) => {
                    &&& e == GeoArrowError::LengthOverflow
                    &&& (sum_lengths(lengths@) > i64::MAX || sum_lengths(lengths@) > usize::MAX)
                },
            },
    {
        let mut data: Vec<i64> = Vec::new();
        data.push(0);
        let mut total: i64 = 0;
        let mut k: usize = 0;
        while k < lengths.len()
            invariant
                k <= lengths@.len(),
                data@.len() == k + 1,
                data@[0] == 0,
                data@[k as int] == total,
                0 <= total <= usize::MAX,
                total == sum_lengths(lengths@.subrange(0, k as int)),
                forall|j: int| 0 <= j < k ==>
                    #[trigger] data@[j + 1] == data@[j] + lengths@[j],
                forall|a: int, b: int| 0 <= a <= b <= k ==>
                    #[trigger] data@[a] <= #[trigger] data@[b],
                forall|j: int| 0 <= j <= k ==> 0 <= #[trigger] data@[j] <= usize::MAX,
            decreases lengths@.len() - k,
        {
            let l: usize = lengths[k];
            proof {
                lemma_sum_lengths_prefix(lengths@, k as int);
                lemma_sum_lengths_prefix(lengths@, k + 1);
            }
            if l as u64 > i64::MAX as u64 - total as u64 {
                return Err(GeoArrowError::LengthOverflow);
            }
            if total as u64 + l as u64 > usize::MAX as u64 {
                return Err(GeoArrowError::LengthOverflow);
            }
            total = total + l as i64;
            data.push(total);
            k = k + 1;
        }
        proof {
            assert(lengths@.subrange(0, lengths@.len() as int) =~= lengths@);
        }
        let stored: usize = data.len();
        let count: usize = stored - 1;
        let b = OffsetBuffer { data, start: 0, count };
        Ok(b)
    }

    /// Narrows the window to `length` elements beginning at `offset`, in
    /// place, sharing the backing storage and keeping every offset value.
    pub fn slice(&mut self, offset: usize, length: usize)
        requires
            old(self).wf(),
            offset + length <= old(self).spec_len(),
        ensures
            final(self).wf(),
            final(self).offsets() == old(self).offsets().subrange(
                offset as int,
                offset + length + 1,
            ),
            final(self).data@ == old(self).data@,
            final(self).start == old(self).start + offset,
            final(self).count == length,
    {
        self.start = self.start + offset;
        self.count = length;
        proof {
            assert(self.offsets() =~= old(self).offsets().subrange(
                offset as int,
                offset + length + 1,
            ));
        }
    }

    /// Copies the window for `length` elements beginning at `offset` into
    /// fresh, compact storage, rebased so the first offset is zero.
    pub fn owned_slice(&self, offset: usize, length: usize) -> (r: OffsetBuffer)
        requires
            self.wf(),
            offset + length <= self.spec_len(),
        ensures
            r.wf(),
            r.is_compact(),
            r.spec_len() == length,
            forall|i: int| 0 <= i <= length ==>
                #[trigger] r.offsets()[i] == self.offsets()[offset + i]
                    - self.offsets()[offset as int],
    {
        proof {
            self.lemma_window_bounds();
            assert(self.offsets()[offset as int] == self.data@[self.start + offset] as int);
            assert(0 <= self.offsets()[offset as int] <= usize::MAX);
        }
        let base: i64 = self.data[self.start + offset];
        let mut data: Vec<i64> = Vec::new();
        let mut k: usize = 0;
        while k <= length
            invariant
                self.wf(),
                offset + length <= self.count,
                k <= length + 1,
                base == self.offsets()[offset as int],
                0 <= base <= usize::MAX,
                data@.len() == k,
                forall|j: int| 0 <= j < k ==>
                    #[trigger] data@[j] == self.offsets()[offset + j] - base,
                forall|j: int| 0 <= j < k ==> 0 <= #[trigger] data@[j] <= usize::MAX,
            decreases length + 1 - k,
        {
            proof {
                self.lemma_window_bounds();
                assert(self.offsets()[offset + k] == self.data@[self.start + offset + k] as int);
                assert(self.offsets()[offset as int] <= self.offsets()[offset + k]);
                assert(self.offsets()[offset + k] <= usize::MAX);
            }
            let v: i64 = self.data[self.start + offset + k];
            data.push(v - base);
            k = k + 1;
        }
        let r = OffsetBuffer { data, start: 0, count: length };
        proof {
            self.lemma_window_bounds();
            assert forall|i: int, j: int| 0 <= i <= j < r.storage().len() implies
                #[trigger] r.storage()[i] <= #[trigger] r.storage()[j] by {
                assert(r.storage()[i] == data@[i] as int);
                assert(r.storage()[j] == data@[j] as int);
                assert(data@[i] == self.offsets()[offset + i] - base);
                assert(data@[j] == self.offsets()[offset + j] - base);
                assert(self.offsets()[offset + i] <= self.offsets()[offset + j]);
            }
            assert forall|j: int| 0 <= j < r.storage().len() implies
                0 <= #[trigger] r.storage()[j] <= usize::MAX by {
                assert(r.storage()[j] == data@[j] as int);
            }
            assert forall|i: int| 0 <= i <= length implies
                #[trigger] r.offsets()[i] == self.offsets()[offset + i]
                    - self.offsets()[offset as int] by {
                assert(r.offsets()[i] == r.data@[i] as int);
            }
            assert(r.offsets()[0] == 0);
        }
        r
    }

    /// Converts the logical window to the narrow width, failing with an
    /// overflow error exactly when some offset of the window exceeds it; the
    /// source is left untouched, and the result holds the window alone.
    pub fn narrow(&self) -> (r: Result<NarrowOffsetBuffer, GeoArrowError>)
        requires
            self.wf(),
        ensures
            match r {
                Ok(n) => {
                    &&& n.wf()
                    &&& self.last_offset() <= i32::MAX
                    &&& n.start == 0
                    &&& n.count == self.count
                    &&& n.data@.len() == self.count + 1
                    &&& n.offsets() == self.offsets()
                },
                Err(e) => {
                    &&& e == GeoArrowError::NarrowOverflow
                    &&& self.last_offset() > i32::MAX
                },
            },
    {
        proof {
            self.lemma_window_bounds();
            assert(self.offsets()[self.count as int]
                == self.data@[self.start + self.count] as int);
        }
        let last: i64 = self.data[self.start + self.count];
        if last > i32::MAX as i64 {
            return Err(GeoArrowError::NarrowOverflow);
        }
        let mut data: Vec<i32> = Vec::new();
        let mut k: usize = 0;
        while k <= self.count
            invariant
                self.wf(),
                self.last_offset() <= i32::MAX,
                k <= self.count + 1,
                data@.len() == k,
                forall|j: int| 0 <= j < k ==>
                    #[trigger] data@[j] as int == self.offsets()[j],
            decreases self.count + 1 - k,
        {
            proof {
                self.lemma_window_bounds();
                assert(self.offsets()[k as int] == self.data@[self.start + k] as int);
                assert(self.offsets()[k as int] <= self.offsets()[self.count as int]);
                assert(0 <= self.offsets()[k as int]);
            }
            let v: i64 = self.data[self.start + k];
            data.push(v as i32);
            k = k + 1;
        }
        let n = NarrowOffsetBuffer { data, start: 0, count: self.count };
        proof {
            self.lemma_window_bounds();
            assert forall|i: int, j: int| 0 <= i <= j < n.storage().len() implies
                #[trigger] n.storage()[i] <= #[trigger] n.storage()[j] by {
                assert(n.storage()[i] == data@[i] as int);
                assert(n.storage()[j] == data@[j] as int);
                assert(self.offsets()[i] <= self.offsets()[j]);
            }
            assert forall|j: int| 0 <= j < n.storage().len() implies
                0 <= #[trigger] n.storage()[j] <= usize::MAX by {
                assert(n.storage()[j] == data@[j] as int);
                assert(data@[j] as int == self.offsets()[j]);
            }
            assert(n.offsets() =~= self.offsets());
        }
        Ok(n)
    }
}

impl NarrowOffsetBuffer {
    /// The backing storage as a sequence of mathematical integers.
    pub open spec fn storage(&self) -> Seq<int> {
        to_ints_i32(self.data@)
    }

    /// The logical window: `count + 1` offsets delimiting `count` elements.
    pub open spec fn offsets(&self) -> Seq<int> {
        Seq::new((self.count + 1) as nat, |i: int| self.data@[self.start + i] as int)
    }

    /// Well-formedness: the window lies inside well-formed storage.
    pub open spec fn wf(&self) -> bool {
        &&& self.start + self.count < self.data@.len()
        &&& storage_wf(self.storage())
    }

    /// Validates raw storage as a narrow offset buffer.
    pub fn try_new(v: Vec<i32>) -> (r: Result<NarrowOffsetBuffer, GeoArrowError>)
        ensures
            match r {
                Ok(b) => {
                    &&& b.wf()
                    &&& b.start == 0
                    &&& b.count + 1 == v@.len()
                    &&& b.data@ == v@
                },
                Err(e) => {
                    &&& e == GeoArrowError::OffsetsNotMonotone
                    &&& !storage_wf(to_ints_i32(v@))
                },
            },
    {
        let ghost d = to_ints_i32(v@);
        let n: usize = v.len();
        if n == 0 {
            return Err(GeoArrowError::OffsetsNotMonotone);
        }
        if v[0] < 0 {
            proof {
                assert(d[0] < 0);
            }
            return Err(GeoArrowError::OffsetsNotMonotone);
        }
        let mut k: usize = 0;
        while k < n - 1
            invariant
                n == v@.len(),
                n >= 1,
                k < n,
                0 <= v@[0],
                forall|a: int, b: int| 0 <= a <= b <= k ==>
                    #[trigger] v@[a] <= #[trigger] v@[b],
            decreases n - k,
        {
            if v[k] > v[k + 1] {
                proof {
                    let dd = to_ints_i32(v@);
                    assert(dd[k as int] == v@[k as int] as int);
                    assert(dd[k + 1] == v@[k + 1] as int);
                    assert(!(dd[k as int] <= dd[k + 1]));
                }
                return Err(GeoArrowError::OffsetsNotMonotone);
            }
            k = k + 1;
        }
        let count: usize = n - 1;
        let b = NarrowOffsetBuffer { data: v, start: 0, count };
        proof {
            assert forall|i: int, j: int| 0 <= i <= j < d.len() implies
                #[trigger] d[i] <= #[trigger] d[j] by {
                assert(v@[i] <= v@[j]);
            }
            assert forall|j: int| 0 <= j < d.len() implies 0 <= #[trigger] d[j] <= usize::MAX by {
                assert(d[0] <= d[j]);
            }
            assert(b.storage() =~= d);
        }
        Ok(b)
    }

    /// Converts every offset to the wide width; widening is lossless and
    /// always succeeds.
    pub fn widen(&self) -> (r: OffsetBuffer)
        requires
            self.wf(),
        ensures
            r.wf(),
            r.start == self.start,
            r.count == self.count,
            r.storage() == self.storage(),
    {
        let mut data: Vec<i64> = Vec::new();
        let mut k: usize = 0;
        while k < self.data.len()
            invariant
                self.wf(),
                k <= self.data@.len(),
                data@.len() == k,
                forall|j: int| 0 <= j < k ==>
                    #[trigger] data@[j] as int == self.data@[j] as int,
            decreases self.data@.len() - k,
        {
            let v: i32 = self.data[k];
            data.push(v as i64);
            k = k + 1;
        }
        let r = OffsetBuffer { data, start: self.start, count: self.count };
        proof {
            assert(r.storage() =~= self.storage());
        }
        r
    }
}

/// Widening an offset buffer and narrowing the result restores it exactly:
/// the logical offsets come back unchanged, and when the source holds just
/// its window, so does every field. Index-width conversion is lossless in
/// that direction.
pub proof fn lemma_widen_narrow_roundtrip(
    n: NarrowOffsetBuffer,
    w: OffsetBuffer,
    b: NarrowOffsetBuffer,
)
    requires
        n.wf(),
        w.start == n.start,
        w.count == n.count,
        w.storage() == n.storage(),
        b.start == 0,
        b.count == w.count,
        b.data@.len() == w.count + 1,
        b.offsets() == w.offsets(),
    ensures
        b.offsets() == n.offsets(),
        b.count == n.count,
        n.start == 0 && n.data@.len() == n.count + 1 ==> b.data@ == n.data@,
{
    assert forall|i: int| 0 <= i <= n.count implies w.offsets()[i] == n.offsets()[i] by {
        assert(w.storage()[w.start + i] == w.data@[w.start + i] as int);
        assert(n.storage()[n.start + i] == n.data@[n.start + i] as int);
        assert(w.offsets()[i] == w.data@[w.start + i] as int);
        assert(n.offsets()[i] == n.data@[n.start + i] as int);
    }
    assert(w.offsets() =~= n.offsets());
    if n.start == 0 && n.data@.len() == n.count + 1 {
        assert forall|j: int| 0 <= j < b.data@.len() implies b.data@[j] == n.data@[j] by {
            assert(b.offsets()[j] == b.data@[j] as int);
            assert(n.offsets()[j] == n.data@[j] as int);
        }
        assert(b.data@ =~= n.data@);
    }
}

/// Narrowing an offset buffer and widening the result restores it exactly,
/// provided narrowing succeeded (no window offset exceeded the narrow
/// range): the logical offsets come back unchanged, and when the source
/// holds just its window, so does every field.
pub proof fn lemma_narrow_widen_roundtrip(
    w: OffsetBuffer,
    n: NarrowOffsetBuffer,
    b: OffsetBuffer,
)
    requires
        w.wf(),
        n.start == 0,
        n.count == w.count,
        n.data@.len() == w.count + 1,
        n.offsets() == w.offsets(),
        b.start == n.start,
        b.count == n.count,
        b.storage() == n.storage(),
    ensures
        b.offsets() == w.offsets(),
        b.count == w.count,
        w.start == 0 && w.data@.len() == w.count + 1 ==> b.data@ == w.data@,
{
    assert(b.storage().len() == b.data@.len());
    assert(n.storage().len() == n.data@.len());
    assert(b.data@.len() == n.data@.len());
    assert forall|i: int| 0 <= i <= b.count implies b.offsets()[i] == n.offsets()[i] by {
        assert(b.storage()[b.start + i] == b.data@[b.start + i] as int);
        assert(n.storage()[n.start + i] == n.data@[n.start + i] as int);
        assert(b.offsets()[i] == b.data@[b.start + i] as int);
        assert(n.offsets()[i] == n.data@[n.start + i] as int);
    }
    assert(b.offsets() =~= n.offsets());
    if w.start == 0 && w.data@.len() == w.count + 1 {
        assert forall|j: int| 0 <= j < b.data@.len() implies b.data@[j] == w.data@[j] by {
            assert(b.offsets()[j] == b.data@[j] as int);
            assert(w.offsets()[j] == w.data@[j] as int);
        }
        assert(b.data@ =~= w.data@);
    }
}

} // verus!
