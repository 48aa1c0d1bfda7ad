//! Dimensionality of geometries, per element: some classes can hold zero
//! coordinates, and such geometries are called empty. Emptiness is asked of
//! each valid slot; null slots stay null, keeping emptiness and nullity
//! independently queryable.

use vstd::prelude::*;

use crate::linestring::LineStringArray;
use crate::multilinestring::MultiLineStringArray;
use crate::multipoint::MultiPointArray;
use crate::multipolygon::MultiPolygonArray;
use crate::point::PointArray;
use crate::polygon::PolygonArray;

verus! {

/// Operate on the dimensionality of an array's geometries.
pub trait HasDimensions {
    /// When the emptiness question may be asked of this value.
    spec fn dims_wf(&self) -> bool;

    /// The answer owed, slot by slot: nothing for a null slot, otherwise
    /// whether that geometry has zero coordinates.
    spec fn emptiness(&self) -> Seq<Option<bool>>;

    /// One emptiness flag per slot, in index order; null slots yield
    /// nothing.
    fn is_empty(&self) -> (r: Vec<Option<bool>>)
        requires
            self.dims_wf(),
        ensures
            r@ == self.emptiness(),
    ;
}

impl HasDimensions for PointArray {
    open spec fn dims_wf(&self) -> bool {
        self.wf()
    }

    /// A point always has a position, so no valid slot is ever empty.
    open spec fn emptiness(&self) -> Seq<Option<bool>> {
        Seq::new(
            self.spec_len() as nat,
            |i: int| match self.view()[i] {
                Option::None => Option::None,
                Option::Some(_) => Option::Some(false),
            },
        )
    }

    fn is_empty(&self) -> (r: Vec<Option<bool>>) {
        let n: usize = self.len();
        let mut out: Vec<Option<bool>> = Vec::new();
        let mut k: usize = 0;
        while k < n
            invariant
                self.wf(),
                n == self.spec_len(),
                k <= n,
                out@.len() == k,
                forall|i: int| 0 <= i < k ==> #[trigger] out@[i] == self.emptiness()[i],
            decreases n - k,
        {
            if self.is_null(k) {
                out.push(Option::None);
            } else {
                out.push(Option::Some(false));
            }
            k = k + 1;
        }
        proof {
            assert(out@ =~= self.emptiness());
        }
        out
    }
}

impl HasDimensions for MultiPointArray {
    open spec fn dims_wf(&self) -> bool {
        self.wf()
    }

    open spec fn emptiness(&self) -> Seq<Option<bool>> {
        Seq::new(
            self.spec_len() as nat,
            |i: int| match self.view()[i] {
                Option::None => Option::None,
                Option::Some(s) => Option::Some(s.len() == 0),
            },
        )
    }

    fn is_empty(&self) -> (r: Vec<Option<bool>>) {
        let n: usize = self.len();
        let mut out: Vec<Option<bool>> = Vec::new();
        let mut k: usize = 0;
        while k < n
            invariant
                self.wf(),
                n == self.spec_len(),
                k <= n,
                out@.len() == k,
                forall|i: int| 0 <= i < k ==> #[trigger] out@[i] == self.emptiness()[i],
            decreases n - k,
        {
            if self.is_null(k) {
                out.push(Option::None);
            } else {
                let m = self.value(k);
                out.push(Option::Some(m.num_points() == 0));
            }
            k = k + 1;
        }
        proof {
            assert(out@ =~= self.emptiness());
        }
        out
    }
}

impl HasDimensions for LineStringArray {
    open spec fn dims_wf(&self) -> bool {
        self.wf()
    }

    open spec fn emptiness(&self) -> Seq<Option<bool>> {
        Seq::new(
            self.spec_len() as nat,
            |i: int| match self.view()[i] {
                Option::None => Option::None,
                Option::Some(s) => Option::Some(s.len() == 0),
            },
        )
    }

    fn is_empty(&self) -> (r: Vec<Option<bool>>) {
        let n: usize = self.len();
        let mut out: Vec<Option<bool>> = Vec::new();
        let mut k: usize = 0;
        while k < n
            invariant
                self.wf(),
                n == self.spec_len(),
                k <= n,
                out@.len() == k,
                forall|i: int| 0 <= i < k ==> #[trigger] out@[i] == self.emptiness()[i],
            decreases n - k,
        {
            if self.is_null(k) {
                out.push(Option::None);
            } else {
                let l = self.value(k);
                out.push(Option::Some(l.num_coords() == 0));
            }
            k = k + 1;
        }
        proof {
            assert(out@ =~= self.emptiness());
        }
        out
    }
}

impl HasDimensions for PolygonArray {
    open spec fn dims_wf(&self) -> bool {
        self.wf()
    }

    /// A polygon is empty when it has no rings at all.
    open spec fn emptiness(&self) -> Seq<Option<bool>> {
        Seq::new(
            self.spec_len() as nat,
            |i: int| match self.view()[i] {
                Option::None => Option::None,
                Option::Some(rs) => Option::Some(rs.len() == 0),
            },
        )
    }

    fn is_empty(&self) -> (r: Vec<Option<bool>>) {
        let n: usize = self.len();
        let mut out: Vec<Option<bool>> = Vec::new();
        let mut k: usize = 0;
        while k < n
            invariant
                self.wf(),
                n == self.spec_len(),
                k <= n,
                out@.len() == k,
                forall|i: int| 0 <= i < k ==> #[trigger] out@[i] == self.emptiness()[i],
            decreases n - k,
        {
            if self.is_null(k) {
                out.push(Option::None);
            } else {
                let (s, e) = self.geom_offsets.start_end(k);
                out.push(Option::Some(e - s == 0));
            }
            k = k + 1;
        }
        proof {
            assert(out@ =~= self.emptiness());
        }
        out
    }
}


impl HasDimensions for MultiLineStringArray {
    open spec fn dims_wf(&self) -> bool {
        self.wf()
    }

    open spec fn emptiness(&self) -> Seq<Option<bool>> {
        Seq::new(
            self.spec_len() as nat,
            |i: int| match self.view()[i] {
                Option::None => Option::None,
                Option::Some(ls) => Option::Some(ls.len() == 0),
            },
        )
    }

    fn is_empty(&self) -> (r: Vec<Option<bool>>) {
        let n: usize = self.len();
        let mut out: Vec<Option<bool>> = Vec::new();
        let mut k: usize = 0;
        while k < n
            invariant
                self.wf(),
                n == self.spec_len(),
                k <= n,
                out@.len() == k,
                forall|i: int| 0 <= i < k ==> #[trigger] out@[i] == self.emptiness()[i],
            decreases n - k,
        {
            if self.is_null(k) {
                out.push(Option::None);
            } else {
                let (s, e) = self.geom_offsets.start_end(k);
                out.push(Option::Some(e - s == 0));
            }
            k = k + 1;
        }
        proof {
            assert(out@ =~= self.emptiness());
        }
        out
    }
}

impl HasDimensions for MultiPolygonArray {
    open spec fn dims_wf(&self) -> bool {
        self.wf()
    }

    open spec fn emptiness(&self) -> Seq<Option<bool>> {
        Seq::new(
            self.spec_len() as nat,
            |i: int| match self.view()[i] {
                Option::None => Option::None,
                Option::Some(ps) => Option::Some(ps.len() == 0),
            },
        )
    }

    fn is_empty(&self) -> (r: Vec<Option<bool>>) {
        let n: usize = self.len();
        let mut out: Vec<Option<bool>> = Vec::new();
        let mut k: usize = 0;
        while k < n
            invariant
                self.wf(),
                n == self.spec_len(),
                k <= n,
                out@.len() == k,
                forall|i: int| 0 <= i < k ==> #[trigger] out@[i] == self.emptiness()[i],
            decreases n - k,
        {
            if self.is_null(k) {
                out.push(Option::None);
            } else {
                let (s, e) = self.geom_offsets.start_end(k);
                out.push(Option::Some(e - s == 0));
            }
            k = k + 1;
        }
        proof {
            assert(out@ =~= self.emptiness());
        }
        out
    }
}
} // verus!
