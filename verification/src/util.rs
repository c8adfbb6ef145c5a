//! General-purpose containers: a sparse integer-keyed map and an
//! N-dimensional grid with verified index arithmetic.
use vstd::prelude::*;

verus! {

/// A mapping from a small dense integer key to an optional value, backed by a
/// growable vector. Reading a key that was never set yields `None` instead of
/// failing; the backing vector grows to hold the largest key inserted.
#[derive(Clone, Default)]
pub struct VecMap<T> {
    items: Vec<Option<T>>,
}

impl<T> VecMap<T> {
    /// What the map associates with key `k`: the stored value inside the
    /// backing vector's span, absent outside it.
    pub closed spec fn spec_get(self, k: int) -> Option<T> {
        if 0 <= k < self.items@.len() {
            self.items@[k]
        } else {
            None
        }
    }

    pub fn new() -> (r: Self)
        ensures
            forall|k: int| r.spec_get(k) is None,
    {
        VecMap { items: Vec::new() }
    }

    pub fn insert(&mut self, index: usize, value: Option<T>)
        requires
            index < usize::MAX,
        ensures
            final(self).spec_get(index as int) == value,
            forall|k: int| k != index ==> final(self).spec_get(k) == old(self).spec_get(k),
    {
        while self.items.len() <= index
            invariant
                index < usize::MAX,
                forall|k: int| self.spec_get(k) == old(self).spec_get(k),
            decreases index + 1 - self.items.len(),
        {
            self.items.push(None);
        }
        let slot = &mut self.items[index];
        *slot = value;
    }
}

impl<T: Copy> VecMap<T> {
    pub fn get(&self, index: usize) -> (r: Option<T>)
        ensures
            r == self.spec_get(index as int),
    {
        if index < self.items.len() {
            self.items[index]
        } else {
            None
        }
    }
}

/// A type usable as a multidimensional index into a `Grid`.
///
/// A value of the type plays two roles: as a shape (a tuple of axis extents)
/// and as a coordinate within a shape. A shape knows its total size (the
/// product of its extents), a bounds test, and a coordinate/offset mapping
/// that is a bijection between in-bounds coordinates and `[0, size)`; the
/// three lemmas are proof obligations on every implementation.
pub trait GridIndex: Sized {
    /// Product of all axis extents.
    spec fn spec_size(self) -> int;

    /// True iff every axis component of `index` is strictly below the
    /// corresponding extent of `self`.
    spec fn spec_in_bounds(self, index: Self) -> bool;

    /// Row-major flattening: axis 0 varies fastest.
    spec fn spec_to_offset(self, index: Self) -> int;

    /// Inverse of `spec_to_offset`, meaningful for offsets in `[0, size)`.
    spec fn spec_from_offset(self, offset: int) -> Self;

    /// An in-bounds coordinate flattens into `[0, size)`.
    proof fn lemma_to_offset_in_range(self, index: Self)
        requires
            self.spec_in_bounds(index),
        ensures
            0 <= self.spec_to_offset(index) < self.spec_size(),
    ;

    /// Unflattening a flattened in-bounds coordinate gives it back.
    proof fn lemma_from_to(self, index: Self)
        requires
            self.spec_in_bounds(index),
        ensures
            self.spec_from_offset(self.spec_to_offset(index)) == index,
    ;

    /// Every offset in `[0, size)` unflattens to an in-bounds coordinate
    /// that flattens back to the same offset.
    proof fn lemma_to_from(self, offset: int)
        requires
            0 <= offset < self.spec_size(),
        ensures
            self.spec_in_bounds(self.spec_from_offset(offset)),
            self.spec_to_offset(self.spec_from_offset(offset)) == offset,
    ;

    fn size(self) -> (r: usize)
        requires
            self.spec_size() <= usize::MAX,
        ensures
            r == self.spec_size(),
    ;

    fn in_bounds(self, index: Self) -> (r: bool)
        ensures
            r == self.spec_in_bounds(index),
    ;

    fn to_offset(self, index: Self) -> (r: usize)
        requires
            self.spec_size() <= usize::MAX,
            self.spec_in_bounds(index),
        ensures
            r == self.spec_to_offset(index),
    ;

    fn from_offset(self, offset: usize) -> (r: Self)
        requires
            self.spec_size() <= usize::MAX,
            offset < self.spec_size(),
        ensures
            r == self.spec_from_offset(offset as int),
    ;
}

impl GridIndex for (usize, usize) {
    open spec fn spec_size(self) -> int {
        self.0 * self.1
    }

    open spec fn spec_in_bounds(self, index: Self) -> bool {
        index.0 < self.0 && index.1 < self.1
    }

    open spec fn spec_to_offset(self, index: Self) -> int {
        index.0 + index.1 * self.0
    }

    open spec fn spec_from_offset(self, offset: int) -> Self {
        ((offset % (self.0 as int)) as usize, (offset / (self.0 as int)) as usize)
    }

    proof fn lemma_to_offset_in_range(self, index: Self) {
        let w: int = self.0 as int;
        let h: int = self.1 as int;
        let x: int = index.0 as int;
        let y: int = index.1 as int;
        assert(x + y * w < w * h) by (nonlinear_arith)
            requires
                0 <= x < w,
                0 <= y < h,
        ;
    }

    proof fn lemma_from_to(self, index: Self) {
        let w: int = self.0 as int;
        let h: int = self.1 as int;
        let x: int = index.0 as int;
        let y: int = index.1 as int;
        vstd::arithmetic::div_mod::lemma_fundamental_div_mod_converse(x + y * w, w, y, x);
    }

    proof fn lemma_to_from(self, offset: int) {
        let w: int = self.0 as int;
        let h: int = self.1 as int;
        assert(w > 0 && h > 0) by (nonlinear_arith)
            requires
                0 <= offset < w * h,
                w >= 0,
                h >= 0,
        ;
        vstd::arithmetic::div_mod::lemma_fundamental_div_mod(offset, w);
        let x = offset % w;
        let y = offset / w;
        vstd::arithmetic::div_mod::lemma_mod_bound(offset, w);
        assert(y < h) by (nonlinear_arith)
            requires
                offset == w * y + x,
                offset < w * h,
                0 <= x < w,
                w > 0,
        ;
        assert(y >= 0) by (nonlinear_arith)
            requires
                offset == w * y + x,
                offset >= 0,
                0 <= x < w,
                w > 0,
        ;
        assert(x + y * w == offset) by (nonlinear_arith)
            requires
                offset == w * y + x,
        ;
    }

    fn size(self) -> (r: usize) {
        self.0 * self.1
    }

    fn in_bounds(self, index: Self) -> (r: bool) {
        index.0 < self.0 && index.1 < self.1
    }

    fn to_offset(self, index: Self) -> (r: usize) {
        proof {
            self.lemma_to_offset_in_range(index);
        }
        index.0 + index.1 * self.0
    }

    fn from_offset(self, offset: usize) -> (r: Self) {
        proof {
            self.lemma_to_from(offset as int);
        }
        (offset % self.0, offset / self.0)
    }
}

impl GridIndex for (usize, usize, usize) {
    open spec fn spec_size(self) -> int {
        self.0 * self.1 * self.2
    }

    open spec fn spec_in_bounds(self, index: Self) -> bool {
        index.0 < self.0 && index.1 < self.1 && index.2 < self.2
    }

    open spec fn spec_to_offset(self, index: Self) -> int {
        index.0 + index.1 * self.0 + index.2 * (self.0 * self.1)
    }

    open spec fn spec_from_offset(self, offset: int) -> Self {
        (
            (offset % (self.0 as int)) as usize,
            ((offset / (self.0 as int)) % (self.1 as int)) as usize,
            (offset / (self.0 as int * self.1 as int)) as usize,
        )
    }

    proof fn lemma_to_offset_in_range(self, index: Self) {
        let w: int = self.0 as int;
        let h: int = self.1 as int;
        let d: int = self.2 as int;
        let x: int = index.0 as int;
        let y: int = index.1 as int;
        let z: int = index.2 as int;
        assert(x + y * w + z * (w * h) < w * h * d) by (nonlinear_arith)
            requires
                0 <= x < w,
                0 <= y < h,
                0 <= z < d,
        ;
    }

    proof fn lemma_from_to(self, index: Self) {
        let w: int = self.0 as int;
        let h: int = self.1 as int;
        let d: int = self.2 as int;
        let x: int = index.0 as int;
        let y: int = index.1 as int;
        let z: int = index.2 as int;
        let o = x + y * w + z * (w * h);
        let m = y + z * h;
        assert(o == m * w + x) by (nonlinear_arith)
            requires
                o == x + y * w + z * (w * h),
                m == y + z * h,
        ;
        vstd::arithmetic::div_mod::lemma_fundamental_div_mod_converse(o, w, m, x);
        vstd::arithmetic::div_mod::lemma_fundamental_div_mod_converse(m, h, z, y);
        assert(o / (w * h) == z) by {
            vstd::arithmetic::div_mod::lemma_div_denominator(o, w, h);
        };
    }

    proof fn lemma_to_from(self, offset: int) {
        let w: int = self.0 as int;
        let h: int = self.1 as int;
        let d: int = self.2 as int;
        assert(w > 0 && h > 0 && d > 0) by (nonlinear_arith)
            requires
                0 <= offset < w * h * d,
                w >= 0,
                h >= 0,
                d >= 0,
        ;
        vstd::arithmetic::div_mod::lemma_fundamental_div_mod(offset, w);
        vstd::arithmetic::div_mod::lemma_mod_bound(offset, w);
        let x = offset % w;
        let m = offset / w;
        vstd::arithmetic::div_mod::lemma_fundamental_div_mod(m, h);
        vstd::arithmetic::div_mod::lemma_mod_bound(m, h);
        let y = m % h;
        let z = m / h;
        assert(m >= 0 && m * w <= offset) by (nonlinear_arith)
            requires
                offset == w * m + x,
                0 <= x < w,
                offset >= 0,
                w > 0,
        ;
        assert(m < h * d) by (nonlinear_arith)
            requires
                offset == w * m + x,
                offset < w * h * d,
                0 <= x < w,
                w > 0,
                m >= 0,
        ;
        assert(z >= 0 && z < d) by (nonlinear_arith)
            requires
                m == h * z + y,
                0 <= y < h,
                0 <= m < h * d,
                h > 0,
        ;
        assert(offset / (w * h) == z) by {
            vstd::arithmetic::div_mod::lemma_div_denominator(offset, w, h);
        };
        assert(x + y * w + z * (w * h) == offset) by (nonlinear_arith)
            requires
                offset == w * m + x,
                m == h * z + y,
        ;
    }

    fn size(self) -> (r: usize) {
        if self.2 == 0 {
            proof {
                let w: int = self.0 as int;
                let h: int = self.1 as int;
                assert(w * h * 0 == 0) by (nonlinear_arith);
            }
            0
        } else {
            proof {
                let w: int = self.0 as int;
                let h: int = self.1 as int;
                let d: int = self.2 as int;
                assert(w * h <= w * h * d) by (nonlinear_arith)
                    requires
                        d >= 1,
                        w >= 0,
                        h >= 0,
                ;
            }
            self.0 * self.1 * self.2
        }
    }

    fn in_bounds(self, index: Self) -> (r: bool) {
        index.0 < self.0 && index.1 < self.1 && index.2 < self.2
    }

    fn to_offset(self, index: Self) -> (r: usize)  {
        proof {
            self.lemma_to_offset_in_range(index);
            let w: int = self.0 as int;
        let h: int = self.1 as int;
        let d: int = self.2 as int;
            assert(w * h <= w * h * d) by (nonlinear_arith)
                requires
                    d >= 1,
                    w >= 0,
                    h >= 0,
            ;
            assert((index.1 as int) * w <= (index.0 as int) + (index.1 as int) * w);
        }
        index.0 + index.1 * self.0 + index.2 * (self.0 * self.1)
    }

    fn from_offset(self, offset: usize) -> (r: Self) {
        proof {
            self.lemma_to_from(offset as int);
            let w: int = self.0 as int;
        let h: int = self.1 as int;
        let d: int = self.2 as int;
            assert(w > 0 && h > 0 && d > 0) by (nonlinear_arith)
                requires
                    0 <= offset < w * h * d,
                    w >= 0,
                    h >= 0,
                    d >= 0,
            ;
            assert(w * h <= w * h * d) by (nonlinear_arith)
                requires
                    d >= 1,
                    w >= 0,
                    h >= 0,
            ;
            assert(w * h > 0) by (nonlinear_arith)
                requires
                    w > 0,
                    h > 0,
            ;
        }
        (
            offset % self.0,
            (offset / self.0) % self.1,
            offset / (self.0 * self.1),
        )
    }
}


/// An N-dimensional grid of items, stored flattened in a `Vec` in row-major
/// order (axis 0 varies fastest). The backing vector always holds exactly
/// `shape.spec_size()` items; every indexed access is bounds-checked against
/// the shape before it is translated to a flat offset.
#[derive(Clone)]
pub struct Grid<I, T> {
    shape: I,
    data: Vec<T>,
}

impl<I, T> View for Grid<I, T> {
    type V = Seq<T>;

    closed spec fn view(&self) -> Seq<T> {
        self.data@
    }
}

impl<I: GridIndex + Copy, T> Grid<I, T> {
    pub closed spec fn spec_shape(self) -> I {
        self.shape
    }

    /// The grid's structural invariant: the shape's size fits in `usize`
    /// and the backing vector holds exactly that many items.
    pub open spec fn wf(self) -> bool {
        self.spec_shape().spec_size() <= usize::MAX && self@.len()
            == self.spec_shape().spec_size()
    }

    pub fn shape(&self) -> (r: I)
        ensures
            r == self.spec_shape(),
    {
        self.shape
    }

    pub fn data(&self) -> (r: &Vec<T>)
        ensures
            r@ == self@,
    {
        &self.data
    }

    pub fn len(&self) -> (r: usize)
        ensures
            r == self@.len(),
    {
        self.data.len()
    }

    pub fn from_offset(&self, offset: usize) -> (r: I)
        requires
            self.wf(),
            offset < self@.len(),
        ensures
            r == self.spec_shape().spec_from_offset(offset as int),
            self.spec_shape().spec_in_bounds(r),
            self.spec_shape().spec_to_offset(r) == offset,
    {
        proof {
            self.spec_shape().lemma_to_from(offset as int);
        }
        self.shape.from_offset(offset)
    }

    pub fn to_offset(&self, index: I) -> (r: usize)
        requires
            self.wf(),
            self.spec_shape().spec_in_bounds(index),
        ensures
            r == self.spec_shape().spec_to_offset(index),
            r < self@.len(),
    {
        proof {
            self.spec_shape().lemma_to_offset_in_range(index);
        }
        self.shape.to_offset(index)
    }

    pub fn get(&self, index: I) -> (r: &T)
        requires
            self.wf(),
            self.spec_shape().spec_in_bounds(index),
        ensures
            *r == self@[self.spec_shape().spec_to_offset(index)],
    {
        let offset = self.to_offset(index);
        &self.data[offset]
    }

    pub fn set(&mut self, index: I, value: T)
        requires
            old(self).wf(),
            old(self).spec_shape().spec_in_bounds(index),
        ensures
            final(self).wf(),
            final(self).spec_shape() == old(self).spec_shape(),
            final(self)@ == old(self)@.update(
                old(self).spec_shape().spec_to_offset(index),
                value,
            ),
    {
        let offset = self.to_offset(index);
        let slot = &mut self.data[offset];
        *slot = value;
    }
}

impl<I: GridIndex + Copy, T: Copy> Grid<I, T> {
    /// A grid of the given shape whose every cell holds a copy of `item`.
    pub fn new(shape: I, item: &T) -> (r: Self)
        requires
            shape.spec_size() <= usize::MAX,
        ensures
            r.wf(),
            r.spec_shape() == shape,
            r@.len() == shape.spec_size(),
            forall|i: int| 0 <= i < r@.len() ==> r@[i] == *item,
    {
        let n = shape.size();
        let mut data: Vec<T> = Vec::new();
        while data.len() < n
            invariant
                data@.len() <= n,
                forall|i: int| 0 <= i < data@.len() ==> data@[i] == *item,
            decreases n - data.len(),
        {
            data.push(*item);
        }
        Grid { shape, data }
    }
}

} // verus!
