use vstd::prelude::*;
use crate::coord_2d::{Coord2D, linear_index, lemma_index_round_trip};

verus! {

/// The cell coordinate with row-major index `i` in a grid `w` cells wide.
pub open spec fn cell_coord(i: int, w: int) -> Coord2D {
    Coord2D { x: (i % w) as usize, y: (i / w) as usize }
}

/// A grid of `dim.x` by `dim.y` cells of type `C`, stored row by row from the
/// top-left corner. Its view is the sequence of cells in that order, one for
/// each coordinate of the grid (see `wf`).
#[derive(Clone, Debug, PartialEq)]
pub struct Canvas<C> {
    data: Vec<C>,
    dim: Coord2D,
}

impl<C> View for Canvas<C> {
    type V = Seq<C>;

    closed spec fn view(&self) -> Seq<C> {
        self.data@
    }
}

impl<C: Copy> Canvas<C> {
    /// Size of the grid.
    pub closed spec fn dims(&self) -> Coord2D {
        self.dim
    }

    /// The grid holds exactly one cell per coordinate, and its area fits in
    /// a `usize`.
    pub open spec fn wf(&self) -> bool {
        &&& self@.len() == self.dims().area()
        &&& self.dims().area() <= usize::MAX
    }

    /// Row-major index of `coord` in this grid.
    pub open spec fn index_of(&self, coord: Coord2D) -> int {
        linear_index(coord.x as int, coord.y as int, self.dims().x as int)
    }

    proof fn lemma_inside(&self, coord: Coord2D)
        requires
            self.wf(),
            coord.inside(self.dims()),
        ensures
            0 <= self.index_of(coord) < self@.len(),
    {
        lemma_index_round_trip(coord, self.dims());
    }

    /// A canvas of size `dim` with every cell set to `background`.
    pub fn new(dim: Coord2D, background: C) -> (r: Self)
        requires
            dim.area() <= usize::MAX,
        ensures
            r.wf(),
            r.dims() == dim,
            r@ == Seq::new(dim.area() as nat, |i: int| background),
    {
        let n = dim.x * dim.y;
        let mut data: Vec<C> = Vec::new();
        let mut i: usize = 0;
        while i < n
            invariant
                0 <= i <= n,
                n == dim.area(),
                data@ == Seq::new(i as nat, |k: int| background),
            decreases n - i,
        {
            data.push(background);
            i = i + 1;
            assert(data@ =~= Seq::new(i as nat, |k: int| background));
        }
        Canvas { data, dim }
    }

    /// Size of the grid.
    pub fn get_dim(&self) -> (r: Coord2D)
        ensures
            r == self.dims(),
    {
        self.dim
    }

    /// Number of cells.
    pub fn size(&self) -> (r: usize)
        requires
            self.wf(),
        ensures
            r == self@.len(),
            r == self.dims().area(),
    {
        self.data.len()
    }

    /// The cell with row-major index `index`.
    pub fn get(&self, index: usize) -> (r: C)
        requires
            index < self@.len(),
        ensures
            r == self@[index as int],
    {
        self.data[index]
    }

    /// Replaces the cell with row-major index `index`.
    pub fn set(&mut self, index: usize, value: C)
        requires
            index < old(self)@.len(),
        ensures
            final(self).wf() == old(self).wf(),
            final(self).dims() == old(self).dims(),
            final(self)@ == old(self)@.update(index as int, value),
    {
        self.data.set(index, value);
    }

    /// Mutable access to the cell with row-major index `index`.
    pub fn get_mut(&mut self, index: usize) -> (r: &mut C)
        requires
            index < old(self)@.len(),
        ensures
            *r == old(self)@[index as int],
            final(self).dims() == old(self).dims(),
            final(self)@ == old(self)@.update(index as int, *final(r)),
    {
        &mut self.data[index]
    }

    /// The cell at `coord`.
    pub fn at(&self, coord: Coord2D) -> (r: C)
        requires
            self.wf(),
            coord.inside(self.dims()),
        ensures
            r == self@[self.index_of(coord)],
    {
        proof {
            self.lemma_inside(coord);
        }
        self.data[coord.to_index(&self.dim)]
    }

    /// Replaces the cell at `coord`.
    pub fn set_at(&mut self, coord: Coord2D, value: C)
        requires
            old(self).wf(),
            coord.inside(old(self).dims()),
        ensures
            final(self).wf(),
            final(self).dims() == old(self).dims(),
            final(self)@ == old(self)@.update(old(self).index_of(coord), value),
    {
        proof {
            self.lemma_inside(coord);
        }
        let index = coord.to_index(&self.dim);
        self.data.set(index, value);
    }

    /// Mutable access to the cell at `coord`.
    pub fn at_mut(&mut self, coord: Coord2D) -> (r: &mut C)
        requires
            old(self).wf(),
            coord.inside(old(self).dims()),
        ensures
            *r == old(self)@[old(self).index_of(coord)],
            final(self).dims() == old(self).dims(),
            final(self)@ == old(self)@.update(old(self).index_of(coord), *final(r)),
    {
        proof {
            self.lemma_inside(coord);
        }
        let index = coord.to_index(&self.dim);
        &mut self.data[index]
    }

    /// Replaces every cell, in row-major order, by `f` applied to its
    /// coordinate and its old value.
    pub fn map_cells<F: Fn(Coord2D, C) -> C>(&mut self, f: F)
        requires
            old(self).wf(),
            forall|coord: Coord2D, value: C| f.requires((coord, value)),
        ensures
            final(self).wf(),
            final(self).dims() == old(self).dims(),
            final(self)@.len() == old(self)@.len(),
            forall|i: int|
                0 <= i < old(self)@.len() ==> f.ensures(
                    (cell_coord(i, old(self).dims().x as int), old(self)@[i]),
                    #[trigger] final(self)@[i],
                ),
    {
        let ghost before = self@;
        let n = self.data.len();
        proof {
            if n > 0 {
                assert(self.dim.x > 0) by (nonlinear_arith)
                    requires
                        n == self.dim.x * self.dim.y,
                        n > 0,
                ;
            }
        }
        let mut i: usize = 0;
        while i < n
            invariant
                self.wf(),
                self.dims() == old(self).dims(),
                before == old(self)@,
                n == before.len(),
                self@.len() == n,
                0 <= i <= n,
                n > 0 ==> self.dim.x > 0,
                forall|coord: Coord2D, value: C| f.requires((coord, value)),
                forall|k: int| i <= k < n ==> self@[k] == before[k],
                forall|k: int|
                    0 <= k < i ==> f.ensures(
                        (cell_coord(k, self.dims().x as int), before[k]),
                        #[trigger] self@[k],
                    ),
            decreases n - i,
        {
            let coord = Coord2D::new_from_index(i, &self.dim);
            let value = f(coord, self.data[i]);
            self.data.set(i, value);
            assert(coord == cell_coord(i as int, self.dim.x as int));
            i = i + 1;
        }
    }

    /// Every cell with its coordinate, in row-major order: all of the top row
    /// from left to right, then the next row, and so on.
    pub fn iter(&self) -> (r: Vec<(Coord2D, C)>)
        requires
            self.wf(),
        ensures
            r@.len() == self@.len(),
            forall|i: int|
                0 <= i < r@.len() ==> {
                    &&& (#[trigger] r@[i]).1 == self@[i]
                    &&& r@[i].0 == cell_coord(i, self.dims().x as int)
                },
    {
        let mut out: Vec<(Coord2D, C)> = Vec::new();
        let mut i: usize = 0;
        proof {
            if self@.len() > 0 {
                assert(self.dim.x > 0) by (nonlinear_arith)
                    requires
                        self@.len() == self.dim.x * self.dim.y,
                        self@.len() > 0,
                ;
            }
        }
        while i < self.data.len()
            invariant
                self.wf(),
                0 <= i <= self@.len(),
                self@.len() > 0 ==> self.dim.x > 0,
                out@.len() == i,
                forall|k: int|
                    0 <= k < i ==> {
                        &&& (#[trigger] out@[k]).1 == self@[k]
                        &&& out@[k].0 == cell_coord(k, self.dims().x as int)
                    },
            decreases self@.len() - i,
        {
            let coord = Coord2D::new_from_index(i, &self.dim);
            assert(coord == cell_coord(i as int, self.dim.x as int));
            out.push((coord, self.data[i]));
            i = i + 1;
        }
        out
    }
}

/// Every cell of a freshly made canvas holds the background it was made with.
pub proof fn lemma_fresh_canvas<C: Copy>(c: Canvas<C>, dim: Coord2D, background: C, coord: Coord2D)
    requires
        c.dims() == dim,
        c@ == Seq::new(dim.area() as nat, |i: int| background),
        coord.inside(dim),
    ensures
        c@[c.index_of(coord)] == background,
{
    lemma_index_round_trip(coord, dim);
}

/// Writing a cell and reading it back gives the value written, and every
/// other cell keeps its value.
pub proof fn lemma_write_then_read<C: Copy>(
    before: Canvas<C>,
    after: Canvas<C>,
    coord: Coord2D,
    value: C,
    other: Coord2D,
)
    requires
        before.wf(),
        coord.inside(before.dims()),
        other.inside(before.dims()),
        after.dims() == before.dims(),
        after@ == before@.update(before.index_of(coord), value),
    ensures
        after.wf(),
        after@[after.index_of(coord)] == value,
        other != coord ==> after@[after.index_of(other)] == before@[before.index_of(other)],
{
    lemma_index_round_trip(coord, before.dims());
    lemma_index_round_trip(other, before.dims());
}

} // verus!
