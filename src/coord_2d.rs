use vstd::prelude::*;

verus! {

/// A position on a two-dimensional grid, or a grid's size (`x` columns by
/// `y` rows). Rows run top to bottom, columns left to right.
#[derive(Copy, Clone, Debug, PartialEq, Eq, Structural)]
pub struct Coord2D {
    pub x: usize,
    pub y: usize,
}

/// Row-major linear index of the cell `(x, y)` in a grid `w` cells wide.
pub open spec fn linear_index(x: int, y: int, w: int) -> int {
    x + w * y
}

impl Coord2D {
    /// Number of cells of a grid of this size.
    pub open spec fn area(self) -> int {
        self.x * self.y
    }

    /// Whether this coordinate lies inside a grid of size `dim`.
    pub open spec fn inside(self, dim: Coord2D) -> bool {
        self.x < dim.x && self.y < dim.y
    }

    pub fn new(x: usize, y: usize) -> (r: Self)
        ensures
            r.x == x,
            r.y == y,
    {
        Coord2D { x, y }
    }

    /// The coordinate whose row-major index in a grid of size `dim` is `index`.
    pub fn new_from_index(index: usize, dim: &Coord2D) -> (r: Self)
        requires
            dim.x > 0,
        ensures
            r.x == index % dim.x,
            r.y == index / dim.x,
            linear_index(r.x as int, r.y as int, dim.x as int) == index,
    {
        let r = Self::new(index % dim.x, index / dim.x);
        proof {
            vstd::arithmetic::div_mod::lemma_fundamental_div_mod(index as int, dim.x as int);
        }
        r
    }

    /// Row-major index of this coordinate in a grid of size `dim`.
    pub fn to_index(&self, dim: &Coord2D) -> (r: usize)
        requires
            linear_index(self.x as int, self.y as int, dim.x as int) <= usize::MAX,
        ensures
            r == linear_index(self.x as int, self.y as int, dim.x as int),
    {
        proof {
            vstd::arithmetic::mul::lemma_mul_nonnegative(dim.x as int, self.y as int);
        }
        self.x + dim.x * self.y
    }
}

/// Row-major indexing is one to one on a grid: the index of a coordinate
/// inside a grid lies inside the grid's area, and dividing it by the width
/// gives back the row, its remainder the column.
pub proof fn lemma_index_round_trip(c: Coord2D, dim: Coord2D)
    requires
        c.inside(dim),
    ensures
        0 <= linear_index(c.x as int, c.y as int, dim.x as int) < dim.area(),
        linear_index(c.x as int, c.y as int, dim.x as int) % (dim.x as int) == c.x,
        linear_index(c.x as int, c.y as int, dim.x as int) / (dim.x as int) == c.y,
{
    let w = dim.x as int;
    let h = dim.y as int;
    let i = linear_index(c.x as int, c.y as int, w);
    assert(0 <= c.x + w * c.y < w * h) by (nonlinear_arith)
        requires
            0 <= c.x < w,
            0 <= c.y < h,
    ;
    vstd::arithmetic::div_mod::lemma_div_multiples_vanish_fancy(c.y as int, c.x as int, w);
    vstd::arithmetic::div_mod::lemma_fundamental_div_mod(i, w);
}

} // verus!
