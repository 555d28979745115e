use vstd::prelude::*;

verus! {

/// What a homogeneous 4-tuple `(x, y, z, w)` stands for. The role is read
/// from `w` alone: about 1 for a point, about 0 for a vector, anything else
/// for neither.
#[derive(Copy, Clone, Debug, PartialEq, Eq, Structural)]
pub enum TupleKind {
    Point,
    Vector,
    Neither,
}

impl TupleKind {
    /// The role of a tuple, given whether its `w` is approximately 1 and
    /// whether it is approximately 0. The point test is made first.
    pub fn classify(w_is_one: bool, w_is_zero: bool) -> (r: Self)
        ensures
            r == (if w_is_one {
                TupleKind::Point
            } else if w_is_zero {
                TupleKind::Vector
            } else {
                TupleKind::Neither
            }),
    {
        if w_is_one {
            TupleKind::Point
        } else if w_is_zero {
            TupleKind::Vector
        } else {
            TupleKind::Neither
        }
    }

    /// Name that a tuple of this role is written under.
    pub fn name(&self) -> (r: &'static str)
        ensures
            r@ == (match *self {
                TupleKind::Point => "Point"@,
                TupleKind::Vector => "Vector"@,
                TupleKind::Neither => "Tuple"@,
            }),
    {
        match self {
            TupleKind::Point => "Point",
            TupleKind::Vector => "Vector",
            TupleKind::Neither => "Tuple",
        }
    }

    /// Whether a tuple of this role is written with its `w` component: only
    /// one that is neither a point nor a vector is.
    pub fn shows_w(&self) -> (r: bool)
        ensures
            r == (*self == TupleKind::Neither),
    {
        match self {
            TupleKind::Neither => true,
            _ => false,
        }
    }
}

} // verus!
