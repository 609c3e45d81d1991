//! The six axis-aligned directions a block face can point in.

use vstd::prelude::*;
use std::ops::Neg;

verus! {

/// The direction of a face normal.
///
/// `Right`/`Left` run along +x/-x, `Front`/`Back` along +y/-y and
/// `Up`/`Down` along +z/-z.
#[derive(Debug, Copy, Clone, PartialEq, Eq, Structural)]
pub enum NormalDirection {
    Up,
    Down,
    Left,
    Right,
    Front,
    Back,
}

impl NormalDirection {
    /// The unit vector of the direction, as `(x, y, z)`.
    pub open spec fn unit(self) -> (int, int, int) {
        match self {
            NormalDirection::Front => (0, 1, 0),
            NormalDirection::Up => (0, 0, 1),
            NormalDirection::Right => (1, 0, 0),
            NormalDirection::Back => (0, -1, 0),
            NormalDirection::Down => (0, 0, -1),
            NormalDirection::Left => (-1, 0, 0),
        }
    }

    /// The direction pointing the other way.
    pub open spec fn opposite(self) -> NormalDirection {
        match self {
            NormalDirection::Front => NormalDirection::Back,
            NormalDirection::Back => NormalDirection::Front,
            NormalDirection::Left => NormalDirection::Right,
            NormalDirection::Right => NormalDirection::Left,
            NormalDirection::Up => NormalDirection::Down,
            NormalDirection::Down => NormalDirection::Up,
        }
    }

    /// The position of the direction in a six-element table, and the number
    /// of its bit in an occlusion set.
    pub open spec fn index(self) -> int {
        match self {
            NormalDirection::Front => 0,
            NormalDirection::Up => 1,
            NormalDirection::Right => 2,
            NormalDirection::Back => 3,
            NormalDirection::Down => 4,
            NormalDirection::Left => 5,
        }
    }

    /// Whether the direction runs towards growing coordinates.
    pub open spec fn is_positive(self) -> bool {
        self == NormalDirection::Up || self == NormalDirection::Right || self
            == NormalDirection::Front
    }

    /// Maps slice-local coordinates to block coordinates `(x, y, z)`.
    ///
    /// `w` runs along the direction itself; `u` and `v` span the plane
    /// perpendicular to it.
    pub open spec fn to_xyz(self, u: int, v: int, w: int) -> (int, int, int) {
        match self {
            NormalDirection::Up => (u, v, w),
            NormalDirection::Down => (v, u, w),
            NormalDirection::Left => (w, v, u),
            NormalDirection::Right => (w, u, v),
            NormalDirection::Front => (v, w, u),
            NormalDirection::Back => (u, w, v),
        }
    }

    /// The unit vector of the direction as an array `[x, y, z]`.
    #[inline]
    pub fn to_vec_arr(&self) -> (r: [i8; 3])
        ensures
            (r[0] as int, r[1] as int, r[2] as int) == self.unit(),
    {
        match self {
            NormalDirection::Front => [0, 1, 0],
            NormalDirection::Up => [0, 0, 1],
            NormalDirection::Right => [1, 0, 0],
            NormalDirection::Back => [0, -1, 0],
            NormalDirection::Down => [0, 0, -1],
            NormalDirection::Left => [-1, 0, 0],
        }
    }

    /// The position of the direction in a six-element table.
    #[inline]
    pub fn to_index(&self) -> (r: usize)
        ensures
            r == self.index(),
            r < 6,
    {
        match self {
            NormalDirection::Front => 0,
            NormalDirection::Up => 1,
            NormalDirection::Right => 2,
            NormalDirection::Back => 3,
            NormalDirection::Down => 4,
            NormalDirection::Left => 5,
        }
    }

    /// The place of the direction in the order in which a chunk is meshed.
    pub open spec fn order(self) -> int {
        match self {
            NormalDirection::Up => 0,
            NormalDirection::Down => 1,
            NormalDirection::Left => 2,
            NormalDirection::Right => 3,
            NormalDirection::Front => 4,
            NormalDirection::Back => 5,
        }
    }

    /// The six directions in the order in which a chunk is meshed.
    pub open spec fn meshing_order() -> Seq<NormalDirection> {
        seq![
            NormalDirection::Up,
            NormalDirection::Down,
            NormalDirection::Left,
            NormalDirection::Right,
            NormalDirection::Front,
            NormalDirection::Back,
        ]
    }

    /// Slice-local block coordinates `(u, v, w)` as block coordinates.
    #[inline]
    pub fn map_uvw(&self, u: usize, v: usize, w: usize) -> (r: (usize, usize, usize))
        ensures
            (r.0 as int, r.1 as int, r.2 as int) == self.to_xyz(u as int, v as int, w as int),
    {
        match self {
            NormalDirection::Up => (u, v, w),
            NormalDirection::Down => (v, u, w),
            NormalDirection::Left => (w, v, u),
            NormalDirection::Right => (w, u, v),
            NormalDirection::Front => (v, w, u),
            NormalDirection::Back => (u, w, v),
        }
    }
}

impl Neg for NormalDirection {
    type Output = NormalDirection;

    #[inline]
    fn neg(self) -> (r: NormalDirection) {
        match self {
            NormalDirection::Front => NormalDirection::Back,
            NormalDirection::Back => NormalDirection::Front,
            NormalDirection::Left => NormalDirection::Right,
            NormalDirection::Right => NormalDirection::Left,
            NormalDirection::Up => NormalDirection::Down,
            NormalDirection::Down => NormalDirection::Up,
        }
    }
}

impl vstd::std_specs::ops::NegSpecImpl for NormalDirection {
    open spec fn obeys_neg_spec() -> bool {
        true
    }

    open spec fn neg_req(self) -> bool {
        true
    }

    open spec fn neg_spec(self) -> NormalDirection {
        self.opposite()
    }
}

impl<'a> Neg for &'a NormalDirection {
    type Output = NormalDirection;

    #[inline]
    fn neg(self) -> (r: NormalDirection) {
        match self {
            NormalDirection::Front => NormalDirection::Back,
            NormalDirection::Back => NormalDirection::Front,
            NormalDirection::Left => NormalDirection::Right,
            NormalDirection::Right => NormalDirection::Left,
            NormalDirection::Up => NormalDirection::Down,
            NormalDirection::Down => NormalDirection::Up,
        }
    }
}

impl<'a> vstd::std_specs::ops::NegSpecImpl for &'a NormalDirection {
    open spec fn obeys_neg_spec() -> bool {
        true
    }

    open spec fn neg_req(self) -> bool {
        true
    }

    open spec fn neg_spec(self) -> NormalDirection {
        self.opposite()
    }
}

/// Turning a direction round twice gives the direction back, and a direction
/// and its opposite have unit vectors that cancel.
pub proof fn lemma_opposite_involution(d: NormalDirection)
    ensures
        d.opposite().opposite() == d,
        d.opposite() != d,
        d.opposite().unit().0 == -d.unit().0,
        d.opposite().unit().1 == -d.unit().1,
        d.opposite().unit().2 == -d.unit().2,
{
}

} // verus!
