use vstd::prelude::*;

verus! {

/// One of the three coordinate axes.
#[derive(Copy, Clone, Debug, PartialEq, Eq, Structural)]
pub enum Axis {
    X,
    Y,
    Z,
}

/// One of the six faces of a voxel: an axis and a direction along it.
#[derive(Copy, Clone, Debug, PartialEq, Eq, Structural)]
pub struct Side {
    pub axis: Axis,
    pub positive: bool,
}

/// The fixed mapping from a group index 0..6 to a side:
/// 0 is -X, 1 is +X, 2 is -Y, 3 is +Y, 4 is -Z, 5 is +Z.
pub open spec fn side_of_index(d: int) -> Side
    recommends 0 <= d < 6,
{
    if d == 0 {
        Side { axis: Axis::X, positive: false }
    } else if d == 1 {
        Side { axis: Axis::X, positive: true }
    } else if d == 2 {
        Side { axis: Axis::Y, positive: false }
    } else if d == 3 {
        Side { axis: Axis::Y, positive: true }
    } else if d == 4 {
        Side { axis: Axis::Z, positive: false }
    } else {
        Side { axis: Axis::Z, positive: true }
    }
}

/// The unit offset from a voxel to its neighbor on the side with group index `d`.
pub open spec fn offset_of_index(d: int) -> (int, int, int)
    recommends 0 <= d < 6,
{
    if d == 0 {
        (-1, 0, 0)
    } else if d == 1 {
        (1, 0, 0)
    } else if d == 2 {
        (0, -1, 0)
    } else if d == 3 {
        (0, 1, 0)
    } else if d == 4 {
        (0, 0, -1)
    } else {
        (0, 0, 1)
    }
}

/// The outward unit normal of a side.
pub open spec fn normal_of(s: Side) -> (int, int, int) {
    match (s.axis, s.positive) {
        (Axis::X, true) => (1, 0, 0),
        (Axis::X, false) => (-1, 0, 0),
        (Axis::Y, true) => (0, 1, 0),
        (Axis::Y, false) => (0, -1, 0),
        (Axis::Z, true) => (0, 0, 1),
        (Axis::Z, false) => (0, 0, -1),
    }
}

impl Side {
    /// Builds the side on `axis`, facing the positive direction iff `positive`.
    pub fn new(axis: Axis, positive: bool) -> (s: Side)
        ensures
            s == (Side { axis, positive }),
    {
        Side { axis, positive }
    }

    /// The side a quad group index 0..6 stands for.
    pub fn from_index(d: usize) -> (s: Side)
        requires
            d < 6,
        ensures
            s == side_of_index(d as int),
    {
        match d {
            0 => Side::new(Axis::X, false),
            1 => Side::new(Axis::X, true),
            2 => Side::new(Axis::Y, false),
            3 => Side::new(Axis::Y, true),
            4 => Side::new(Axis::Z, false),
            _ => Side::new(Axis::Z, true),
        }
    }

    /// The outward unit normal of this side, as an integer vector.
    pub fn normal(&self) -> (n: (i32, i32, i32))
        ensures
            (n.0 as int, n.1 as int, n.2 as int) == normal_of(*self),
    {
        match (self.axis, self.positive) {
            (Axis::X, true) => (1, 0, 0),
            (Axis::X, false) => (-1, 0, 0),
            (Axis::Y, true) => (0, 1, 0),
            (Axis::Y, false) => (0, -1, 0),
            (Axis::Z, true) => (0, 0, 1),
            (Axis::Z, false) => (0, 0, -1),
        }
    }

    /// The outward unit normal repeated once per corner of a quad.
    pub fn normals(&self) -> (r: [(i32, i32, i32); 4])
        ensures
            forall|j: int| 0 <= j < 4 ==>
                ((#[trigger] r[j]).0 as int, r[j].1 as int, r[j].2 as int) == normal_of(*self),
    {
        let n = self.normal();
        [n, n, n, n]
    }
}

} // verus!
