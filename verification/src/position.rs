use vstd::prelude::*;

verus! {

/// An integer triple identifying a chunk's lattice coordinate.
#[derive(Copy, Clone, Debug, PartialEq, Eq, Structural, Hash, Default)]
pub struct Position {
    pub x: i32,
    pub y: i32,
    pub z: i32,
}

/// The squared Euclidean distance between two chunk coordinates.
pub open spec fn dist_sq(a: Position, b: Position) -> int {
    (b.x - a.x) * (b.x - a.x) + (b.y - a.y) * (b.y - a.y) + (b.z - a.z) * (b.z - a.z)
}

/// Whether `p` lies within Euclidean distance `radius` of `center`,
/// stated over squared distances so no square root is needed.
pub open spec fn in_ball(center: Position, radius: int, p: Position) -> bool {
    dist_sq(center, p) <= radius * radius
}

impl Position {
    /// The squared Euclidean distance to `other`, exact in every case.
    pub fn distance_squared(&self, other: &Position) -> (d: u128)
        ensures
            d == dist_sq(*self, *other),
    {
        let dx: i128 = other.x as i128 - self.x as i128;
        let dy: i128 = other.y as i128 - self.y as i128;
        let dz: i128 = other.z as i128 - self.z as i128;
        proof {
            lemma_square_bound(dx as int);
            lemma_square_bound(dy as int);
            lemma_square_bound(dz as int);
        }
        (dx * dx + dy * dy + dz * dz) as u128
    }

    /// Whether `self` lies within Euclidean distance `radius` of `center`.
    pub fn within_distance(&self, center: &Position, radius: i32) -> (r: bool)
        requires
            radius >= 0,
        ensures
            r == in_ball(*center, radius as int, *self),
    {
        let d = center.distance_squared(self);
        proof {
            lemma_square_bound(radius as int);
        }
        d <= (radius as u128) * (radius as u128)
    }
}

/// For `|v|` below 2^32 the square of `v` is nonnegative and fits in an i128.
proof fn lemma_square_bound(v: int)
    requires
        -0x1_0000_0000 <= v <= 0x1_0000_0000,
    ensures
        0 <= v * v <= 0x1_0000_0000_0000_0000,
{
    assert(0 <= v * v <= 0x1_0000_0000_0000_0000) by (nonlinear_arith)
        requires
            -0x1_0000_0000 <= v <= 0x1_0000_0000,
    ;
}

} // verus!
