use vstd::prelude::*;
use crate::color::Color;
use crate::quad::{quad_wf, Quad};
use crate::side::{normal_of, Axis, Side};

verus! {

/// A quad paired with the side it faces; derives the four corner positions,
/// normals, colors, and six triangle indices of one renderable face.
///
/// Corner positions are stated in half-voxel units: a corner at offset
/// `-0.5` or `0.5` of a unit cube appears as `-1` or `1` here, and the whole
/// face is translated by twice the voxel coordinate (shifted by one to undo
/// the padding ring). A renderer scales them by half its voxel size.
#[derive(Copy, Clone, Debug)]
pub struct Face {
    pub side: Side,
    pub quad: Quad,
}

/// The fixed corner stencil of a side: corner `j` of a unit cube face,
/// in half-voxel units, before translation. Chosen so the two triangles
/// `[0, 2, 1]` and `[1, 2, 3]` wind outward.
pub open spec fn corner_offset(s: Side, j: int) -> (int, int, int)
    recommends 0 <= j < 4,
{
    match (s.axis, s.positive) {
        (Axis::X, false) => if j == 0 { (-1, -1, 1) } else if j == 1 { (-1, -1, -1) }
            else if j == 2 { (-1, 1, 1) } else { (-1, 1, -1) },
        (Axis::X, true) => if j == 0 { (1, -1, -1) } else if j == 1 { (1, -1, 1) }
            else if j == 2 { (1, 1, -1) } else { (1, 1, 1) },
        (Axis::Y, false) => if j == 0 { (-1, -1, 1) } else if j == 1 { (1, -1, 1) }
            else if j == 2 { (-1, -1, -1) } else { (1, -1, -1) },
        (Axis::Y, true) => if j == 0 { (-1, 1, 1) } else if j == 1 { (-1, 1, -1) }
            else if j == 2 { (1, 1, 1) } else { (1, 1, -1) },
        (Axis::Z, false) => if j == 0 { (-1, -1, -1) } else if j == 1 { (1, -1, -1) }
            else if j == 2 { (-1, 1, -1) } else { (1, 1, -1) },
        (Axis::Z, true) => if j == 0 { (1, -1, 1) } else if j == 1 { (-1, -1, 1) }
            else if j == 2 { (1, 1, 1) } else { (-1, 1, 1) },
    }
}

/// Corner `j` of a face in half-voxel units: the stencil offset translated
/// by twice the voxel coordinate, shifted by one to undo the padding ring.
pub open spec fn face_corner(s: Side, q: Quad, j: int) -> (int, int, int)
    recommends 0 <= j < 4,
{
    let (ox, oy, oz) = corner_offset(s, j);
    (2 * (q.voxel[0] - 1) + ox, 2 * (q.voxel[1] - 1) + oy, 2 * (q.voxel[2] - 1) + oz)
}

impl Face {
    /// The six vertex indices of the face's two triangles, relative to the
    /// number of vertices already in the buffer: winding `[0, 2, 1, 1, 2, 3]`.
    pub fn indices(&self, start: u32) -> (r: [u32; 6])
        requires
            start + 3 <= u32::MAX,
        ensures
            r[0] == start && r[1] == start + 2 && r[2] == start + 1
                && r[3] == start + 1 && r[4] == start + 2 && r[5] == start + 3,
    {
        [start, start + 2, start + 1, start + 1, start + 2, start + 3]
    }

    /// The four corner positions of the face in half-voxel units.
    pub fn positions(&self) -> (r: [(i32, i32, i32); 4])
        requires
            quad_wf(self.quad),
        ensures
            forall|j: int| 0 <= j < 4 ==>
                ((#[trigger] r[j]).0 as int, r[j].1 as int, r[j].2 as int)
                    == face_corner(self.side, self.quad, j),
    {
        let bx: i32 = 2 * (self.quad.voxel[0] as i32 - 1);
        let by: i32 = 2 * (self.quad.voxel[1] as i32 - 1);
        let bz: i32 = 2 * (self.quad.voxel[2] as i32 - 1);
        match (self.side.axis, self.side.positive) {
            (Axis::X, false) => [
                (bx - 1, by - 1, bz + 1),
                (bx - 1, by - 1, bz - 1),
                (bx - 1, by + 1, bz + 1),
                (bx - 1, by + 1, bz - 1),
            ],
            (Axis::X, true) => [
                (bx + 1, by - 1, bz - 1),
                (bx + 1, by - 1, bz + 1),
                (bx + 1, by + 1, bz - 1),
                (bx + 1, by + 1, bz + 1),
            ],
            (Axis::Y, false) => [
                (bx - 1, by - 1, bz + 1),
                (bx + 1, by - 1, bz + 1),
                (bx - 1, by - 1, bz - 1),
                (bx + 1, by - 1, bz - 1),
            ],
            (Axis::Y, true) => [
                (bx - 1, by + 1, bz + 1),
                (bx - 1, by + 1, bz - 1),
                (bx + 1, by + 1, bz + 1),
                (bx + 1, by + 1, bz - 1),
            ],
            (Axis::Z, false) => [
                (bx - 1, by - 1, bz - 1),
                (bx + 1, by - 1, bz - 1),
                (bx - 1, by + 1, bz - 1),
                (bx + 1, by + 1, bz - 1),
            ],
            (Axis::Z, true) => [
                (bx + 1, by - 1, bz + 1),
                (bx - 1, by - 1, bz + 1),
                (bx + 1, by + 1, bz + 1),
                (bx - 1, by + 1, bz + 1),
            ],
        }
    }

    /// The outward unit normal of the face, once per corner.
    pub fn normals(&self) -> (r: [(i32, i32, i32); 4])
        ensures
            forall|j: int| 0 <= j < 4 ==>
                ((#[trigger] r[j]).0 as int, r[j].1 as int, r[j].2 as int)
                    == normal_of(self.side),
    {
        self.side.normals()
    }

    /// The face color, once per corner.
    pub fn colors(&self) -> (r: [Color; 4])
        ensures
            forall|j: int| 0 <= j < 4 ==> #[trigger] r[j] == self.quad.color,
    {
        [self.quad.color, self.quad.color, self.quad.color, self.quad.color]
    }

    /// The padded-local coordinate of the voxel that emitted this face.
    pub fn voxel(&self) -> (r: [usize; 3])
        ensures
            r == self.quad.voxel,
    {
        self.quad.voxel
    }
}

} // verus!
