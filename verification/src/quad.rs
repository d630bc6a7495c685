use vstd::prelude::*;
use crate::color::Color;

verus! {

/// The largest padded-local voxel coordinate a quad may carry; chosen so
/// that corner coordinates in half-voxel units always fit in an `i32`.
pub const MAX_VOXEL_COORD: usize = 0x4000_0000;

/// One axis-aligned unit face candidate: the padded-local coordinate of the
/// voxel that emits it, and the face color.
#[derive(Copy, Clone, Debug)]
pub struct Quad {
    pub voxel: [usize; 3],
    pub color: Color,
}

/// A quad is well formed when its voxel coordinate lies in the interior of
/// some padded volume: at least 1 on each axis, and small enough that the
/// derived corner coordinates fit the geometry buffers.
pub open spec fn quad_wf(q: Quad) -> bool {
    &&& 1 <= q.voxel[0] <= MAX_VOXEL_COORD
    &&& 1 <= q.voxel[1] <= MAX_VOXEL_COORD
    &&& 1 <= q.voxel[2] <= MAX_VOXEL_COORD
}

/// Six ordered quad lists, one per side, indexed as `side_of_index` maps them.
pub struct QuadGroups {
    pub groups: [Vec<Quad>; 6],
}

/// The total number of quads over all six groups.
pub open spec fn total_quads(g: QuadGroups) -> int {
    g.groups[0]@.len() as int + g.groups[1]@.len() as int + g.groups[2]@.len() as int
        + g.groups[3]@.len() as int + g.groups[4]@.len() as int + g.groups[5]@.len() as int
}

/// Whether every quad of every group is well formed.
pub open spec fn quad_groups_wf(g: QuadGroups) -> bool {
    forall|d: int, k: int|
        0 <= d < 6 && 0 <= k < g.groups[d]@.len() ==> quad_wf(#[trigger] g.groups[d]@[k])
}

impl Default for QuadGroups {
    /// Six empty groups.
    fn default() -> (r: QuadGroups)
        ensures
            forall|d: int| 0 <= d < 6 ==> (#[trigger] r.groups[d])@.len() == 0,
    {
        QuadGroups {
            groups: [Vec::new(), Vec::new(), Vec::new(), Vec::new(), Vec::new(), Vec::new()],
        }
    }
}

impl QuadGroups {
    /// True iff all six groups are empty, so the chunk has no visible face at all.
    pub fn is_empty(&self) -> (r: bool)
        ensures
            r == (total_quads(*self) == 0),
    {
        self.groups[0].len() == 0 && self.groups[1].len() == 0 && self.groups[2].len() == 0
            && self.groups[3].len() == 0 && self.groups[4].len() == 0
            && self.groups[5].len() == 0
    }
}

} // verus!
