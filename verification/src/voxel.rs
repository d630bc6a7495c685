use vstd::prelude::*;
use crate::color::Color;

verus! {

/// The three-valued visibility lattice a voxel maps into.
#[derive(Copy, Clone, Debug, PartialEq, Eq, Structural)]
pub enum Visibility {
    Empty,
    Opaque,
    Transparent,
}

/// One cell of a chunk volume: air, or a solid or translucent cube of one color.
#[derive(Copy, Clone, Debug, PartialEq, Eq, Structural)]
pub enum Voxel {
    Empty,
    Opaque(Color),
    Transparent(Color),
}

/// The visibility class of a voxel.
pub open spec fn visibility_of(v: Voxel) -> Visibility {
    match v {
        Voxel::Empty => Visibility::Empty,
        Voxel::Opaque(_) => Visibility::Opaque,
        Voxel::Transparent(_) => Visibility::Transparent,
    }
}

/// The color a voxel carries; empty voxels carry none.
pub open spec fn color_of(v: Voxel) -> Color
    recommends v is Opaque || v is Transparent,
{
    match v {
        Voxel::Empty => Color { red: 0, green: 0, blue: 0, alpha: 255 },
        Voxel::Opaque(c) => c,
        Voxel::Transparent(c) => c,
    }
}

/// The face-emission rule between a voxel and one of its axis neighbors:
/// a face is drawn where a visible voxel meets air, where a solid voxel
/// meets a translucent one, and between translucent voxels of different
/// colors; never between two solid voxels or behind a solid neighbor.
pub open spec fn emits(v: Voxel, neighbor: Voxel) -> bool {
    match (visibility_of(v), visibility_of(neighbor)) {
        (Visibility::Opaque, Visibility::Empty) => true,
        (Visibility::Opaque, Visibility::Transparent) => true,
        (Visibility::Transparent, Visibility::Empty) => true,
        (Visibility::Transparent, Visibility::Transparent) => v != neighbor,
        _ => false,
    }
}

impl Voxel {
    /// Maps each voxel variant onto the visibility lattice.
    pub fn visibility(&self) -> (r: Visibility)
        ensures
            r == visibility_of(*self),
    {
        match self {
            Voxel::Empty => Visibility::Empty,
            Voxel::Opaque(_) => Visibility::Opaque,
            Voxel::Transparent(_) => Visibility::Transparent,
        }
    }
}

/// Decides whether a face must be emitted between `voxel` and `neighbor`,
/// following the emission table exactly.
pub fn should_emit_face(voxel: Voxel, neighbor: Voxel) -> (r: bool)
    ensures
        r == emits(voxel, neighbor),
{
    match (voxel.visibility(), neighbor.visibility()) {
        (Visibility::Opaque, Visibility::Empty) => true,
        (Visibility::Opaque, Visibility::Transparent) => true,
        (Visibility::Transparent, Visibility::Empty) => true,
        (Visibility::Transparent, Visibility::Transparent) => voxel != neighbor,
        _ => false,
    }
}

} // verus!
