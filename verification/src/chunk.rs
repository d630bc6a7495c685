use vstd::prelude::*;
use vstd::arithmetic::div_mod::{lemma_div_denominator, lemma_fundamental_div_mod_converse};
use vstd::arithmetic::mul::lemma_mul_is_commutative;
use crate::color::Color;
use crate::position::Position;
use crate::voxel::{color_of, emits, should_emit_face, Voxel};
use crate::quad::{Quad, QuadGroups};
use crate::side::offset_of_index;

verus! {

/// The largest supported chunk edge length, in voxels per axis. Bounded so
/// that volume sizes, world coordinates and geometry buffer indices all fit
/// their fixed-width machine types.
pub const MAX_CHUNK_EDGE: usize = 256;

/// A renderable chunk: just its lattice coordinate.
pub struct Chunk {
    pub position: Position,
}

impl Chunk {
    /// Builds the marker for the chunk at `position`.
    pub fn new(position: Position) -> (c: Chunk)
        ensures
            c.position == position,
    {
        Chunk { position }
    }
}

/// The linearization of padded-local coordinates into a flat index, for a
/// padded volume of `dim` voxels per axis: `x + dim * (y + dim * z)`.
pub open spec fn lin(dim: int, x: int, y: int, z: int) -> int {
    x + dim * (y + dim * z)
}

/// The voxel a cell sequence holds at padded-local coordinates.
pub open spec fn vox_at(cells: Seq<Voxel>, dim: int, x: int, y: int, z: int) -> Voxel {
    cells[lin(dim, x, y, z)]
}

/// Whether the interior cell at `(x, y, z)` emits a face toward the side
/// with group index `d`: the emission rule applied to the cell and its
/// neighbor on that side.
pub open spec fn cell_emits(cells: Seq<Voxel>, dim: int, x: int, y: int, z: int, d: int) -> bool {
    let (ox, oy, oz) = offset_of_index(d);
    emits(vox_at(cells, dim, x, y, z), vox_at(cells, dim, x + ox, y + oy, z + oz))
}

/// The quad the cell at `(x, y, z)` contributes when it emits a face:
/// its own padded-local coordinate and its own color.
pub open spec fn cell_quad(cells: Seq<Voxel>, dim: int, x: int, y: int, z: int) -> Quad {
    Quad {
        voxel: [x as usize, y as usize, z as usize],
        color: color_of(vox_at(cells, dim, x, y, z)),
    }
}

/// The quads of group `d` contributed by row `(y, z)` of the interior,
/// from the cells at `x = 1 ..= xc`, in increasing `x` order.
pub open spec fn row_quads(cells: Seq<Voxel>, dim: int, z: int, y: int, d: int, xc: int) -> Seq<Quad>
    decreases xc,
{
    if xc < 1 {
        Seq::empty()
    } else {
        row_quads(cells, dim, z, y, d, xc - 1) + if cell_emits(cells, dim, xc, y, z, d) {
            seq![cell_quad(cells, dim, xc, y, z)]
        } else {
            Seq::empty()
        }
    }
}

/// The quads of group `d` contributed by layer `z` of the interior, from
/// the full rows at `y = 1 ..= yc`, rows in increasing `y` order.
pub open spec fn layer_quads(cells: Seq<Voxel>, dim: int, z: int, d: int, yc: int) -> Seq<Quad>
    decreases yc,
{
    if yc < 1 {
        Seq::empty()
    } else {
        layer_quads(cells, dim, z, d, yc - 1) + row_quads(cells, dim, z, yc, d, dim - 2)
    }
}

/// The quads of group `d` contributed by the full layers at `z = 1 ..= zc`,
/// layers in increasing `z` order.
pub open spec fn quads_upto(cells: Seq<Voxel>, dim: int, d: int, zc: int) -> Seq<Quad>
    decreases zc,
{
    if zc < 1 {
        Seq::empty()
    } else {
        quads_upto(cells, dim, d, zc - 1) + layer_quads(cells, dim, zc, d, dim - 2)
    }
}

/// All quads of group `d` a meshing pass over the whole interior emits,
/// in the pass's traversal order.
pub open spec fn chunk_quads(cells: Seq<Voxel>, dim: int, d: int) -> Seq<Quad> {
    quads_upto(cells, dim, d, dim - 2)
}

/// The palette color of a solid cell, selected by bands of absolute world
/// height: a low band up to the sea-level threshold, a mid band, and a high
/// band above it.
pub open spec fn band_color(wy: int) -> Color {
    if wy <= 3 {
        Color { red: 242, green: 231, blue: 122, alpha: 255 }
    } else if wy <= 20 {
        Color { red: 146, green: 142, blue: 133, alpha: 255 }
    } else {
        Color { red: 255, green: 250, blue: 250, alpha: 255 }
    }
}

/// What population writes into the cell at padded-local coordinates, given
/// the terrain height of every padded-local column: an interior cell at or
/// below its column's height becomes opaque in the band color of its
/// absolute world height, an interior cell above it stays empty, and the
/// one-voxel padding ring is never populated.
pub open spec fn terrain_voxel(
    position: Position,
    edge: int,
    heights: Seq<i64>,
    x: int,
    y: int,
    z: int,
) -> Voxel {
    if 1 <= x <= edge && 1 <= y <= edge && 1 <= z <= edge {
        let wy = position.y * edge + y;
        if wy <= heights[x + (edge + 2) * z] {
            Voxel::Opaque(band_color(wy))
        } else {
            Voxel::Empty
        }
    } else {
        Voxel::Empty
    }
}

/// The whole populated cell sequence of a chunk, cell by cell.
pub open spec fn terrain_cells(position: Position, edge: int, heights: Seq<i64>) -> Seq<Voxel> {
    let dim = edge + 2;
    Seq::new(
        (dim * dim * dim) as nat,
        |i: int| terrain_voxel(position, edge, heights, i % dim, (i / dim) % dim, i / (dim * dim)),
    )
}

/// A dense voxel volume for one chunk coordinate, padded by a one-voxel
/// ring on every face so that every interior voxel can read its six
/// neighbors without crossing into another chunk.
#[derive(Clone, Debug)]
pub struct ChunkMesh {
    pub voxels: Vec<Voxel>,
    pub position: Position,
    pub edge: usize,
}

impl ChunkMesh {
    /// The padded axis length: the edge length plus the two padding voxels.
    pub open spec fn dim(&self) -> int {
        self.edge + 2
    }

    /// Well-formedness: a supported edge length, and exactly one voxel per
    /// padded cell.
    pub open spec fn wf(&self) -> bool {
        &&& 1 <= self.edge <= MAX_CHUNK_EDGE
        &&& self.voxels@.len() == self.dim() * self.dim() * self.dim()
    }

    /// The voxel the volume holds at padded-local coordinates.
    pub open spec fn spec_get(&self, x: int, y: int, z: int) -> Voxel {
        vox_at(self.voxels@, self.dim(), x, y, z)
    }

    /// Allocates the padded volume for the chunk at `position`, every cell
    /// empty, for a chunk of `edge` voxels per axis.
    pub fn new(position: Position, edge: usize) -> (c: ChunkMesh)
        requires
            1 <= edge <= MAX_CHUNK_EDGE,
        ensures
            c.wf(),
            c.position == position,
            c.edge == edge,
            forall|i: int| 0 <= i < c.voxels@.len() ==> c.voxels@[i] == Voxel::Empty,
    {
        let dim = edge + 2;
        proof {
            lemma_dim_cube_fits(dim as int);
        }
        let size = dim * dim * dim;
        let mut voxels: Vec<Voxel> = Vec::new();
        let mut i: usize = 0;
        while i < size
            invariant
                i <= size,
                voxels@.len() == i,
                forall|j: int| 0 <= j < i ==> voxels@[j] == Voxel::Empty,
            decreases size - i,
        {
            voxels.push(Voxel::Empty);
            i = i + 1;
        }
        ChunkMesh { voxels, position, edge }
    }

    /// The number of cells in the padded volume.
    pub fn size(&self) -> (s: usize)
        requires
            self.wf(),
        ensures
            s == self.dim() * self.dim() * self.dim(),
    {
        let dim = self.edge + 2;
        proof {
            lemma_dim_cube_fits(dim as int);
        }
        dim * dim * dim
    }

    /// Flattens padded-local coordinates into the volume's linear index.
    pub fn linearize(&self, x: usize, y: usize, z: usize) -> (i: usize)
        requires
            self.wf(),
            x < self.dim(),
            y < self.dim(),
            z < self.dim(),
        ensures
            i == lin(self.dim(), x as int, y as int, z as int),
            i < self.dim() * self.dim() * self.dim(),
    {
        let dim = self.edge + 2;
        proof {
            lemma_dim_cube_fits(dim as int);
            lemma_lin_bounds(dim as int, x as int, y as int, z as int);
            assert(y + dim * z <= dim * dim - 1 && dim * (y + dim * z) <= dim * dim * dim - dim)
                by (nonlinear_arith)
                requires
                    0 < dim,
                    y < dim,
                    z < dim,
            ;
        }
        x + dim * (y + dim * z)
    }

    /// Splits a linear index back into padded-local coordinates: the exact
    /// mathematical inverse of `linearize`.
    pub fn delinearize(&self, i: usize) -> (r: (usize, usize, usize))
        requires
            self.wf(),
            i < self.dim() * self.dim() * self.dim(),
        ensures
            r.0 == i as int % self.dim(),
            r.1 == (i as int / self.dim()) % self.dim(),
            r.2 == i as int / (self.dim() * self.dim()),
            r.0 < self.dim() && r.1 < self.dim() && r.2 < self.dim(),
            lin(self.dim(), r.0 as int, r.1 as int, r.2 as int) == i,
    {
        let dim = self.edge + 2;
        let x = i % dim;
        let rest = i / dim;
        let y = rest % dim;
        let z = rest / dim;
        proof {
            let d = dim as int;
            lemma_div_denominator(i as int, d, d);
            lemma_delinearize_bounds(d, i as int);
            lemma_roundtrip_from_index(d, i as int);
        }
        (x, y, z)
    }

    /// Reads the voxel at padded-local coordinates.
    pub fn get(&self, x: usize, y: usize, z: usize) -> (v: Voxel)
        requires
            self.wf(),
            x < self.dim(),
            y < self.dim(),
            z < self.dim(),
        ensures
            v == self.spec_get(x as int, y as int, z as int),
    {
        let i = self.linearize(x, y, z);
        self.voxels[i]
    }

    /// Deterministically fills the volume from the terrain heights of its
    /// padded-local columns: `heights[x + dim * z]` is the terrain surface
    /// height of column `(x, z)`, where `dim` is the padded axis length.
    /// Interior cells at or below their column's height become solid in a
    /// band color of their absolute world height; every other cell,
    /// the padding ring included, is left empty.
    pub fn populate(&mut self, heights: &Vec<i64>)
        requires
            old(self).wf(),
            heights@.len() == old(self).dim() * old(self).dim(),
        ensures
            final(self).wf(),
            final(self).position == old(self).position,
            final(self).edge == old(self).edge,
            final(self).voxels@ == terrain_cells(
                old(self).position,
                old(self).edge as int,
                heights@,
            ),
            forall|x: int, y: int, z: int|
                0 <= x < final(self).dim() && 0 <= y < final(self).dim()
                    && 0 <= z < final(self).dim()
                    ==> final(self).spec_get(x, y, z) == terrain_voxel(
                        old(self).position,
                        old(self).edge as int,
                        heights@,
                        x,
                        y,
                        z,
                    ),
    {
        let edge = self.edge;
        let position = self.position;
        let dim = edge + 2;
        proof {
            lemma_dim_cube_fits(dim as int);
        }
        let size = dim * dim * dim;
        let mut cells: Vec<Voxel> = Vec::new();
        let mut i: usize = 0;
        while i < size
            invariant
                *self == *old(self),
                self.wf(),
                edge == self.edge,
                position == self.position,
                dim == edge + 2,
                size == dim * dim * dim,
                heights@.len() == dim * dim,
                i <= size,
                cells@.len() == i,
                forall|j: int| 0 <= j < i ==> cells@[j] == terrain_voxel(
                    position,
                    edge as int,
                    heights@,
                    j % (dim as int),
                    (j / (dim as int)) % (dim as int),
                    j / ((dim as int) * (dim as int)),
                ),
            decreases size - i,
        {
            let (x, y, z) = self.delinearize(i);
            let v: Voxel;
            if 1 <= x && x <= edge && 1 <= y && y <= edge && 1 <= z && z <= edge {
                proof {
                    lemma_world_height_fits(position.y as int, edge as int, y as int);
                    lemma_dim_cube_fits(dim as int);
                    assert(x + dim * z < dim * dim) by (nonlinear_arith)
                        requires
                            0 < dim,
                            x < dim,
                            z < dim,
                    ;
                }
                let wy: i64 = position.y as i64 * edge as i64 + y as i64;
                let col = x + dim * z;
                if wy <= heights[col] {
                    let c = if wy <= 3 {
                        Color::new(242, 231, 122)
                    } else if wy <= 20 {
                        Color::new(146, 142, 133)
                    } else {
                        Color::new(255, 250, 250)
                    };
                    v = Voxel::Opaque(c);
                } else {
                    v = Voxel::Empty;
                }
            } else {
                v = Voxel::Empty;
            }
            cells.push(v);
            i = i + 1;
        }
        self.voxels = cells;
        proof {
            let d = dim as int;
            assert(self.voxels@ =~= terrain_cells(position, edge as int, heights@));
            assert forall|x: int, y: int, z: int|
                0 <= x < d && 0 <= y < d && 0 <= z < d
                    implies self.spec_get(x, y, z) == terrain_voxel(
                        position, edge as int, heights@, x, y, z,
                    ) by {
                lemma_lin_bounds(d, x, y, z);
                lemma_linearize_roundtrip(d, x, y, z);
            }
        }
    }

    /// Runs the face-culling meshing pass over every interior voxel and
    /// groups the emitted quads by the six sides, each group in the pass's
    /// traversal order.
    pub fn generate_mesh(&self) -> (r: QuadGroups)
        requires
            self.wf(),
        ensures
            r.groups[0]@ == chunk_quads(self.voxels@, self.dim(), 0),
            r.groups[1]@ == chunk_quads(self.voxels@, self.dim(), 1),
            r.groups[2]@ == chunk_quads(self.voxels@, self.dim(), 2),
            r.groups[3]@ == chunk_quads(self.voxels@, self.dim(), 3),
            r.groups[4]@ == chunk_quads(self.voxels@, self.dim(), 4),
            r.groups[5]@ == chunk_quads(self.voxels@, self.dim(), 5),
    {
        let edge = self.edge;
        let dim = edge + 2;
        let ghost cells = self.voxels@;
        let ghost dd = dim as int;
        let mut g0: Vec<Quad> = Vec::new();
        let mut g1: Vec<Quad> = Vec::new();
        let mut g2: Vec<Quad> = Vec::new();
        let mut g3: Vec<Quad> = Vec::new();
        let mut g4: Vec<Quad> = Vec::new();
        let mut g5: Vec<Quad> = Vec::new();
        let mut z: usize = 1;
        while z <= edge
            invariant
                self.wf(),
                edge == self.edge,
                dim == edge + 2,
                dd == dim as int,
                cells == self.voxels@,
                1 <= z <= edge + 1,
                g0@ == quads_upto(cells, dd, 0, z - 1),
                g1@ == quads_upto(cells, dd, 1, z - 1),
                g2@ == quads_upto(cells, dd, 2, z - 1),
                g3@ == quads_upto(cells, dd, 3, z - 1),
                g4@ == quads_upto(cells, dd, 4, z - 1),
                g5@ == quads_upto(cells, dd, 5, z - 1),
            decreases edge + 1 - z,
        {
            let mut y: usize = 1;
            while y <= edge
                invariant
                    self.wf(),
                    edge == self.edge,
                    dim == edge + 2,
                    dd == dim as int,
                    cells == self.voxels@,
                    1 <= z <= edge,
                    1 <= y <= edge + 1,
                    g0@ == quads_upto(cells, dd, 0, z - 1)
                        + layer_quads(cells, dd, z as int, 0, y - 1),
                    g1@ == quads_upto(cells, dd, 1, z - 1)
                        + layer_quads(cells, dd, z as int, 1, y - 1),
                    g2@ == quads_upto(cells, dd, 2, z - 1)
                        + layer_quads(cells, dd, z as int, 2, y - 1),
                    g3@ == quads_upto(cells, dd, 3, z - 1)
                        + layer_quads(cells, dd, z as int, 3, y - 1),
                    g4@ == quads_upto(cells, dd, 4, z - 1)
                        + layer_quads(cells, dd, z as int, 4, y - 1),
                    g5@ == quads_upto(cells, dd, 5, z - 1)
                        + layer_quads(cells, dd, z as int, 5, y - 1),
                decreases edge + 1 - y,
            {
                let mut x: usize = 1;
                while x <= edge
                    invariant
                        self.wf(),
                        edge == self.edge,
                        dim == edge + 2,
                        dd == dim as int,
                        cells == self.voxels@,
                        1 <= z <= edge,
                        1 <= y <= edge,
                        1 <= x <= edge + 1,
                        g0@ == quads_upto(cells, dd, 0, z - 1)
                            + layer_quads(cells, dd, z as int, 0, y - 1)
                            + row_quads(cells, dd, z as int, y as int, 0, x - 1),
                        g1@ == quads_upto(cells, dd, 1, z - 1)
                            + layer_quads(cells, dd, z as int, 1, y - 1)
                            + row_quads(cells, dd, z as int, y as int, 1, x - 1),
                        g2@ == quads_upto(cells, dd, 2, z - 1)
                            + layer_quads(cells, dd, z as int, 2, y - 1)
                            + row_quads(cells, dd, z as int, y as int, 2, x - 1),
                        g3@ == quads_upto(cells, dd, 3, z - 1)
                            + layer_quads(cells, dd, z as int, 3, y - 1)
                            + row_quads(cells, dd, z as int, y as int, 3, x - 1),
                        g4@ == quads_upto(cells, dd, 4, z - 1)
                            + layer_quads(cells, dd, z as int, 4, y - 1)
                            + row_quads(cells, dd, z as int, y as int, 4, x - 1),
                        g5@ == quads_upto(cells, dd, 5, z - 1)
                            + layer_quads(cells, dd, z as int, 5, y - 1)
                            + row_quads(cells, dd, z as int, y as int, 5, x - 1),
                    decreases edge + 1 - x,
                {
                    let v = self.get(x, y, z);
                    match v {
                        Voxel::Opaque(_) | Voxel::Transparent(_) => {
                            let color = match v {
                                Voxel::Opaque(c) => c,
                                Voxel::Transparent(c) => c,
                                Voxel::Empty => Color::new(0, 0, 0),
                            };
                            let quad = Quad { voxel: [x, y, z], color };
                            assert(quad == cell_quad(cells, dd, x as int, y as int, z as int));
                            if should_emit_face(v, self.get(x - 1, y, z)) {
                                g0.push(quad);
                            }
                            if should_emit_face(v, self.get(x + 1, y, z)) {
                                g1.push(quad);
                            }
                            if should_emit_face(v, self.get(x, y - 1, z)) {
                                g2.push(quad);
                            }
                            if should_emit_face(v, self.get(x, y + 1, z)) {
                                g3.push(quad);
                            }
                            if should_emit_face(v, self.get(x, y, z - 1)) {
                                g4.push(quad);
                            }
                            if should_emit_face(v, self.get(x, y, z + 1)) {
                                g5.push(quad);
                            }
                        }
                        Voxel::Empty => {}
                    }
                    proof {
                        let xi = x as int;
                        let yi = y as int;
                        let zi = z as int;
                        assert(g0@ =~= quads_upto(cells, dd, 0, zi - 1)
                            + layer_quads(cells, dd, zi, 0, yi - 1)
                            + row_quads(cells, dd, zi, yi, 0, xi));
                        assert(g1@ =~= quads_upto(cells, dd, 1, zi - 1)
                            + layer_quads(cells, dd, zi, 1, yi - 1)
                            + row_quads(cells, dd, zi, yi, 1, xi));
                        assert(g2@ =~= quads_upto(cells, dd, 2, zi - 1)
                            + layer_quads(cells, dd, zi, 2, yi - 1)
                            + row_quads(cells, dd, zi, yi, 2, xi));
                        assert(g3@ =~= quads_upto(cells, dd, 3, zi - 1)
                            + layer_quads(cells, dd, zi, 3, yi - 1)
                            + row_quads(cells, dd, zi, yi, 3, xi));
                        assert(g4@ =~= quads_upto(cells, dd, 4, zi - 1)
                            + layer_quads(cells, dd, zi, 4, yi - 1)
                            + row_quads(cells, dd, zi, yi, 4, xi));
                        assert(g5@ =~= quads_upto(cells, dd, 5, zi - 1)
                            + layer_quads(cells, dd, zi, 5, yi - 1)
                            + row_quads(cells, dd, zi, yi, 5, xi));
                    }
                    x = x + 1;
                }
                proof {
                    let yi = y as int;
                    let zi = z as int;
                    assert forall|d: int| 0 <= d < 6 implies layer_quads(cells, dd, zi, d, yi)
                        == layer_quads(cells, dd, zi, d, yi - 1)
                            + row_quads(cells, dd, zi, yi, d, dd - 2) by {}
                    assert(g0@ =~= quads_upto(cells, dd, 0, zi - 1)
                        + layer_quads(cells, dd, zi, 0, yi));
                    assert(g1@ =~= quads_upto(cells, dd, 1, zi - 1)
                        + layer_quads(cells, dd, zi, 1, yi));
                    assert(g2@ =~= quads_upto(cells, dd, 2, zi - 1)
                        + layer_quads(cells, dd, zi, 2, yi));
                    assert(g3@ =~= quads_upto(cells, dd, 3, zi - 1)
                        + layer_quads(cells, dd, zi, 3, yi));
                    assert(g4@ =~= quads_upto(cells, dd, 4, zi - 1)
                        + layer_quads(cells, dd, zi, 4, yi));
                    assert(g5@ =~= quads_upto(cells, dd, 5, zi - 1)
                        + layer_quads(cells, dd, zi, 5, yi));
                }
                y = y + 1;
            }
            proof {
                let zi = z as int;
                assert(g0@ =~= quads_upto(cells, dd, 0, zi));
                assert(g1@ =~= quads_upto(cells, dd, 1, zi));
                assert(g2@ =~= quads_upto(cells, dd, 2, zi));
                assert(g3@ =~= quads_upto(cells, dd, 3, zi));
                assert(g4@ =~= quads_upto(cells, dd, 4, zi));
                assert(g5@ =~= quads_upto(cells, dd, 5, zi));
            }
            z = z + 1;
        }
        QuadGroups { groups: [g0, g1, g2, g3, g4, g5] }
    }

    /// True iff every cell of the volume, padding included, is empty air.
    pub fn is_empty(&self) -> (r: bool)
        requires
            self.wf(),
        ensures
            r == (forall|i: int| 0 <= i < self.voxels@.len()
                ==> self.voxels@[i] == Voxel::Empty),
    {
        let mut i: usize = 0;
        let len = self.voxels.len();
        while i < len
            invariant
                i <= len,
                len == self.voxels@.len(),
                forall|j: int| 0 <= j < i ==> self.voxels@[j] == Voxel::Empty,
            decreases len - i,
        {
            if !(matches!(self.voxels[i], Voxel::Empty)) {
                return false;
            }
            i = i + 1;
        }
        true
    }
}

/// A padded volume of a supported edge length holds at most `258^3` cells,
/// so its size arithmetic never overflows a `usize`.
proof fn lemma_dim_cube_fits(dim: int)
    requires
        0 < dim <= 258,
    ensures
        dim * dim <= 258 * 258,
        dim * dim * dim <= 258 * 258 * 258,
{
    assert(dim * dim <= 258 * 258 && dim * dim * dim <= 258 * 258 * 258) by (nonlinear_arith)
        requires
            0 < dim <= 258,
    ;
}

/// Every quad of the list carries an interior padded-local coordinate of a
/// volume with padded axis length `dim`.
pub open spec fn quads_in_range(s: Seq<Quad>, dim: int) -> bool {
    forall|k: int| 0 <= k < s.len() ==> {
        let q = #[trigger] s[k];
        &&& 1 <= q.voxel[0] <= dim - 2
        &&& 1 <= q.voxel[1] <= dim - 2
        &&& 1 <= q.voxel[2] <= dim - 2
    }
}

proof fn lemma_row_quads_range(cells: Seq<Voxel>, dim: int, z: int, y: int, d: int, xc: int)
    requires
        dim <= 258,
        1 <= y <= dim - 2,
        1 <= z <= dim - 2,
        xc <= dim - 2,
    ensures
        quads_in_range(row_quads(cells, dim, z, y, d, xc), dim),
        row_quads(cells, dim, z, y, d, xc).len() <= if xc < 1 { 0 } else { xc },
    decreases xc,
{
    if xc >= 1 {
        lemma_row_quads_range(cells, dim, z, y, d, xc - 1);
        if cell_emits(cells, dim, xc, y, z, d) {
            let q = cell_quad(cells, dim, xc, y, z);
            assert(q.voxel[0] == xc && q.voxel[1] == y && q.voxel[2] == z);
        }
    }
}

proof fn lemma_layer_quads_range(cells: Seq<Voxel>, dim: int, z: int, d: int, yc: int)
    requires
        1 <= z <= dim - 2,
        3 <= dim <= 258,
        yc <= dim - 2,
    ensures
        quads_in_range(layer_quads(cells, dim, z, d, yc), dim),
        layer_quads(cells, dim, z, d, yc).len() <= if yc < 1 { 0 } else { yc * (dim - 2) },
    decreases yc,
{
    if yc >= 1 {
        lemma_layer_quads_range(cells, dim, z, d, yc - 1);
        lemma_row_quads_range(cells, dim, z, yc, d, dim - 2);
        assert((yc - 1) * (dim - 2) + (dim - 2) == yc * (dim - 2)) by (nonlinear_arith);
        if yc - 1 < 1 {
            assert(yc * (dim - 2) >= dim - 2) by (nonlinear_arith)
                requires
                    yc >= 1,
                    dim >= 3,
            ;
        }
    }
}

proof fn lemma_quads_upto_range(cells: Seq<Voxel>, dim: int, d: int, zc: int)
    requires
        3 <= dim <= 258,
        zc <= dim - 2,
    ensures
        quads_in_range(quads_upto(cells, dim, d, zc), dim),
        quads_upto(cells, dim, d, zc).len() <= if zc < 1 { 0 } else { zc * (dim - 2) * (dim - 2) },
    decreases zc,
{
    if zc >= 1 {
        lemma_quads_upto_range(cells, dim, d, zc - 1);
        lemma_layer_quads_range(cells, dim, zc, d, dim - 2);
        assert((zc - 1) * (dim - 2) * (dim - 2) + (dim - 2) * (dim - 2)
            == zc * (dim - 2) * (dim - 2)) by (nonlinear_arith);
        if zc - 1 < 1 {
            assert(zc * (dim - 2) * (dim - 2) >= (dim - 2) * (dim - 2)) by (nonlinear_arith)
                requires
                    zc >= 1,
                    dim >= 3,
            ;
        }
    }
}

/// Every quad a meshing pass emits carries an interior coordinate, and a
/// whole group never holds more quads than the interior has cells.
pub proof fn lemma_chunk_quads_bounds(cells: Seq<Voxel>, dim: int, d: int)
    requires
        3 <= dim <= 258,
    ensures
        quads_in_range(chunk_quads(cells, dim, d), dim),
        chunk_quads(cells, dim, d).len() <= (dim - 2) * (dim - 2) * (dim - 2),
{
    lemma_quads_upto_range(cells, dim, d, dim - 2);
}

proof fn lemma_row_quads_all_empty(cells: Seq<Voxel>, dim: int, z: int, y: int, d: int, xc: int)
    requires
        0 < dim,
        cells.len() == dim * dim * dim,
        forall|i: int| 0 <= i < cells.len() ==> cells[i] == Voxel::Empty,
        1 <= y <= dim - 2,
        1 <= z <= dim - 2,
        xc <= dim - 2,
    ensures
        row_quads(cells, dim, z, y, d, xc).len() == 0,
    decreases xc,
{
    if xc >= 1 {
        lemma_row_quads_all_empty(cells, dim, z, y, d, xc - 1);
        lemma_lin_bounds(dim, xc, y, z);
        assert(vox_at(cells, dim, xc, y, z) == Voxel::Empty);
    }
}

proof fn lemma_layer_quads_all_empty(cells: Seq<Voxel>, dim: int, z: int, d: int, yc: int)
    requires
        0 < dim,
        cells.len() == dim * dim * dim,
        forall|i: int| 0 <= i < cells.len() ==> cells[i] == Voxel::Empty,
        1 <= z <= dim - 2,
        yc <= dim - 2,
    ensures
        layer_quads(cells, dim, z, d, yc).len() == 0,
    decreases yc,
{
    if yc >= 1 {
        lemma_layer_quads_all_empty(cells, dim, z, d, yc - 1);
        lemma_row_quads_all_empty(cells, dim, z, yc, d, dim - 2);
    }
}

proof fn lemma_quads_upto_all_empty(cells: Seq<Voxel>, dim: int, d: int, zc: int)
    requires
        0 < dim,
        cells.len() == dim * dim * dim,
        forall|i: int| 0 <= i < cells.len() ==> cells[i] == Voxel::Empty,
        zc <= dim - 2,
    ensures
        quads_upto(cells, dim, d, zc).len() == 0,
    decreases zc,
{
    if zc >= 1 {
        lemma_quads_upto_all_empty(cells, dim, d, zc - 1);
        lemma_layer_quads_all_empty(cells, dim, zc, d, dim - 2);
    }
}

/// An all-empty volume emits no quad at all, on any side.
pub proof fn lemma_empty_chunk_no_quads(cells: Seq<Voxel>, dim: int, d: int)
    requires
        0 < dim,
        cells.len() == dim * dim * dim,
        forall|i: int| 0 <= i < cells.len() ==> cells[i] == Voxel::Empty,
    ensures
        chunk_quads(cells, dim, d).len() == 0,
{
    lemma_quads_upto_all_empty(cells, dim, d, dim - 2);
}

/// A uniformly solid chunk: every interior cell holds the same opaque
/// color, and the padding ring is empty.
pub open spec fn uniform_solid(cells: Seq<Voxel>, dim: int, c: Color) -> bool {
    &&& cells.len() == dim * dim * dim
    &&& forall|x: int, y: int, z: int|
        1 <= x <= dim - 2 && 1 <= y <= dim - 2 && 1 <= z <= dim - 2
            ==> #[trigger] vox_at(cells, dim, x, y, z) == Voxel::Opaque(c)
    &&& forall|x: int, y: int, z: int|
        0 <= x < dim && 0 <= y < dim && 0 <= z < dim
            && !(1 <= x <= dim - 2 && 1 <= y <= dim - 2 && 1 <= z <= dim - 2)
            ==> #[trigger] vox_at(cells, dim, x, y, z) == Voxel::Empty
}

/// In a uniformly solid chunk, an interior cell emits toward side `d`
/// exactly when its neighbor on that side lies in the padding ring.
pub open spec fn shell_emit(dim: int, x: int, y: int, z: int, d: int) -> bool {
    if d == 0 {
        x == 1
    } else if d == 1 {
        x == dim - 2
    } else if d == 2 {
        y == 1
    } else if d == 3 {
        y == dim - 2
    } else if d == 4 {
        z == 1
    } else {
        z == dim - 2
    }
}

proof fn lemma_cell_emits_uniform(cells: Seq<Voxel>, dim: int, c: Color, x: int, y: int, z: int, d: int)
    requires
        uniform_solid(cells, dim, c),
        3 <= dim,
        1 <= x <= dim - 2,
        1 <= y <= dim - 2,
        1 <= z <= dim - 2,
        0 <= d < 6,
    ensures
        cell_emits(cells, dim, x, y, z, d) == shell_emit(dim, x, y, z, d),
{
    assert(vox_at(cells, dim, x, y, z) == Voxel::Opaque(c));
    let (ox, oy, oz) = offset_of_index(d);
    let (nx, ny, nz) = (x + ox, y + oy, z + oz);
    assert(0 <= nx < dim && 0 <= ny < dim && 0 <= nz < dim);
    if shell_emit(dim, x, y, z, d) {
        assert(vox_at(cells, dim, nx, ny, nz) == Voxel::Empty);
    } else {
        assert(vox_at(cells, dim, nx, ny, nz) == Voxel::Opaque(c));
    }
}

/// The number of quads of group `d` a uniformly solid chunk's row emits.
pub open spec fn solid_row_len(dim: int, z: int, y: int, d: int, xc: int) -> int {
    if d == 0 {
        if xc >= 1 { 1 } else { 0 }
    } else if d == 1 {
        if xc == dim - 2 { 1 } else { 0 }
    } else if d == 2 {
        if y == 1 { xc } else { 0 }
    } else if d == 3 {
        if y == dim - 2 { xc } else { 0 }
    } else if d == 4 {
        if z == 1 { xc } else { 0 }
    } else {
        if z == dim - 2 { xc } else { 0 }
    }
}

proof fn lemma_row_quads_solid(cells: Seq<Voxel>, dim: int, c: Color, z: int, y: int, d: int, xc: int)
    requires
        uniform_solid(cells, dim, c),
        3 <= dim <= 258,
        1 <= y <= dim - 2,
        1 <= z <= dim - 2,
        0 <= xc <= dim - 2,
        0 <= d < 6,
    ensures
        row_quads(cells, dim, z, y, d, xc).len() == solid_row_len(dim, z, y, d, xc),
    decreases xc,
{
    if xc >= 1 {
        lemma_row_quads_solid(cells, dim, c, z, y, d, xc - 1);
        lemma_cell_emits_uniform(cells, dim, c, xc, y, z, d);
    }
}

/// The number of quads of group `d` a uniformly solid chunk's layer emits.
pub open spec fn solid_layer_len(dim: int, z: int, d: int, yc: int) -> int {
    if d == 0 || d == 1 {
        yc
    } else if d == 2 {
        if yc >= 1 { dim - 2 } else { 0 }
    } else if d == 3 {
        if yc == dim - 2 { dim - 2 } else { 0 }
    } else if d == 4 {
        if z == 1 { yc * (dim - 2) } else { 0 }
    } else {
        if z == dim - 2 { yc * (dim - 2) } else { 0 }
    }
}

proof fn lemma_layer_quads_solid(cells: Seq<Voxel>, dim: int, c: Color, z: int, d: int, yc: int)
    requires
        uniform_solid(cells, dim, c),
        3 <= dim <= 258,
        1 <= z <= dim - 2,
        0 <= yc <= dim - 2,
        0 <= d < 6,
    ensures
        layer_quads(cells, dim, z, d, yc).len() == solid_layer_len(dim, z, d, yc),
    decreases yc,
{
    if yc >= 1 {
        lemma_layer_quads_solid(cells, dim, c, z, d, yc - 1);
        lemma_row_quads_solid(cells, dim, c, z, yc, d, dim - 2);
        assert((yc - 1) * (dim - 2) + (dim - 2) == yc * (dim - 2)) by (nonlinear_arith);
        assert(0 * (dim - 2) == 0) by (nonlinear_arith);
    }
}

/// The number of quads of group `d` the first `zc` layers of a uniformly
/// solid chunk emit.
pub open spec fn solid_upto_len(dim: int, d: int, zc: int) -> int {
    if d == 0 || d == 1 || d == 2 || d == 3 {
        zc * (dim - 2)
    } else if d == 4 {
        if zc >= 1 { (dim - 2) * (dim - 2) } else { 0 }
    } else {
        if zc == dim - 2 { (dim - 2) * (dim - 2) } else { 0 }
    }
}

proof fn lemma_quads_upto_solid(cells: Seq<Voxel>, dim: int, c: Color, d: int, zc: int)
    requires
        uniform_solid(cells, dim, c),
        3 <= dim <= 258,
        0 <= zc <= dim - 2,
        0 <= d < 6,
    ensures
        quads_upto(cells, dim, d, zc).len() == solid_upto_len(dim, d, zc),
    decreases zc,
{
    if zc >= 1 {
        lemma_quads_upto_solid(cells, dim, c, d, zc - 1);
        lemma_layer_quads_solid(cells, dim, c, zc, d, dim - 2);
        assert((zc - 1) * (dim - 2) + (dim - 2) == zc * (dim - 2)) by (nonlinear_arith);
        assert(0 * (dim - 2) == 0) by (nonlinear_arith);
    } else {
        assert(0 * (dim - 2) == 0) by (nonlinear_arith);
    }
}

/// The shell law of a uniformly solid chunk: every side's group holds
/// exactly one quad per interior boundary cell of that side, so each of
/// the six groups holds the square of the edge length.
pub proof fn lemma_solid_chunk_shell(cells: Seq<Voxel>, dim: int, c: Color, d: int)
    requires
        uniform_solid(cells, dim, c),
        3 <= dim <= 258,
        0 <= d < 6,
    ensures
        chunk_quads(cells, dim, d).len() == (dim - 2) * (dim - 2),
{
    lemma_quads_upto_solid(cells, dim, c, d, dim - 2);
}

/// A uniformly solid chunk emits exactly six times the squared edge length
/// of quads: its outer shell, one face per boundary cell, and nothing else.
pub proof fn lemma_solid_chunk_total(cells: Seq<Voxel>, dim: int, c: Color)
    requires
        uniform_solid(cells, dim, c),
        3 <= dim <= 258,
    ensures
        chunk_quads(cells, dim, 0).len() + chunk_quads(cells, dim, 1).len()
            + chunk_quads(cells, dim, 2).len() + chunk_quads(cells, dim, 3).len()
            + chunk_quads(cells, dim, 4).len() + chunk_quads(cells, dim, 5).len()
            == 6 * ((dim - 2) * (dim - 2)),
{
    lemma_solid_chunk_shell(cells, dim, c, 0);
    lemma_solid_chunk_shell(cells, dim, c, 1);
    lemma_solid_chunk_shell(cells, dim, c, 2);
    lemma_solid_chunk_shell(cells, dim, c, 3);
    lemma_solid_chunk_shell(cells, dim, c, 4);
    lemma_solid_chunk_shell(cells, dim, c, 5);
}

/// The absolute world height of an interior cell fits comfortably in an
/// `i64`, for any chunk coordinate and any supported edge length.
proof fn lemma_world_height_fits(py: int, edge: int, y: int)
    requires
        -0x8000_0000 <= py < 0x8000_0000,
        0 < edge <= 256,
        0 <= y <= 258,
    ensures
        -0x8000_0000_0000 <= py * edge <= 0x8000_0000_0000,
        i64::MIN <= py * edge + y <= i64::MAX,
{
    assert(-0x8000_0000_0000i64 <= py * edge <= 0x8000_0000_0000i64) by (nonlinear_arith)
        requires
            -0x8000_0000 <= py < 0x8000_0000,
            0 < edge <= 256,
    ;
}

/// The linear index of in-range coordinates lies within the volume.
pub proof fn lemma_lin_bounds(dim: int, x: int, y: int, z: int)
    requires
        0 < dim,
        0 <= x < dim,
        0 <= y < dim,
        0 <= z < dim,
    ensures
        0 <= lin(dim, x, y, z) < dim * dim * dim,
{
    assert(0 <= x + dim * (y + dim * z) < dim * dim * dim) by (nonlinear_arith)
        requires
            0 < dim,
            0 <= x < dim,
            0 <= y < dim,
            0 <= z < dim,
    ;
}

/// The three components recovered from any in-range linear index are
/// themselves in range.
proof fn lemma_delinearize_bounds(dim: int, i: int)
    requires
        0 < dim,
        0 <= i < dim * dim * dim,
    ensures
        0 <= i % dim < dim,
        0 <= (i / dim) % dim < dim,
        0 <= i / (dim * dim) < dim,
{
    assert(0 <= i % dim < dim && 0 <= (i / dim) % dim < dim && 0 <= i / (dim * dim) < dim)
        by (nonlinear_arith)
        requires
            0 < dim,
            0 <= i < dim * dim * dim,
    ;
}

/// Relinearizing the components of an in-range index gives the index back.
proof fn lemma_roundtrip_from_index(dim: int, i: int)
    requires
        0 < dim,
        0 <= i < dim * dim * dim,
    ensures
        lin(dim, i % dim, (i / dim) % dim, i / (dim * dim)) == i,
{
    assert(lin(dim, i % dim, (i / dim) % dim, i / (dim * dim)) == i) by (nonlinear_arith)
        requires
            0 < dim,
            0 <= i < dim * dim * dim,
    ;
}

/// The round-trip law of the volume indexing: for all in-range coordinates,
/// delinearizing the linearized index gives the coordinates back exactly.
pub proof fn lemma_linearize_roundtrip(dim: int, x: int, y: int, z: int)
    requires
        0 < dim,
        0 <= x < dim,
        0 <= y < dim,
        0 <= z < dim,
    ensures
        lin(dim, x, y, z) % dim == x,
        (lin(dim, x, y, z) / dim) % dim == y,
        lin(dim, x, y, z) / (dim * dim) == z,
{
    let i = lin(dim, x, y, z);
    let q = y + dim * z;
    lemma_lin_bounds(dim, x, y, z);
    lemma_mul_is_commutative(dim, q);
    lemma_fundamental_div_mod_converse(i, dim, q, x);
    lemma_mul_is_commutative(dim, z);
    lemma_fundamental_div_mod_converse(q, dim, z, y);
    lemma_div_denominator(i, dim, dim);
}

} // verus!
