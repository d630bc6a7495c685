use vstd::prelude::*;
use crate::chunk::{
    chunk_quads, lemma_chunk_quads_bounds, lemma_empty_chunk_no_quads, terrain_cells, ChunkMesh,
    MAX_CHUNK_EDGE,
};
use crate::color::Color;
use crate::face::{face_corner, Face};
use crate::position::Position;
use crate::quad::{quad_wf, total_quads, Quad, QuadGroups};
use crate::side::{normal_of, side_of_index, Side};
use crate::voxel::Voxel;

verus! {

/// The most quads one meshing pass can hand to the buffer builder: six
/// groups of one quad per interior cell at the largest edge length. Four
/// corners per quad then still fit a `u32` vertex index.
pub const MAX_TOTAL_QUADS: usize = 100663296;

/// The geometry of one chunk, ready for a renderer: one entry per vertex
/// in the three vertex buffers, and two triangles per face in the index
/// buffer. Positions are in half-voxel units and normals are unit integer
/// vectors; a renderer scales them with its voxel size.
pub struct MeshBuffers {
    pub positions: Vec<(i32, i32, i32)>,
    pub normals: Vec<(i32, i32, i32)>,
    pub colors: Vec<Color>,
    pub indices: Vec<u32>,
}

/// The quads of one group paired with their side, in group order.
pub open spec fn map_side(quads: Seq<Quad>, d: int) -> Seq<Face> {
    quads.map(|k: int, q: Quad| Face { side: side_of_index(d), quad: q })
}

/// The faces of the first `d` groups, group by group.
pub open spec fn faces_upto(g: QuadGroups, d: int) -> Seq<Face>
    decreases d,
{
    if d < 1 {
        Seq::empty()
    } else {
        faces_upto(g, d - 1) + map_side(g.groups[d - 1]@, d - 1)
    }
}

/// Every face of all six groups, in group order: the order in which the
/// buffer builder walks them.
pub open spec fn all_faces(g: QuadGroups) -> Seq<Face> {
    faces_upto(g, 6)
}

/// The faces a whole meshing pass over a cell volume produces.
pub open spec fn chunk_faces(cells: Seq<Voxel>, dim: int) -> Seq<Face> {
    map_side(chunk_quads(cells, dim, 0), 0) + map_side(chunk_quads(cells, dim, 1), 1)
        + map_side(chunk_quads(cells, dim, 2), 2) + map_side(chunk_quads(cells, dim, 3), 3)
        + map_side(chunk_quads(cells, dim, 4), 4) + map_side(chunk_quads(cells, dim, 5), 5)
}

/// The total number of quads a whole meshing pass over a cell volume emits.
pub open spec fn chunk_quad_count(cells: Seq<Voxel>, dim: int) -> int {
    chunk_quads(cells, dim, 0).len() as int + chunk_quads(cells, dim, 1).len() as int
        + chunk_quads(cells, dim, 2).len() as int + chunk_quads(cells, dim, 3).len() as int
        + chunk_quads(cells, dim, 4).len() as int + chunk_quads(cells, dim, 5).len() as int
}

/// The vertex index offset of corner `j` within one face's six triangle
/// indices: the winding `[0, 2, 1, 1, 2, 3]`.
pub open spec fn corner_index_offset(j: int) -> int {
    if j == 0 {
        0
    } else if j == 1 {
        2
    } else if j == 2 {
        1
    } else if j == 3 {
        1
    } else if j == 4 {
        2
    } else {
        3
    }
}

/// What it means for geometry buffers to expand a face list exactly:
/// per face `k`, vertices `4k .. 4k + 4` hold its four stencil corners,
/// normals and colors repeat its side's normal and its quad's color, and
/// indices `6k .. 6k + 6` hold the two triangles `[0, 2, 1, 1, 2, 3]`
/// offset by the face's own vertex base `4k`; every index stays within
/// the vertex buffers.
pub open spec fn buffers_match(b: MeshBuffers, faces: Seq<Face>) -> bool {
    &&& b.positions@.len() == 4 * faces.len()
    &&& b.normals@.len() == 4 * faces.len()
    &&& b.colors@.len() == 4 * faces.len()
    &&& b.indices@.len() == 6 * faces.len()
    &&& forall|m: int| 0 <= m < b.positions@.len() ==> {
        let p = #[trigger] b.positions@[m];
        (p.0 as int, p.1 as int, p.2 as int) == face_corner(
            faces[m / 4].side,
            faces[m / 4].quad,
            m % 4,
        )
    }
    &&& forall|m: int| 0 <= m < b.normals@.len() ==> {
        let nv = #[trigger] b.normals@[m];
        (nv.0 as int, nv.1 as int, nv.2 as int) == normal_of(faces[m / 4].side)
    }
    &&& forall|m: int| 0 <= m < b.colors@.len()
        ==> #[trigger] b.colors@[m] == faces[m / 4].quad.color
    &&& forall|m: int| 0 <= m < b.indices@.len() ==> {
        &&& (#[trigger] b.indices@[m]) as int == 4 * (m / 6) + corner_index_offset(m % 6)
        &&& (b.indices@[m] as int) < b.positions@.len()
    }
}

impl QuadGroups {
    /// Flattens the six groups into one face list, pairing every quad with
    /// its group's side, in group order.
    pub fn faces(&self) -> (r: Vec<Face>)
        ensures
            r@ == all_faces(*self),
            r@.len() == total_quads(*self),
    {
        let mut r: Vec<Face> = Vec::new();
        let mut d: usize = 0;
        while d < 6
            invariant
                d <= 6,
                r@ == faces_upto(*self, d as int),
            decreases 6 - d,
        {
            let side = Side::from_index(d);
            let group = &self.groups[d];
            let mut k: usize = 0;
            while k < group.len()
                invariant
                    d < 6,
                    side == side_of_index(d as int),
                    group == &self.groups[d as int],
                    k <= group@.len(),
                    r@ == faces_upto(*self, d as int) + map_side(group@, d as int).take(k as int),
                decreases group@.len() - k,
            {
                let face = Face { side, quad: group[k] };
                proof {
                    let gf = map_side(group@, d as int);
                    assert(gf[k as int] == face);
                    assert(gf.take(k as int + 1) =~= gf.take(k as int).push(gf[k as int]));
                    assert(r@.push(face) =~= faces_upto(*self, d as int) + gf.take(k as int + 1));
                }
                r.push(face);
                k = k + 1;
            }
            proof {
                let gf = map_side(group@, d as int);
                assert(gf.take(group@.len() as int) =~= gf);
                assert(r@ =~= faces_upto(*self, d as int + 1));
            }
            d = d + 1;
        }
        proof {
            lemma_all_faces_len(*self);
        }
        r
    }
}

/// The face list of all six groups is exactly as long as the groups
/// together.
proof fn lemma_all_faces_len(g: QuadGroups)
    ensures
        all_faces(g).len() == total_quads(g),
{
    assert(faces_upto(g, 0).len() == 0);
    assert(faces_upto(g, 1).len() == g.groups[0]@.len());
    assert(faces_upto(g, 2).len() == faces_upto(g, 1).len() + g.groups[1]@.len());
    assert(faces_upto(g, 3).len() == faces_upto(g, 2).len() + g.groups[2]@.len());
    assert(faces_upto(g, 4).len() == faces_upto(g, 3).len() + g.groups[3]@.len());
    assert(faces_upto(g, 5).len() == faces_upto(g, 4).len() + g.groups[4]@.len());
    assert(faces_upto(g, 6).len() == faces_upto(g, 5).len() + g.groups[5]@.len());
}

/// Every face of a well-formed group set carries a well-formed quad.
proof fn lemma_faces_upto_wf(g: QuadGroups, d: int)
    requires
        0 <= d <= 6,
        forall|dd: int, k: int|
            0 <= dd < 6 && 0 <= k < g.groups[dd]@.len() ==> quad_wf(#[trigger] g.groups[dd]@[k]),
    ensures
        forall|k: int| 0 <= k < faces_upto(g, d).len()
            ==> quad_wf(#[trigger] faces_upto(g, d)[k].quad),
    decreases d,
{
    if d >= 1 {
        lemma_faces_upto_wf(g, d - 1);
    }
}

/// Expands every face of the six quad groups into combined vertex and
/// index buffers, face by face in group order.
pub fn build_mesh_buffers(g: &QuadGroups) -> (b: MeshBuffers)
    requires
        forall|dd: int, k: int|
            0 <= dd < 6 && 0 <= k < g.groups[dd]@.len() ==> quad_wf(#[trigger] g.groups[dd]@[k]),
        total_quads(*g) <= MAX_TOTAL_QUADS,
    ensures
        buffers_match(b, all_faces(*g)),
{
    let faces = g.faces();
    proof {
        lemma_faces_upto_wf(*g, 6);
    }
    let mut positions: Vec<(i32, i32, i32)> = Vec::new();
    let mut normals: Vec<(i32, i32, i32)> = Vec::new();
    let mut colors: Vec<Color> = Vec::new();
    let mut indices: Vec<u32> = Vec::new();
    let mut k: usize = 0;
    let n = faces.len();
    while k < n
        invariant
            n == faces@.len(),
            n <= MAX_TOTAL_QUADS,
            faces@ == all_faces(*g),
            forall|kk: int| 0 <= kk < n ==> quad_wf(#[trigger] faces@[kk].quad),
            k <= n,
            positions@.len() == 4 * k,
            normals@.len() == 4 * k,
            colors@.len() == 4 * k,
            indices@.len() == 6 * k,
            forall|m: int| 0 <= m < positions@.len() ==> {
                let p = #[trigger] positions@[m];
                (p.0 as int, p.1 as int, p.2 as int) == face_corner(
                    faces@[m / 4].side,
                    faces@[m / 4].quad,
                    m % 4,
                )
            },
            forall|m: int| 0 <= m < normals@.len() ==> {
                let nv = #[trigger] normals@[m];
                (nv.0 as int, nv.1 as int, nv.2 as int) == normal_of(faces@[m / 4].side)
            },
            forall|m: int| 0 <= m < colors@.len()
                ==> #[trigger] colors@[m] == faces@[m / 4].quad.color,
            forall|m: int| 0 <= m < indices@.len()
                ==> (#[trigger] indices@[m]) as int == 4 * (m / 6) + corner_index_offset(m % 6),
        decreases n - k,
    {
        let f = faces[k];
        let base: u32 = (4 * k) as u32;
        let inds = f.indices(base);
        let ps = f.positions();
        let ns = f.normals();
        let cs = f.colors();
        positions.push(ps[0]);
        positions.push(ps[1]);
        positions.push(ps[2]);
        positions.push(ps[3]);
        normals.push(ns[0]);
        normals.push(ns[1]);
        normals.push(ns[2]);
        normals.push(ns[3]);
        colors.push(cs[0]);
        colors.push(cs[1]);
        colors.push(cs[2]);
        colors.push(cs[3]);
        indices.push(inds[0]);
        indices.push(inds[1]);
        indices.push(inds[2]);
        indices.push(inds[3]);
        indices.push(inds[4]);
        indices.push(inds[5]);
        k = k + 1;
    }
    proof {
        assert forall|m: int| 0 <= m < indices@.len()
            implies (indices@[m] as int) < positions@.len() by {
            assert(m / 6 < n);
            assert(4 * (m / 6) + corner_index_offset(m % 6) < 4 * n);
        }
    }
    MeshBuffers { positions, normals, colors, indices }
}

/// The faces of groups that hold exactly a meshing pass's quads are the
/// pass's faces.
proof fn lemma_all_faces_chunk(g: QuadGroups, cells: Seq<Voxel>, dim: int)
    requires
        g.groups[0]@ == chunk_quads(cells, dim, 0),
        g.groups[1]@ == chunk_quads(cells, dim, 1),
        g.groups[2]@ == chunk_quads(cells, dim, 2),
        g.groups[3]@ == chunk_quads(cells, dim, 3),
        g.groups[4]@ == chunk_quads(cells, dim, 4),
        g.groups[5]@ == chunk_quads(cells, dim, 5),
    ensures
        all_faces(g) == chunk_faces(cells, dim),
{
    assert(faces_upto(g, 0) == Seq::<Face>::empty());
    assert(faces_upto(g, 1) == faces_upto(g, 0) + map_side(g.groups[0]@, 0));
    assert(faces_upto(g, 2) == faces_upto(g, 1) + map_side(g.groups[1]@, 1));
    assert(faces_upto(g, 3) == faces_upto(g, 2) + map_side(g.groups[2]@, 2));
    assert(faces_upto(g, 4) == faces_upto(g, 3) + map_side(g.groups[3]@, 3));
    assert(faces_upto(g, 5) == faces_upto(g, 4) + map_side(g.groups[4]@, 4));
    assert(faces_upto(g, 6) == faces_upto(g, 5) + map_side(g.groups[5]@, 5));
    assert(all_faces(g) =~= chunk_faces(cells, dim));
}

/// Runs the meshing pass over a populated volume and, only when some face
/// was emitted, expands the quads into geometry buffers; an all-air chunk
/// yields no mesh.
pub fn mesh_volume(chunk: &ChunkMesh) -> (r: Option<MeshBuffers>)
    requires
        chunk.wf(),
    ensures
        (r is None) <==> chunk_quad_count(chunk.voxels@, chunk.dim()) == 0,
        r matches Some(b) ==> buffers_match(b, chunk_faces(chunk.voxels@, chunk.dim())),
{
    let groups = chunk.generate_mesh();
    if groups.is_empty() {
        None
    } else {
        proof {
            let cells = chunk.voxels@;
            let dim = chunk.dim();
            lemma_chunk_quads_bounds(cells, dim, 0);
            lemma_chunk_quads_bounds(cells, dim, 1);
            lemma_chunk_quads_bounds(cells, dim, 2);
            lemma_chunk_quads_bounds(cells, dim, 3);
            lemma_chunk_quads_bounds(cells, dim, 4);
            lemma_chunk_quads_bounds(cells, dim, 5);
            assert((dim - 2) * (dim - 2) * (dim - 2) <= 256 * 256 * 256) by (nonlinear_arith)
                requires
                    3 <= dim <= 258,
            ;
            assert(total_quads(groups) <= MAX_TOTAL_QUADS);
            assert forall|dd: int, k: int|
                0 <= dd < 6 && 0 <= k < groups.groups[dd]@.len()
                    implies quad_wf(#[trigger] groups.groups[dd]@[k]) by {
                assert(groups.groups[dd]@ == chunk_quads(cells, dim, dd));
            }
        }
        let b = build_mesh_buffers(&groups);
        proof {
            lemma_all_faces_chunk(groups, chunk.voxels@, chunk.dim());
        }
        Some(b)
    }
}

/// The all-air law: when every column's terrain height lies below the
/// chunk's lowest interior cell, population leaves every cell empty, the
/// meshing pass emits no quad, and so a load job yields no mesh for the
/// coordinate.
pub proof fn lemma_airborne_chunk_no_mesh(position: Position, edge: int, heights: Seq<i64>)
    requires
        1 <= edge <= MAX_CHUNK_EDGE,
        heights.len() == (edge + 2) * (edge + 2),
        forall|k: int| 0 <= k < heights.len() ==> (#[trigger] heights[k]) < position.y * edge + 1,
    ensures
        forall|i: int| 0 <= i < terrain_cells(position, edge, heights).len()
            ==> terrain_cells(position, edge, heights)[i] == Voxel::Empty,
        chunk_quad_count(terrain_cells(position, edge, heights), edge + 2) == 0,
{
    let cells = terrain_cells(position, edge, heights);
    let dim = edge + 2;
    assert(cells.len() == dim * dim * dim);
    assert forall|i: int| 0 <= i < cells.len() implies cells[i] == Voxel::Empty by {
        let x = i % dim;
        let y = (i / dim) % dim;
        let z = i / (dim * dim);
        if 1 <= x <= edge && 1 <= y <= edge && 1 <= z <= edge {
            let col = x + dim * z;
            assert(0 <= x + dim * z < dim * dim) by (nonlinear_arith)
                requires
                    0 < dim,
                    1 <= x <= dim - 2,
                    1 <= z <= dim - 2,
            ;
            assert(0 <= col < dim * dim);
            assert(heights[col] < position.y * edge + 1);
            assert(position.y * edge + y >= position.y * edge + 1);
        }
    }
    lemma_empty_chunk_no_quads(cells, dim, 0);
    lemma_empty_chunk_no_quads(cells, dim, 1);
    lemma_empty_chunk_no_quads(cells, dim, 2);
    lemma_empty_chunk_no_quads(cells, dim, 3);
    lemma_empty_chunk_no_quads(cells, dim, 4);
    lemma_empty_chunk_no_quads(cells, dim, 5);
}

/// The whole background job for one load intent: build the volume for the
/// chunk coordinate, populate it from the column heights, mesh it, and
/// expand the geometry — or report that the chunk has no visible face.
pub fn chunk_load_job(position: Position, edge: usize, heights: &Vec<i64>) -> (r: Option<
    MeshBuffers,
>)
    requires
        1 <= edge <= MAX_CHUNK_EDGE,
        heights@.len() == (edge + 2) * (edge + 2),
    ensures
        ({
            let cells = terrain_cells(position, edge as int, heights@);
            &&& ((r is None) <==> chunk_quad_count(cells, edge + 2) == 0)
            &&& (r matches Some(b) ==> buffers_match(b, chunk_faces(cells, edge + 2)))
        }),
{
    let mut chunk = ChunkMesh::new(position, edge);
    chunk.populate(heights);
    mesh_volume(&chunk)
}

} // verus!
