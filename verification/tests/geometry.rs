use voxel_world::color::Color;
use voxel_world::face::Face;
use voxel_world::mesh::build_mesh_buffers;
use voxel_world::quad::{Quad, QuadGroups};
use voxel_world::side::{Axis, Side};
use voxel_world::voxel::{should_emit_face, Visibility, Voxel};

#[test]
fn color_new_sets_full_alpha() {
    let c = Color::new(7, 8, 9);
    assert_eq!(c.red, 7);
    assert_eq!(c.green, 8);
    assert_eq!(c.blue, 9);
    assert_eq!(c.alpha, 255);
}

#[test]
fn voxel_visibility_variants() {
    let c = Color::new(1, 2, 3);
    assert!(Voxel::Empty.visibility() == Visibility::Empty);
    assert!(Voxel::Opaque(c).visibility() == Visibility::Opaque);
    assert!(Voxel::Transparent(c).visibility() == Visibility::Transparent);
}

#[test]
fn emission_table_opaque_rows() {
    let c = Color::new(10, 20, 30);
    let d = Color::new(40, 50, 60);
    assert!(should_emit_face(Voxel::Opaque(c), Voxel::Empty));
    assert!(should_emit_face(Voxel::Opaque(c), Voxel::Transparent(d)));
    assert!(!should_emit_face(Voxel::Opaque(c), Voxel::Opaque(d)));
    assert!(!should_emit_face(Voxel::Opaque(c), Voxel::Opaque(c)));
}

#[test]
fn emission_table_transparent_rows() {
    let c = Color::new(10, 20, 30);
    let d = Color::new(40, 50, 60);
    assert!(should_emit_face(Voxel::Transparent(c), Voxel::Empty));
    assert!(!should_emit_face(Voxel::Transparent(c), Voxel::Opaque(d)));
    // Between translucent voxels a face appears exactly when colors differ.
    assert!(should_emit_face(Voxel::Transparent(c), Voxel::Transparent(d)));
    assert!(!should_emit_face(Voxel::Transparent(c), Voxel::Transparent(c)));
}

#[test]
fn emission_table_empty_rows() {
    let c = Color::new(10, 20, 30);
    assert!(!should_emit_face(Voxel::Empty, Voxel::Empty));
    assert!(!should_emit_face(Voxel::Empty, Voxel::Opaque(c)));
    assert!(!should_emit_face(Voxel::Empty, Voxel::Transparent(c)));
}

#[test]
fn side_from_index_mapping() {
    let s0 = Side::from_index(0);
    assert!(matches!(s0.axis, Axis::X) && !s0.positive);
    let s1 = Side::from_index(1);
    assert!(matches!(s1.axis, Axis::X) && s1.positive);
    let s2 = Side::from_index(2);
    assert!(matches!(s2.axis, Axis::Y) && !s2.positive);
    let s3 = Side::from_index(3);
    assert!(matches!(s3.axis, Axis::Y) && s3.positive);
    let s4 = Side::from_index(4);
    assert!(matches!(s4.axis, Axis::Z) && !s4.positive);
    let s5 = Side::from_index(5);
    assert!(matches!(s5.axis, Axis::Z) && s5.positive);
}

#[test]
fn side_normals_are_unit_vectors() {
    assert_eq!(Side::new(Axis::X, true).normal(), (1, 0, 0));
    assert_eq!(Side::new(Axis::X, false).normal(), (-1, 0, 0));
    assert_eq!(Side::new(Axis::Y, true).normal(), (0, 1, 0));
    assert_eq!(Side::new(Axis::Y, false).normal(), (0, -1, 0));
    assert_eq!(Side::new(Axis::Z, true).normal(), (0, 0, 1));
    assert_eq!(Side::new(Axis::Z, false).normal(), (0, 0, -1));
    let ns = Side::new(Axis::Z, false).normals();
    assert_eq!(ns, [(0, 0, -1); 4]);
}

#[test]
fn face_indices_winding() {
    let face = Face {
        side: Side::new(Axis::X, true),
        quad: Quad { voxel: [1, 1, 1], color: Color::new(0, 0, 0) },
    };
    assert_eq!(face.indices(0), [0, 2, 1, 1, 2, 3]);
    assert_eq!(face.indices(4), [4, 6, 5, 5, 6, 7]);
}

#[test]
fn face_positions_stencil_negative_x() {
    // Voxel (1, 1, 1) sits at the origin once the padding shift is undone.
    let face = Face {
        side: Side::new(Axis::X, false),
        quad: Quad { voxel: [1, 1, 1], color: Color::new(0, 0, 0) },
    };
    assert_eq!(
        face.positions(),
        [(-1, -1, 1), (-1, -1, -1), (-1, 1, 1), (-1, 1, -1)]
    );
}

#[test]
fn face_positions_stencil_positive_y_translated() {
    let face = Face {
        side: Side::new(Axis::Y, true),
        quad: Quad { voxel: [2, 3, 4], color: Color::new(0, 0, 0) },
    };
    assert_eq!(face.positions(), [(1, 5, 7), (1, 5, 5), (3, 5, 7), (3, 5, 5)]);
}

#[test]
fn face_voxel_and_colors() {
    let c = Color::new(9, 9, 9);
    let face = Face {
        side: Side::new(Axis::Z, true),
        quad: Quad { voxel: [5, 6, 7], color: c },
    };
    assert_eq!(face.voxel(), [5, 6, 7]);
    assert_eq!(face.colors(), [c; 4]);
}

#[test]
fn quad_groups_empty_and_flattening() {
    let empty = QuadGroups::default();
    assert!(empty.is_empty());
    assert_eq!(empty.faces().len(), 0);

    let q = Quad { voxel: [2, 3, 4], color: Color::new(1, 2, 3) };
    let groups = QuadGroups {
        groups: [vec![], vec![], vec![], vec![q], vec![], vec![]],
    };
    assert!(!groups.is_empty());
    let faces = groups.faces();
    assert_eq!(faces.len(), 1);
    assert!(matches!(faces[0].side.axis, Axis::Y) && faces[0].side.positive);
    assert_eq!(faces[0].quad.voxel, [2, 3, 4]);
}

#[test]
fn build_buffers_single_quad_exact() {
    let c = Color::new(1, 2, 3);
    let q = Quad { voxel: [2, 3, 4], color: c };
    let groups = QuadGroups {
        groups: [vec![], vec![], vec![], vec![q], vec![], vec![]],
    };
    let b = build_mesh_buffers(&groups);
    assert_eq!(b.positions, vec![(1, 5, 7), (1, 5, 5), (3, 5, 7), (3, 5, 5)]);
    assert_eq!(b.normals, vec![(0, 1, 0); 4]);
    assert_eq!(b.colors, vec![c; 4]);
    assert_eq!(b.indices, vec![0, 2, 1, 1, 2, 3]);
}

#[test]
fn build_buffers_two_quads_offsets_indices() {
    let c = Color::new(1, 2, 3);
    let q0 = Quad { voxel: [1, 1, 1], color: c };
    let q1 = Quad { voxel: [2, 1, 1], color: c };
    let groups = QuadGroups {
        groups: [vec![q0], vec![q1], vec![], vec![], vec![], vec![]],
    };
    let b = build_mesh_buffers(&groups);
    assert_eq!(b.positions.len(), 8);
    assert_eq!(b.normals.len(), 8);
    assert_eq!(b.colors.len(), 8);
    assert_eq!(b.indices.len(), 12);
    assert_eq!(&b.indices[6..], &[4, 6, 5, 5, 6, 7]);
    assert!(b.indices.iter().all(|&i| (i as usize) < b.positions.len()));
}
