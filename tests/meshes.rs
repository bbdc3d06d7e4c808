use terrain_clipmap::geoclipmap::{ClipmapError, GeoClipMap, MeshData, MeshType};
use terrain_clipmap::geometry::{Bounds, HalfPoint};

fn pt(x2: i64, z2: i64) -> HalfPoint {
    HalfPoint { x2, z2 }
}

fn meshes(t: i32) -> Vec<MeshData> {
    GeoClipMap::generate(t, 1).expect("valid parameters")
}

#[test]
fn it_works() {
    assert_eq!(4, 4);
}

#[test]
fn five_meshes_with_closed_form_counts() {
    for t in 1..=6i32 {
        let ms = GeoClipMap::generate(t, 3).unwrap();
        assert_eq!(ms.len(), 5);
        let n = t as usize;
        let counts = [
            ((n + 1) * (n + 1), 6 * n * n),
            (8 * (n + 1), 24 * n),
            (16 * n + 10, 48 * n + 18),
            (8 * (n + 1), 24 * n + 6),
            (16 * n + 8, 24 * n + 12),
        ];
        for (m, (nv, ni)) in ms.iter().zip(counts.iter()) {
            assert_eq!(m.vertices.len(), *nv);
            assert_eq!(m.indices.len(), *ni);
        }
    }
}

#[test]
fn tile_count_for_resolution_48() {
    let ms = meshes(48);
    assert_eq!(ms[MeshType::TILE.ord()].vertices.len(), 49 * 49);
    assert_eq!(ms[MeshType::TILE.ord()].indices.len(), 48 * 48 * 6);
}

#[test]
fn mesh_roles_in_order() {
    assert_eq!(MeshType::TILE.ord(), 0);
    assert_eq!(MeshType::FILLER.ord(), 1);
    assert_eq!(MeshType::TRIM.ord(), 2);
    assert_eq!(MeshType::CROSS.ord(), 3);
    assert_eq!(MeshType::SEAM.ord(), 4);
}

#[test]
fn indices_stay_within_vertex_count() {
    for t in 1..=8i32 {
        for m in meshes(t).iter() {
            for &i in m.indices.iter() {
                assert!(i >= 0 && (i as usize) < m.vertices.len());
            }
        }
    }
}

#[test]
fn non_positive_parameters_are_rejected() {
    assert_eq!(GeoClipMap::generate(0, 1).unwrap_err(), ClipmapError::InvalidParameter);
    assert_eq!(GeoClipMap::generate(-3, 5).unwrap_err(), ClipmapError::InvalidParameter);
    assert_eq!(GeoClipMap::generate(4, 0).unwrap_err(), ClipmapError::InvalidParameter);
}

#[test]
fn smallest_tile_layout() {
    let ms = meshes(1);
    let tile = &ms[0];
    assert_eq!(tile.vertices, vec![pt(0, 0), pt(2, 0), pt(0, 2), pt(2, 2)]);
    assert_eq!(tile.indices, vec![0, 3, 2, 0, 1, 3]);
}

#[test]
fn tile_of_two_quads_a_side() {
    let ms = meshes(2);
    let tile = &ms[0];
    assert_eq!(tile.vertices[5], pt(4, 2));
    // Quad (1, 1): top-left is vertex 4, bottom-right vertex 8.
    assert_eq!(&tile.indices[18..24], &[4, 8, 7, 4, 5, 8]);
}

#[test]
fn filler_arms_and_winding() {
    let ms = meshes(1);
    let f = &ms[1];
    assert_eq!(f.vertices[0], pt(4, 0));
    assert_eq!(f.vertices[1], pt(4, 2));
    assert_eq!(f.vertices[4], pt(2, 4));
    assert_eq!(f.vertices[8], pt(-2, 2));
    assert_eq!(f.vertices[12], pt(0, -2));
    assert_eq!(
        f.indices,
        vec![1, 0, 3, 0, 2, 3, 5, 4, 6, 5, 6, 7, 9, 8, 11, 8, 10, 11, 13, 12, 14, 13, 14, 15]
    );
}

#[test]
fn trim_is_offset_by_half_the_clipmap() {
    let ms = meshes(1);
    let trim = &ms[2];
    assert_eq!(trim.vertices[0], pt(-7, 5));
    assert_eq!(trim.vertices[1], pt(-5, 5));
    assert_eq!(trim.vertices[14], pt(-5, -7));
    assert_eq!(trim.vertices[25], pt(5, -5));
    assert_eq!(&trim.indices[0..6], &[1, 0, 2, 3, 1, 2]);
    assert_eq!(&trim.indices[36..42], &[15, 14, 16, 17, 15, 16]);
}

#[test]
fn cross_skips_its_center_quad() {
    let ms = meshes(1);
    let cross = &ms[3];
    assert_eq!(cross.vertices[0], pt(-2, 0));
    assert_eq!(cross.vertices[8], pt(0, -2));
    assert_eq!(
        cross.indices,
        vec![
            1, 0, 3, 0, 2, 3, 3, 2, 5, 2, 4, 5, 5, 4, 7, 4, 6, 7, 9, 11, 8, 8, 11, 10, 13, 15, 12,
            12, 15, 14
        ]
    );
}

#[test]
fn cross_triangles_are_never_degenerate() {
    for t in 1..=6usize {
        let ms = meshes(t as i32);
        let cross = &ms[3];
        let center = (4 * (t + 1) + 2 * t) as i32;
        for tri in cross.indices.chunks(3) {
            assert!(tri[0] != tri[1] && tri[1] != tri[2] && tri[0] != tri[2]);
            let inside = tri.iter().all(|&v| v >= center && v < center + 4);
            assert!(!inside);
        }
    }
}

#[test]
fn seam_perimeter_and_wrapped_last_index() {
    let ms = meshes(1);
    let seam = &ms[4];
    assert_eq!(seam.vertices.len(), 24);
    assert_eq!(seam.vertices[0], pt(0, 0));
    assert_eq!(seam.vertices[5], pt(10, 0));
    assert_eq!(seam.vertices[6], pt(12, 2));
    assert_eq!(seam.vertices[11], pt(10, 12));
    assert_eq!(seam.vertices[20], pt(0, 2));
    assert_eq!(seam.vertices[21], pt(0, 0));
    assert_eq!(seam.vertices[23], pt(0, 0));
    assert_eq!(&seam.indices[0..6], &[1, 0, 2, 3, 2, 4]);
    assert_eq!(&seam.indices[33..36], &[23, 22, 0]);
}

#[test]
fn boxes_grow_from_the_tile_seed() {
    let ms = meshes(1);
    let b = |a: i64, c: i64, d: i64, e: i64| Bounds { min_x2: a, min_z2: c, max_x2: d, max_z2: e };
    assert_eq!(ms[0].bounds, b(0, 0, 4, 4));
    assert_eq!(ms[1].bounds, b(-4, -4, 6, 6));
    assert_eq!(ms[2].bounds, b(-7, -7, 6, 6));
    assert_eq!(ms[3].bounds, b(-7, -7, 6, 6));
    assert_eq!(ms[4].bounds, b(-7, -7, 12, 12));
}

#[test]
fn boxes_hold_every_vertex() {
    for t in 1..=5i32 {
        for m in meshes(t).iter() {
            for v in m.vertices.iter() {
                assert!(m.bounds.min_x2 <= v.x2 && v.x2 <= m.bounds.max_x2);
                assert!(m.bounds.min_z2 <= v.z2 && v.z2 <= m.bounds.max_z2);
            }
        }
    }
}

#[test]
fn cross_center_cell_covered_once() {
    for t in 1..=6usize {
        let ms = meshes(t as i32);
        let cross = &ms[3];
        let mut inside = Vec::new();
        for (j, tri) in cross.indices.chunks(3).enumerate() {
            let [a, b, c] = [tri[0], tri[1], tri[2]].map(|i| cross.vertices[i as usize]);
            let area2 = (b.x2 - a.x2) * (c.z2 - a.z2) - (b.z2 - a.z2) * (c.x2 - a.x2);
            assert_eq!(area2, 4);
            let cell = |p: HalfPoint| (0..=2).contains(&p.x2) && (0..=2).contains(&p.z2);
            if cell(a) && cell(b) && cell(c) {
                inside.push(j);
            }
        }
        assert_eq!(inside, vec![2 * t, 2 * t + 1]);
    }
}
