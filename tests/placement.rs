use terrain_clipmap::geoclipmap::ClipmapError;
use terrain_clipmap::geometry::HalfPoint;
use terrain_clipmap::snapping::{snap, trim_rotation, CameraPos, Placement, CAMERA_SUBDIVISIONS};
use terrain_clipmap::storage::{material_region_size, MapType, RegionSize};
use terrain_clipmap::terrain::{LogLevel, Terrain3D};

fn cam(x: f64, z: f64) -> CameraPos {
    let k = CAMERA_SUBDIVISIONS as f64;
    CameraPos { x: (x * k).floor() as i64, z: (z * k).floor() as i64 }
}

fn at(scale: i64, yaw_degrees: u32, x2: i64, z2: i64) -> Placement {
    Placement { scale, yaw_degrees, origin: HalfPoint { x2, z2 } }
}

#[test]
fn trim_rotation_covers_the_four_quadrants() {
    assert_eq!(trim_rotation(1, 1, 1), 0);
    assert_eq!(trim_rotation(1, 0, 1), 270);
    assert_eq!(trim_rotation(0, 1, 1), 90);
    assert_eq!(trim_rotation(0, 0, 1), 180);
    assert_eq!(trim_rotation(3, 2, 4), 180);
    assert_eq!(trim_rotation(4, 7, 4), 0);
}

#[test]
fn trim_rotation_is_repeatable() {
    for dx in -3..6i64 {
        for dz in -3..6i64 {
            let a = trim_rotation(dx, dz, 2);
            assert_eq!(a, trim_rotation(dx, dz, 2));
            assert!([0, 90, 180, 270].contains(&a));
        }
    }
}

#[test]
fn single_ring_build() {
    let mut terrain = Terrain3D::new(2, 1);
    let plan = terrain.build().expect("valid terrain");
    assert!(terrain.is_built());
    assert_eq!(plan.meshes.len(), 5);
    assert_eq!(plan.counts.tiles, 16);
    assert_eq!(plan.counts.fillers, 1);
    assert_eq!(plan.counts.trims, 0);
    assert_eq!(plan.counts.seams, 0);
    assert_eq!(plan.counts.cross, 1);
    let p = terrain.on_camera_moved(cam(0.0, 0.0)).expect("first update places");
    assert_eq!(p.tiles.len(), 16);
    assert_eq!(p.fillers.len(), 1);
    assert_eq!(p.trims.len(), 0);
    assert_eq!(p.seams.len(), 0);
}

#[test]
fn instance_counts_follow_ring_count() {
    for n in 1..=8i32 {
        let mut terrain = Terrain3D::new(4, n);
        let plan = terrain.build().unwrap();
        let n = n as usize;
        assert_eq!(plan.counts.tiles, 16 * n - 4 * (n - 1));
        assert_eq!(plan.counts.fillers, n);
        assert_eq!(plan.counts.trims, n - 1);
        assert_eq!(plan.counts.seams, n - 1);
        assert_eq!(plan.counts.cross, 1);
        let p = terrain.on_camera_moved(cam(3.5, -7.25)).unwrap();
        assert_eq!(p.tiles.len(), plan.counts.tiles);
        assert_eq!(p.fillers.len(), plan.counts.fillers);
        assert_eq!(p.trims.len(), plan.counts.trims);
        assert_eq!(p.seams.len(), plan.counts.seams);
    }
}

#[test]
fn build_rejects_empty_clipmap() {
    let mut terrain = Terrain3D::new(0, 3);
    assert_eq!(terrain.build().unwrap_err(), ClipmapError::InvalidParameter);
    assert!(!terrain.is_built());
    let mut terrain = Terrain3D::new(8, 0);
    assert_eq!(terrain.build().unwrap_err(), ClipmapError::InvalidParameter);
    assert!(!terrain.is_built());
}

#[test]
fn unbuilt_terrain_ignores_the_camera() {
    let mut terrain = Terrain3D::new(48, 7);
    assert!(terrain.on_camera_moved(cam(10.0, 10.0)).is_none());
    terrain.build().unwrap();
    terrain.clear();
    assert!(terrain.on_camera_moved(cam(10.0, 10.0)).is_none());
}

#[test]
fn small_move_is_skipped() {
    let mut terrain = Terrain3D::new(48, 7);
    terrain.build().unwrap();
    assert!(terrain.on_camera_moved(cam(0.0, 0.0)).is_some());
    assert!(terrain.on_camera_moved(cam(0.1, 0.0)).is_none());
    assert!(terrain.on_camera_moved(cam(0.0, 0.19)).is_none());
    assert!(terrain.on_camera_moved(cam(0.15, 0.15)).is_some());
}

#[test]
fn same_position_twice_places_once() {
    let mut terrain = Terrain3D::new(16, 4);
    terrain.build().unwrap();
    let first = terrain.on_camera_moved(cam(12.3, -4.6)).unwrap();
    assert!(terrain.on_camera_moved(cam(12.3, -4.6)).is_none());
    let again = snap(16, 4, cam(12.3, -4.6));
    assert_eq!(first.cross, again.cross);
    assert_eq!(first.tiles, again.tiles);
    assert_eq!(first.fillers, again.fillers);
    assert_eq!(first.trims, again.trims);
    assert_eq!(first.seams, again.seams);
}

#[test]
fn rebuild_forces_a_placement() {
    let mut terrain = Terrain3D::new(8, 2);
    terrain.build().unwrap();
    assert!(terrain.on_camera_moved(cam(1.0, 1.0)).is_some());
    terrain.build().unwrap();
    assert!(terrain.on_camera_moved(cam(1.0, 1.0)).is_some());
}

#[test]
fn unit_move_shifts_only_the_finest_ring() {
    let before = snap(48, 7, cam(0.0, 0.0));
    let after = snap(48, 7, cam(1.0, 0.0));
    for i in 0..16 {
        assert_eq!(after.tiles[i].origin.x2 - before.tiles[i].origin.x2, 2);
        assert_eq!(after.tiles[i].origin.z2, before.tiles[i].origin.z2);
    }
    for i in 16..28 {
        assert_eq!(after.tiles[i].origin, before.tiles[i].origin);
    }
    assert_eq!(before.tiles[0].origin, HalfPoint { x2: -192, z2: -192 });
    assert_eq!(after.tiles[0].origin, HalfPoint { x2: -190, z2: -192 });
}

#[test]
fn finest_ring_layout() {
    let p = snap(2, 1, cam(0.0, 0.0));
    assert_eq!(p.cross, at(1, 0, 0, 0));
    assert_eq!(p.tiles[0], at(1, 0, -8, -8));
    assert_eq!(p.tiles[1], at(1, 0, -8, -4));
    assert_eq!(p.tiles[5], at(1, 0, -4, -4));
    assert_eq!(p.tiles[10], at(1, 0, 2, 2));
    assert_eq!(p.tiles[15], at(1, 0, 6, 6));
    assert_eq!(p.fillers[0], at(1, 0, 0, 0));
}

#[test]
fn outer_rings_skip_inner_cells() {
    let p = snap(2, 2, cam(0.0, 0.0));
    assert_eq!(p.tiles.len(), 28);
    // Ring 1: cell size 2, tiles 4 units wide, corners at -8, -4, 2, 6.
    assert_eq!(p.tiles[16], at(2, 0, -16, -16));
    assert_eq!(p.tiles[20], at(2, 0, -8, -16));
    assert_eq!(p.tiles[21], at(2, 0, -8, 12));
    assert_eq!(p.tiles[22], at(2, 0, 4, -16));
    assert_eq!(p.tiles[23], at(2, 0, 4, 12));
    assert_eq!(p.tiles[27], at(2, 0, 12, 12));
    assert_eq!(p.fillers[1], at(2, 0, 0, 0));
}

#[test]
fn trims_and_seams_between_rings() {
    let p = snap(48, 2, cam(0.0, 0.0));
    assert_eq!(p.trims, vec![at(1, 180, 1, 1)]);
    assert_eq!(p.seams, vec![at(1, 0, -192, -192)]);
    let p = snap(48, 2, cam(1.5, 0.25));
    assert_eq!(p.trims, vec![at(1, 270, 3, 1)]);
    assert_eq!(p.seams, vec![at(1, 0, -192, -192)]);
    let p = snap(48, 2, cam(2.5, 3.5));
    assert_eq!(p.trims, vec![at(1, 90, 5, 7)]);
    assert_eq!(p.seams, vec![at(1, 0, -188, -188)]);
}

#[test]
fn negative_positions_snap_down() {
    let p = snap(4, 3, cam(-0.5, -3.0));
    assert_eq!(p.cross, at(1, 0, -2, -6));
    assert_eq!(p.fillers[1].origin, HalfPoint { x2: -4, z2: -8 });
    assert_eq!(p.fillers[2].origin, HalfPoint { x2: -8, z2: -8 });
}

#[test]
fn default_settings() {
    let terrain = Terrain3D::default();
    assert_eq!(terrain.mesh_size(), 48);
    assert_eq!(terrain.mesh_lods(), 7);
    assert!(!terrain.is_built());
    assert_eq!(terrain.debug_level(), LogLevel::DEBUG);
    let mut terrain = terrain;
    terrain.set_debug_level(LogLevel::ERROR);
    assert_eq!(terrain.debug_level(), LogLevel::ERROR);
}

#[test]
fn storage_kinds_and_sizes() {
    assert_eq!(MapType::TYPE_HEIGHT.ord(), 0);
    assert_eq!(MapType::TYPE_COLOR.ord(), 2);
    assert_eq!(MapType::TYPE_MAX.ord(), 3);
    assert_eq!(RegionSize::SIZE_64.ord(), 64);
    assert_eq!(RegionSize::SIZE_1024.ord(), 1024);
    assert_eq!(RegionSize::SIZE_2048.ord(), 2048);
    assert_eq!(material_region_size(10), 64);
    assert_eq!(material_region_size(512), 512);
    assert_eq!(material_region_size(10000), 4096);
}
