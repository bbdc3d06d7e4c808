//! The clipmap terrain's state: its resolution, whether its instances exist,
//! and where the camera was when they were last placed.
use vstd::prelude::*;
use crate::geoclipmap::{ClipmapError, GeoClipMap, MeshData, MAX_TILE_RESOLUTION, is_mesh_set};
use crate::snapping::{
    CameraPos, Placements, CAMERA_SUBDIVISIONS, MAX_RING_COUNT, placements_match, snap, tiles_upto,
    ring_tile_count, ring_tiles,
};

verus! {

/// Fraction of a world unit the camera must move before the clipmap is
/// placed again: a fifth.
pub const SNAP_THRESHOLD_DIVISOR: i64 = 5;

/// How much the terrain reports about itself.
#[allow(non_camel_case_types)]
#[derive(Clone, Copy, Debug, PartialEq, Eq, Structural)]
pub enum LogLevel {
    ERROR,
    INFO,
    DEBUG,
}

/// How many instances of each role a built clipmap has.
#[derive(Clone, Copy, Debug, PartialEq, Eq, Structural)]
pub struct InstanceCounts {
    pub tiles: usize,
    pub fillers: usize,
    pub trims: usize,
    pub seams: usize,
    pub cross: usize,
}

/// The instance counts of a clipmap of `n` rings: the finest ring has 16
/// tiles and every other 12; each ring has a filler, each but the outermost
/// a trim and a seam; the cross is alone.
pub open spec fn expected_counts(n: int) -> InstanceCounts {
    InstanceCounts {
        tiles: (16 * n - 4 * (n - 1)) as usize,
        fillers: n as usize,
        trims: (n - 1) as usize,
        seams: (n - 1) as usize,
        cross: 1,
    }
}

/// What a build hands over: the five meshes and how many instances of each
/// role to create from them.
#[derive(Debug)]
pub struct BuildPlan {
    pub meshes: Vec<MeshData>,
    pub counts: InstanceCounts,
}

/// The terrain's state as a value.
pub struct TerrainView {
    pub mesh_size: int,
    pub mesh_lods: int,
    pub built: bool,
    /// Where the camera was at the last placement; none forces the next one.
    pub last: Option<CameraPos>,
}

/// Whether a camera at `cam` lies more than the threshold away from `last`.
pub open spec fn moved_enough(last: Option<CameraPos>, cam: CameraPos) -> bool {
    match last {
        None => true,
        Some(p) => {
            let dx = cam.x - p.x;
            let dz = cam.z - p.z;
            let sub = CAMERA_SUBDIVISIONS as int;
            let div = SNAP_THRESHOLD_DIVISOR as int;
            div * div * (dx * dx + dz * dz) > sub * sub
        },
    }
}

/// Whether a camera at `cam` makes the terrain place its instances again.
pub open spec fn snaps_on(v: TerrainView, cam: CameraPos) -> bool {
    v.built && moved_enough(v.last, cam)
}

/// The state after the camera is seen at `cam`.
pub open spec fn after_move(v: TerrainView, cam: CameraPos) -> TerrainView {
    if snaps_on(v, cam) {
        TerrainView { last: Some(cam), ..v }
    } else {
        v
    }
}

/// A clipmap terrain: unbuilt, or built with a fixed set of instances whose
/// transforms follow the camera.
pub struct Terrain3D {
    mesh_size: i32,
    mesh_lods: i32,
    debug_level: LogLevel,
    built: bool,
    camera_last_position: Option<CameraPos>,
}

impl View for Terrain3D {
    type V = TerrainView;

    closed spec fn view(&self) -> TerrainView {
        TerrainView {
            mesh_size: self.mesh_size as int,
            mesh_lods: self.mesh_lods as int,
            built: self.built,
            last: self.camera_last_position,
        }
    }
}

impl Terrain3D {
    #[verifier::type_invariant]
    spec fn inv(&self) -> bool {
        &&& self.mesh_size <= MAX_TILE_RESOLUTION
        &&& self.mesh_lods <= MAX_RING_COUNT
        &&& self.built ==> 1 <= self.mesh_size && 1 <= self.mesh_lods
    }

    /// An unbuilt terrain with tiles `mesh_size` quads wide and `mesh_lods`
    /// rings.
    pub fn new(mesh_size: i32, mesh_lods: i32) -> (r: Self)
        requires
            mesh_size <= MAX_TILE_RESOLUTION,
            mesh_lods <= MAX_RING_COUNT,
        ensures
            r@ == (TerrainView { mesh_size: mesh_size as int, mesh_lods: mesh_lods as int, built: false, last: None }),
            r.debug_level() == LogLevel::DEBUG,
    {
        Terrain3D { mesh_size, mesh_lods, debug_level: LogLevel::DEBUG, built: false, camera_last_position: None }
    }

    pub closed spec fn spec_debug_level(&self) -> LogLevel {
        self.debug_level
    }

    /// How much the terrain reports about itself.
    #[verifier::when_used_as_spec(spec_debug_level)]
    pub fn debug_level(&self) -> (r: LogLevel)
        ensures
            r == self.spec_debug_level(),
    {
        self.debug_level
    }

    pub fn set_debug_level(&mut self, level: LogLevel)
        ensures
            final(self)@ == old(self)@,
            final(self).debug_level() == level,
    {
        proof {
            use_type_invariant(&*self);
        }
        self.debug_level = level;
    }

    pub fn mesh_size(&self) -> (r: i32)
        ensures
            r == self@.mesh_size,
            r <= MAX_TILE_RESOLUTION,
            self@.built ==> 1 <= r,
    {
        proof {
            use_type_invariant(self);
        }
        self.mesh_size
    }

    pub fn mesh_lods(&self) -> (r: i32)
        ensures
            r == self@.mesh_lods,
            r <= MAX_RING_COUNT,
            self@.built ==> 1 <= r,
    {
        proof {
            use_type_invariant(self);
        }
        self.mesh_lods
    }

    pub fn is_built(&self) -> (r: bool)
        ensures
            r == self@.built,
    {
        self.built
    }

    /// Makes the meshes and fixes the instance counts. On success the
    /// terrain is built and its next camera update places every instance;
    /// on failure nothing changes.
    pub fn build(&mut self) -> (r: Result<BuildPlan, ClipmapError>)
        ensures
            r is Ok <==> (old(self)@.mesh_size >= 1 && old(self)@.mesh_lods >= 1),
            r is Err ==> r == Err::<BuildPlan, ClipmapError>(ClipmapError::InvalidParameter)
                && final(self)@ == old(self)@,
            r matches Ok(plan) ==> {
                &&& 1 <= old(self)@.mesh_size <= MAX_TILE_RESOLUTION
                &&& 1 <= old(self)@.mesh_lods <= MAX_RING_COUNT
                &&& final(self)@ == (TerrainView { built: true, last: None, ..old(self)@ })
                &&& is_mesh_set(old(self)@.mesh_size, plan.meshes@)
                &&& plan.counts == expected_counts(old(self)@.mesh_lods)
                &&& plan.counts.tiles == 16 * old(self)@.mesh_lods - 4 * (old(self)@.mesh_lods - 1)
                &&& plan.counts.fillers == old(self)@.mesh_lods
                &&& plan.counts.trims == old(self)@.mesh_lods - 1
                &&& plan.counts.seams == old(self)@.mesh_lods - 1
                &&& plan.counts.cross == 1
            },
            final(self).debug_level() == old(self).debug_level(),
    {
        proof {
            use_type_invariant(&*self);
        }
        let meshes = match GeoClipMap::generate(self.mesh_size, self.mesh_lods) {
            Ok(ms) => ms,
            Err(e) => {
                return Err(e);
            },
        };
        let n = self.mesh_lods as usize;
        let counts = InstanceCounts { tiles: 16 + 12 * (n - 1), fillers: n, trims: n - 1, seams: n - 1, cross: 1 };
        self.built = true;
        self.camera_last_position = None;
        Ok(BuildPlan { meshes, counts })
    }

    /// Drops back to unbuilt, as when the instances are destroyed.
    pub fn clear(&mut self)
        ensures
            final(self)@ == (TerrainView { built: false, last: None, ..old(self)@ }),
            final(self).debug_level() == old(self).debug_level(),
    {
        proof {
            use_type_invariant(&*self);
        }
        self.built = false;
        self.camera_last_position = None;
    }

    /// The camera is at `cam`. When the terrain is built and the camera has
    /// moved far enough since the last placement, returns every instance's
    /// new transform and remembers `cam`; otherwise returns none and changes
    /// nothing.
    pub fn on_camera_moved(&mut self, cam: CameraPos) -> (r: Option<Placements>)
        ensures
            final(self)@ == after_move(old(self)@, cam),
            final(self).debug_level() == old(self).debug_level(),
            r is Some <==> snaps_on(old(self)@, cam),
            r matches Some(p) ==> placements_match(old(self)@.mesh_size, old(self)@.mesh_lods, cam, p),
    {
        proof {
            use_type_invariant(&*self);
        }
        if !self.built {
            return None;
        }
        let moved = match self.camera_last_position {
            None => true,
            Some(last) => moved_far(last, cam),
        };
        if !moved {
            return None;
        }
        let p = snap(self.mesh_size, self.mesh_lods, cam);
        self.camera_last_position = Some(cam);
        Some(p)
    }
}

impl Default for Terrain3D {
    /// An unbuilt terrain with tiles 48 quads wide and 7 rings.
    fn default() -> (r: Self)
        ensures
            r@ == (TerrainView { mesh_size: 48, mesh_lods: 7, built: false, last: None }),
            r.debug_level() == LogLevel::DEBUG,
    {
        Terrain3D::new(48, 7)
    }
}

/// Whether `cam` lies more than the threshold away from `last`.
fn moved_far(last: CameraPos, cam: CameraPos) -> (r: bool)
    ensures
        r == moved_enough(Some(last), cam),
{
    let dx = cam.x as i128 - last.x as i128;
    let dz = cam.z as i128 - last.z as i128;
    // Past 205 sub-units on either axis the threshold is crossed anyway.
    if dx >= 205 || dx <= -205 || dz >= 205 || dz <= -205 {
        proof {
            let ix = dx as int;
            let iz = dz as int;
            assert(ix * ix >= 42025 || iz * iz >= 42025) by (nonlinear_arith)
                requires ix >= 205 || ix <= -205 || iz >= 205 || iz <= -205;
            assert(ix * ix >= 0 && iz * iz >= 0) by (nonlinear_arith);
            assert(25 * (ix * ix + iz * iz) > 1024 * 1024) by (nonlinear_arith)
                requires ix * ix >= 42025 || iz * iz >= 42025, ix * ix >= 0, iz * iz >= 0;
        }
        return true;
    }
    assert(0 <= dx * dx < 42025 && 0 <= dz * dz < 42025) by (nonlinear_arith)
        requires -205 < dx < 205, -205 < dz < 205;
    let d2 = dx * dx + dz * dz;
    let k = (SNAP_THRESHOLD_DIVISOR * SNAP_THRESHOLD_DIVISOR) as i128;
    let sub = CAMERA_SUBDIVISIONS as i128;
    k * d2 > sub * sub
}

/// Seeing the camera twice at the same place places the instances at most
/// once: after the first call the second changes nothing and returns none.
pub proof fn lemma_repeat_move_skipped(v: TerrainView, cam: CameraPos)
    ensures
        !snaps_on(after_move(v, cam), cam),
        after_move(after_move(v, cam), cam) == after_move(v, cam),
{
    assert(0int * 0int == 0);
}

/// The placement of a clipmap is a function of its resolution and the
/// camera: two placements for the same inputs agree on every transform.
pub proof fn lemma_placements_unique(t: int, n: int, cam: CameraPos, first: Placements, second: Placements)
    requires
        placements_match(t, n, cam, first),
        placements_match(t, n, cam, second),
    ensures
        first.cross == second.cross,
        first.tiles@ == second.tiles@,
        first.fillers@ == second.fillers@,
        first.trims@ == second.trims@,
        first.seams@ == second.seams@,
{
}

/// A placement of `n` rings has as many transforms of each role as a build
/// of `n` rings makes instances.
pub proof fn lemma_instance_counts(t: int, n: int, cam: CameraPos, p: Placements)
    requires
        1 <= n <= MAX_RING_COUNT,
        placements_match(t, n, cam, p),
    ensures
        p.tiles@.len() == expected_counts(n).tiles,
        p.tiles@.len() == 16 * n - 4 * (n - 1),
        p.fillers@.len() == expected_counts(n).fillers,
        p.trims@.len() == expected_counts(n).trims,
        p.seams@.len() == expected_counts(n).seams,
{
    lemma_tiles_len(t, cam, n);
}

proof fn lemma_tiles_len(t: int, cam: CameraPos, n: int)
    requires
        n >= 1,
    ensures
        tiles_upto(t, cam, n).len() == 16 + 12 * (n - 1),
    decreases n,
{
    if n > 1 {
        lemma_tiles_len(t, cam, n - 1);
    }
    assert(ring_tiles(t, cam, n - 1).len() == ring_tile_count(n - 1));
    assert(tiles_upto(t, cam, n) == tiles_upto(t, cam, n - 1) + ring_tiles(t, cam, n - 1));
}

} // verus!
