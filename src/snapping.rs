//! Placement of every clipmap instance around the camera.
//!
//! Each ring `l` is laid out on a grid of cell size `2^l`: the camera's cell
//! is snapped down to that grid, so a coarser ring moves in coarser steps and
//! every ring is only ever scaled and moved, never reshaped.
use vstd::prelude::*;
use vstd::arithmetic::power2::{pow2, lemma2_to64, lemma_pow2_adds, lemma_pow2_strictly_increases};
use vstd::arithmetic::div_mod::{lemma_fundamental_div_mod, lemma_fundamental_div_mod_converse};
use crate::geometry::{HalfPoint, half_point};
use crate::geoclipmap::MAX_TILE_RESOLUTION;

verus! {

/// Sub-units per world unit in a camera position.
pub const CAMERA_SUBDIVISIONS: i64 = 1024;

/// Most rings a clipmap may have: the coarsest cell size, `2^30`, still
/// fits an `i32`.
pub const MAX_RING_COUNT: i32 = 31;

/// The camera's position on the ground plane in fixed point, `x` and `z` in
/// sub-units of `1 / CAMERA_SUBDIVISIONS` world unit. Its height plays no part.
#[derive(Clone, Copy, Debug, PartialEq, Eq, Structural)]
pub struct CameraPos {
    pub x: i64,
    pub z: i64,
}

/// Where one mesh instance goes: turned by `-yaw_degrees` (that is, by the
/// negated angle) about the +Y axis, scaled by `scale` along X and Z (never
/// Y), then moved to `origin`.
#[derive(Clone, Copy, Debug, PartialEq, Eq, Structural)]
pub struct Placement {
    pub scale: i64,
    pub yaw_degrees: u32,
    pub origin: HalfPoint,
}

/// The transforms of every instance of a built clipmap, by role. The tiles
/// run ring by ring, finest first; fillers, trims and seams have one entry a
/// ring, trims and seams none for the outermost ring.
#[derive(Debug)]
pub struct Placements {
    pub cross: Placement,
    pub tiles: Vec<Placement>,
    pub fillers: Vec<Placement>,
    pub trims: Vec<Placement>,
    pub seams: Vec<Placement>,
}

/// The whole-unit cell holding coordinate `v` (in sub-units): `floor(v)`.
pub open spec fn cell_of(v: int) -> int {
    v / (CAMERA_SUBDIVISIONS as int)
}

/// Cell size of ring `l`.
pub open spec fn level_scale(l: int) -> int {
    pow2(l as nat) as int
}

/// `c` snapped down to a multiple of `s`: `floor(c / s) * s`.
pub open spec fn snap_to(c: int, s: int) -> int {
    (c / s) * s
}

pub open spec fn placement(scale: int, yaw: int, x2: int, z2: int) -> Placement {
    Placement { scale: scale as i64, yaw_degrees: yaw as u32, origin: HalfPoint { x2: x2 as i64, z2: z2 as i64 } }
}

/// The cross sits on the camera's cell, unscaled and unturned.
pub open spec fn cross_placement(cam: CameraPos) -> Placement {
    placement(1, 0, 2 * cell_of(cam.x as int), 2 * cell_of(cam.z as int))
}

/// Corner of a tile of ring `l` along one axis: quadrant `q` of the 4 x 4
/// layout around the snapped camera, the far half pushed out by one cell.
pub open spec fn tile_corner(t: int, c: int, l: int, q: int) -> int {
    let s = level_scale(l);
    let ts = t * s;
    snap_to(c, s) - 2 * ts + q * ts + if q >= 2 { s } else { 0 }
}

pub open spec fn tile_placement(t: int, cam: CameraPos, l: int, x: int, y: int) -> Placement {
    placement(
        level_scale(l),
        0,
        2 * tile_corner(t, cell_of(cam.x as int), l, x),
        2 * tile_corner(t, cell_of(cam.z as int), l, y),
    )
}

/// Tiles a ring holds: all 16 of the 4 x 4 layout for the finest ring, the
/// 12 round its edge for the others.
pub open spec fn ring_tile_count(l: int) -> int {
    if l == 0 { 16 } else { 12 }
}

/// Column and row of tile `j` of a ring, column by column; rings past the
/// first skip the four inner cells.
pub open spec fn ring_cell(l: int, j: int) -> (int, int) {
    if l == 0 {
        (j / 4, j % 4)
    } else if j < 4 {
        (0, j)
    } else if j < 8 {
        (1 + (j - 4) / 2, if (j - 4) % 2 == 0 { 0 } else { 3 })
    } else {
        (3, j - 8)
    }
}

pub open spec fn ring_tiles(t: int, cam: CameraPos, l: int) -> Seq<Placement> {
    Seq::new(
        ring_tile_count(l) as nat,
        |j: int| tile_placement(t, cam, l, ring_cell(l, j).0, ring_cell(l, j).1),
    )
}

/// The tiles of the first `n` rings.
pub open spec fn tiles_upto(t: int, cam: CameraPos, n: int) -> Seq<Placement>
    decreases n,
{
    if n <= 0 {
        Seq::empty()
    } else {
        tiles_upto(t, cam, n - 1) + ring_tiles(t, cam, n - 1)
    }
}

/// The filler of ring `l` sits on the snapped camera.
pub open spec fn filler_placement(cam: CameraPos, l: int) -> Placement {
    let s = level_scale(l);
    placement(s, 0, 2 * snap_to(cell_of(cam.x as int), s), 2 * snap_to(cell_of(cam.z as int), s))
}

/// Two bits: 2 when the camera lies in the near column of the next ring's
/// cell, 1 when it lies in the near row. `dx` and `dz` are the camera's
/// whole-unit offset from that cell's corner.
pub open spec fn trim_selector(dx: int, dz: int, scale: int) -> int {
    (if dx < scale { 2int } else { 0int }) + (if dz < scale { 1int } else { 0int })
}

/// The trim's turn for each selector value.
pub open spec fn trim_angle(r: int) -> int {
    if r == 0 { 0 } else if r == 1 { 270 } else if r == 2 { 90 } else { 180 }
}

/// The trim of ring `l` turns to face the quadrant of the next ring's cell
/// that holds the camera, and sits half a cell past the snapped camera.
pub open spec fn trim_placement(cam: CameraPos, l: int) -> Placement {
    let s = level_scale(l);
    let cx = cell_of(cam.x as int);
    let cz = cell_of(cam.z as int);
    let r = trim_selector(cx - snap_to(cx, 2 * s), cz - snap_to(cz, 2 * s), s);
    placement(s, trim_angle(r), 2 * snap_to(cx, s) + s, 2 * snap_to(cz, s) + s)
}

/// The seam of ring `l` sits one tile of the next ring (`t` cells of size
/// `2s`) below and left of the next ring's snapped camera.
pub open spec fn seam_placement(t: int, cam: CameraPos, l: int) -> Placement {
    let s = level_scale(l);
    let ns = 2 * s;
    placement(
        s,
        0,
        2 * (snap_to(cell_of(cam.x as int), ns) - t * ns),
        2 * (snap_to(cell_of(cam.z as int), ns) - t * ns),
    )
}

/// Every instance transform of a clipmap with tiles `t` quads wide and `n`
/// rings, for the camera at `cam`.
pub open spec fn placements_match(t: int, n: int, cam: CameraPos, p: Placements) -> bool {
    &&& p.cross == cross_placement(cam)
    &&& p.tiles@ == tiles_upto(t, cam, n)
    &&& p.fillers@ == Seq::new(n as nat, |l: int| filler_placement(cam, l))
    &&& p.trims@ == Seq::new((n - 1) as nat, |l: int| trim_placement(cam, l))
    &&& p.seams@ == Seq::new((n - 1) as nat, |l: int| seam_placement(t, cam, l))
}

/// The trim's turn, in degrees, for a camera `dx`, `dz` whole units past the
/// corner of the next ring's cell, in a ring of cell size `scale`.
pub fn trim_rotation(dx: i64, dz: i64, scale: i64) -> (r: u32)
    ensures
        r == trim_angle(trim_selector(dx as int, dz as int, scale as int)),
        r == 0 || r == 90 || r == 180 || r == 270,
{
    let rotations: [u32; 4] = [0, 270, 90, 180];
    let mut sel: usize = 0;
    if dx < scale {
        sel += 2;
    }
    if dz < scale {
        sel += 1;
    }
    rotations[sel]
}


/// Magnitude bound of a camera cell: an `i64` of sub-units holds no more.
pub open spec fn cell_bound() -> int {
    0x20_0000_0000_0000
}

/// `floor(a / b)` for a positive divisor.
fn floor_div(a: i64, b: i64) -> (r: i64)
    requires
        b > 0,
    ensures
        r == a as int / b as int,
{
    if a >= 0 {
        let q = (a as u64) / (b as u64);
        q as i64
    } else {
        let m = (-(a + 1)) as u64;
        let q = m / (b as u64);
        let rm = m % (b as u64);
        proof {
            lemma_fundamental_div_mod(m as int, b as int);
            assert(a == (-(q as int) - 1) * b + (b - 1 - rm)) by (nonlinear_arith)
                requires m == -(a + 1), m == q * b + rm;
            lemma_fundamental_div_mod_converse(a as int, b as int, -(q as int) - 1, b - 1 - rm);
        }
        -(q as i64) - 1
    }
}

/// The camera's whole-unit cell along one axis.
fn cell(v: i64) -> (r: i64)
    ensures
        r == cell_of(v as int),
        -cell_bound() <= r < cell_bound(),
{
    let r = floor_div(v, CAMERA_SUBDIVISIONS);
    proof {
        lemma_fundamental_div_mod(v as int, 1024);
    }
    r
}

/// `c` snapped down to a multiple of `s`.
fn snap_down(c: i64, s: i64) -> (r: i64)
    requires
        0 < s <= 0x8000_0000,
        -cell_bound() <= c < cell_bound(),
    ensures
        r == snap_to(c as int, s as int),
        c - s < r <= c,
{
    let q = floor_div(c, s);
    proof {
        lemma_fundamental_div_mod(c as int, s as int);
    }
    q * s
}

proof fn lemma_scale_step(l: int)
    requires
        0 <= l <= 30,
    ensures
        1 <= level_scale(l) <= 0x4000_0000,
        level_scale(l + 1) == 2 * level_scale(l),
{
    lemma2_to64();
    if l < 30 {
        lemma_pow2_strictly_increases(l as nat, 30);
    }
    if l > 0 {
        lemma_pow2_strictly_increases(0, l as nat);
    }
    lemma_pow2_adds(l as nat, 1);
}

/// Column and row of tile `j` of a ring; see `ring_cell`.
fn ring_cell_of(first: bool, j: usize) -> (r: (i64, i64))
    requires
        j < (if first { 16usize } else { 12usize }),
    ensures
        r.0 == ring_cell(if first { 0 } else { 1 }, j as int).0,
        r.1 == ring_cell(if first { 0 } else { 1 }, j as int).1,
        0 <= r.0 < 4,
        0 <= r.1 < 4,
{
    let j = j as i64;
    if first {
        (j / 4, j % 4)
    } else if j < 4 {
        (0, j)
    } else if j < 8 {
        (1 + (j - 4) / 2, if (j - 4) % 2 == 0 { 0 } else { 3 })
    } else {
        (3, j - 8)
    }
}

/// Corner of a tile along one axis; see `tile_corner`.
fn corner(sc: i64, ts: i64, q: i64, s: i64) -> (r: i64)
    requires
        -cell_bound() - 0x4000_0000 <= sc <= cell_bound(),
        0 < ts < 0x4000_0000_0000,
        0 <= q < 4,
        0 < s <= 0x4000_0000,
    ensures
        r == sc - 2 * ts + q * ts + if q >= 2 { s } else { 0 },
        -0x40_0000_0000_0000 < r < 0x40_0000_0000_0000,
{
    assert(0 <= q * ts <= 3 * ts) by (nonlinear_arith)
        requires 0 <= q < 4, 0 < ts;
    let fill = if q >= 2 { s } else { 0 };
    sc - 2 * ts + q * ts + fill
}

/// Places every instance of a clipmap with tiles `tile_resolution` quads
/// wide and `ring_count` rings around the camera at `cam`.
pub fn snap(tile_resolution: i32, ring_count: i32, cam: CameraPos) -> (r: Placements)
    requires
        1 <= tile_resolution <= MAX_TILE_RESOLUTION,
        1 <= ring_count <= MAX_RING_COUNT,
    ensures
        placements_match(tile_resolution as int, ring_count as int, cam, r),
{
    let t = tile_resolution as i64;
    let n = ring_count as usize;
    let cx = cell(cam.x);
    let cz = cell(cam.z);
    let cross = Placement { scale: 1, yaw_degrees: 0, origin: HalfPoint { x2: 2 * cx, z2: 2 * cz } };
    let mut tiles: Vec<Placement> = Vec::new();
    let mut fillers: Vec<Placement> = Vec::new();
    let mut trims: Vec<Placement> = Vec::new();
    let mut seams: Vec<Placement> = Vec::new();
    let mut scale: i64 = 1;
    let mut l: usize = 0;
    proof {
        lemma2_to64();
    }
    while l < n
        invariant
            1 <= t <= MAX_TILE_RESOLUTION,
            1 <= n <= MAX_RING_COUNT,
            n == ring_count,
            t == tile_resolution,
            cx == cell_of(cam.x as int),
            cz == cell_of(cam.z as int),
            -cell_bound() <= cx < cell_bound(),
            -cell_bound() <= cz < cell_bound(),
            l <= n,
            scale == level_scale(l as int),
            tiles@ == tiles_upto(t as int, cam, l as int),
            fillers@ == Seq::new(l as nat, |i: int| filler_placement(cam, i)),
            trims@ == Seq::new((if l == n { l - 1 } else { l as int }) as nat, |i: int| trim_placement(cam, i)),
            seams@ == Seq::new((if l == n { l - 1 } else { l as int }) as nat, |i: int| seam_placement(t as int, cam, i)),
        decreases n - l,
    {
        proof {
            lemma_scale_step(l as int);
        }
        let sx = snap_down(cx, scale);
        let sz = snap_down(cz, scale);
        assert(0 < t * scale < 0x4000_0000_0000) by (nonlinear_arith)
            requires 1 <= t <= 46339, 1 <= scale <= 0x4000_0000;
        let ts = t * scale;
        let first = l == 0;
        let count: usize = if first { 16 } else { 12 };
        let mut j: usize = 0;
        while j < count
            invariant
                count == ring_tile_count(l as int),
                first == (l == 0),
                j <= count,
                scale == level_scale(l as int),
                1 <= scale <= 0x4000_0000,
                t == tile_resolution,
                ts == t * scale,
                0 < ts < 0x4000_0000_0000,
                sx == snap_to(cx as int, scale as int),
                sz == snap_to(cz as int, scale as int),
                cx - scale < sx <= cx,
                cz - scale < sz <= cz,
                cx == cell_of(cam.x as int),
                cz == cell_of(cam.z as int),
                -cell_bound() <= cx < cell_bound(),
                -cell_bound() <= cz < cell_bound(),
                tiles@ == tiles_upto(t as int, cam, l as int) + ring_tiles(t as int, cam, l as int).take(j as int),
            decreases count - j,
        {
            let (x, y) = ring_cell_of(first, j);
            let ox = corner(sx, ts, x, scale);
            let oz = corner(sz, ts, y, scale);
            assert(ring_cell(l as int, j as int) == ring_cell(if first { 0 } else { 1 }, j as int));
            tiles.push(Placement { scale, yaw_degrees: 0, origin: HalfPoint { x2: 2 * ox, z2: 2 * oz } });
            proof {
                assert(ring_tiles(t as int, cam, l as int).take(j + 1) =~= ring_tiles(t as int, cam, l as int).take(j as int).push(
                    tile_placement(t as int, cam, l as int, x as int, y as int)));
            }
            j += 1;
        }
        assert(ring_tiles(t as int, cam, l as int).take(count as int) =~= ring_tiles(t as int, cam, l as int));
        assert(tiles@ =~= tiles_upto(t as int, cam, l + 1));

        fillers.push(Placement { scale, yaw_degrees: 0, origin: HalfPoint { x2: 2 * sx, z2: 2 * sz } });
        assert(fillers@ =~= Seq::new((l + 1) as nat, |i: int| filler_placement(cam, i)));

        if l + 1 != n {
            let ns = 2 * scale;
            let nsx = snap_down(cx, ns);
            let nsz = snap_down(cz, ns);
            let angle = trim_rotation(cx - nsx, cz - nsz, scale);
            trims.push(Placement { scale, yaw_degrees: angle, origin: HalfPoint { x2: 2 * sx + scale, z2: 2 * sz + scale } });
            assert(0 < t * ns < 0x8000_0000_0000) by (nonlinear_arith)
                requires 1 <= t <= 46339, 1 <= ns <= 0x8000_0000;
            let nts = t * ns;
            seams.push(Placement { scale, yaw_degrees: 0, origin: HalfPoint { x2: 2 * (nsx - nts), z2: 2 * (nsz - nts) } });
            assert(trims@ =~= Seq::new((l + 1) as nat, |i: int| trim_placement(cam, i)));
            assert(seams@ =~= Seq::new((l + 1) as nat, |i: int| seam_placement(t as int, cam, i)));
        }
        scale = 2 * scale;
        l += 1;
    }
    Placements { cross, tiles, fillers, trims, seams }
}

} // verus!
