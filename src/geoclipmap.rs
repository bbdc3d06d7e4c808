//! The five mesh topologies of a geometric clipmap.
//!
//! Each mesh is a triangle list over a vertex buffer; every layout below is
//! given as a closed form of the slot number, so that a backend can be fed
//! the buffers directly.
use vstd::prelude::*;
use vstd::arithmetic::div_mod::lemma_mod_multiples_basic;
use crate::geometry::{Bounds, HalfPoint, half_point, hull, expand_over, contains_all, lemma_hull_contains};

verus! {

/// Largest tile resolution whose vertex numbers still fit an `i32` index.
pub const MAX_TILE_RESOLUTION: i32 = 46339;

/// The role a mesh plays in the clipmap.
#[allow(non_camel_case_types)]
#[derive(Clone, Copy, Debug, PartialEq, Eq, Structural)]
pub enum MeshType {
    TILE,
    FILLER,
    TRIM,
    CROSS,
    SEAM,
}

impl MeshType {
    pub open spec fn spec_ord(self) -> nat {
        match self {
            MeshType::TILE => 0,
            MeshType::FILLER => 1,
            MeshType::TRIM => 2,
            MeshType::CROSS => 3,
            MeshType::SEAM => 4,
        }
    }

    /// Position of this role's mesh in the list that `generate` returns.
    pub fn ord(self) -> (r: usize)
        ensures
            r == self.spec_ord(),
    {
        match self {
            MeshType::TILE => 0,
            MeshType::FILLER => 1,
            MeshType::TRIM => 2,
            MeshType::CROSS => 3,
            MeshType::SEAM => 4,
        }
    }
}

/// Vertex and index buffers of one mesh, with its bounding box.
///
/// Normals all point up and tangents are zero; they are left to the backend.
#[derive(Debug)]
pub struct MeshData {
    pub vertices: Vec<HalfPoint>,
    pub indices: Vec<i32>,
    pub bounds: Bounds,
}

impl MeshData {
    /// Every index names a vertex of the mesh.
    pub open spec fn indices_in_range(self) -> bool {
        forall|k: int|
            0 <= k < self.indices@.len() ==> 0 <= #[trigger] self.indices@[k] < self.vertices@.len()
    }
}

/// Why a mesh set or a clipmap cannot be built.
#[derive(Clone, Copy, Debug, PartialEq, Eq, Structural)]
pub enum ClipmapError {
    /// The tile resolution or the ring count is not positive.
    InvalidParameter,
}

/// Vertices along one side of a tile.
pub open spec fn patch_verts(t: int) -> int {
    t + 1
}

/// Vertices along one side of the clipmap's trim and seam.
pub open spec fn clipmap_verts(t: int) -> int {
    4 * t + 2
}

pub open spec fn spec_patch_2d(x: int, y: int, res: int) -> int {
    y * res + x
}

// ---------------------------------------------------------------- tile

/// Tile vertex `n`: the lattice point `(n mod P, n div P)` with `P = t + 1`,
/// row by row.
pub open spec fn tile_vertex(t: int, n: int) -> HalfPoint {
    half_point(n % patch_verts(t), n / patch_verts(t))
}

/// Tile index `k`: quad `k div 6` of the `t * t` grid, row-major, split into
/// the triangles (top-left, bottom-right, bottom-left) and
/// (top-left, top-right, bottom-right).
pub open spec fn tile_index(t: int, k: int) -> int {
    let q = k / 6;
    let x = q % t;
    let y = q / t;
    let p = patch_verts(t);
    let c = k % 6;
    if c == 0 || c == 3 {
        spec_patch_2d(x, y, p)
    } else if c == 1 || c == 5 {
        spec_patch_2d(x + 1, y + 1, p)
    } else if c == 2 {
        spec_patch_2d(x, y + 1, p)
    } else {
        spec_patch_2d(x + 1, y, p)
    }
}

pub open spec fn tile_vertices(t: int) -> Seq<HalfPoint> {
    Seq::new((patch_verts(t) * patch_verts(t)) as nat, |n: int| tile_vertex(t, n))
}

pub open spec fn tile_indices(t: int) -> Seq<i32> {
    Seq::new((6 * t * t) as nat, |k: int| tile_index(t, k) as i32)
}

/// The box every mesh set starts from: the tile's footprint, one vertex wide
/// beyond its last row and column.
pub open spec fn tile_seed_bounds(t: int) -> Bounds {
    Bounds { min_x2: 0, min_z2: 0, max_x2: (2 * patch_verts(t)) as i64, max_z2: (2 * patch_verts(t)) as i64 }
}

/// Slot of the lattice point `(x, y)` in a row-major grid `res` wide.
fn patch_2d(x: usize, y: usize, res: usize) -> (r: i32)
    requires
        0 <= y * res + x <= i32::MAX,
    ensures
        r == spec_patch_2d(x as int, y as int, res as int),
{
    proof {
        assert(0 <= y * res <= i32::MAX) by (nonlinear_arith)
            requires 0 <= y * res + x <= i32::MAX, 0 <= x;
    }
    (y * res + x) as i32
}

proof fn lemma_square_bound(t: int)
    requires
        1 <= t <= MAX_TILE_RESOLUTION,
    ensures
        0 < (t + 1) * (t + 1) <= i32::MAX,
        6 * t * t <= 6 * (t + 1) * (t + 1),
        (t + 1) * (t + 1) == t * t + 2 * t + 1,
{
    assert((t + 1) * (t + 1) <= 46340 * 46340) by (nonlinear_arith)
        requires 1 <= t <= 46339;
    assert((t + 1) * (t + 1) == t * t + 2 * t + 1) by (nonlinear_arith);
    assert(6 * t * t <= 6 * (t + 1) * (t + 1)) by (nonlinear_arith)
        requires 1 <= t;
}

fn build_tile(t: usize) -> (m: MeshData)
    requires
        1 <= t <= MAX_TILE_RESOLUTION,
    ensures
        m.vertices@ == tile_vertices(t as int),
        m.indices@ == tile_indices(t as int),
        m.bounds == tile_seed_bounds(t as int),
        m.indices_in_range(),
        contains_all(m.bounds, m.vertices@),
{
    let p = t + 1;
    proof {
        lemma_square_bound(t as int);
    }
    let nv = p * p;
    let mut vertices: Vec<HalfPoint> = Vec::new();
    let mut n: usize = 0;
    while n < nv
        invariant
            p == t + 1,
            1 <= t <= MAX_TILE_RESOLUTION,
            nv == p * p,
            0 < nv <= i32::MAX,
            n <= nv,
            vertices@.len() == n,
            forall|j: int| 0 <= j < n ==> #[trigger] vertices@[j] == tile_vertex(t as int, j),
            contains_all(tile_seed_bounds(t as int), vertices@),
        decreases nv - n,
    {
        let x = n % p;
        let y = n / p;
        assert(y <= n) by (nonlinear_arith) requires y == n / p, p >= 1;
        assert(y < p) by (nonlinear_arith) requires y == n / p, n < p * p, p >= 1;
        vertices.push(HalfPoint { x2: 2 * (x as i64), z2: 2 * (y as i64) });
        n += 1;
    }
    assert(vertices@ =~= tile_vertices(t as int));

    let nq = t * t;
    let mut indices: Vec<i32> = Vec::new();
    let mut q: usize = 0;
    while q < nq
        invariant
            p == t + 1,
            nq == t * t,
            1 <= t <= MAX_TILE_RESOLUTION,
            nv == p * p,
            0 < nv <= i32::MAX,
            q <= nq,
            indices@.len() == 6 * q,
            forall|k: int| 0 <= k < 6 * q ==> #[trigger] indices@[k] == tile_index(t as int, k) as i32,
            forall|k: int| 0 <= k < 6 * q ==> 0 <= #[trigger] indices@[k] < nv,
        decreases nq - q,
    {
        let x = q % t;
        let y = q / t;
        proof {
            assert(y < t) by (nonlinear_arith)
                requires y == q / t, q < t * t, t >= 1;
            assert((y + 1) * p + (x + 1) <= p * p - 1) by (nonlinear_arith)
                requires y + 1 <= t, x + 1 <= t, p == t + 1;
            assert((y + 1) * p == y * p + p) by (nonlinear_arith);
            lemma_six(q as int);
        }
        let tl = patch_2d(x, y, p);
        let br = patch_2d(x + 1, y + 1, p);
        let bl = patch_2d(x, y + 1, p);
        let tr = patch_2d(x + 1, y, p);
        indices.push(tl);
        indices.push(br);
        indices.push(bl);
        indices.push(tl);
        indices.push(tr);
        indices.push(br);
        q += 1;
    }
    assert(indices@ =~= tile_indices(t as int)) by {
        assert(6 * nq == 6 * t * t) by (nonlinear_arith) requires nq == t * t;
    }
    let bounds = Bounds { min_x2: 0, min_z2: 0, max_x2: 2 * p as i64, max_z2: 2 * p as i64 };
    MeshData { vertices, indices, bounds }
}


/// Appends the six indices of one quad, two triangles.
fn push_quad(indices: &mut Vec<i32>, a: i32, b: i32, c: i32, d: i32, e: i32, f: i32)
    ensures
        final(indices)@ == old(indices)@ + seq![a, b, c, d, e, f],
{
    indices.push(a);
    indices.push(b);
    indices.push(c);
    indices.push(d);
    indices.push(e);
    indices.push(f);
    assert(indices@ =~= old(indices)@ + seq![a, b, c, d, e, f]);
}

proof fn lemma_six(q: int)
    requires
        q >= 0,
    ensures
        forall|c: int| 0 <= c < 6 ==> (#[trigger] ((6 * q + c) / 6)) == q && (6 * q + c) % 6 == c,
{
}

// -------------------------------------------------------------- filler

/// Filler vertex `n`: the arms run along +X, +Z, -X and -Z in turn, each a
/// strip of `P` vertex pairs that starts just past the tile's edge.
pub open spec fn filler_vertex(t: int, n: int) -> HalfPoint {
    let pair = n / 2;
    let s = n % 2;
    let arm = pair / patch_verts(t);
    let i = pair % patch_verts(t);
    let d = t + i + 1;
    let e = t + i;
    if arm == 0 {
        half_point(d, s)
    } else if arm == 1 {
        half_point(1 - s, d)
    } else if arm == 2 {
        half_point(-e, 1 - s)
    } else {
        half_point(s, -e)
    }
}

/// Filler index `k`: quad `q = k div 6` lies on arm `q div t` and joins the
/// vertex pairs starting at `2 * (arm + q)`; the winding alternates with the
/// arm's parity so that every arm faces up once turned into place.
pub open spec fn filler_index(t: int, k: int) -> int {
    let q = k / 6;
    let c = k % 6;
    let arm = q / t;
    let bl = 2 * (arm + q);
    let br = bl + 1;
    let tl = bl + 2;
    let tr = bl + 3;
    if arm % 2 == 0 {
        if c == 0 { br } else if c == 1 { bl } else if c == 2 { tr }
        else if c == 3 { bl } else if c == 4 { tl } else { tr }
    } else {
        if c == 0 { br } else if c == 1 { bl } else if c == 2 { tl }
        else if c == 3 { br } else if c == 4 { tl } else { tr }
    }
}

pub open spec fn filler_vertices(t: int) -> Seq<HalfPoint> {
    Seq::new((8 * patch_verts(t)) as nat, |n: int| filler_vertex(t, n))
}

pub open spec fn filler_indices(t: int) -> Seq<i32> {
    Seq::new((24 * t) as nat, |k: int| filler_index(t, k) as i32)
}

fn build_filler(t: usize, prev: Bounds) -> (m: MeshData)
    requires
        1 <= t <= MAX_TILE_RESOLUTION,
    ensures
        m.vertices@ == filler_vertices(t as int),
        m.indices@ == filler_indices(t as int),
        m.bounds == hull(prev, m.vertices@),
        m.indices_in_range(),
{
    let p = t + 1;
    let nv = 8 * p;
    let mut vertices: Vec<HalfPoint> = Vec::new();
    let mut n: usize = 0;
    while n < nv
        invariant
            p == t + 1,
            1 <= t <= MAX_TILE_RESOLUTION,
            nv == 8 * p,
            n <= nv,
            vertices@.len() == n,
            forall|j: int| 0 <= j < n ==> #[trigger] vertices@[j] == filler_vertex(t as int, j),
        decreases nv - n,
    {
        let pair = n / 2;
        let s = (n % 2) as i64;
        let arm = pair / p;
        let i = pair % p;
        assert(i < p);
        let d = (t + i + 1) as i64;
        let e = (t + i) as i64;
        let v = if arm == 0 {
            HalfPoint { x2: 2 * d, z2: 2 * s }
        } else if arm == 1 {
            HalfPoint { x2: 2 * (1 - s), z2: 2 * d }
        } else if arm == 2 {
            HalfPoint { x2: -(2 * e), z2: 2 * (1 - s) }
        } else {
            HalfPoint { x2: 2 * s, z2: -(2 * e) }
        };
        vertices.push(v);
        n += 1;
    }
    assert(vertices@ =~= filler_vertices(t as int));

    let nq = 4 * t;
    let mut indices: Vec<i32> = Vec::new();
    let mut q: usize = 0;
    while q < nq
        invariant
            1 <= t <= MAX_TILE_RESOLUTION,
            nq == 4 * t,
            q <= nq,
            indices@.len() == 6 * q,
            forall|k: int| 0 <= k < 6 * q ==> #[trigger] indices@[k] == filler_index(t as int, k) as i32,
            forall|k: int| 0 <= k < 6 * q ==> 0 <= #[trigger] indices@[k] < 8 * (t + 1),
        decreases nq - q,
    {
        let arm = q / t;
        proof {
            assert(arm < 4) by (nonlinear_arith)
                requires arm == q / t, q < 4 * t, t >= 1;
            lemma_six(q as int);
        }
        let bl = (2 * (arm + q)) as i32;
        let br = bl + 1;
        let tl = bl + 2;
        let tr = bl + 3;
        if arm % 2 == 0 {
            push_quad(&mut indices, br, bl, tr, bl, tl, tr);
        } else {
            push_quad(&mut indices, br, bl, tl, br, tl, tr);
        }
        q += 1;
    }
    assert(indices@ =~= filler_indices(t as int));
    let bounds = expand_over(prev, &vertices);
    MeshData { vertices, indices, bounds }
}

// ---------------------------------------------------------------- trim

/// The trim's vertex at lattice point `(x, z)`, moved back by half the
/// clipmap's width so that the L's corner meets the ring's inner corner.
pub open spec fn trim_point(t: int, x: int, z: int) -> HalfPoint {
    HalfPoint {
        x2: (2 * x - (clipmap_verts(t) + 1)) as i64,
        z2: (2 * z - (clipmap_verts(t) + 1)) as i64,
    }
}

/// Trim vertex `n`: first the arm along Z, `V + 1` pairs running from
/// `z = V` down to `0`; then the arm along X, `V` pairs from `x = 1` up.
pub open spec fn trim_vertex(t: int, n: int) -> HalfPoint {
    let v = clipmap_verts(t);
    if n < 2 * v + 2 {
        trim_point(t, n % 2, v - n / 2)
    } else {
        let m = n - (2 * v + 2);
        trim_point(t, m / 2 + 1, m % 2)
    }
}

/// Trim index `k`: `V` quads along the Z arm, then `V - 1` along the X arm.
pub open spec fn trim_index(t: int, k: int) -> int {
    let v = clipmap_verts(t);
    let q = k / 6;
    let c = k % 6;
    let (off, i) = if q < v { (0, q) } else { (2 * v + 2, q - v) };
    off + if c == 0 || c == 4 { 2 * i + 1 } else if c == 1 { 2 * i } else if c == 3 { 2 * i + 3 } else {
        2 * i + 2
    }
}

pub open spec fn trim_vertices(t: int) -> Seq<HalfPoint> {
    Seq::new((4 * clipmap_verts(t) + 2) as nat, |n: int| trim_vertex(t, n))
}

pub open spec fn trim_indices(t: int) -> Seq<i32> {
    Seq::new((6 * (2 * clipmap_verts(t) - 1)) as nat, |k: int| trim_index(t, k) as i32)
}

fn build_trim(t: usize, prev: Bounds) -> (m: MeshData)
    requires
        1 <= t <= MAX_TILE_RESOLUTION,
    ensures
        m.vertices@ == trim_vertices(t as int),
        m.indices@ == trim_indices(t as int),
        m.bounds == hull(prev, m.vertices@),
        m.indices_in_range(),
{
    let v = 4 * t + 2;
    let h = 2 * v + 2;
    let nv = 4 * v + 2;
    let off = (v + 1) as i64;
    let mut vertices: Vec<HalfPoint> = Vec::new();
    let mut n: usize = 0;
    while n < nv
        invariant
            1 <= t <= MAX_TILE_RESOLUTION,
            v == 4 * t + 2,
            h == 2 * v + 2,
            nv == 4 * v + 2,
            off == v + 1,
            n <= nv,
            vertices@.len() == n,
            forall|j: int| 0 <= j < n ==> #[trigger] vertices@[j] == trim_vertex(t as int, j),
        decreases nv - n,
    {
        let pt = if n < h {
            HalfPoint { x2: 2 * ((n % 2) as i64) - off, z2: 2 * ((v - n / 2) as i64) - off }
        } else {
            let m = n - h;
            HalfPoint { x2: 2 * ((m / 2 + 1) as i64) - off, z2: 2 * ((m % 2) as i64) - off }
        };
        vertices.push(pt);
        n += 1;
    }
    assert(vertices@ =~= trim_vertices(t as int));

    let nq = 2 * v - 1;
    let mut indices: Vec<i32> = Vec::new();
    let mut q: usize = 0;
    while q < nq
        invariant
            1 <= t <= MAX_TILE_RESOLUTION,
            v == 4 * t + 2,
            h == 2 * v + 2,
            nv == 4 * v + 2,
            nq == 2 * v - 1,
            q <= nq,
            indices@.len() == 6 * q,
            forall|k: int| 0 <= k < 6 * q ==> #[trigger] indices@[k] == trim_index(t as int, k) as i32,
            forall|k: int| 0 <= k < 6 * q ==> 0 <= #[trigger] indices@[k] < nv,
        decreases nq - q,
    {
        proof {
            lemma_six(q as int);
        }
        let (o, i) = if q < v { (0usize, q) } else { (h, q - v) };
        let b = (o + 2 * i) as i32;
        push_quad(&mut indices, b + 1, b, b + 2, b + 3, b + 1, b + 2);
        q += 1;
    }
    assert(indices@ =~= trim_indices(t as int));
    let bounds = expand_over(prev, &vertices);
    MeshData { vertices, indices, bounds }
}

// --------------------------------------------------------------- cross

/// Cross vertex `n`: `2P` pairs along X from `x = -t`, then `2P` pairs
/// along Z from `z = -t`.
pub open spec fn cross_vertex(t: int, n: int) -> HalfPoint {
    let p = patch_verts(t);
    if n < 4 * p {
        half_point(n / 2 - t, n % 2)
    } else {
        let m = n - 4 * p;
        half_point(m % 2, m / 2 - t)
    }
}

/// The Z strip's quad that covers the centre, where the X strip lies already.
pub open spec fn cross_center_quad(t: int) -> int {
    t
}

/// Cross index `k`: the `2t + 1` quads of the X strip, then those of the Z
/// strip with the centre quad left out.
pub open spec fn cross_index(t: int, k: int) -> int {
    let p = patch_verts(t);
    if k < 6 * (2 * t + 1) {
        let b = 2 * (k / 6);
        let c = k % 6;
        if c == 0 { b + 1 } else if c == 1 || c == 3 { b } else if c == 4 { b + 2 } else { b + 3 }
    } else {
        let m = k - 6 * (2 * t + 1);
        let q = m / 6;
        let c = m % 6;
        let i = if q < cross_center_quad(t) { q } else { q + 1 };
        let b = 4 * p + 2 * i;
        if c == 0 { b + 1 } else if c == 1 || c == 4 { b + 3 } else if c == 5 { b + 2 } else { b }
    }
}

pub open spec fn cross_vertices(t: int) -> Seq<HalfPoint> {
    Seq::new((8 * patch_verts(t)) as nat, |n: int| cross_vertex(t, n))
}

pub open spec fn cross_indices(t: int) -> Seq<i32> {
    Seq::new((24 * t + 6) as nat, |k: int| cross_index(t, k) as i32)
}

fn build_cross(t: usize, prev: Bounds) -> (m: MeshData)
    requires
        1 <= t <= MAX_TILE_RESOLUTION,
    ensures
        m.vertices@ == cross_vertices(t as int),
        m.indices@ == cross_indices(t as int),
        m.bounds == hull(prev, m.vertices@),
        m.indices_in_range(),
{
    let p = t + 1;
    let nv = 8 * p;
    let ti = t as i64;
    let mut vertices: Vec<HalfPoint> = Vec::new();
    let mut n: usize = 0;
    while n < nv
        invariant
            1 <= t <= MAX_TILE_RESOLUTION,
            p == t + 1,
            ti == t,
            nv == 8 * p,
            n <= nv,
            vertices@.len() == n,
            forall|j: int| 0 <= j < n ==> #[trigger] vertices@[j] == cross_vertex(t as int, j),
        decreases nv - n,
    {
        let pt = if n < 4 * p {
            HalfPoint { x2: 2 * ((n / 2) as i64 - ti), z2: 2 * ((n % 2) as i64) }
        } else {
            let m = n - 4 * p;
            HalfPoint { x2: 2 * ((m % 2) as i64), z2: 2 * ((m / 2) as i64 - ti) }
        };
        vertices.push(pt);
        n += 1;
    }
    assert(vertices@ =~= cross_vertices(t as int));

    let strip = 2 * t + 1;
    let start = 4 * p;
    let mut indices: Vec<i32> = Vec::new();
    let mut i: usize = 0;
    while i < strip
        invariant
            1 <= t <= MAX_TILE_RESOLUTION,
            p == t + 1,
            strip == 2 * t + 1,
            start == 4 * p,
            i <= strip,
            indices@.len() == 6 * i,
            forall|k: int| 0 <= k < 6 * i ==> #[trigger] indices@[k] == cross_index(t as int, k) as i32,
            forall|k: int| 0 <= k < 6 * i ==> 0 <= #[trigger] indices@[k] < 8 * p,
        decreases strip - i,
    {
        proof {
            lemma_six(i as int);
        }
        let bl = (2 * i) as i32;
        push_quad(&mut indices, bl + 1, bl, bl + 3, bl, bl + 2, bl + 3);
        i += 1;
    }
    let mut i: usize = 0;
    while i < strip
        invariant
            1 <= t <= MAX_TILE_RESOLUTION,
            p == t + 1,
            strip == 2 * t + 1,
            start == 4 * p,
            i <= strip,
            indices@.len() == 6 * strip + 6 * (if i <= t { i as int } else { i - 1 }),
            forall|k: int| 0 <= k < indices@.len() ==> #[trigger] indices@[k] == cross_index(t as int, k) as i32,
            forall|k: int| 0 <= k < indices@.len() ==> 0 <= #[trigger] indices@[k] < 8 * p,
        decreases strip - i,
    {
        if i != t {
            let q: usize = if i < t { i } else { i - 1 };
            proof {
                lemma_six(q as int);
                assert forall|c: int| 0 <= c < 6 implies (#[trigger] ((6 * strip + 6 * q + c) - 6 * (2 * t + 1))) == 6 * q + c by {}
            }
            let bl = (start + 2 * i) as i32;
            push_quad(&mut indices, bl + 1, bl + 3, bl, bl, bl + 3, bl + 2);
        }
        i += 1;
    }
    assert(indices@ =~= cross_indices(t as int));
    let bounds = expand_over(prev, &vertices);
    MeshData { vertices, indices, bounds }
}

// ---------------------------------------------------------------- seam

/// Point `i` of side `k` of the seam's square, walked clockwise from the
/// north edge.
pub open spec fn seam_side(t: int, k: int, i: int) -> HalfPoint {
    let v = clipmap_verts(t);
    if k == 0 {
        half_point(i, 0)
    } else if k == 1 {
        half_point(v, i)
    } else if k == 2 {
        half_point(v - i, v)
    } else {
        half_point(0, v - i)
    }
}

/// Seam vertex `n`: slot `0` holds the first corner; side `k` fills the
/// `4t + 1` slots after `k * (4t + 1)` with its points `1 ..= 4t + 1`; the
/// last three slots stay at the origin.
pub open spec fn seam_vertex(t: int, n: int) -> HalfPoint {
    let r = clipmap_verts(t) - 1;
    if n == 0 || n > 4 * r {
        half_point(0, 0)
    } else {
        seam_side(t, (n - 1) / r, (n - 1) % r + 1)
    }
}

/// Seam index `k`: triangle `j = k div 3` is `(2j + 1, 2j, 2j + 2)`, and the
/// very last index wraps round to vertex `0`.
pub open spec fn seam_index(t: int, k: int) -> int {
    let j = k / 3;
    let c = k % 3;
    if c == 0 {
        2 * j + 1
    } else if c == 1 {
        2 * j
    } else if k == 6 * clipmap_verts(t) - 1 {
        0
    } else {
        2 * j + 2
    }
}

pub open spec fn seam_vertices(t: int) -> Seq<HalfPoint> {
    Seq::new((4 * clipmap_verts(t)) as nat, |n: int| seam_vertex(t, n))
}

pub open spec fn seam_indices(t: int) -> Seq<i32> {
    Seq::new((6 * clipmap_verts(t)) as nat, |k: int| seam_index(t, k) as i32)
}

fn build_seam(t: usize, prev: Bounds) -> (m: MeshData)
    requires
        1 <= t <= MAX_TILE_RESOLUTION,
    ensures
        m.vertices@ == seam_vertices(t as int),
        m.indices@ == seam_indices(t as int),
        m.bounds == hull(prev, m.vertices@),
        m.indices_in_range(),
{
    let v = 4 * t + 2;
    let r = v - 1;
    let nv = 4 * v;
    let vi = v as i64;
    let mut vertices: Vec<HalfPoint> = Vec::new();
    let mut n: usize = 0;
    while n < nv
        invariant
            1 <= t <= MAX_TILE_RESOLUTION,
            v == 4 * t + 2,
            vi == v,
            r == v - 1,
            nv == 4 * v,
            n <= nv,
            vertices@.len() == n,
            forall|j: int| 0 <= j < n ==> #[trigger] vertices@[j] == seam_vertex(t as int, j),
        decreases nv - n,
    {
        let pt = if n == 0 || n > 4 * r {
            HalfPoint { x2: 0, z2: 0 }
        } else {
            let k = (n - 1) / r;
            let i = ((n - 1) % r + 1) as i64;
            if k == 0 {
                HalfPoint { x2: 2 * i, z2: 0 }
            } else if k == 1 {
                HalfPoint { x2: 2 * vi, z2: 2 * i }
            } else if k == 2 {
                HalfPoint { x2: 2 * (vi - i), z2: 2 * vi }
            } else {
                HalfPoint { x2: 0, z2: 2 * (vi - i) }
            }
        };
        vertices.push(pt);
        n += 1;
    }
    assert(vertices@ =~= seam_vertices(t as int));

    let ntri = 2 * v;
    let mut indices: Vec<i32> = Vec::new();
    let mut j: usize = 0;
    while j < ntri
        invariant
            1 <= t <= MAX_TILE_RESOLUTION,
            v == 4 * t + 2,
            nv == 4 * v,
            ntri == 2 * v,
            j <= ntri,
            indices@.len() == 3 * j,
            forall|k: int| 0 <= k < 3 * j ==> #[trigger] indices@[k] == seam_index(t as int, k) as i32,
            forall|k: int| 0 <= k < 3 * j ==> 0 <= #[trigger] indices@[k] < nv,
        decreases ntri - j,
    {
        proof {
            assert forall|c: int| 0 <= c < 3 implies (#[trigger] ((3 * j + c) / 3)) == j
                && (3 * j + c) % 3 == c by {}
        }
        let i = (2 * j) as i32;
        indices.push(i + 1);
        indices.push(i);
        if j + 1 == ntri {
            indices.push(0);
        } else {
            indices.push(i + 2);
        }
        j += 1;
    }
    assert(indices@ =~= seam_indices(t as int));
    let bounds = expand_over(prev, &vertices);
    MeshData { vertices, indices, bounds }
}


// ----------------------------------------------------------- mesh set

/// Vertex count of the mesh of each role, by position in the mesh list.
pub open spec fn vertex_count(role: int, t: int) -> int {
    if role == 0 {
        (t + 1) * (t + 1)
    } else if role == 1 || role == 3 {
        8 * (t + 1)
    } else if role == 2 {
        16 * t + 10
    } else {
        16 * t + 8
    }
}

/// Index count of the mesh of each role, by position in the mesh list.
pub open spec fn index_count(role: int, t: int) -> int {
    if role == 0 {
        6 * t * t
    } else if role == 1 {
        24 * t
    } else if role == 2 {
        48 * t + 18
    } else if role == 3 {
        24 * t + 6
    } else {
        24 * t + 12
    }
}

/// `ms` is the clipmap mesh set for tile resolution `t`: tile, filler, trim,
/// cross and seam in that order, each with the layout above. The boxes
/// start from the tile's seed box and each grows the one before it by the
/// mesh's own vertices.
pub open spec fn is_mesh_set(t: int, ms: Seq<MeshData>) -> bool {
    &&& ms.len() == 5
    &&& ms[0].vertices@ == tile_vertices(t)
    &&& ms[0].indices@ == tile_indices(t)
    &&& ms[1].vertices@ == filler_vertices(t)
    &&& ms[1].indices@ == filler_indices(t)
    &&& ms[2].vertices@ == trim_vertices(t)
    &&& ms[2].indices@ == trim_indices(t)
    &&& ms[3].vertices@ == cross_vertices(t)
    &&& ms[3].indices@ == cross_indices(t)
    &&& ms[4].vertices@ == seam_vertices(t)
    &&& ms[4].indices@ == seam_indices(t)
    &&& ms[0].bounds == tile_seed_bounds(t)
    &&& forall|i: int| 1 <= i < 5 ==> (#[trigger] ms[i]).bounds == hull(ms[i - 1].bounds, ms[i].vertices@)
}

/// The generator of the clipmap's meshes.
pub struct GeoClipMap {}

impl GeoClipMap {
    /// Builds the five meshes for tiles of `p_size` quads a side and a
    /// clipmap of `p_levels` rings.
    pub fn generate(p_size: i32, p_levels: i32) -> (r: Result<Vec<MeshData>, ClipmapError>)
        requires
            p_size <= MAX_TILE_RESOLUTION,
        ensures
            r is Ok <==> (p_size >= 1 && p_levels >= 1),
            r is Err ==> r == Err::<Vec<MeshData>, ClipmapError>(ClipmapError::InvalidParameter),
            r matches Ok(ms) ==> {
                &&& is_mesh_set(p_size as int, ms@)
                &&& forall|i: int| 0 <= i < 5 ==> {
                    &&& (#[trigger] ms@[i]).vertices@.len() == vertex_count(i, p_size as int)
                    &&& ms@[i].indices@.len() == index_count(i, p_size as int)
                    &&& ms@[i].indices@.len() % 3 == 0
                    &&& ms@[i].indices_in_range()
                    &&& contains_all(ms@[i].bounds, ms@[i].vertices@)
                }
            },
    {
        if p_size < 1 || p_levels < 1 {
            return Err(ClipmapError::InvalidParameter);
        }
        let t = p_size as usize;
        let tile = build_tile(t);
        let filler = build_filler(t, tile.bounds);
        let trim = build_trim(t, filler.bounds);
        let cross = build_cross(t, trim.bounds);
        let seam = build_seam(t, cross.bounds);
        proof {
            let ti = t as int;
            lemma_square_bound(ti);
            assert(6 * ti * ti == 6 * (ti * ti)) by (nonlinear_arith);
            assert(6 * ti * ti == (2 * ti * ti) * 3) by (nonlinear_arith);
            lemma_mod_multiples_basic(2 * ti * ti, 3);
            lemma_hull_contains(tile.bounds, filler.vertices@);
            lemma_hull_contains(filler.bounds, trim.vertices@);
            lemma_hull_contains(trim.bounds, cross.vertices@);
            lemma_hull_contains(cross.bounds, seam.vertices@);
        }
        let ms = vec![tile, filler, trim, cross, seam];
        assert(ms@[1].bounds == hull(ms@[0].bounds, ms@[1].vertices@));
        assert(ms@[2].bounds == hull(ms@[1].bounds, ms@[2].vertices@));
        assert(ms@[3].bounds == hull(ms@[2].bounds, ms@[3].vertices@));
        assert(ms@[4].bounds == hull(ms@[3].bounds, ms@[4].vertices@));
        Ok(ms)
    }
}


/// Whether vertex `v` of the cross is a corner of the Z strip's centre quad.
pub open spec fn is_cross_center_vertex(t: int, v: int) -> bool {
    let b = 4 * patch_verts(t) + 2 * cross_center_quad(t);
    b <= v < b + 4
}

/// Every triangle of the cross names three distinct vertices, and none lies
/// within the centre quad of the Z strip: the X strip covers that square
/// alone, so no quad is emitted twice there.
pub proof fn lemma_cross_center_skipped(t: int)
    requires
        1 <= t <= MAX_TILE_RESOLUTION,
    ensures
        cross_indices(t).len() % 3 == 0,
        forall|j: int|
            0 <= j < cross_indices(t).len() / 3 ==> {
                let a = #[trigger] cross_indices(t)[3 * j] as int;
                let b = cross_indices(t)[3 * j + 1] as int;
                let c = cross_indices(t)[3 * j + 2] as int;
                &&& a != b && b != c && a != c
                &&& !(is_cross_center_vertex(t, a) && is_cross_center_vertex(t, b)
                    && is_cross_center_vertex(t, c))
            },
{
    let n = cross_indices(t).len();
    assert(n == 24 * t + 6);
    assert forall|j: int| 0 <= j < n / 3 implies {
        let a = #[trigger] cross_indices(t)[3 * j] as int;
        let b = cross_indices(t)[3 * j + 1] as int;
        let c = cross_indices(t)[3 * j + 2] as int;
        &&& a != b && b != c && a != c
        &&& !(is_cross_center_vertex(t, a) && is_cross_center_vertex(t, b)
            && is_cross_center_vertex(t, c))
    } by {
        let q = j / 2;
        let h = j % 2;
        assert(3 * j == 6 * q + 3 * h);
        if j < 2 * (2 * t + 1) {
            assert(3 * j + 2 < 6 * (2 * t + 1));
            lemma_six(q);
        } else {
            let jz = j - 2 * (2 * t + 1);
            let qz = jz / 2;
            let hz = jz % 2;
            assert(3 * j - 6 * (2 * t + 1) == 6 * qz + 3 * hz);
            lemma_six(qz);
            assert(qz < 2 * t);
        }
    }
}


/// Twice the signed area of the triangle `a`, `b`, `c`, in doubled units.
pub open spec fn signed_area2(a: HalfPoint, b: HalfPoint, c: HalfPoint) -> int {
    (b.x2 - a.x2) * (c.z2 - a.z2) - (b.z2 - a.z2) * (c.x2 - a.x2)
}

/// Whether `p` lies in the unit cell at the origin, where the two strips of
/// the cross meet.
pub open spec fn in_center_cell(p: HalfPoint) -> bool {
    0 <= p.x2 <= 2 && 0 <= p.z2 <= 2
}

/// Corner `k` of triangle `j` of the cross, as a point.
pub open spec fn cross_corner(t: int, j: int, k: int) -> HalfPoint {
    cross_vertex(t, cross_index(t, 3 * j + k))
}

/// Every triangle of the cross is half a unit cell wound the same way
/// (twice its signed area is 4 in doubled units), and exactly two of them
/// lie within the cell where the strips meet: the two of the X strip's
/// centre quad. That cell is covered once, not twice.

proof fn lemma_half_point(x: int, z: int)
    requires
        -0x1000_0000 <= x <= 0x1000_0000,
        -0x1000_0000 <= z <= 0x1000_0000,
    ensures
        half_point(x, z).x2 == 2 * x,
        half_point(x, z).z2 == 2 * z,
{
}

/// The two facts of `lemma_cross_triangles` for triangle `j`.
pub open spec fn cross_triangle_ok(t: int, j: int) -> bool {
    &&& signed_area2(cross_corner(t, j, 0), cross_corner(t, j, 1), cross_corner(t, j, 2)) == 4
    &&& ((in_center_cell(cross_corner(t, j, 0)) && in_center_cell(cross_corner(t, j, 1))
        && in_center_cell(cross_corner(t, j, 2))) <==> (j == 2 * t || j == 2 * t + 1))
}

proof fn lemma_cross_triangle_x(t: int, j: int)
    requires
        1 <= t <= MAX_TILE_RESOLUTION,
        0 <= j < 2 * (2 * t + 1),
    ensures
        cross_triangle_ok(t, j),
{
    let q = j / 2;
    let h = j % 2;
    assert(3 * j == 6 * q + 3 * h);
    assert(3 * j + 2 < 6 * (2 * t + 1));
    lemma_six(q);
    let b = 2 * q;
    assert forall|e: int| 0 <= e < 4 implies (#[trigger] ((b + e) / 2)) == q + e / 2 && (b + e) % 2 == e % 2 by {}
    let v0 = cross_vertex(t, b);
    let v1 = cross_vertex(t, b + 1);
    let v2 = cross_vertex(t, b + 2);
    let v3 = cross_vertex(t, b + 3);
    assert(v0 == half_point(q - t, 0));
    assert(v1 == half_point(q - t, 1));
    assert(v2 == half_point(q + 1 - t, 0));
    assert(v3 == half_point(q + 1 - t, 1));
    lemma_half_point(q - t, 0);
    lemma_half_point(q - t, 1);
    lemma_half_point(q + 1 - t, 0);
    lemma_half_point(q + 1 - t, 1);
    if h == 0 {
        assert(cross_corner(t, j, 0) == v1);
        assert(cross_corner(t, j, 1) == v0);
        assert(cross_corner(t, j, 2) == v3);
        assert(signed_area2(v1, v0, v3) == 4) by (nonlinear_arith)
            requires v1.x2 == v0.x2, v3.x2 == v1.x2 + 2, v1.z2 == 2, v0.z2 == 0, v3.z2 == 2;
    } else {
        assert(cross_corner(t, j, 0) == v0);
        assert(cross_corner(t, j, 1) == v2);
        assert(cross_corner(t, j, 2) == v3);
        assert(signed_area2(v0, v2, v3) == 4) by (nonlinear_arith)
            requires v2.x2 == v0.x2 + 2, v3.x2 == v0.x2 + 2, v0.z2 == 0, v2.z2 == 0, v3.z2 == 2;
    }
}

proof fn lemma_cross_triangle_z(t: int, j: int)
    requires
        1 <= t <= MAX_TILE_RESOLUTION,
        2 * (2 * t + 1) <= j < 8 * t + 2,
    ensures
        cross_triangle_ok(t, j),
{
    let p = t + 1;
    let jz = j - 2 * (2 * t + 1);
    let qz = jz / 2;
    let hz = jz % 2;
    assert(3 * j - 6 * (2 * t + 1) == 6 * qz + 3 * hz);
    lemma_six(qz);
    assert(qz < 2 * t);
    let i = if qz < t { qz } else { qz + 1 };
    let b = 4 * p + 2 * i;
    assert forall|e: int| 0 <= e < 4 implies (#[trigger] ((b + e - 4 * p) / 2)) == i + e / 2
        && (b + e - 4 * p) % 2 == e % 2 by {}
    let v0 = cross_vertex(t, b);
    let v1 = cross_vertex(t, b + 1);
    let v2 = cross_vertex(t, b + 2);
    let v3 = cross_vertex(t, b + 3);
    assert(v0 == half_point(0, i - t));
    assert(v1 == half_point(1, i - t));
    assert(v2 == half_point(0, i + 1 - t));
    assert(v3 == half_point(1, i + 1 - t));
    lemma_half_point(0, i - t);
    lemma_half_point(1, i - t);
    lemma_half_point(0, i + 1 - t);
    lemma_half_point(1, i + 1 - t);
    if hz == 0 {
        assert(cross_corner(t, j, 0) == v1);
        assert(cross_corner(t, j, 1) == v3);
        assert(cross_corner(t, j, 2) == v0);
        assert(signed_area2(v1, v3, v0) == 4) by (nonlinear_arith)
            requires v1.x2 == 2, v3.x2 == 2, v0.x2 == 0, v3.z2 == v1.z2 + 2, v0.z2 == v1.z2;
    } else {
        assert(cross_corner(t, j, 0) == v0);
        assert(cross_corner(t, j, 1) == v3);
        assert(cross_corner(t, j, 2) == v2);
        assert(signed_area2(v0, v3, v2) == 4) by (nonlinear_arith)
            requires v0.x2 == 0, v3.x2 == 2, v2.x2 == 0, v3.z2 == v0.z2 + 2, v2.z2 == v0.z2 + 2;
    }
}

/// Every triangle of the cross is half a unit cell wound the same way
/// (twice its signed area is 4 in doubled units), and exactly two of them
/// lie within the cell where the strips meet: the two of the X strip's
/// centre quad. That cell is covered once, not twice.
pub proof fn lemma_cross_triangles(t: int)
    requires
        1 <= t <= MAX_TILE_RESOLUTION,
    ensures
        forall|j: int| 0 <= j < 8 * t + 2 ==> #[trigger] cross_triangle_ok(t, j),
{
    assert forall|j: int| 0 <= j < 8 * t + 2 implies #[trigger] cross_triangle_ok(t, j) by {
        if j < 2 * (2 * t + 1) {
            lemma_cross_triangle_x(t, j);
        } else {
            lemma_cross_triangle_z(t, j);
        }
    }
}

} // verus!
