//! Axis-aligned cubic voxel grid: chunk and voxel identifiers plus the
//! layout that converts between chunks, voxels and integer space
//! coordinates.
//!
//! A chunk is a square of `2 * chunk_voxel_length + 1` voxels on each
//! side, stacked `chunk_voxel_height` voxels high.  Conversions from
//! space to voxel and from voxel to chunk use floor (Euclidean)
//! division, so negative coordinates resolve to the chunk containing
//! them rather than truncating toward zero.

use vstd::prelude::*;
use vstd::math::abs;
use vstd::arithmetic::div_mod::lemma_fundamental_div_mod_converse;

verus! {

/// Bound on chunk identifier components accepted in layout contracts.
pub const CHUNK_LIMIT: i64 = 0x1000_0000;

/// Bound on voxel identifier components accepted in layout contracts.
pub const VOXEL_LIMIT: i64 = 0x2000_0000_0000;

/// Bound on integer space coordinates accepted in layout contracts.
pub const SPACE_LIMIT: i64 = 0x4000_0000_0000_0000;

/// Bound on the per-chunk geometry parameters (voxel side length,
/// chunk radius in voxels, chunk height in voxels).
pub const GEOMETRY_LIMIT: i64 = 0x7fff;

/// Identifies one chunk of the cubic grid.
#[derive(Clone, Copy, PartialEq, Eq, Structural, Debug)]
pub struct ChunkId(pub i64, pub i64);

/// Identifies one voxel: x, height, z.
#[derive(Clone, Copy, PartialEq, Eq, Structural, Debug)]
pub struct VoxelId(pub i64, pub i64, pub i64);

/// An integer position in continuous space, in scaled world units.
/// The host truncates floating-point world positions to this form.
#[derive(Clone, Copy, PartialEq, Eq, Structural, Debug)]
pub struct SpacePos {
    pub x: i64,
    pub y: i64,
    pub z: i64,
}

impl ChunkId {
    pub open spec fn bounded(self, b: int) -> bool {
        abs(self.0 as int) <= b && abs(self.1 as int) <= b
    }

    pub fn new(x: i64, y: i64) -> (c: Self)
        ensures
            c == ChunkId(x, y),
    {
        ChunkId(x, y)
    }

    #[inline]
    pub fn x(&self) -> (r: i64)
        ensures
            r == self.0,
    {
        self.0
    }

    #[inline]
    pub fn y(&self) -> (r: i64)
        ensures
            r == self.1,
    {
        self.1
    }

    pub open spec fn spec_add(self, other: Self) -> Self {
        ChunkId((self.0 + other.0) as i64, (self.1 + other.1) as i64)
    }

    pub open spec fn spec_sub(self, other: Self) -> Self {
        ChunkId((self.0 - other.0) as i64, (self.1 - other.1) as i64)
    }

    pub fn add(self, other: Self) -> (c: Self)
        requires
            self.bounded(4 * CHUNK_LIMIT as int),
            other.bounded(4 * CHUNK_LIMIT as int),
        ensures
            c == self.spec_add(other),
            c.0 == self.0 + other.0,
            c.1 == self.1 + other.1,
    {
        ChunkId(self.0 + other.0, self.1 + other.1)
    }

    pub fn sub(self, other: Self) -> (c: Self)
        requires
            self.bounded(4 * CHUNK_LIMIT as int),
            other.bounded(4 * CHUNK_LIMIT as int),
        ensures
            c == self.spec_sub(other),
            c.0 == self.0 - other.0,
            c.1 == self.1 - other.1,
    {
        ChunkId(self.0 - other.0, self.1 - other.1)
    }
}

impl VoxelId {
    pub open spec fn bounded(self, b: int) -> bool {
        abs(self.0 as int) <= b && abs(self.1 as int) <= b && abs(self.2 as int) <= b
    }

    pub fn new(x: i64, y: i64, z: i64) -> (v: Self)
        ensures
            v == VoxelId(x, y, z),
    {
        VoxelId(x, y, z)
    }

    #[inline]
    pub fn x(&self) -> (r: i64)
        ensures
            r == self.0,
    {
        self.0
    }

    #[inline]
    pub fn y(&self) -> (r: i64)
        ensures
            r == self.1,
    {
        self.1
    }

    #[inline]
    pub fn z(&self) -> (r: i64)
        ensures
            r == self.2,
    {
        self.2
    }

    pub open spec fn spec_add(self, other: Self) -> Self {
        VoxelId((self.0 + other.0) as i64, (self.1 + other.1) as i64, (self.2 + other.2) as i64)
    }

    pub open spec fn spec_sub(self, other: Self) -> Self {
        VoxelId((self.0 - other.0) as i64, (self.1 - other.1) as i64, (self.2 - other.2) as i64)
    }

    pub fn add(self, other: Self) -> (v: Self)
        requires
            self.bounded(4 * VOXEL_LIMIT as int),
            other.bounded(4 * VOXEL_LIMIT as int),
        ensures
            v == self.spec_add(other),
            v.0 == self.0 + other.0,
            v.1 == self.1 + other.1,
            v.2 == self.2 + other.2,
    {
        VoxelId(self.0 + other.0, self.1 + other.1, self.2 + other.2)
    }

    pub fn sub(self, other: Self) -> (v: Self)
        requires
            self.bounded(4 * VOXEL_LIMIT as int),
            other.bounded(4 * VOXEL_LIMIT as int),
        ensures
            v == self.spec_sub(other),
            v.0 == self.0 - other.0,
            v.1 == self.1 - other.1,
            v.2 == self.2 - other.2,
    {
        VoxelId(self.0 - other.0, self.1 - other.1, self.2 - other.2)
    }
}

/// Floor (Euclidean) division of `a` by a positive divisor `b`: the
/// result rounds toward negative infinity, matching division in the
/// mathematical integers.
pub fn floor_div(a: i64, b: i64) -> (q: i64)
    requires
        1 <= b <= GEOMETRY_LIMIT as int * GEOMETRY_LIMIT as int,
        abs(a as int) <= SPACE_LIMIT as int,
    ensures
        q == a as int / b as int,
        abs(q as int) <= abs(a as int),
{
    proof {
        lemma_floor_div_bounds(a as int, b as int);
    }
    if a >= 0 {
        let q = ((a as u64) / (b as u64)) as i64;
        proof {
            assert(a as u64 == a as int && b as u64 == b as int);
        }
        q
    } else {
        let na = (-a) as u64;
        let bu = b as u64;
        let m = (na + bu - 1) / bu;
        proof {
            lemma_neg_ceil_is_floor(na as int, b as int);
        }
        -(m as i64)
    }
}

/// For a positive divisor, the magnitude of a floor quotient never
/// exceeds the magnitude of the dividend.
pub proof fn lemma_floor_div_bounds_pub(a: int, b: int)
    requires
        b >= 1,
    ensures
        a >= 0 ==> 0 <= a / b <= a,
        a < 0 ==> a <= a / b <= 0,
{
    lemma_floor_div_bounds(a, b);
}

proof fn lemma_floor_div_bounds(a: int, b: int)
    requires
        b >= 1,
    ensures
        a >= 0 ==> 0 <= a / b <= a,
        a < 0 ==> a <= a / b <= 0,
{
    vstd::arithmetic::div_mod::lemma_fundamental_div_mod(a, b);
    let q = a / b;
    let r = a % b;
    assert(0 <= r < b) by {
        vstd::arithmetic::div_mod::lemma_mod_bound(a, b);
    }
    if a >= 0 {
        assert(a == b * q + r);
        if q < 0 {
            assert(b * q <= q) by (nonlinear_arith)
                requires
                    b >= 1 && q < 0,
            ;
        }
        if q > a {
            assert(b * q >= q) by (nonlinear_arith)
                requires
                    b >= 1 && q > 0,
            ;
        }
    } else {
        assert(a == b * q + r);
        if q > 0 {
            assert(b * q >= q) by (nonlinear_arith)
                requires
                    b >= 1 && q > 0,
            ;
        }
        if q < a {
            assert(false) by (nonlinear_arith)
                requires
                    b >= 1 && a < 0 && q <= a - 1 && 0 <= r < b && a == b * q + r,
            ;
        }
    }
}

/// Floor division of a negative value expressed through the ceiling of
/// its negation: `(-n) / b == -((n + b - 1) / b)` for `n >= 0`, `b >= 1`.
proof fn lemma_neg_ceil_is_floor(n: int, b: int)
    requires
        n >= 0,
        b >= 1,
    ensures
        (-n) / b == -((n + b - 1) / b),
{
    vstd::arithmetic::div_mod::lemma_fundamental_div_mod(n, b);
    let k = n / b;
    let r = n % b;
    assert(n == b * k + r);
    if r == 0 {
        assert(n + b - 1 == k * b + (b - 1)) by {
            assert(k * b == b * k) by (nonlinear_arith);
        }
        lemma_fundamental_div_mod_converse(n + b - 1, b, k, b - 1);
        assert(-n == (-k) * b + 0) by {
            assert((-k) * b == -(b * k)) by (nonlinear_arith);
        }
        lemma_fundamental_div_mod_converse(-n, b, -k, 0);
    } else {
        assert(n + b - 1 == (k + 1) * b + (r - 1)) by {
            assert((k + 1) * b == b * k + b) by (nonlinear_arith);
        }
        lemma_fundamental_div_mod_converse(n + b - 1, b, k + 1, r - 1);
        assert(-n == (-(k + 1)) * b + (b - r)) by {
            assert((-(k + 1)) * b == -(b * k) - b) by (nonlinear_arith);
        }
        lemma_fundamental_div_mod_converse(-n, b, -(k + 1), b - r);
    }
}

impl SpacePos {
    pub open spec fn bounded(self, b: int) -> bool {
        abs(self.x as int) <= b && abs(self.y as int) <= b && abs(self.z as int) <= b
    }

    pub fn new(x: i64, y: i64, z: i64) -> (p: Self)
        ensures
            p == (SpacePos { x, y, z }),
    {
        SpacePos { x, y, z }
    }
}

/// The cubic-grid layout: geometry parameters fixed at construction,
/// immutable thereafter.
#[derive(Clone, Copy, PartialEq, Eq, Structural, Debug)]
pub struct CubicVoxelLayout {
    /// Chunk whose center voxel anchors the space coordinate system.
    pub origin: ChunkId,
    /// World units per voxel (scaled to an integer by the host).
    pub voxel_side_length: i64,
    /// Voxels from a chunk's center to its edge.
    pub chunk_voxel_length: i64,
    /// Voxels stacked vertically in one chunk.
    pub chunk_voxel_height: i64,
}

impl CubicVoxelLayout {
    /// Geometry parameters in range: positive radius, tile size and
    /// height, and an origin chunk within addressable bounds.
    pub open spec fn wf(self) -> bool {
        &&& 1 <= self.voxel_side_length <= GEOMETRY_LIMIT
        &&& 1 <= self.chunk_voxel_length <= GEOMETRY_LIMIT
        &&& 1 <= self.chunk_voxel_height <= GEOMETRY_LIMIT
        &&& self.origin.bounded(CHUNK_LIMIT as int)
    }

    /// Voxels across one full chunk side.
    pub open spec fn spec_full_length(self) -> int {
        2 * self.chunk_voxel_length + 1
    }

    pub fn new(
        origin: ChunkId,
        voxel_side_length: i64,
        chunk_voxel_length: i64,
        chunk_voxel_height: i64,
    ) -> (layout: Self)
        requires
            1 <= voxel_side_length <= GEOMETRY_LIMIT as int,
            1 <= chunk_voxel_length <= GEOMETRY_LIMIT as int,
            1 <= chunk_voxel_height <= GEOMETRY_LIMIT as int,
            origin.bounded(CHUNK_LIMIT as int),
        ensures
            layout == (CubicVoxelLayout {
                origin,
                voxel_side_length,
                chunk_voxel_length,
                chunk_voxel_height,
            }),
            layout.wf(),
    {
        CubicVoxelLayout { origin, voxel_side_length, chunk_voxel_length, chunk_voxel_height }
    }

    /// Checked constructor: rejects non-positive or oversized geometry.
    pub fn try_new(
        origin: ChunkId,
        voxel_side_length: i64,
        chunk_voxel_length: i64,
        chunk_voxel_height: i64,
    ) -> (r: Option<Self>)
        ensures
            r is Some <==> {
                &&& 1 <= voxel_side_length <= GEOMETRY_LIMIT as int
                &&& 1 <= chunk_voxel_length <= GEOMETRY_LIMIT as int
                &&& 1 <= chunk_voxel_height <= GEOMETRY_LIMIT as int
                &&& origin.bounded(CHUNK_LIMIT as int)
            },
            r is Some ==> r->Some_0 == (CubicVoxelLayout {
                origin,
                voxel_side_length,
                chunk_voxel_length,
                chunk_voxel_height,
            }) && r->Some_0.wf(),
    {
        if 1 <= voxel_side_length && voxel_side_length <= GEOMETRY_LIMIT
            && 1 <= chunk_voxel_length && chunk_voxel_length <= GEOMETRY_LIMIT
            && 1 <= chunk_voxel_height && chunk_voxel_height <= GEOMETRY_LIMIT
            && -CHUNK_LIMIT <= origin.0 && origin.0 <= CHUNK_LIMIT
            && -CHUNK_LIMIT <= origin.1 && origin.1 <= CHUNK_LIMIT
        {
            Some(Self::new(origin, voxel_side_length, chunk_voxel_length, chunk_voxel_height))
        } else {
            None
        }
    }

    #[inline]
    pub fn chunk_voxel_full_length(&self) -> (r: i64)
        requires
            self.wf(),
        ensures
            r == self.spec_full_length(),
    {
        1 + self.chunk_voxel_length * 2
    }

    /// The center voxel of a chunk, as integer components.
    pub open spec fn spec_center_voxel(self, c: ChunkId) -> (int, int, int) {
        (c.0 * self.spec_full_length(), 0, c.1 * self.spec_full_length())
    }

    /// The voxel at offset `(x, y, z)` from a chunk's center column.
    pub open spec fn spec_get_voxel(self, c: ChunkId, x: int, y: int, z: int) -> (int, int, int) {
        (x + c.0 * self.spec_full_length(), y, z + c.1 * self.spec_full_length())
    }

    /// The chunk containing a voxel: floor division of the shifted
    /// planar components by the full chunk side length.
    pub open spec fn spec_voxel_to_chunk(self, vx: int, vz: int) -> (int, int) {
        (
            (vx + self.chunk_voxel_length) / self.spec_full_length(),
            (vz + self.chunk_voxel_length) / self.spec_full_length(),
        )
    }

    /// The space position of a voxel, relative to the origin chunk's
    /// center, scaled by the voxel side length.
    pub open spec fn spec_voxel_to_space(self, vx: int, vy: int, vz: int) -> (int, int, int) {
        (
            (vx - self.origin.0 * self.spec_full_length()) * self.voxel_side_length,
            vy * self.voxel_side_length,
            (vz - self.origin.1 * self.spec_full_length()) * self.voxel_side_length,
        )
    }

    /// The voxel containing a space position: floor division of every
    /// component by the voxel side length, the planar ones shifted back
    /// by the origin chunk's center.
    pub open spec fn spec_space_to_voxel(self, sx: int, sy: int, sz: int) -> (int, int, int) {
        (
            sx / self.voxel_side_length as int + self.origin.0 * self.spec_full_length(),
            sy / self.voxel_side_length as int,
            sz / self.voxel_side_length as int + self.origin.1 * self.spec_full_length(),
        )
    }

    pub open spec fn spec_chunk_to_space(self, c: ChunkId) -> (int, int, int) {
        self.spec_voxel_to_space(
            self.spec_center_voxel(c).0,
            self.spec_center_voxel(c).1,
            self.spec_center_voxel(c).2,
        )
    }

    pub open spec fn spec_space_to_chunk(self, sx: int, sy: int, sz: int) -> (int, int) {
        self.spec_voxel_to_chunk(
            self.spec_space_to_voxel(sx, sy, sz).0,
            self.spec_space_to_voxel(sx, sy, sz).2,
        )
    }

    proof fn lemma_center_voxel_bounded(self, c: ChunkId)
        requires
            self.wf(),
            c.bounded(2 * CHUNK_LIMIT as int),
        ensures
            abs(self.spec_center_voxel(c).0) <= VOXEL_LIMIT as int,
            abs(self.spec_center_voxel(c).2) <= VOXEL_LIMIT as int,
    {
        assert(abs(c.0 * self.spec_full_length()) <= VOXEL_LIMIT as int) by (nonlinear_arith)
            requires
                abs(c.0 as int) <= 2 * CHUNK_LIMIT as int
                    && 0 < self.spec_full_length() <= 2 * GEOMETRY_LIMIT as int + 1,
        ;
        assert(abs(c.1 * self.spec_full_length()) <= VOXEL_LIMIT as int) by (nonlinear_arith)
            requires
                abs(c.1 as int) <= 2 * CHUNK_LIMIT as int
                    && 0 < self.spec_full_length() <= 2 * GEOMETRY_LIMIT as int + 1,
        ;
    }

    #[inline]
    pub fn get_center_voxel(&self, chunk: &ChunkId) -> (v: VoxelId)
        requires
            self.wf(),
            chunk.bounded(2 * CHUNK_LIMIT as int),
        ensures
            (v.0 as int, v.1 as int, v.2 as int) == self.spec_center_voxel(*chunk),
            v.bounded(VOXEL_LIMIT as int),
    {
        proof {
            self.lemma_center_voxel_bounded(*chunk);
        }
        VoxelId(
            chunk.0 * self.chunk_voxel_full_length(),
            0,
            chunk.1 * self.chunk_voxel_full_length(),
        )
    }

    #[inline]
    pub fn get_voxel(&self, chunk: &ChunkId, x: i64, y: i64, z: i64) -> (v: VoxelId)
        requires
            self.wf(),
            chunk.bounded(2 * CHUNK_LIMIT as int),
            abs(x as int) <= 4 * GEOMETRY_LIMIT as int,
            abs(y as int) <= 4 * GEOMETRY_LIMIT as int,
            abs(z as int) <= 4 * GEOMETRY_LIMIT as int,
        ensures
            (v.0 as int, v.1 as int, v.2 as int) == self.spec_get_voxel(
                *chunk,
                x as int,
                y as int,
                z as int,
            ),
            v.bounded(2 * VOXEL_LIMIT as int),
    {
        proof {
            self.lemma_center_voxel_bounded(*chunk);
        }
        let vx = x + (chunk.0 * self.chunk_voxel_full_length());
        let vz = z + (chunk.1 * self.chunk_voxel_full_length());
        VoxelId(vx, y, vz)
    }

    pub fn voxel_to_chunk(&self, voxel: &VoxelId) -> (c: ChunkId)
        requires
            self.wf(),
            abs(voxel.0 + self.chunk_voxel_length) <= SPACE_LIMIT as int,
            abs(voxel.2 + self.chunk_voxel_length) <= SPACE_LIMIT as int,
        ensures
            (c.0 as int, c.1 as int) == self.spec_voxel_to_chunk(voxel.0 as int, voxel.2 as int),
            abs(c.0 as int) <= abs(voxel.0 + self.chunk_voxel_length),
            abs(c.1 as int) <= abs(voxel.2 + self.chunk_voxel_length),
    {
        let full = self.chunk_voxel_full_length();
        let x = floor_div(voxel.0 + self.chunk_voxel_length, full);
        let y = floor_div(voxel.2 + self.chunk_voxel_length, full);
        ChunkId(x, y)
    }

    pub fn voxel_to_space(&self, voxel: &VoxelId) -> (p: SpacePos)
        requires
            self.wf(),
            voxel.bounded(2 * VOXEL_LIMIT as int),
        ensures
            (p.x as int, p.y as int, p.z as int) == self.spec_voxel_to_space(
                voxel.0 as int,
                voxel.1 as int,
                voxel.2 as int,
            ),
            p.bounded(SPACE_LIMIT as int),
    {
        proof {
            self.lemma_center_voxel_bounded(self.origin);
            assert(abs((voxel.0 - self.spec_center_voxel(self.origin).0)
                * self.voxel_side_length) <= SPACE_LIMIT as int) by (nonlinear_arith)
                requires
                    abs(voxel.0 - self.spec_center_voxel(self.origin).0) <= 3 * VOXEL_LIMIT as int
                        && 0 < self.voxel_side_length <= GEOMETRY_LIMIT as int,
            ;
            assert(abs(voxel.1 * self.voxel_side_length) <= SPACE_LIMIT as int)
                by (nonlinear_arith)
                requires
                    abs(voxel.1 as int) <= 3 * VOXEL_LIMIT as int
                        && 0 < self.voxel_side_length <= GEOMETRY_LIMIT as int,
            ;
            assert(abs((voxel.2 - self.spec_center_voxel(self.origin).2)
                * self.voxel_side_length) <= SPACE_LIMIT as int) by (nonlinear_arith)
                requires
                    abs(voxel.2 - self.spec_center_voxel(self.origin).2) <= 3 * VOXEL_LIMIT as int
                        && 0 < self.voxel_side_length <= GEOMETRY_LIMIT as int,
            ;
        }
        let center = self.get_center_voxel(&self.origin);
        let x = (voxel.0 - center.0) * self.voxel_side_length;
        let y = voxel.1 * self.voxel_side_length;
        let z = (voxel.2 - center.2) * self.voxel_side_length;
        SpacePos { x, y, z }
    }

    pub fn space_to_voxel(&self, space: &SpacePos) -> (v: VoxelId)
        requires
            self.wf(),
            space.bounded(SPACE_LIMIT as int),
        ensures
            (v.0 as int, v.1 as int, v.2 as int) == self.spec_space_to_voxel(
                space.x as int,
                space.y as int,
                space.z as int,
            ),
    {
        proof {
            self.lemma_center_voxel_bounded(self.origin);
        }
        let center = self.get_center_voxel(&self.origin);
        let x = floor_div(space.x, self.voxel_side_length);
        let y = floor_div(space.y, self.voxel_side_length);
        let z = floor_div(space.z, self.voxel_side_length);
        VoxelId(x + center.0, y, z + center.2)
    }

    pub fn space_to_chunk(&self, space: &SpacePos) -> (c: ChunkId)
        requires
            self.wf(),
            space.bounded(SPACE_LIMIT as int / 2),
        ensures
            (c.0 as int, c.1 as int) == self.spec_space_to_chunk(
                space.x as int,
                space.y as int,
                space.z as int,
            ),
    {
        let v = self.space_to_voxel(space);
        proof {
            self.lemma_center_voxel_bounded(self.origin);
            lemma_floor_div_bounds(space.x as int, self.voxel_side_length as int);
            lemma_floor_div_bounds(space.z as int, self.voxel_side_length as int);
        }
        self.voxel_to_chunk(&v)
    }

    pub fn chunk_to_space(&self, chunk: &ChunkId) -> (p: SpacePos)
        requires
            self.wf(),
            chunk.bounded(2 * CHUNK_LIMIT as int),
        ensures
            (p.x as int, p.y as int, p.z as int) == self.spec_chunk_to_space(*chunk),
            p.bounded(SPACE_LIMIT as int / 2),
    {
        proof {
            self.lemma_center_voxel_bounded(*chunk);
            self.lemma_center_voxel_bounded(self.origin);
            assert(abs((self.spec_center_voxel(*chunk).0 - self.spec_center_voxel(self.origin).0)
                * self.voxel_side_length) <= SPACE_LIMIT as int / 2) by (nonlinear_arith)
                requires
                    abs(self.spec_center_voxel(*chunk).0 - self.spec_center_voxel(self.origin).0)
                        <= 2 * VOXEL_LIMIT as int
                        && 0 < self.voxel_side_length <= GEOMETRY_LIMIT as int,
            ;
            assert(abs((self.spec_center_voxel(*chunk).2 - self.spec_center_voxel(self.origin).2)
                * self.voxel_side_length) <= SPACE_LIMIT as int / 2) by (nonlinear_arith)
                requires
                    abs(self.spec_center_voxel(*chunk).2 - self.spec_center_voxel(self.origin).2)
                        <= 2 * VOXEL_LIMIT as int
                        && 0 < self.voxel_side_length <= GEOMETRY_LIMIT as int,
            ;
        }
        let center = self.get_center_voxel(chunk);
        let p = self.voxel_to_space(&center);
        p
    }
}


/// Every voxel produced by `spec_get_voxel` with offsets inside the
/// chunk resolves back to that same chunk.  This is the square-grid
/// membership law behind `get_chunk_voxels`.
pub proof fn lemma_voxel_resolves_to_chunk(
    layout: CubicVoxelLayout,
    c: ChunkId,
    dx: int,
    dy: int,
    dz: int,
)
    requires
        layout.wf(),
        -layout.chunk_voxel_length <= dx <= layout.chunk_voxel_length,
        -layout.chunk_voxel_length <= dz <= layout.chunk_voxel_length,
    ensures
        layout.spec_voxel_to_chunk(
            layout.spec_get_voxel(c, dx, dy, dz).0,
            layout.spec_get_voxel(c, dx, dy, dz).2,
        ) == (c.0 as int, c.1 as int),
{
    let full = layout.spec_full_length();
    let l = layout.chunk_voxel_length as int;
    lemma_fundamental_div_mod_converse(dx + c.0 * full + l, full, c.0 as int, dx + l);
    lemma_fundamental_div_mod_converse(dz + c.1 * full + l, full, c.1 as int, dz + l);
}

/// The chunk that `spec_voxel_to_chunk` assigns to a voxel is never more
/// than the chunk radius away, on either planar axis, from that chunk's
/// center voxel.
pub proof fn lemma_voxel_to_chunk_within_radius(layout: CubicVoxelLayout, vx: int, vz: int)
    requires
        layout.wf(),
    ensures
        abs(vx - layout.spec_voxel_to_chunk(vx, vz).0 * layout.spec_full_length())
            <= layout.chunk_voxel_length,
        abs(vz - layout.spec_voxel_to_chunk(vx, vz).1 * layout.spec_full_length())
            <= layout.chunk_voxel_length,
{
    let full = layout.spec_full_length();
    let l = layout.chunk_voxel_length as int;
    vstd::arithmetic::div_mod::lemma_fundamental_div_mod(vx + l, full);
    vstd::arithmetic::div_mod::lemma_mod_bound(vx + l, full);
    vstd::arithmetic::div_mod::lemma_fundamental_div_mod(vz + l, full);
    vstd::arithmetic::div_mod::lemma_mod_bound(vz + l, full);
    assert(full * ((vx + l) / full) == ((vx + l) / full) * full) by (nonlinear_arith);
    assert(full * ((vz + l) / full) == ((vz + l) / full) * full) by (nonlinear_arith);
}

/// Round trip of a voxel through space: converting a voxel to its space
/// position and back yields the same voxel.
pub proof fn lemma_voxel_space_roundtrip(layout: CubicVoxelLayout, v: VoxelId)
    requires
        layout.wf(),
    ensures
        layout.spec_space_to_voxel(
            layout.spec_voxel_to_space(v.0 as int, v.1 as int, v.2 as int).0,
            layout.spec_voxel_to_space(v.0 as int, v.1 as int, v.2 as int).1,
            layout.spec_voxel_to_space(v.0 as int, v.1 as int, v.2 as int).2,
        ) == (v.0 as int, v.1 as int, v.2 as int),
{
    let s = layout.voxel_side_length as int;
    let full = layout.spec_full_length();
    let o0 = layout.origin.0 * full;
    let o1 = layout.origin.1 * full;
    lemma_fundamental_div_mod_converse((v.0 - o0) * s, s, v.0 - o0, 0);
    lemma_fundamental_div_mod_converse(v.1 * s, s, v.1 as int, 0);
    lemma_fundamental_div_mod_converse((v.2 - o1) * s, s, v.2 - o1, 0);
}

/// Round trip of a chunk through space: converting a chunk to its space
/// position and back yields the same chunk.
pub proof fn lemma_chunk_space_roundtrip(layout: CubicVoxelLayout, c: ChunkId)
    requires
        layout.wf(),
    ensures
        layout.spec_space_to_chunk(
            layout.spec_chunk_to_space(c).0,
            layout.spec_chunk_to_space(c).1,
            layout.spec_chunk_to_space(c).2,
        ) == (c.0 as int, c.1 as int),
{
    let s = layout.voxel_side_length as int;
    let h = layout.chunk_voxel_height as int;
    let full = layout.spec_full_length();
    let l = layout.chunk_voxel_length as int;
    let o0 = layout.origin.0 * full;
    let o1 = layout.origin.1 * full;
    let cx = c.0 * full;
    let cz = c.1 * full;
    lemma_fundamental_div_mod_converse((cx - o0) * s, s, cx - o0, 0);
    lemma_fundamental_div_mod_converse((cz - o1) * s, s, cz - o1, 0);
    lemma_fundamental_div_mod_converse(0, h, 0, 0);
    assert(0 * s == 0) by (nonlinear_arith);
    lemma_fundamental_div_mod_converse(cx + l, full, c.0 as int, l);
    lemma_fundamental_div_mod_converse(cz + l, full, c.1 as int, l);
}


/// One of the four 90-degree rotations of a planar offset, in the order
/// the ring walk applies them.
pub open spec fn spec_square_rot(rot: int, x: int, y: int) -> (int, int) {
    if rot == 0 {
        (-y, x)
    } else if rot == 1 {
        (-x, -y)
    } else if rot == 2 {
        (y, -x)
    } else {
        (x, y)
    }
}

/// The offset at position `t` of the ring walk at Chebyshev distance
/// `r`: one edge of the ring (`j` steps along the bottom edge, from the
/// corner) rotated into each of the four sides.
pub open spec fn spec_square_ring_offset(r: int, j: int, rot: int) -> (int, int) {
    spec_square_rot(rot, j - r, -r)
}

/// All offsets of the ring at Chebyshev distance `r`, in enumeration
/// order: `8 * r` entries.
pub open spec fn spec_square_ring_seq(r: int) -> Seq<(int, int)> {
    Seq::new((8 * r) as nat, |t: int| spec_square_ring_offset(r, t / 4, t % 4))
}

/// All neighbor offsets out to Chebyshev distance `d`: the rings at
/// distances `1 ..= d`, concatenated in order.
pub open spec fn spec_square_neighbor_offsets(d: int) -> Seq<(int, int)>
    decreases d,
{
    if d <= 0 {
        Seq::empty()
    } else {
        spec_square_neighbor_offsets(d - 1) + spec_square_ring_seq(d)
    }
}

/// The full neighborhood out to distance `d` has `(2d+1)^2 - 1` offsets.
pub proof fn lemma_square_neighbor_offsets_len(d: int)
    requires
        d >= 0,
    ensures
        spec_square_neighbor_offsets(d).len() == 4 * d * (d + 1),
    decreases d,
{
    if d > 0 {
        lemma_square_neighbor_offsets_len(d - 1);
        let n1 = spec_square_neighbor_offsets(d - 1).len() as int;
        let n = spec_square_neighbor_offsets(d).len() as int;
        assert(n == n1 + 8 * d);
        assert(n1 == 4 * (d - 1) * ((d - 1) + 1));
        assert(n == 4 * d * (d + 1)) by (nonlinear_arith)
            requires
                n == n1 + 8 * d && n1 == 4 * (d - 1) * ((d - 1) + 1),
        ;
        assert(spec_square_neighbor_offsets(d).len() == 4 * d * (d + 1));
    } else {
        assert(spec_square_neighbor_offsets(d).len() == 0);
        assert(4 * d * (d + 1) == 0) by (nonlinear_arith)
            requires
                d == 0,
        ;
    }
}

/// Every enumerated offset lies at a Chebyshev distance between 1 and
/// `d` from the center, so no neighbor coincides with the center and
/// none escapes the requested radius.
pub proof fn lemma_square_neighbor_offsets_bounded(d: int, i: int)
    requires
        1 <= d,
        0 <= i < spec_square_neighbor_offsets(d).len(),
    ensures
        1 <= vstd::math::max(
            abs(spec_square_neighbor_offsets(d)[i].0) as int,
            abs(spec_square_neighbor_offsets(d)[i].1) as int,
        ) <= d,
    decreases d,
{
    lemma_square_neighbor_offsets_len(d - 1);
    let prefix = spec_square_neighbor_offsets(d - 1);
    if i < prefix.len() {
        lemma_square_neighbor_offsets_bounded(d - 1, i);
    } else {
        let t = i - prefix.len();
        assert(spec_square_ring_seq(d)[t] == spec_square_ring_offset(d, t / 4, t % 4));
        vstd::arithmetic::div_mod::lemma_fundamental_div_mod(t, 4);
        vstd::arithmetic::div_mod::lemma_mod_bound(t, 4);
        assert(0 <= t / 4 < 2 * d) by {
            lemma_floor_div_bounds(t, 4);
            if t / 4 >= 2 * d {
                assert(4 * (t / 4) >= 4 * (2 * d)) by (nonlinear_arith)
                    requires
                        t / 4 >= 2 * d,
                ;
            }
        }
    }
}

/// Mutual membership: the offset list is closed under negation, so if
/// `n` is a neighbor of `c` at distance `d` then `c` is a neighbor of
/// `n` at distance `d`.
pub proof fn lemma_square_neighbor_offsets_mutual(d: int, i: int)
    requires
        1 <= d,
        0 <= i < spec_square_neighbor_offsets(d).len(),
    ensures
        exists|j: int|
            0 <= j < spec_square_neighbor_offsets(d).len()
                && spec_square_neighbor_offsets(d)[j].0 == -spec_square_neighbor_offsets(d)[i].0
                && spec_square_neighbor_offsets(d)[j].1 == -spec_square_neighbor_offsets(d)[i].1,
    decreases d,
{
    let s = spec_square_neighbor_offsets(d);
    let prefix = spec_square_neighbor_offsets(d - 1);
    if i < prefix.len() {
        lemma_square_neighbor_offsets_mutual(d - 1, i);
        let j0 = choose|j: int|
            0 <= j < prefix.len() && prefix[j].0 == -prefix[i].0 && prefix[j].1 == -prefix[i].1;
        assert(s[j0] == prefix[j0] && s[i] == prefix[i]);
        assert(0 <= j0 < s.len() && s[j0].0 == -s[i].0 && s[j0].1 == -s[i].1);
    } else {
        let t = i - prefix.len();
        vstd::arithmetic::div_mod::lemma_fundamental_div_mod(t, 4);
        vstd::arithmetic::div_mod::lemma_mod_bound(t, 4);
        let rot = t % 4;
        let partner_rot = if rot < 2 {
            rot + 2
        } else {
            rot - 2
        };
        let tp = 4 * (t / 4) + partner_rot;
        lemma_fundamental_div_mod_converse(tp, 4, t / 4, partner_rot);
        let j0 = prefix.len() + tp;
        assert(s[j0] == spec_square_ring_offset(d, tp / 4, tp % 4));
        assert(s[i] == spec_square_ring_offset(d, t / 4, rot));
        assert(0 <= j0 < s.len() && s[j0].0 == -s[i].0 && s[j0].1 == -s[i].1);
    }
}

/// Concatenating rings never disturbs what came before: the offset
/// list for a larger distance extends the list for a smaller one.
proof fn lemma_square_neighbor_offsets_prefix(d: int, r: int, t: int)
    requires
        1 <= r <= d,
        0 <= t < 8 * r,
    ensures
        spec_square_neighbor_offsets(r - 1).len() + t < spec_square_neighbor_offsets(d).len(),
        spec_square_neighbor_offsets(d)[spec_square_neighbor_offsets(r - 1).len() + t]
            == spec_square_ring_seq(r)[t],
    decreases d,
{
    lemma_square_neighbor_offsets_len(r - 1);
    lemma_square_neighbor_offsets_len(d);
    if r == d {
    } else {
        lemma_square_neighbor_offsets_prefix(d - 1, r, t);
        lemma_square_neighbor_offsets_len(d - 1);
    }
}

impl CubicVoxelLayout {
    /// The chunks within Chebyshev ring distance `1 ..= distance` of a
    /// chunk, enumerated ring by ring, one edge rotated into all four
    /// sides.  Exactly `(2 * distance + 1)^2 - 1` entries, each the
    /// center plus the corresponding enumerated offset.
    pub fn get_chunk_neighbors(&self, chunk: ChunkId, distance: i64) -> (out: Vec<ChunkId>)
        requires
            self.wf(),
            chunk.bounded(2 * CHUNK_LIMIT as int),
            1 <= distance <= GEOMETRY_LIMIT as int,
        ensures
            out@.len() == 4 * distance * (distance + 1),
            forall|i: int|
                0 <= i < out@.len() ==> {
                    let off = #[trigger] spec_square_neighbor_offsets(distance as int)[i];
                    out@[i].0 == chunk.0 + off.0 && out@[i].1 == chunk.1 + off.1
                },
    {
        let ghost d = distance as int;
        let mut out: Vec<ChunkId> = Vec::new();
        let mut ring: i64 = 1;
        proof {
            lemma_square_neighbor_offsets_len(d);
        }
        while ring <= distance
            invariant
                self.wf(),
                chunk.bounded(2 * CHUNK_LIMIT as int),
                1 <= distance <= GEOMETRY_LIMIT as int,
                d == distance as int,
                1 <= ring <= distance + 1,
                out@.len() == spec_square_neighbor_offsets(ring - 1).len(),
                spec_square_neighbor_offsets(d).len() == 4 * d * (d + 1),
                forall|i: int|
                    0 <= i < out@.len() ==> {
                        let off = #[trigger] spec_square_neighbor_offsets(d)[i];
                        out@[i].0 == chunk.0 + off.0 && out@[i].1 == chunk.1 + off.1
                    },
            decreases distance - ring + 1,
        {
            let mut j: i64 = 0;
            proof {
                lemma_square_neighbor_offsets_len(ring - 1);
                lemma_square_neighbor_offsets_len(ring as int);
            }
            while j < 2 * ring
                invariant
                    self.wf(),
                    chunk.bounded(2 * CHUNK_LIMIT as int),
                    1 <= distance <= GEOMETRY_LIMIT as int,
                    d == distance as int,
                    1 <= ring <= distance,
                    0 <= j <= 2 * ring,
                    out@.len() == spec_square_neighbor_offsets(ring - 1).len() + 4 * j,
                    spec_square_neighbor_offsets(d).len() == 4 * d * (d + 1),
                    spec_square_neighbor_offsets(ring - 1).len() == 4 * (ring - 1) * ring,
                    forall|i: int|
                        0 <= i < out@.len() ==> {
                            let off = #[trigger] spec_square_neighbor_offsets(d)[i];
                            out@[i].0 == chunk.0 + off.0 && out@[i].1 == chunk.1 + off.1
                        },
                decreases 2 * ring - j,
            {
                let bx = j - ring;
                let by = -ring;
                let mut rot: i64 = 0;
                while rot < 4
                    invariant
                        self.wf(),
                        chunk.bounded(2 * CHUNK_LIMIT as int),
                        1 <= distance <= GEOMETRY_LIMIT as int,
                        d == distance as int,
                        1 <= ring <= distance,
                        0 <= j < 2 * ring,
                        0 <= rot <= 4,
                        bx == j - ring,
                        by == -ring,
                        out@.len() == spec_square_neighbor_offsets(ring - 1).len() + 4 * j + rot,
                        spec_square_neighbor_offsets(d).len() == 4 * d * (d + 1),
                        spec_square_neighbor_offsets(ring - 1).len() == 4 * (ring - 1) * ring,
                        forall|i: int|
                            0 <= i < out@.len() ==> {
                                let off = #[trigger] spec_square_neighbor_offsets(d)[i];
                                out@[i].0 == chunk.0 + off.0 && out@[i].1 == chunk.1 + off.1
                            },
                    decreases 4 - rot,
                {
                    let (ox, oy) = if rot == 0 {
                        (-by, bx)
                    } else if rot == 1 {
                        (-bx, -by)
                    } else if rot == 2 {
                        (by, -bx)
                    } else {
                        (bx, by)
                    };
                    proof {
                        let t = 4 * j + rot;
                        lemma_square_neighbor_offsets_prefix(d, ring as int, t);
                        lemma_fundamental_div_mod_converse(t, 4, j as int, rot as int);
                        assert(spec_square_ring_seq(ring as int)[t] == spec_square_ring_offset(
                            ring as int,
                            j as int,
                            rot as int,
                        ));
                    }
                    out.push(ChunkId(chunk.0 + ox, chunk.1 + oy));
                    rot = rot + 1;
                }
                j = j + 1;
            }
            ring = ring + 1;
        }
        out
    }
}


impl CubicVoxelLayout {
    /// The voxel listed at position `i` when a chunk's voxels are
    /// enumerated: `x` runs over the full side, then `z`, then the
    /// height `y` innermost.
    pub open spec fn spec_chunk_voxel_at(self, c: ChunkId, i: int) -> (int, int, int) {
        let f = self.spec_full_length();
        let h = self.chunk_voxel_height as int;
        let l = self.chunk_voxel_length as int;
        self.spec_get_voxel(c, i / (f * h) - l, i % h, (i / h) % f - l)
    }

    /// Every voxel of a chunk, column by column: exactly
    /// `full_length^2 * height` entries, the voxel at position `i`
    /// being `spec_chunk_voxel_at(chunk, i)`.
    pub fn get_chunk_voxels(&self, chunk: &ChunkId) -> (out: Vec<VoxelId>)
        requires
            self.wf(),
            chunk.bounded(2 * CHUNK_LIMIT as int),
        ensures
            out@.len() == self.spec_full_length() * self.spec_full_length()
                * self.chunk_voxel_height,
            forall|i: int|
                0 <= i < out@.len() ==> (out@[i].0 as int, out@[i].1 as int, out@[i].2 as int)
                    == #[trigger] self.spec_chunk_voxel_at(*chunk, i),
    {
        let f = self.chunk_voxel_full_length();
        let h = self.chunk_voxel_height;
        let l = self.chunk_voxel_length;
        let ghost fi = f as int;
        let ghost hi = h as int;
        let mut out: Vec<VoxelId> = Vec::new();
        let mut x: i64 = 0;
        proof {
            assert(fi * fi * hi <= 0x7fff_ffff_ffff) by (nonlinear_arith)
                requires
                    0 < fi < 0x1_0000 && 0 < hi <= 0x8000,
            ;
        }
        while x < f
            invariant
                self.wf(),
                chunk.bounded(2 * CHUNK_LIMIT as int),
                fi == self.spec_full_length(),
                hi == self.chunk_voxel_height as int,
                f == fi && h == hi && l == self.chunk_voxel_length,
                0 <= x <= f,
                fi * fi * hi <= 0x7fff_ffff_ffff,
                out@.len() == x * fi * hi,
                forall|i: int|
                    0 <= i < out@.len() ==> (out@[i].0 as int, out@[i].1 as int, out@[i].2 as int)
                        == #[trigger] self.spec_chunk_voxel_at(*chunk, i),
            decreases f - x,
        {
            let mut z: i64 = 0;
            proof {
                assert(x * fi * hi + fi * hi <= fi * fi * hi) by (nonlinear_arith)
                    requires
                        0 <= x < fi && 0 < hi,
                ;
            }
            while z < f
                invariant
                    self.wf(),
                    chunk.bounded(2 * CHUNK_LIMIT as int),
                    fi == self.spec_full_length(),
                    hi == self.chunk_voxel_height as int,
                    f == fi && h == hi && l == self.chunk_voxel_length,
                    0 <= x < f,
                    0 <= z <= f,
                    fi * fi * hi <= 0x7fff_ffff_ffff,
                    x * fi * hi + fi * hi <= fi * fi * hi,
                    out@.len() == x * fi * hi + z * hi,
                    forall|i: int|
                        0 <= i < out@.len() ==> (
                            out@[i].0 as int,
                            out@[i].1 as int,
                            out@[i].2 as int,
                        ) == #[trigger] self.spec_chunk_voxel_at(*chunk, i),
                decreases f - z,
            {
                let mut y: i64 = 0;
                proof {
                    assert(z * hi + hi <= fi * hi) by (nonlinear_arith)
                        requires
                            0 <= z < fi && 0 < hi,
                    ;
                }
                while y < h
                    invariant
                        self.wf(),
                        chunk.bounded(2 * CHUNK_LIMIT as int),
                        fi == self.spec_full_length(),
                        hi == self.chunk_voxel_height as int,
                        f == fi && h == hi && l == self.chunk_voxel_length,
                        0 <= x < f,
                        0 <= z < f,
                        0 <= y <= h,
                        fi * fi * hi <= 0x7fff_ffff_ffff,
                        x * fi * hi + fi * hi <= fi * fi * hi,
                        z * hi + hi <= fi * hi,
                        out@.len() == x * fi * hi + z * hi + y,
                        forall|i: int|
                            0 <= i < out@.len() ==> (
                                out@[i].0 as int,
                                out@[i].1 as int,
                                out@[i].2 as int,
                            ) == #[trigger] self.spec_chunk_voxel_at(*chunk, i),
                    decreases h - y,
                {
                    let v = self.get_voxel(chunk, x - l, y, z - l);
                    proof {
                        let i = x * fi * hi + z * hi + y;
                        assert(x * fi * hi + z * hi + y == x * (fi * hi) + (z * hi + y) && 0 <= z
                            * hi + y < fi * hi && (x * fi + z) * hi + y == x * fi * hi + z * hi
                            + y) by (nonlinear_arith)
                            requires
                                0 <= x && 0 <= z < fi && 0 <= y < hi && z * hi + hi <= fi * hi,
                        ;
                        assert(fi * hi > 0) by (nonlinear_arith)
                            requires
                                fi > 0 && hi > 0,
                        ;
                        lemma_fundamental_div_mod_converse(i, fi * hi, x as int, z * hi + y);
                        lemma_fundamental_div_mod_converse(i, hi, x * fi + z, y as int);
                        lemma_fundamental_div_mod_converse(x * fi + z, fi, x as int, z as int);
                        assert(self.spec_chunk_voxel_at(*chunk, i) == self.spec_get_voxel(
                            *chunk,
                            x - l,
                            y as int,
                            z - l,
                        ));
                    }
                    out.push(v);
                    y = y + 1;
                }
                z = z + 1;
                proof {
                    assert((z - 1) * fi * hi + (z - 1) * hi + hi == (z - 1) * fi * hi + z * hi)
                        by (nonlinear_arith);
                }
            }
            x = x + 1;
            proof {
                assert((x - 1) * fi * hi + fi * hi == x * fi * hi) by (nonlinear_arith);
            }
        }
        proof {
            assert(fi * fi * hi == self.spec_full_length() * self.spec_full_length()
                * self.chunk_voxel_height);
        }
        out
    }

    /// The distance between two chunks in space units: the floor of the
    /// Euclidean length of the difference of their space positions.
    /// The result `r` is pinned by `r^2 <= q < (r+1)^2` where `q` is
    /// the exact squared space distance.
    pub fn get_chunk_distance(&self, a: &ChunkId, b: &ChunkId) -> (r: i64)
        requires
            self.wf(),
            a.bounded(2 * CHUNK_LIMIT as int),
            b.bounded(2 * CHUNK_LIMIT as int),
        ensures
            r >= 0,
            r == self.spec_chunk_distance(*a, *b),
            ({
                let dx = self.spec_chunk_to_space(*a).0 - self.spec_chunk_to_space(*b).0;
                let dz = self.spec_chunk_to_space(*a).2 - self.spec_chunk_to_space(*b).2;
                r * r <= dx * dx + dz * dz < (r + 1) * (r + 1)
            }),
    {
        let pa = self.chunk_to_space(a);
        let pb = self.chunk_to_space(b);
        let dx = pa.x - pb.x;
        let dz = pa.z - pb.z;
        proof {
            let dxi = dx as int;
            let dzi = dz as int;
            assert(0 <= dxi * dxi <= 0x1000_0000_0000_0000_0000_0000_0000_0000 && 0 <= dzi * dzi
                <= 0x1000_0000_0000_0000_0000_0000_0000_0000) by (nonlinear_arith)
                requires
                    abs(dxi) <= 0x4000_0000_0000_0000 && abs(dzi) <= 0x4000_0000_0000_0000,
            ;
        }
        let q = (dx as i128 * dx as i128) as u128 + (dz as i128 * dz as i128) as u128;
        let r = isqrt_u128(q);
        proof {
            let dxi = dx as int;
            let dzi = dz as int;
            assert(r as int * r as int <= dxi * dxi + dzi * dzi < (r as int + 1) * (r as int + 1));
            assert(r as int <= 0x7fff_ffff_ffff_ffff) by (nonlinear_arith)
                requires
                    r as int * r as int <= q as int && q as int
                        <= 0x2000_0000_0000_0000_0000_0000_0000_0000,
            ;
            lemma_floor_sqrt_unique(dxi * dxi + dzi * dzi, r as int);
        }
        r as i64
    }
}

/// The integer square root: the unique `r` with `r^2 <= q < (r+1)^2`.
pub fn isqrt_u128(q: u128) -> (r: u64)
    ensures
        r as int * r as int <= q as int,
        (q as int) < (r as int + 1) * (r as int + 1),
{
    let mut lo: u128 = 0;
    let mut hi: u128 = 0x1_0000_0000_0000_0000;
    proof {
        assert(hi * hi > q) by (nonlinear_arith)
            requires
                hi == 0x1_0000_0000_0000_0000,
        ;
    }
    while lo + 1 < hi
        invariant
            0 <= lo < hi <= 0x1_0000_0000_0000_0000,
            lo * lo <= q,
            q < hi * hi,
        decreases hi - lo,
    {
        let mid = lo + (hi - lo) / 2;
        proof {
            assert(mid * mid < 0x1_0000_0000_0000_0000_0000_0000_0000_0000) by (nonlinear_arith)
                requires
                    0 <= mid < 0x1_0000_0000_0000_0000,
            ;
        }
        if mid * mid <= q {
            lo = mid;
        } else {
            hi = mid;
        }
    }
    proof {
        assert(q < (lo + 1) * (lo + 1));
    }
    lo as u64
}


/// The floor of the square root of a nonnegative integer: the unique
/// `r >= 0` with `r^2 <= q < (r+1)^2`.
pub closed spec fn spec_floor_sqrt(q: int) -> int {
    choose|r: int| r >= 0 && #[trigger] (r * r) <= q && q < (r + 1) * (r + 1)
}

/// A floor square root exists for every nonnegative integer.
pub proof fn lemma_floor_sqrt_exists(q: int)
    requires
        q >= 0,
    ensures
        spec_floor_sqrt(q) >= 0,
        spec_floor_sqrt(q) * spec_floor_sqrt(q) <= q,
        q < (spec_floor_sqrt(q) + 1) * (spec_floor_sqrt(q) + 1),
    decreases q,
{
    if q == 0 {
        assert(0int >= 0 && 0int * 0int <= 0int && 0int < (0int + 1) * (0int + 1))
            by (nonlinear_arith);
    } else {
        lemma_floor_sqrt_exists(q - 1);
        let rp = spec_floor_sqrt(q - 1);
        if q < (rp + 1) * (rp + 1) {
            assert(rp >= 0 && rp * rp <= q && q < (rp + 1) * (rp + 1));
        } else {
            assert(q == (rp + 1) * (rp + 1));
            let r = rp + 1;
            assert(r * r <= q);
            assert(q < (r + 1) * (r + 1)) by (nonlinear_arith)
                requires
                    q == r * r && r >= 0,
            ;
            assert(r >= 0 && r * r <= q && q < (r + 1) * (r + 1));
        }
    }
}

/// The floor square root is unique: any `r` with `r^2 <= q < (r+1)^2`
/// equals it.
pub proof fn lemma_floor_sqrt_unique(q: int, r: int)
    requires
        q >= 0,
        r >= 0,
        r * r <= q,
        q < (r + 1) * (r + 1),
    ensures
        r == spec_floor_sqrt(q),
{
    lemma_floor_sqrt_exists(q);
    let s = spec_floor_sqrt(q);
    if r < s {
        assert((r + 1) * (r + 1) <= s * s) by (nonlinear_arith)
            requires
                0 <= r && r + 1 <= s,
        ;
    }
    if s < r {
        assert((s + 1) * (s + 1) <= r * r) by (nonlinear_arith)
            requires
                0 <= s && s + 1 <= r,
        ;
    }
}

impl CubicVoxelLayout {
    /// The distance between two chunks in space units: the floor of
    /// the Euclidean length of the difference of their space positions.
    pub open spec fn spec_chunk_distance(self, a: ChunkId, b: ChunkId) -> int {
        let dx = self.spec_chunk_to_space(a).0 - self.spec_chunk_to_space(b).0;
        let dz = self.spec_chunk_to_space(a).2 - self.spec_chunk_to_space(b).2;
        spec_floor_sqrt(dx * dx + dz * dz)
    }
}


/// Space positions within `CHUNK_LIMIT` resolve to chunks comfortably
/// inside the addressable chunk range, leaving room for neighbor
/// offsets.
pub proof fn lemma_space_to_chunk_bounded(layout: CubicVoxelLayout, sx: int, sy: int, sz: int)
    requires
        layout.wf(),
        abs(sx) <= CHUNK_LIMIT as int,
        abs(sz) <= CHUNK_LIMIT as int,
    ensures
        abs(layout.spec_space_to_chunk(sx, sy, sz).0) <= 2 * CHUNK_LIMIT as int - 0x1_0000,
        abs(layout.spec_space_to_chunk(sx, sy, sz).1) <= 2 * CHUNK_LIMIT as int - 0x1_0000,
{
    let b = CHUNK_LIMIT as int;
    let m = 2 * b - 0x1_0000;
    let s = layout.voxel_side_length as int;
    let f = layout.spec_full_length();
    let l = layout.chunk_voxel_length as int;
    lemma_floor_div_bounds_pub(sx, s);
    lemma_floor_div_bounds_pub(sz, s);
    let vx = sx / s + layout.origin.0 * f;
    let vz = sz / s + layout.origin.1 * f;
    assert(abs(layout.origin.0 * f) <= b * f && abs(layout.origin.1 * f) <= b * f)
        by (nonlinear_arith)
        requires
            abs(layout.origin.0 as int) <= b && abs(layout.origin.1 as int) <= b && 0 < f,
    ;
    assert(b + b * f + f <= m * f) by (nonlinear_arith)
        requires
            3 <= f <= 0xffff && b == 0x1000_0000 && m == 2 * b - 0x1_0000,
    ;
    assert(-(m * f) <= vx + l <= m * f);
    assert(-(m * f) <= vz + l <= m * f);
    lemma_fundamental_div_mod_converse(m * f, f, m, 0);
    assert(-(m * f) == (-m) * f + 0) by (nonlinear_arith);
    lemma_fundamental_div_mod_converse(-(m * f), f, -m, 0);
    vstd::arithmetic::div_mod::lemma_div_is_ordered(vx + l, m * f, f);
    vstd::arithmetic::div_mod::lemma_div_is_ordered(-(m * f), vx + l, f);
    vstd::arithmetic::div_mod::lemma_div_is_ordered(vz + l, m * f, f);
    vstd::arithmetic::div_mod::lemma_div_is_ordered(-(m * f), vz + l, f);
}

} // verus!
