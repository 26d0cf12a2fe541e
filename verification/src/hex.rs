//! Cube-coordinate hexagonal grid identifiers.
//!
//! A planar hex coordinate is a triple of signed components that always
//! sum to zero; every constructor and arithmetic operation preserves that
//! invariant by construction.  An extruded coordinate adds a discrete
//! height to address voxels in three dimensions.

use vstd::prelude::*;
use vstd::math::abs;

verus! {

/// Bound on coordinate components accepted by the arithmetic here.
/// Generous enough for any practical world while keeping every
/// intermediate product and sum inside `i64`.
pub const COORD_LIMIT: i64 = 0x1000_0000_0000;

/// A planar hexagonal coordinate in cube form: three components that sum
/// to zero.
#[derive(Clone, Copy, PartialEq, Eq, Structural, Debug)]
pub struct CubeHexCoord(pub i64, pub i64, pub i64);

/// A hexagonal voxel coordinate: a planar cube coordinate extruded by a
/// discrete height (fourth component).
#[derive(Clone, Copy, PartialEq, Eq, Structural, Debug)]
pub struct ExtrudedCubeHexCoord(pub i64, pub i64, pub i64, pub i64);

impl CubeHexCoord {
    /// The zero-sum invariant of cube coordinates.
    pub open spec fn is_hex(self) -> bool {
        self.0 + self.1 + self.2 == 0
    }

    /// All three components within `b` in magnitude.
    pub open spec fn bounded(self, b: int) -> bool {
        abs(self.0 as int) <= b && abs(self.1 as int) <= b && abs(self.2 as int) <= b
    }

    pub fn from_axis_coord(q: i64, r: i64) -> (c: Self)
        requires
            abs(q as int) <= COORD_LIMIT as int,
            abs(r as int) <= COORD_LIMIT as int,
        ensures
            c == CubeHexCoord(q, r, (-(q + r)) as i64),
            c.is_hex(),
            c.bounded(2 * COORD_LIMIT as int),
    {
        CubeHexCoord(q, r, -(q + r))
    }

    pub fn from_xz(x: i64, z: i64) -> (c: Self)
        requires
            abs(x as int) <= COORD_LIMIT as int,
            abs(z as int) <= COORD_LIMIT as int,
        ensures
            c == CubeHexCoord(x, (-(x + z)) as i64, z),
            c.is_hex(),
            c.bounded(2 * COORD_LIMIT as int),
    {
        CubeHexCoord(x, -(x + z), z)
    }

    #[inline]
    pub fn x(&self) -> (r: i64)
        ensures
            r == self.0,
    {
        self.0
    }

    #[inline]
    pub fn y(&self) -> (r: i64)
        ensures
            r == self.1,
    {
        self.1
    }

    #[inline]
    pub fn z(&self) -> (r: i64)
        ensures
            r == self.2,
    {
        self.2
    }

    /// Componentwise sum, in the mathematical integers.
    pub open spec fn spec_add(self, other: Self) -> Self {
        CubeHexCoord(
            (self.0 + other.0) as i64,
            (self.1 + other.1) as i64,
            (self.2 + other.2) as i64,
        )
    }

    /// Componentwise difference, in the mathematical integers.
    pub open spec fn spec_sub(self, other: Self) -> Self {
        CubeHexCoord(
            (self.0 - other.0) as i64,
            (self.1 - other.1) as i64,
            (self.2 - other.2) as i64,
        )
    }

    pub fn add(self, other: Self) -> (c: Self)
        requires
            self.bounded(4 * COORD_LIMIT as int),
            other.bounded(4 * COORD_LIMIT as int),
        ensures
            c == self.spec_add(other),
            c.0 == self.0 + other.0,
            c.1 == self.1 + other.1,
            c.2 == self.2 + other.2,
            self.is_hex() && other.is_hex() ==> c.is_hex(),
    {
        CubeHexCoord(self.0 + other.0, self.1 + other.1, self.2 + other.2)
    }

    pub fn sub(self, other: Self) -> (c: Self)
        requires
            self.bounded(4 * COORD_LIMIT as int),
            other.bounded(4 * COORD_LIMIT as int),
        ensures
            c == self.spec_sub(other),
            c.0 == self.0 - other.0,
            c.1 == self.1 - other.1,
            c.2 == self.2 - other.2,
            self.is_hex() && other.is_hex() ==> c.is_hex(),
    {
        CubeHexCoord(self.0 - other.0, self.1 - other.1, self.2 - other.2)
    }

    /// The hex grid distance between two cube coordinates: half the sum of
    /// the componentwise absolute differences.
    pub open spec fn spec_distance_step(self, b: Self) -> int {
        (abs(self.0 - b.0) + abs(self.1 - b.1) + abs(self.2 - b.2)) as int / 2
    }

    pub fn distance_step(&self, b: &Self) -> (d: i64)
        requires
            self.bounded(4 * COORD_LIMIT as int),
            b.bounded(4 * COORD_LIMIT as int),
        ensures
            d == self.spec_distance_step(*b),
            d >= 0,
    {
        (abs_i64(self.0 - b.0) + abs_i64(self.1 - b.1) + abs_i64(self.2 - b.2)) / 2
    }
}

/// For zero-sum triples the hex distance equals the largest componentwise
/// absolute difference, which is often the easier form to reason with.
pub proof fn lemma_distance_step_is_max(a: CubeHexCoord, b: CubeHexCoord)
    requires
        a.is_hex(),
        b.is_hex(),
    ensures
        a.spec_distance_step(b) == vstd::math::max(
            abs(a.0 - b.0) as int,
            vstd::math::max(abs(a.1 - b.1) as int, abs(a.2 - b.2) as int),
        ),
{
}

pub(crate) fn abs_i64(v: i64) -> (r: i64)
    requires
        v > i64::MIN,
    ensures
        r == abs(v as int),
{
    if v < 0 {
        -v
    } else {
        v
    }
}

impl ExtrudedCubeHexCoord {
    pub open spec fn spec_get_base(self) -> CubeHexCoord {
        CubeHexCoord(self.0, self.1, self.2)
    }

    /// The planar part carries the same zero-sum invariant as `CubeHexCoord`.
    pub open spec fn is_hex(self) -> bool {
        self.spec_get_base().is_hex()
    }

    pub fn from_hex2d(hex: CubeHexCoord, height: i64) -> (v: Self)
        ensures
            v == ExtrudedCubeHexCoord(hex.0, hex.1, hex.2, height),
            v.spec_get_base() == hex,
            hex.is_hex() ==> v.is_hex(),
    {
        ExtrudedCubeHexCoord(hex.0, hex.1, hex.2, height)
    }

    pub fn from_xzh(x: i64, z: i64, h: i64) -> (v: Self)
        requires
            abs(x as int) <= COORD_LIMIT as int,
            abs(z as int) <= COORD_LIMIT as int,
        ensures
            v == ExtrudedCubeHexCoord(x, (-(x + z)) as i64, z, h),
            v.is_hex(),
    {
        ExtrudedCubeHexCoord(x, -(x + z), z, h)
    }

    #[inline]
    pub fn x(&self) -> (r: i64)
        ensures
            r == self.0,
    {
        self.0
    }

    #[inline]
    pub fn y(&self) -> (r: i64)
        ensures
            r == self.1,
    {
        self.1
    }

    #[inline]
    pub fn z(&self) -> (r: i64)
        ensures
            r == self.2,
    {
        self.2
    }

    #[inline]
    pub fn h(&self) -> (r: i64)
        ensures
            r == self.3,
    {
        self.3
    }

    #[inline]
    pub fn get_base(&self) -> (c: CubeHexCoord)
        ensures
            c == self.spec_get_base(),
    {
        CubeHexCoord(self.0, self.1, self.2)
    }
}

} // verus!
