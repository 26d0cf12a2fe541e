//! Hexagonal chunk layout: resolving tiles to chunks through a periodic
//! lookup table, and enumerating rings, neighborhoods and chunk tiles.
//!
//! A chunk is a hexagon of tiles of radius `chunk_voxel_radius` around
//! its center; it holds `period = 3R^2 + 3R + 1` tiles per height level.
//! Because a hexagon is not a rectangle, a tile's chunk cannot be found
//! by division alone.  Instead, tiles are keyed by
//! `(z * (3R + 1) - x) mod period`; chunk centers are exactly the
//! coordinates whose key is zero, and the key of a tile depends only on
//! its offset from its chunk's center.  The constructor tabulates, for
//! every offset in the chunk hexagon, the negated offset under its key;
//! adding the table entry to a tile therefore recovers its chunk center
//! in constant time.

use vstd::prelude::*;
use vstd::math::abs;
use vstd::arithmetic::div_mod::{
    lemma_add_mod_noop,
    lemma_add_mod_noop_right,
    lemma_fundamental_div_mod,
    lemma_mod_bound,
    lemma_mod_multiples_basic,
    lemma_mod_multiples_vanish,
    lemma_small_mod,
    lemma_sub_mod_noop,
};
use crate::hex::{abs_i64, CubeHexCoord, ExtrudedCubeHexCoord, COORD_LIMIT};
use crate::square::{floor_div, GEOMETRY_LIMIT, SPACE_LIMIT};

verus! {

/// Bound on the chunk radius in tiles: keeps the lookup table of size
/// `3R^2 + 3R + 1` reasonable and all key arithmetic inside `i64`.
pub const HEX_RADIUS_LIMIT: i64 = 0x400;

/// Why a hexagonal layout could not be constructed.
#[derive(Clone, Copy, PartialEq, Eq, Structural, Debug)]
pub enum HexLayoutError {
    /// Non-positive or oversized radius or height, or an origin out of
    /// addressable bounds.
    InvalidConfig,
}

/// The number of tiles in one hexagonal chunk of radius `r`, which is
/// also the period of the lookup key.
pub open spec fn spec_hex_period(r: int) -> int {
    3 * r * r + 3 * r + 1
}

/// The hex norm of the planar offset `(x, z)` (third cube component
/// `-x-z` implied): the grid distance from the origin.
pub open spec fn spec_hex_norm(x: int, z: int) -> int {
    vstd::math::max(abs(x) as int, vstd::math::max(abs(x + z) as int, abs(z) as int))
}

/// The lookup key of the planar coordinate `(x, z)` for chunk radius
/// `r`: `(z * (3r + 1) - x)` reduced modulo the period, into
/// `[0, period)`.
pub open spec fn spec_hex_key(r: int, x: int, z: int) -> int {
    (z * (3 * r + 1) - x) % spec_hex_period(r)
}

/// The key function is one-to-one on the chunk hexagon: two in-chunk
/// offsets with the same lookup key are equal.
proof fn lemma_hex_key_injective(r: int, x1: int, z1: int, x2: int, z2: int)
    requires
        1 <= r,
        spec_hex_norm(x1, z1) <= r,
        spec_hex_norm(x2, z2) <= r,
        spec_hex_key(r, x1, z1) == spec_hex_key(r, x2, z2),
    ensures
        x1 == x2 && z1 == z2,
{
    let p = spec_hex_period(r);
    let ob = 3 * r + 1;
    assert(p > 0 && p == 3 * r * r + 3 * r + 1) by (nonlinear_arith)
        requires
            p == 3 * r * r + 3 * r + 1 && r >= 1,
    ;
    let raw1 = z1 * ob - x1;
    let raw2 = z2 * ob - x2;
    let dx = x1 - x2;
    let dz = z1 - z2;
    let raw = dz * ob - dx;
    assert((z1 - z2) * ob == z1 * ob - z2 * ob) by (nonlinear_arith);
    assert(raw == raw1 - raw2);
    lemma_sub_mod_noop(raw1, raw2, p);
    assert(raw % p == 0) by {
        assert((raw1 % p - raw2 % p) % p == (raw1 - raw2) % p);
        lemma_small_mod(0nat, p as nat);
    }
    lemma_fundamental_div_mod(raw, p);
    let k = raw / p;
    assert(raw == p * k);
    assert(abs(dx) <= 2 * r && abs(dz) <= 2 * r && abs(dx + dz) <= 2 * r);
    assert(abs(raw) < 2 * p) by (nonlinear_arith)
        requires
            raw == dz * ob - dx && abs(dz) <= 2 * r && abs(dx) <= 2 * r && ob == 3 * r + 1 && p == 3
                * r * r + 3 * r + 1 && r >= 1,
    ;
    assert(-1 <= k <= 1) by (nonlinear_arith)
        requires
            raw == p * k && abs(raw) < 2 * p && p > 0,
    ;
    if k == 0 {
        assert(raw == 0) by (nonlinear_arith)
            requires
                raw == p * k && k == 0,
        ;
        assert(dz * ob == dx);
        assert(dz == 0) by (nonlinear_arith)
            requires
                dz * ob == dx && abs(dx) <= 2 * r && ob == 3 * r + 1 && r >= 1,
        ;
    } else if k == 1 {
        assert(dz * ob - dx == p) by {
            assert(p * 1 == p) by (nonlinear_arith);
        }
        assert(dz == r + 1) by (nonlinear_arith)
            requires
                dz * ob - dx == p && abs(dx) <= 2 * r && abs(dz) <= 2 * r && ob == 3 * r + 1 && p
                    == 3 * r * r + 3 * r + 1 && r >= 1,
        ;
        assert(dx == r) by (nonlinear_arith)
            requires
                dz * ob - dx == p && dz == r + 1 && ob == 3 * r + 1 && p == 3 * r * r + 3 * r + 1,
        ;
        assert(false);
    } else {
        assert(dz * ob - dx == -p) by {
            assert(p * (-1) == -p) by (nonlinear_arith);
        }
        assert(dz == -(r + 1)) by (nonlinear_arith)
            requires
                dz * ob - dx == -p && abs(dx) <= 2 * r && abs(dz) <= 2 * r && ob == 3 * r + 1 && p
                    == 3 * r * r + 3 * r + 1 && r >= 1,
        ;
        assert(dx == -r) by (nonlinear_arith)
            requires
                dz * ob - dx == -p && dz == -(r + 1) && ob == 3 * r + 1 && p == 3 * r * r + 3 * r
                    + 1,
        ;
        assert(false);
    }
}

/// The key function is onto: every key in `[0, period)` is the key of
/// some offset inside the chunk hexagon.  The witness is constructed
/// from the base-`3r + 1` digits of the key, shifted by a chunk-center
/// lattice step when the direct digits land outside the hexagon.
proof fn lemma_hex_key_surjective(r: int, k: int)
    requires
        1 <= r,
        0 <= k < spec_hex_period(r),
    ensures
        exists|x: int, z: int|
            spec_hex_norm(x, z) <= r && #[trigger] spec_hex_key(r, x, z) == k,
{
    let p = spec_hex_period(r);
    let ob = 3 * r + 1;
    assert(0 < ob < p) by (nonlinear_arith)
        requires
            p == 3 * r * r + 3 * r + 1 && ob == 3 * r + 1 && r >= 1,
    ;
    lemma_fundamental_div_mod(k, ob);
    lemma_mod_bound(k, ob);
    let q = k / ob;
    let s = k % ob;
    assert(k == ob * q + s && 0 <= s < ob);
    assert(0 <= q <= r) by (nonlinear_arith)
        requires
            k == ob * q + s && 0 <= s < ob && 0 <= k && k < p && ob == 3 * r + 1 && p == 3 * r * r
                + 3 * r + 1 && r >= 1,
    ;
    if s <= r {
        let x = -s;
        let z = q;
        assert(z * ob - x == k) by (nonlinear_arith)
            requires
                k == ob * q + s && x == -s && z == q,
        ;
        lemma_small_mod(k as nat, p as nat);
        assert(spec_hex_norm(x, z) <= r && spec_hex_key(r, x, z) == k);
    } else if s <= 2 * r {
        let x = 2 * r + 1 - s;
        let z = q - r;
        assert(z * ob - x == k - p) by (nonlinear_arith)
            requires
                k == ob * q + s && x == 2 * r + 1 - s && z == q - r && ob == 3 * r + 1 && p == 3 * r
                    * r + 3 * r + 1,
        ;
        assert((k - p) % p == k) by {
            lemma_mod_multiples_vanish(-1, k, p);
            lemma_small_mod(k as nat, p as nat);
        }
        assert(spec_hex_norm(x, z) <= r && spec_hex_key(r, x, z) == k);
    } else {
        assert(q <= r - 1) by (nonlinear_arith)
            requires
                k == ob * q + s && 2 * r + 1 <= s < ob && k < p && ob == 3 * r + 1 && p == 3 * r * r
                    + 3 * r + 1 && r >= 1 && q >= 0,
        ;
        let x0 = ob - s;
        let z0 = q + 1;
        assert(1 <= x0 <= r && 1 <= z0 <= r);
        assert(z0 * ob - x0 == k) by (nonlinear_arith)
            requires
                k == ob * q + s && x0 == ob - s && z0 == q + 1,
        ;
        if x0 + z0 <= r {
            lemma_small_mod(k as nat, p as nat);
            assert(spec_hex_norm(x0, z0) <= r && spec_hex_key(r, x0, z0) == k);
        } else {
            let x = x0 - r;
            let z = z0 - r - 1;
            assert(z * ob - x == k - p) by (nonlinear_arith)
                requires
                    z0 * ob - x0 == k && x == x0 - r && z == z0 - r - 1 && ob == 3 * r + 1 && p == 3
                        * r * r + 3 * r + 1,
            ;
            assert((k - p) % p == k) by {
                lemma_mod_multiples_vanish(-1, k, p);
                lemma_small_mod(k as nat, p as nat);
            }
            assert(spec_hex_norm(x, z) <= r && spec_hex_key(r, x, z) == k);
        }
    }
}

/// The hexagonal chunk layout.  Built once by [`CubeHexLayout::new`];
/// immutable afterwards.
pub struct CubeHexLayout {
    /// Hex coordinate that anchors the tile coordinate system.
    pub space_origin: CubeHexCoord,
    /// Tiles from a chunk's center to its edge.
    pub chunk_voxel_radius: i64,
    /// Size of the periodic lookup table: tiles per chunk per level.
    pub chunk_voxel_period: i64,
    /// Discrete height levels above zero in one chunk.
    pub chunk_voxel_height: i64,
    /// For each key, the offset from a tile with that key to its
    /// chunk's center.
    pub chunk_lookup: Vec<CubeHexCoord>,
}

impl CubeHexLayout {
    /// Well-formedness: geometry in range, and the lookup table inverts
    /// the key function on the chunk hexagon.
    pub open spec fn wf(self) -> bool {
        let r = self.chunk_voxel_radius as int;
        let p = spec_hex_period(r);
        &&& 1 <= r <= HEX_RADIUS_LIMIT as int
        &&& 0 <= self.chunk_voxel_height <= GEOMETRY_LIMIT as int
        &&& self.chunk_voxel_period == p
        &&& self.space_origin.is_hex()
        &&& self.space_origin.bounded(COORD_LIMIT as int)
        &&& self.chunk_lookup@.len() == p
        &&& forall|k: int|
            0 <= k < p ==> (#[trigger] self.chunk_lookup@[k]).is_hex()
                && spec_hex_norm(self.chunk_lookup@[k].0 as int, self.chunk_lookup@[k].2 as int)
                <= r
        &&& forall|x: int, z: int|
            spec_hex_norm(x, z) <= r ==> self.chunk_lookup@[#[trigger] spec_hex_key(r, x, z)]
                == CubeHexCoord((-x) as i64, (x + z) as i64, (-z) as i64)
        &&& forall|k: int|
            0 <= k < p ==> spec_hex_key(
                r,
                -(#[trigger] self.chunk_lookup@[k]).0 as int,
                -self.chunk_lookup@[k].2 as int,
            ) == k
    }

    #[inline]
    pub fn chunk_voxel_radius(&self) -> (r: i64)
        ensures
            r == self.chunk_voxel_radius,
    {
        self.chunk_voxel_radius
    }

    #[inline]
    pub fn chunk_voxel_diameter(&self) -> (d: i64)
        requires
            self.wf(),
        ensures
            d == 2 * self.chunk_voxel_radius + 1,
    {
        (self.chunk_voxel_radius * 2) + 1
    }

    /// Builds the layout, tabulating the chunk-center offset for every
    /// tile offset of the chunk hexagon.  Construction succeeds exactly
    /// when the geometry is in range; the key function is provably a
    /// bijection between the chunk hexagon and the keys, so the table
    /// always resolves every tile.
    #[verifier::loop_isolation(false)]
    pub fn new(origin: CubeHexCoord, chunk_radius: i64, chunk_height: i64) -> (result: Result<
        Self,
        HexLayoutError,
    >)
        ensures
            result is Ok <==> 1 <= chunk_radius <= HEX_RADIUS_LIMIT as int && 0 <= chunk_height
                <= GEOMETRY_LIMIT as int && origin.is_hex() && origin.bounded(COORD_LIMIT as int),
            result is Ok ==> result->Ok_0.wf() && result->Ok_0.space_origin == origin
                && result->Ok_0.chunk_voxel_radius == chunk_radius
                && result->Ok_0.chunk_voxel_height == chunk_height,
            result is Err ==> result->Err_0 is InvalidConfig,
    {
        if !(1 <= chunk_radius && chunk_radius <= HEX_RADIUS_LIMIT && 0 <= chunk_height
            && chunk_height <= GEOMETRY_LIMIT && -COORD_LIMIT <= origin.0 && origin.0 <= COORD_LIMIT
            && -COORD_LIMIT <= origin.1 && origin.1 <= COORD_LIMIT && -COORD_LIMIT <= origin.2
            && origin.2 <= COORD_LIMIT && origin.0 + origin.1 + origin.2 == 0) {
            return Err(HexLayoutError::InvalidConfig);
        }
        let r = chunk_radius;
        let ghost ri = r as int;
        proof {
            assert(0 < 3 * ri * ri + 3 * ri + 1 <= 0x300_c01) by (nonlinear_arith)
                requires
                    1 <= ri <= 0x400,
            ;
        }
        let period = 3 * r * r + 3 * r + 1;
        let ghost p = period as int;
        assert(p == spec_hex_period(ri));

        let mut lookup: Vec<CubeHexCoord> = Vec::new();
        let mut k: i64 = 0;
        while k < period
            invariant
                0 <= k <= period,
                period == p,
                lookup@.len() == k,
                forall|j: int| 0 <= j < k ==> #[trigger] lookup@[j] == CubeHexCoord(0, 0, 0),
            decreases period - k,
        {
            lookup.push(CubeHexCoord(0, 0, 0));
            k = k + 1;
        }

        let mut x: i64 = -r;
        while x <= r
            invariant
                1 <= r <= HEX_RADIUS_LIMIT as int,
                ri == r as int,
                p == spec_hex_period(ri),
                period == p,
                0 < p <= 0x300_c01,
                -r <= x <= r + 1,
                lookup@.len() == p,
                forall|j: int|
                    0 <= j < p ==> (#[trigger] lookup@[j]).is_hex() && spec_hex_norm(
                        lookup@[j].0 as int,
                        lookup@[j].2 as int,
                    ) <= ri,
                forall|a: int, b: int|
                    spec_hex_norm(a, b) <= ri && a < x ==> lookup@[#[trigger] spec_hex_key(
                        ri,
                        a,
                        b,
                    )] == CubeHexCoord((-a) as i64, (a + b) as i64, (-b) as i64),
            decreases r - x + 1,
        {
            let mut z: i64 = -r;
            while z <= r
                invariant
                    1 <= r <= HEX_RADIUS_LIMIT as int,
                    ri == r as int,
                    p == spec_hex_period(ri),
                    period == p,
                    0 < p <= 0x300_c01,
                    -r <= x <= r,
                    -r <= z <= r + 1,
                    lookup@.len() == p,
                    forall|j: int|
                        0 <= j < p ==> (#[trigger] lookup@[j]).is_hex() && spec_hex_norm(
                            lookup@[j].0 as int,
                            lookup@[j].2 as int,
                        ) <= ri,
                    forall|a: int, b: int|
                        spec_hex_norm(a, b) <= ri && (a < x || (a == x && b < z))
                            ==> lookup@[#[trigger] spec_hex_key(ri, a, b)] == CubeHexCoord(
                            (-a) as i64,
                            (a + b) as i64,
                            (-b) as i64,
                        ),
                decreases r - z + 1,
            {
                let y = -x - z;
                let norm = if abs_i64(x) >= abs_i64(y) && abs_i64(x) >= abs_i64(z) {
                    abs_i64(x)
                } else if abs_i64(y) >= abs_i64(z) {
                    abs_i64(y)
                } else {
                    abs_i64(z)
                };
                if norm <= r {
                    assert(spec_hex_norm(x as int, z as int) == norm);
                    let key = hex_key(r, period, x, z);
                    let ghost prev_lookup = lookup@;
                    lookup.set(key as usize, CubeHexCoord(-x, -y, -z));
                    proof {
                        assert forall|a: int, b: int|
                            spec_hex_norm(a, b) <= ri && (a < x || (a == x && b <= z))
                                implies lookup@[#[trigger] spec_hex_key(ri, a, b)] == CubeHexCoord(
                                (-a) as i64,
                                (a + b) as i64,
                                (-b) as i64,
                            ) by {
                            if a == x as int && b == z as int {
                                assert(lookup@[spec_hex_key(ri, a, b)] == CubeHexCoord(
                                    (-x) as i64,
                                    (-y) as i64,
                                    (-z) as i64,
                                ));
                            } else {
                                if spec_hex_key(ri, a, b) == key as int {
                                    lemma_hex_key_injective(ri, a, b, x as int, z as int);
                                }
                                assert(lookup@[spec_hex_key(ri, a, b)] == prev_lookup[
                                    spec_hex_key(ri, a, b)]);
                            }
                        }
                    }
                }
                z = z + 1;
            }
            x = x + 1;
        }

        let layout = CubeHexLayout {
            space_origin: origin,
            chunk_voxel_radius: r,
            chunk_voxel_period: period,
            chunk_voxel_height: chunk_height,
            chunk_lookup: lookup,
        };
        proof {
            assert forall|a: int, b: int| spec_hex_norm(a, b) <= ri implies lookup@[
                #[trigger] spec_hex_key(ri, a, b)] == CubeHexCoord(
                (-a) as i64,
                (a + b) as i64,
                (-b) as i64,
            ) by {
                assert(abs(a) <= spec_hex_norm(a, b));
                assert(a < x);
            }
            assert forall|j: int| 0 <= j < p implies spec_hex_key(
                ri,
                -(#[trigger] lookup@[j]).0 as int,
                -lookup@[j].2 as int,
            ) == j by {
                lemma_hex_key_surjective(ri, j);
                let (a, b) = choose|a: int, b: int|
                    spec_hex_norm(a, b) <= ri && #[trigger] spec_hex_key(ri, a, b) == j;
                assert(lookup@[j] == CubeHexCoord((-a) as i64, (a + b) as i64, (-b) as i64));
                assert(-lookup@[j].0 as int == a && -lookup@[j].2 as int == b);
            }
        }
        Ok(layout)
    }
}

/// Computes `(z * (3r + 1) - x) mod period`, reduced into
/// `[0, period)`, the lookup key of a tile.
fn hex_key(r: i64, period: i64, x: i64, z: i64) -> (k: i64)
    requires
        1 <= r <= HEX_RADIUS_LIMIT as int,
        period == spec_hex_period(r as int),
        abs(x as int) <= 2 * COORD_LIMIT as int,
        abs(z as int) <= 2 * COORD_LIMIT as int,
    ensures
        k == spec_hex_key(r as int, x as int, z as int),
        0 <= k < period,
{
    proof {
        assert(0 < period <= 0x300_c01) by (nonlinear_arith)
            requires
                period == 3 * (r as int) * (r as int) + 3 * (r as int) + 1 && 1 <= r as int
                    <= 0x400,
        ;
        assert(abs(z as int * (3 * r as int + 1) - x as int) <= SPACE_LIMIT as int)
            by (nonlinear_arith)
            requires
                abs(z as int) <= 2 * COORD_LIMIT as int && abs(x as int) <= 2 * COORD_LIMIT as int
                    && 1 <= r as int <= 0x400,
        ;
    }
    let t = z * (3 * r + 1) - x;
    let q = floor_div(t, period);
    proof {
        lemma_fundamental_div_mod(t as int, period as int);
        lemma_mod_bound(t as int, period as int);
        assert(period as int * (t as int / period as int) == q as int * period as int)
            by (nonlinear_arith)
            requires
                q == t as int / period as int,
        ;
    }
    t - q * period
}

impl CubeHexLayout {
    /// The planar chunk coordinate that a tile at `(x, z)` resolves to:
    /// the tile plus the tabulated center offset for its key.
    pub open spec fn spec_voxel_to_chunk(self, x: int, z: int) -> (int, int) {
        let k = spec_hex_key(self.chunk_voxel_radius as int, x, z);
        (x + self.chunk_lookup@[k].0, z + self.chunk_lookup@[k].2)
    }

    /// A planar coordinate is a chunk center exactly when its key is
    /// zero.
    pub open spec fn spec_is_chunk_center(self, x: int, z: int) -> bool {
        spec_hex_key(self.chunk_voxel_radius as int, x, z) == 0
    }

    /// Resolves a voxel to its chunk in constant time through the
    /// periodic lookup table.  The result is a zero-sum coordinate no
    /// more than the chunk radius away from the voxel's planar base,
    /// and it is a chunk center.
    pub fn voxel_to_chunk(&self, voxel: &ExtrudedCubeHexCoord) -> (c: CubeHexCoord)
        requires
            self.wf(),
            voxel.is_hex(),
            voxel.spec_get_base().bounded(COORD_LIMIT as int),
        ensures
            (c.0 as int, c.2 as int) == self.spec_voxel_to_chunk(voxel.0 as int, voxel.2 as int),
            c.is_hex(),
            c.bounded(2 * COORD_LIMIT as int),
            voxel.spec_get_base().spec_distance_step(c) <= self.chunk_voxel_radius,
            self.spec_is_chunk_center(c.0 as int, c.2 as int),
    {
        let k = hex_key(self.chunk_voxel_radius, self.chunk_voxel_period, voxel.0, voxel.2);
        proof {
            let r = self.chunk_voxel_radius as int;
            assert(spec_hex_period(r) <= 0x300_c01) by (nonlinear_arith)
                requires
                    1 <= r <= 0x400,
            ;
            assert(0 <= k < self.chunk_lookup@.len());
        }
        let entry = self.chunk_lookup[k as usize];
        let base = voxel.get_base();
        proof {
            let r = self.chunk_voxel_radius as int;
            assert(abs(entry.0 as int) <= r && abs(entry.1 as int) <= r && abs(entry.2 as int)
                <= r) by {
                assert(abs(entry.0 + entry.2) <= spec_hex_norm(entry.0 as int, entry.2 as int));
                assert(entry.1 == -entry.0 - entry.2);
            }
        }
        let c = base.add(entry);
        proof {
            assert(k == spec_hex_key(self.chunk_voxel_radius as int, voxel.0 as int, voxel.2 as int));
            assert(entry == self.chunk_lookup@[k as int]);
            assert(c.0 == voxel.0 + entry.0);
            assert(c.2 == voxel.2 + entry.2);
            assert(c.0 as int == self.spec_voxel_to_chunk(voxel.0 as int, voxel.2 as int).0);
            assert(c.2 as int == self.spec_voxel_to_chunk(voxel.0 as int, voxel.2 as int).1);
            crate::hex::lemma_distance_step_is_max(base, c);
            self.lemma_resolved_chunk_is_center(voxel.0 as int, voxel.2 as int);
        }
        c
    }

    /// The key function is additive: the key of a sum is the key of the
    /// summed keys.
    proof fn lemma_key_add(self, x1: int, z1: int, x2: int, z2: int)
        requires
            1 <= self.chunk_voxel_radius,
        ensures
            spec_hex_key(self.chunk_voxel_radius as int, x1 + x2, z1 + z2) == (spec_hex_key(
                self.chunk_voxel_radius as int,
                x1,
                z1,
            ) + spec_hex_key(self.chunk_voxel_radius as int, x2, z2)) % spec_hex_period(
                self.chunk_voxel_radius as int,
            ),
    {
        let r = self.chunk_voxel_radius as int;
        let p = spec_hex_period(r);
        let ob = 3 * r + 1;
        assert(p > 0) by (nonlinear_arith)
            requires
                p == 3 * r * r + 3 * r + 1 && r >= 1,
        ;
        let raw1 = z1 * ob - x1;
        let raw2 = z2 * ob - x2;
        assert((z1 + z2) * ob == z1 * ob + z2 * ob) by (nonlinear_arith);
        assert((z1 + z2) * ob - (x1 + x2) == raw1 + raw2);
        lemma_add_mod_noop(raw1, raw2, p);
    }

    /// Chunk centers absorb hexagon offsets: a tile at an in-chunk
    /// offset from a center resolves back to exactly that center.  This
    /// is the tile-membership law of the hexagonal layout.
    pub proof fn lemma_chunk_tile_resolves(self, cx: int, cz: int, dx: int, dz: int)
        requires
            self.wf(),
            self.spec_is_chunk_center(cx, cz),
            spec_hex_norm(dx, dz) <= self.chunk_voxel_radius,
        ensures
            self.spec_voxel_to_chunk(cx + dx, cz + dz) == (cx, cz),
    {
        let r = self.chunk_voxel_radius as int;
        let p = spec_hex_period(r);
        assert(p > 0) by (nonlinear_arith)
            requires
                p == 3 * r * r + 3 * r + 1 && r >= 1,
        ;
        self.lemma_key_add(cx, cz, dx, dz);
        let kd = spec_hex_key(r, dx, dz);
        lemma_mod_bound((dz * (3 * r + 1) - dx), p);
        assert(kd % p == kd) by {
            lemma_small_mod(kd as nat, p as nat);
        }
        assert(spec_hex_key(r, cx + dx, cz + dz) == kd);
    }

    /// Whatever tile `voxel_to_chunk` starts from, the chunk coordinate
    /// it produces is a center: the key of the result is zero.
    proof fn lemma_resolved_chunk_is_center(self, x: int, z: int)
        requires
            self.wf(),
        ensures
            self.spec_is_chunk_center(
                self.spec_voxel_to_chunk(x, z).0,
                self.spec_voxel_to_chunk(x, z).1,
            ),
    {
        let r = self.chunk_voxel_radius as int;
        let p = spec_hex_period(r);
        let ob = 3 * r + 1;
        assert(p > 0) by (nonlinear_arith)
            requires
                p == 3 * r * r + 3 * r + 1 && r >= 1,
        ;
        let k = spec_hex_key(r, x, z);
        lemma_mod_bound(z * ob - x, p);
        let e0 = self.chunk_lookup@[k].0 as int;
        let e2 = self.chunk_lookup@[k].2 as int;
        assert(spec_hex_key(r, -e0, -e2) == k);
        self.lemma_key_add(x, z, e0, e2);
        let ke = spec_hex_key(r, e0, e2);
        let rawne = (-e2) * ob - (-e0);
        let rawe = e2 * ob - e0;
        assert(e2 * ob - e0 == -((-e2) * ob - (-e0))) by (nonlinear_arith);
        assert(rawe == -rawne);
        assert(ke == (0 - rawne) % p);
        lemma_sub_mod_noop(0int, rawne, p);
        assert((0int % p - rawne % p) % p == (0int - rawne) % p);
        assert(0int % p == 0) by {
            lemma_small_mod(0nat, p as nat);
        }
        assert(ke == (0 - k) % p) by {
            assert(rawne % p == k);
        }
        assert(spec_hex_key(r, x + e0, z + e2) == (k + (0 - k) % p) % p);
        lemma_add_mod_noop_right(k, 0 - k, p);
        assert((k + (0 - k) % p) % p == (k + (0 - k)) % p);
        assert((k + (0 - k)) % p == 0) by {
            lemma_small_mod(0nat, p as nat);
        }
    }

    /// Distance between chunks in whole chunk steps: the tile distance
    /// of the two centers divided by the chunk diameter.
    pub fn get_chunk_distance(&self, a: &CubeHexCoord, b: &CubeHexCoord) -> (d: i64)
        requires
            self.wf(),
            a.bounded(2 * COORD_LIMIT as int),
            b.bounded(2 * COORD_LIMIT as int),
        ensures
            d == a.spec_distance_step(*b) / (2 * self.chunk_voxel_radius + 1),
            d >= 0,
    {
        let steps = a.distance_step(b);
        let diam = self.chunk_voxel_diameter();
        let q = (steps as u64) / (diam as u64);
        proof {
            assert(steps as u64 == steps as int && diam as u64 == diam as int);
            assert(q == steps as int / diam as int);
        }
        q as i64
    }
}

/// The cube-coordinate offset at position `rot` of the six-fold
/// rotation of the ring-walk triple `(i, d - i, -d)` for ring distance
/// `d`: alternating rotations negate, so the six entries cover all six
/// sides of the ring.
pub open spec fn spec_hex_ring_offset(d: int, i: int, rot: int) -> (int, int, int) {
    let a0 = i;
    let a1 = d - i;
    let a2 = -d;
    if rot == 0 {
        (a0, a1, a2)
    } else if rot == 1 {
        (-a1, -a2, -a0)
    } else if rot == 2 {
        (a2, a0, a1)
    } else if rot == 3 {
        (-a0, -a1, -a2)
    } else if rot == 4 {
        (a1, a2, a0)
    } else {
        (-a2, -a0, -a1)
    }
}

/// The offsets of the tile ring at distance `d`, in enumeration order:
/// `6 * d` entries, six rotations for each step along one edge.
pub open spec fn spec_hex_ring_seq(d: int) -> Seq<(int, int, int)> {
    Seq::new((6 * d) as nat, |t: int| spec_hex_ring_offset(d, t / 6 + 1, t % 6))
}

/// Every ring offset is a zero-sum triple at hex norm exactly `d` from
/// the origin.
pub proof fn lemma_hex_ring_offset_props(d: int, t: int)
    requires
        1 <= d,
        0 <= t < 6 * d,
    ensures
        ({
            let o = spec_hex_ring_seq(d)[t];
            o.0 + o.1 + o.2 == 0 && spec_hex_norm(o.0, o.2) == d
        }),
{
    lemma_fundamental_div_mod(t, 6);
    lemma_mod_bound(t, 6);
    assert(0 <= t / 6 < d) by {
        crate::square::lemma_floor_div_bounds_pub(t, 6);
        if t / 6 >= d {
            assert(6 * (t / 6) >= 6 * d) by (nonlinear_arith)
                requires
                    t / 6 >= d,
            ;
        }
    }
}

/// Each ring position has a partner holding its negation (three
/// rotations further along), so ring membership is symmetric about the
/// center.
pub proof fn lemma_hex_ring_offset_mutual(d: int, t: int)
    requires
        1 <= d,
        0 <= t < 6 * d,
    ensures
        exists|u: int|
            0 <= u < 6 * d && #[trigger] spec_hex_ring_seq(d)[u] == ((
                -spec_hex_ring_seq(d)[t].0,
                -spec_hex_ring_seq(d)[t].1,
                -spec_hex_ring_seq(d)[t].2,
            )),
{
    lemma_fundamental_div_mod(t, 6);
    lemma_mod_bound(t, 6);
    let rot = t % 6;
    let partner_rot = if rot < 3 {
        rot + 3
    } else {
        rot - 3
    };
    let u = 6 * (t / 6) + partner_rot;
    vstd::arithmetic::div_mod::lemma_fundamental_div_mod_converse(u, 6, t / 6, partner_rot);
    assert(spec_hex_ring_seq(d)[u] == spec_hex_ring_offset(d, u / 6 + 1, u % 6));
    assert(spec_hex_ring_seq(d)[u] == ((
        -spec_hex_ring_seq(d)[t].0,
        -spec_hex_ring_seq(d)[t].1,
        -spec_hex_ring_seq(d)[t].2,
    )));
}

/// The planar offsets of all tiles of one chunk, in enumeration
/// order: the center first, then the rings at distances `1 ..= r`.
pub open spec fn spec_hex_base_offsets(r: int) -> Seq<(int, int, int)>
    decreases r,
{
    if r <= 0 {
        seq![(0int, 0int, 0int)]
    } else {
        spec_hex_base_offsets(r - 1) + spec_hex_ring_seq(r)
    }
}

/// One chunk holds `period` tile offsets, starting with its center.
pub proof fn lemma_hex_base_offsets_len(r: int)
    requires
        r >= 0,
    ensures
        spec_hex_base_offsets(r).len() == spec_hex_period(r),
        spec_hex_base_offsets(r)[0] == (0int, 0int, 0int),
    decreases r,
{
    if r == 0 {
        assert(spec_hex_period(0) == 1) by (nonlinear_arith);
    } else {
        lemma_hex_base_offsets_len(r - 1);
        let n1 = spec_hex_base_offsets(r - 1).len() as int;
        let n = spec_hex_base_offsets(r).len() as int;
        assert(n == n1 + 6 * r);
        assert(n == spec_hex_period(r)) by (nonlinear_arith)
            requires
                n == n1 + 6 * r && n1 == 3 * (r - 1) * (r - 1) + 3 * (r - 1) + 1
                    && spec_hex_period(r) == 3 * r * r + 3 * r + 1,
        ;
    }
}

/// Appending further rings never disturbs earlier entries: the chunk
/// offsets for a larger radius extend those for a smaller one.
proof fn lemma_hex_base_offsets_prefix(r: int, ring: int, t: int)
    requires
        1 <= ring <= r,
        0 <= t < 6 * ring,
    ensures
        spec_hex_base_offsets(ring - 1).len() + t < spec_hex_base_offsets(r).len(),
        spec_hex_base_offsets(r)[spec_hex_base_offsets(ring - 1).len() + t]
            == spec_hex_ring_seq(ring)[t],
    decreases r,
{
    lemma_hex_base_offsets_len(ring - 1);
    lemma_hex_base_offsets_len(r);
    if ring == r {
    } else {
        lemma_hex_base_offsets_prefix(r - 1, ring, t);
        lemma_hex_base_offsets_len(r - 1);
    }
}

impl CubeHexLayout {
    /// The tiles at hex distance exactly `distance` from `center`:
    /// `6 * distance` entries, walking one edge and rotating it into
    /// all six sides.
    #[verifier::loop_isolation(false)]
    pub fn get_ring(&self, center: CubeHexCoord, distance: i64) -> (out: Vec<CubeHexCoord>)
        requires
            self.wf(),
            center.is_hex(),
            center.bounded(2 * COORD_LIMIT as int),
            1 <= distance <= HEX_RADIUS_LIMIT as int,
        ensures
            out@.len() == 6 * distance,
            forall|j: int|
                0 <= j < out@.len() ==> {
                    let o = #[trigger] spec_hex_ring_seq(distance as int)[j];
                    out@[j].0 == center.0 + o.0 && out@[j].1 == center.1 + o.1 && out@[j].2
                        == center.2 + o.2
                },
            forall|j: int|
                0 <= j < out@.len() ==> (#[trigger] out@[j]).is_hex()
                    && center.spec_distance_step(out@[j]) == distance,
    {
        let mut out: Vec<CubeHexCoord> = Vec::new();
        let mut i: i64 = 1;
        while i <= distance
            invariant
                out@.len() == 6 * (i - 1),
                1 <= i <= distance + 1,
                forall|j: int|
                    0 <= j < out@.len() ==> {
                        let o = #[trigger] spec_hex_ring_seq(distance as int)[j];
                        out@[j].0 == center.0 + o.0 && out@[j].1 == center.1 + o.1 && out@[j].2
                            == center.2 + o.2
                    },
            decreases distance - i + 1,
        {
            let a0 = i;
            let a1 = distance - i;
            let a2 = -distance;
            let mut rot: i64 = 0;
            while rot < 6
                invariant
                    1 <= i <= distance,
                    0 <= rot <= 6,
                    a0 == i && a1 == distance - i && a2 == -distance,
                    out@.len() == 6 * (i - 1) + rot,
                    forall|j: int|
                        0 <= j < out@.len() ==> {
                            let o = #[trigger] spec_hex_ring_seq(distance as int)[j];
                            out@[j].0 == center.0 + o.0 && out@[j].1 == center.1 + o.1 && out@[j].2
                                == center.2 + o.2
                        },
                decreases 6 - rot,
            {
                let (ox, oy, oz) = if rot == 0 {
                    (a0, a1, a2)
                } else if rot == 1 {
                    (-a1, -a2, -a0)
                } else if rot == 2 {
                    (a2, a0, a1)
                } else if rot == 3 {
                    (-a0, -a1, -a2)
                } else if rot == 4 {
                    (a1, a2, a0)
                } else {
                    (-a2, -a0, -a1)
                };
                proof {
                    let t = 6 * (i - 1) + rot;
                    vstd::arithmetic::div_mod::lemma_fundamental_div_mod_converse(
                        t,
                        6,
                        i - 1,
                        rot as int,
                    );
                    assert(spec_hex_ring_seq(distance as int)[t] == spec_hex_ring_offset(
                        distance as int,
                        i as int,
                        rot as int,
                    ));
                }
                out.push(CubeHexCoord(center.0 + ox, center.1 + oy, center.2 + oz));
                rot = rot + 1;
            }
            i = i + 1;
        }
        proof {
            assert forall|j: int| 0 <= j < out@.len() implies (#[trigger] out@[j]).is_hex()
                && center.spec_distance_step(out@[j]) == distance by {
                lemma_hex_ring_offset_props(distance as int, j);
                crate::hex::lemma_distance_step_is_max(center, out@[j]);
            }
        }
        out
    }
}

/// The cube-coordinate offset from a chunk to the neighbor at ring
/// `ring`, edge step `i`, rotation `rot`, for chunk radius `r`.  The
/// anchor triple scales the tile ring walk to whole chunks.
pub open spec fn spec_hex_neighbor_offset(r: int, ring: int, i: int, rot: int) -> (int, int, int) {
    let a0 = -(ring * (2 * r + 1)) + i * r;
    let a1 = ring * (r + 1) - i * (2 * r + 1);
    let a2 = ring * r + i * (r + 1);
    if rot == 0 {
        (a0, a1, a2)
    } else if rot == 1 {
        (-a1, -a2, -a0)
    } else if rot == 2 {
        (a2, a0, a1)
    } else if rot == 3 {
        (-a0, -a1, -a2)
    } else if rot == 4 {
        (a1, a2, a0)
    } else {
        (-a2, -a0, -a1)
    }
}

/// The chunk-neighbor offsets of the ring at chunk distance `ring`:
/// `6 * ring` entries.
pub open spec fn spec_hex_neighbor_ring_seq(r: int, ring: int) -> Seq<(int, int, int)> {
    Seq::new((6 * ring) as nat, |t: int| spec_hex_neighbor_offset(r, ring, t / 6, t % 6))
}

/// All chunk-neighbor offsets out to chunk distance `d`: the rings at
/// distances `1 ..= d`, concatenated; `3d^2 + 3d` entries in all.
pub open spec fn spec_hex_neighbor_offsets(r: int, d: int) -> Seq<(int, int, int)>
    decreases d,
{
    if d <= 0 {
        Seq::empty()
    } else {
        spec_hex_neighbor_offsets(r, d - 1) + spec_hex_neighbor_ring_seq(r, d)
    }
}

pub proof fn lemma_hex_neighbor_offsets_len(r: int, d: int)
    requires
        d >= 0,
    ensures
        spec_hex_neighbor_offsets(r, d).len() == 3 * d * (d + 1),
    decreases d,
{
    if d > 0 {
        lemma_hex_neighbor_offsets_len(r, d - 1);
        let n1 = spec_hex_neighbor_offsets(r, d - 1).len() as int;
        let n = spec_hex_neighbor_offsets(r, d).len() as int;
        assert(n == n1 + 6 * d);
        assert(n == 3 * d * (d + 1)) by (nonlinear_arith)
            requires
                n == n1 + 6 * d && n1 == 3 * (d - 1) * ((d - 1) + 1),
        ;
    } else {
        assert(3 * d * (d + 1) == 0) by (nonlinear_arith)
            requires
                d == 0,
        ;
    }
}

/// Every chunk-neighbor offset is a zero-sum triple whose key is zero:
/// stepping from one chunk center to a neighbor lands on a chunk
/// center again.
pub proof fn lemma_hex_neighbor_offset_lattice(r: int, ring: int, i: int, rot: int)
    requires
        1 <= r,
        1 <= ring,
        0 <= i < ring,
        0 <= rot < 6,
    ensures
        ({
            let o = spec_hex_neighbor_offset(r, ring, i, rot);
            o.0 + o.1 + o.2 == 0 && spec_hex_key(r, o.0, o.2) == 0
        }),
{
    let p = spec_hex_period(r);
    let ob = 3 * r + 1;
    assert(p > 0) by (nonlinear_arith)
        requires
            p == 3 * r * r + 3 * r + 1 && r >= 1,
    ;
    let a0 = -(ring * (2 * r + 1)) + i * r;
    let a1 = ring * (r + 1) - i * (2 * r + 1);
    let a2 = ring * r + i * (r + 1);
    assert(a0 + a1 + a2 == 0) by (nonlinear_arith)
        requires
            a0 == -(ring * (2 * r + 1)) + i * r && a1 == ring * (r + 1) - i * (2 * r + 1) && a2
                == ring * r + i * (r + 1),
    ;
    let o = spec_hex_neighbor_offset(r, ring, i, rot);
    if rot == 0 {
        assert((ring * r + i * (r + 1)) * (3 * r + 1) - (-(ring * (2 * r + 1)) + i * r) == (ring
            + i) * (3 * r * r + 3 * r + 1)) by (nonlinear_arith);
        assert(a2 * ob - a0 == (ring + i) * p);
        lemma_mod_multiples_basic(ring + i, p);
    } else if rot == 1 {
        assert((ring * (2 * r + 1) - i * r) * (3 * r + 1) + (ring * (r + 1) - i * (2 * r + 1)) == (
        2 * ring - i) * (3 * r * r + 3 * r + 1)) by (nonlinear_arith);
        assert((-a0) * ob - (-a1) == (2 * ring - i) * p) by {
            assert((-a0) * ob == (ring * (2 * r + 1) - i * r) * (3 * r + 1));
        }
        lemma_mod_multiples_basic(2 * ring - i, p);
    } else if rot == 2 {
        assert((ring * (r + 1) - i * (2 * r + 1)) * (3 * r + 1) - (ring * r + i * (r + 1)) == (ring
            - 2 * i) * (3 * r * r + 3 * r + 1)) by (nonlinear_arith);
        assert(a1 * ob - a2 == (ring - 2 * i) * p);
        lemma_mod_multiples_basic(ring - 2 * i, p);
    } else if rot == 3 {
        assert((-(ring * r + i * (r + 1))) * (3 * r + 1) + (-(ring * (2 * r + 1)) + i * r) == (-(
        ring + i)) * (3 * r * r + 3 * r + 1)) by (nonlinear_arith);
        assert((-a2) * ob - (-a0) == (-(ring + i)) * p) by {
            assert((-a2) * ob == (-(ring * r + i * (r + 1))) * (3 * r + 1));
        }
        lemma_mod_multiples_basic(-(ring + i), p);
    } else if rot == 4 {
        assert((-(ring * (2 * r + 1)) + i * r) * (3 * r + 1) - (ring * (r + 1) - i * (2 * r + 1))
            == (-(2 * ring - i)) * (3 * r * r + 3 * r + 1)) by (nonlinear_arith);
        assert(a0 * ob - a1 == (-(2 * ring - i)) * p);
        lemma_mod_multiples_basic(-(2 * ring - i), p);
    } else {
        assert((-(ring * (r + 1) - i * (2 * r + 1))) * (3 * r + 1) + (ring * r + i * (r + 1)) == (-(
        ring - 2 * i)) * (3 * r * r + 3 * r + 1)) by (nonlinear_arith);
        assert((-a1) * ob - (-a2) == (-(ring - 2 * i)) * p) by {
            assert((-a1) * ob == (-(ring * (r + 1) - i * (2 * r + 1))) * (3 * r + 1));
        }
        lemma_mod_multiples_basic(-(ring - 2 * i), p);
    }
}

/// Concatenating rings never disturbs earlier entries: the offsets for
/// a larger chunk distance extend those for a smaller one.
proof fn lemma_hex_neighbor_offsets_prefix(r: int, d: int, ring: int, t: int)
    requires
        1 <= ring <= d,
        0 <= t < 6 * ring,
    ensures
        spec_hex_neighbor_offsets(r, ring - 1).len() + t < spec_hex_neighbor_offsets(r, d).len(),
        spec_hex_neighbor_offsets(r, d)[spec_hex_neighbor_offsets(r, ring - 1).len() + t]
            == spec_hex_neighbor_ring_seq(r, ring)[t],
    decreases d,
{
    lemma_hex_neighbor_offsets_len(r, ring - 1);
    lemma_hex_neighbor_offsets_len(r, d);
    if ring == d {
    } else {
        lemma_hex_neighbor_offsets_prefix(r, d - 1, ring, t);
        lemma_hex_neighbor_offsets_len(r, d - 1);
    }
}

/// Mutual membership for chunk neighborhoods: the offset list is
/// closed under negation (the partner sits three rotations along in
/// the same ring).
pub proof fn lemma_hex_neighbor_offsets_mutual(r: int, d: int, j: int)
    requires
        1 <= d,
        0 <= j < spec_hex_neighbor_offsets(r, d).len(),
    ensures
        exists|u: int|
            0 <= u < spec_hex_neighbor_offsets(r, d).len() && #[trigger] spec_hex_neighbor_offsets(
                r,
                d,
            )[u] == ((
                -spec_hex_neighbor_offsets(r, d)[j].0,
                -spec_hex_neighbor_offsets(r, d)[j].1,
                -spec_hex_neighbor_offsets(r, d)[j].2,
            )),
    decreases d,
{
    let s = spec_hex_neighbor_offsets(r, d);
    let prefix = spec_hex_neighbor_offsets(r, d - 1);
    if j < prefix.len() {
        lemma_hex_neighbor_offsets_mutual(r, d - 1, j);
        let u0 = choose|u: int|
            0 <= u < prefix.len() && #[trigger] prefix[u] == ((
                -prefix[j].0,
                -prefix[j].1,
                -prefix[j].2,
            ));
        assert(s[u0] == prefix[u0] && s[j] == prefix[j]);
        assert(0 <= u0 < s.len() && s[u0] == ((-s[j].0, -s[j].1, -s[j].2)));
    } else {
        let t = j - prefix.len();
        lemma_fundamental_div_mod(t, 6);
        lemma_mod_bound(t, 6);
        let rot = t % 6;
        let partner_rot = if rot < 3 {
            rot + 3
        } else {
            rot - 3
        };
        let tp = 6 * (t / 6) + partner_rot;
        vstd::arithmetic::div_mod::lemma_fundamental_div_mod_converse(tp, 6, t / 6, partner_rot);
        let u0 = prefix.len() + tp;
        assert(s[u0] == spec_hex_neighbor_offset(r, d as int, tp / 6, tp % 6));
        assert(s[j] == spec_hex_neighbor_offset(r, d as int, t / 6, rot));
        assert(0 <= u0 < s.len() && s[u0] == ((-s[j].0, -s[j].1, -s[j].2)));
    }
}

impl CubeHexLayout {
    /// The chunk centers within chunk ring distance `1 ..= distance` of
    /// a chunk: `3 * distance^2 + 3 * distance` entries, ring by ring,
    /// each the given chunk plus the corresponding enumerated offset.
    /// Every listed offset keeps the chunk-center property.
    #[verifier::loop_isolation(false)]
    pub fn get_chunk_neighbors(&self, chunk: CubeHexCoord, distance: i64) -> (out: Vec<
        CubeHexCoord,
    >)
        requires
            self.wf(),
            chunk.is_hex(),
            chunk.bounded(2 * COORD_LIMIT as int),
            1 <= distance <= HEX_RADIUS_LIMIT as int,
        ensures
            out@.len() == 3 * distance * (distance + 1),
            forall|j: int|
                0 <= j < out@.len() ==> {
                    let o = #[trigger] spec_hex_neighbor_offsets(
                        self.chunk_voxel_radius as int,
                        distance as int,
                    )[j];
                    out@[j].0 == chunk.0 + o.0 && out@[j].1 == chunk.1 + o.1 && out@[j].2
                        == chunk.2 + o.2
                },
            forall|j: int|
                0 <= j < out@.len() ==> (#[trigger] out@[j]).is_hex() && (
                self.spec_is_chunk_center(chunk.0 as int, chunk.2 as int)
                    ==> self.spec_is_chunk_center(out@[j].0 as int, out@[j].2 as int)),
    {
        let ghost rs = self.chunk_voxel_radius as int;
        let ghost d = distance as int;
        let radius = self.chunk_voxel_radius;
        let inc = 2 * radius + 1;
        let mut out: Vec<CubeHexCoord> = Vec::new();
        let mut ring: i64 = 1;
        proof {
            lemma_hex_neighbor_offsets_len(rs, d);
        }
        while ring <= distance
            invariant
                1 <= ring <= distance + 1,
                out@.len() == spec_hex_neighbor_offsets(rs, ring - 1).len(),
                forall|j: int|
                    0 <= j < out@.len() ==> {
                        let o = #[trigger] spec_hex_neighbor_offsets(rs, d)[j];
                        out@[j].0 == chunk.0 + o.0 && out@[j].1 == chunk.1 + o.1 && out@[j].2
                            == chunk.2 + o.2
                    },
            decreases distance - ring + 1,
        {
            proof {
                lemma_hex_neighbor_offsets_len(rs, ring - 1);
                lemma_hex_neighbor_offsets_len(rs, ring as int);
            }
            let mut i: i64 = 0;
            while i < ring
                invariant
                    1 <= ring <= distance,
                    0 <= i <= ring,
                    spec_hex_neighbor_offsets(rs, ring - 1).len() == 3 * (ring - 1) * ring,
                    out@.len() == spec_hex_neighbor_offsets(rs, ring - 1).len() + 6 * i,
                    forall|j: int|
                        0 <= j < out@.len() ==> {
                            let o = #[trigger] spec_hex_neighbor_offsets(rs, d)[j];
                            out@[j].0 == chunk.0 + o.0 && out@[j].1 == chunk.1 + o.1 && out@[j].2
                                == chunk.2 + o.2
                        },
                decreases ring - i,
            {
                proof {
                    assert(0 <= ring * inc <= 0x200_400 && 0 <= i * radius <= 0x100_000 && 0
                        <= ring * (radius + 1) <= 0x100_400 && 0 <= i * inc <= 0x200_400 && 0
                        <= ring * radius <= 0x100_000 && 0 <= i * (radius + 1) <= 0x100_400)
                        by (nonlinear_arith)
                        requires
                            1 <= ring <= 0x400 && 0 <= i <= 0x400 && 1 <= radius <= 0x400 && inc
                                == 2 * radius + 1,
                    ;
                }
                let a0 = -(ring * inc) + i * radius;
                let a1 = ring * (radius + 1) - i * inc;
                let a2 = ring * radius + i * (radius + 1);
                let mut rot: i64 = 0;
                while rot < 6
                    invariant
                        1 <= ring <= distance,
                        0 <= i < ring,
                        0 <= rot <= 6,
                        a0 == -(ring * (2 * radius + 1)) + i * radius,
                        a1 == ring * (radius + 1) - i * (2 * radius + 1),
                        a2 == ring * radius + i * (radius + 1),
                        abs(a0 as int) <= 0x100_0000,
                        abs(a1 as int) <= 0x100_0000,
                        abs(a2 as int) <= 0x100_0000,
                        spec_hex_neighbor_offsets(rs, ring - 1).len() == 3 * (ring - 1) * ring,
                        out@.len() == spec_hex_neighbor_offsets(rs, ring - 1).len() + 6 * i + rot,
                        forall|j: int|
                            0 <= j < out@.len() ==> {
                                let o = #[trigger] spec_hex_neighbor_offsets(rs, d)[j];
                                out@[j].0 == chunk.0 + o.0 && out@[j].1 == chunk.1 + o.1
                                    && out@[j].2 == chunk.2 + o.2
                            },
                    decreases 6 - rot,
                {
                    let (ox, oy, oz) = if rot == 0 {
                        (a0, a1, a2)
                    } else if rot == 1 {
                        (-a1, -a2, -a0)
                    } else if rot == 2 {
                        (a2, a0, a1)
                    } else if rot == 3 {
                        (-a0, -a1, -a2)
                    } else if rot == 4 {
                        (a1, a2, a0)
                    } else {
                        (-a2, -a0, -a1)
                    };
                    proof {
                        let t = 6 * i + rot;
                        lemma_hex_neighbor_offsets_prefix(rs, d, ring as int, t);
                        vstd::arithmetic::div_mod::lemma_fundamental_div_mod_converse(
                            t,
                            6,
                            i as int,
                            rot as int,
                        );
                        assert(spec_hex_neighbor_ring_seq(rs, ring as int)[t]
                            == spec_hex_neighbor_offset(rs, ring as int, i as int, rot as int));
                    }
                    out.push(CubeHexCoord(chunk.0 + ox, chunk.1 + oy, chunk.2 + oz));
                    rot = rot + 1;
                }
                i = i + 1;
            }
            ring = ring + 1;
        }
        proof {
            assert forall|j: int| 0 <= j < out@.len() implies (#[trigger] out@[j]).is_hex() && (
            self.spec_is_chunk_center(chunk.0 as int, chunk.2 as int) ==> self.spec_is_chunk_center(
                out@[j].0 as int,
                out@[j].2 as int,
            )) by {
                self.lemma_neighbor_entry_is_center(chunk, d, j, out@[j]);
            }
        }
        out
    }

    /// A chunk plus any enumerated neighbor offset is again a zero-sum
    /// coordinate, and a chunk center whenever the chunk itself is one.
    proof fn lemma_neighbor_entry_is_center(
        self,
        chunk: CubeHexCoord,
        d: int,
        j: int,
        entry: CubeHexCoord,
    )
        requires
            self.wf(),
            chunk.is_hex(),
            1 <= d,
            0 <= j < spec_hex_neighbor_offsets(self.chunk_voxel_radius as int, d).len(),
            entry.0 == chunk.0 + spec_hex_neighbor_offsets(self.chunk_voxel_radius as int, d)[j].0,
            entry.1 == chunk.1 + spec_hex_neighbor_offsets(self.chunk_voxel_radius as int, d)[j].1,
            entry.2 == chunk.2 + spec_hex_neighbor_offsets(self.chunk_voxel_radius as int, d)[j].2,
        ensures
            entry.is_hex(),
            self.spec_is_chunk_center(chunk.0 as int, chunk.2 as int)
                ==> self.spec_is_chunk_center(entry.0 as int, entry.2 as int),
        decreases d,
    {
        let rs = self.chunk_voxel_radius as int;
        let s = spec_hex_neighbor_offsets(rs, d);
        let prefix = spec_hex_neighbor_offsets(rs, d - 1);
        if j < prefix.len() {
            self.lemma_neighbor_entry_is_center(chunk, d - 1, j, entry);
        } else {
            let t = j - prefix.len();
            lemma_fundamental_div_mod(t, 6);
            lemma_mod_bound(t, 6);
            assert(0 <= t / 6 < d) by {
                crate::square::lemma_floor_div_bounds_pub(t, 6);
                if t / 6 >= d {
                    assert(6 * (t / 6) >= 6 * d) by (nonlinear_arith)
                        requires
                            t / 6 >= d,
                    ;
                }
            }
            lemma_hex_neighbor_offset_lattice(rs, d, t / 6, t % 6);
            let o = s[j];
            let p = spec_hex_period(rs);
            assert(p > 0) by (nonlinear_arith)
                requires
                    p == 3 * rs * rs + 3 * rs + 1 && rs >= 1,
            ;
            if self.spec_is_chunk_center(chunk.0 as int, chunk.2 as int) {
                self.lemma_key_add(chunk.0 as int, chunk.2 as int, o.0, o.2);
                lemma_small_mod(0nat, p as nat);
            }
        }
    }
}

impl CubeHexLayout {
    /// All voxels of a chunk: the chunk hexagon's tiles (center plus
    /// rings out to the chunk radius), each extruded through every
    /// height level `0 ..= chunk_voxel_height`.  The chunk holds
    /// `period * (height + 1)` voxels; the voxel at position `j` sits at
    /// height `j mod (height + 1)`, over a planar base within the chunk
    /// radius of the given center.
    #[verifier::loop_isolation(false)]
    pub fn get_chunk_voxels(&self, chunk: &CubeHexCoord) -> (out: Vec<ExtrudedCubeHexCoord>)
        requires
            self.wf(),
            chunk.is_hex(),
            chunk.bounded(2 * COORD_LIMIT as int),
        ensures
            out@.len() == spec_hex_period(self.chunk_voxel_radius as int) * (self.chunk_voxel_height
                + 1),
            forall|j: int|
                0 <= j < out@.len() ==> (#[trigger] out@[j]).is_hex() && out@[j].3 == j % (
                self.chunk_voxel_height + 1) && chunk.spec_distance_step(out@[j].spec_get_base())
                    <= self.chunk_voxel_radius,
            forall|j: int|
                0 <= j < out@.len() ==> {
                    let o = spec_hex_base_offsets(self.chunk_voxel_radius as int)[j / (
                    self.chunk_voxel_height + 1)];
                    (#[trigger] out@[j]).0 == chunk.0 + o.0 && out@[j].1 == chunk.1 + o.1
                        && out@[j].2 == chunk.2 + o.2
                },
    {
        let ghost rs = self.chunk_voxel_radius as int;
        let radius = self.chunk_voxel_radius;
        let height = self.chunk_voxel_height;
        let mut bases: Vec<CubeHexCoord> = Vec::new();
        bases.push(*chunk);
        proof {
            lemma_hex_base_offsets_len(rs);
            lemma_hex_base_offsets_len(0);
        }
        let mut ring: i64 = 1;
        while ring <= radius
            invariant
                1 <= ring <= radius + 1,
                bases@.len() == 1 + 3 * (ring - 1) * ring,
                bases@.len() == spec_hex_base_offsets(ring - 1).len(),
                forall|b: int|
                    0 <= b < bases@.len() ==> (#[trigger] bases@[b]).is_hex()
                        && chunk.spec_distance_step(bases@[b]) <= radius && bases@[b].bounded(
                        2 * COORD_LIMIT as int + 0x1000,
                    ),
                forall|b: int|
                    0 <= b < bases@.len() ==> {
                        let o = spec_hex_base_offsets(rs)[b];
                        (#[trigger] bases@[b]).0 == chunk.0 + o.0 && bases@[b].1 == chunk.1 + o.1
                            && bases@[b].2 == chunk.2 + o.2
                    },
            decreases radius - ring + 1,
        {
            proof {
                lemma_hex_base_offsets_len(ring - 1);
                lemma_hex_base_offsets_len(ring as int);
            }
            let mut ring_tiles = self.get_ring(*chunk, ring);
            let ghost old_bases = bases@;
            let ghost ring_view = ring_tiles@;
            proof {
                assert forall|t: int| 0 <= t < ring_view.len() implies (
                #[trigger] ring_view[t]).bounded(2 * COORD_LIMIT as int + 0x1000) by {
                    lemma_hex_ring_offset_props(ring as int, t);
                    let o = spec_hex_ring_seq(ring as int)[t];
                    assert(abs(o.0) <= spec_hex_norm(o.0, o.2) && abs(o.2) <= spec_hex_norm(
                        o.0,
                        o.2,
                    ) && abs(o.1) <= spec_hex_norm(o.0, o.2));
                }
            }
            let mut t: usize = 0;
            while t < ring_tiles.len()
                invariant
                    ring_view == ring_tiles@,
                    0 <= t <= ring_view.len(),
                    bases@.len() == old_bases.len() + t,
                    forall|b: int| 0 <= b < old_bases.len() ==> #[trigger] bases@[b] == old_bases[b],
                    forall|b: int|
                        old_bases.len() <= b < bases@.len() ==> #[trigger] bases@[b] == ring_view[b
                            - old_bases.len()],
                decreases ring_view.len() - t,
            {
                let tile = ring_tiles[t];
                bases.push(tile);
                t = t + 1;
            }
            proof {
                assert(bases@.len() == 1 + 3 * (ring - 1) * ring + 6 * ring);
                assert(1 + 3 * (ring - 1) * ring + 6 * ring == 1 + 3 * ring * (ring + 1))
                    by (nonlinear_arith);
                assert forall|b: int|
                    0 <= b < bases@.len() implies (#[trigger] bases@[b]).is_hex()
                    && chunk.spec_distance_step(bases@[b]) <= radius && bases@[b].bounded(
                    2 * COORD_LIMIT as int + 0x1000,
                ) by {
                    if b >= old_bases.len() {
                        assert(bases@[b] == ring_view[b - old_bases.len()]);
                    }
                }
                assert forall|b: int|
                    0 <= b < bases@.len() implies {
                        let o = spec_hex_base_offsets(rs)[b];
                        (#[trigger] bases@[b]).0 == chunk.0 + o.0 && bases@[b].1 == chunk.1 + o.1
                            && bases@[b].2 == chunk.2 + o.2
                    } by {
                    if b >= old_bases.len() {
                        let t = b - old_bases.len();
                        assert(bases@[b] == ring_view[t]);
                        lemma_hex_base_offsets_prefix(rs, ring as int, t);
                    }
                }
            }
            ring = ring + 1;
        }
        proof {
            assert(1 + 3 * radius * (radius + 1) == spec_hex_period(rs)) by (nonlinear_arith)
                requires
                    rs == radius as int,
            ;
            assert(spec_hex_period(rs) <= 0x300_c01) by (nonlinear_arith)
                requires
                    1 <= rs <= 0x400,
            ;
        }
        let levels = height + 1;
        let mut out: Vec<ExtrudedCubeHexCoord> = Vec::new();
        let mut b: usize = 0;
        while b < bases.len()
            invariant
                bases@.len() == spec_hex_period(rs),
                spec_hex_period(rs) <= 0x300_c01,
                levels == height + 1,
                0 <= b <= bases@.len(),
                out@.len() == b * (levels as int),
                forall|bi: int|
                    0 <= bi < bases@.len() ==> (#[trigger] bases@[bi]).is_hex()
                        && chunk.spec_distance_step(bases@[bi]) <= radius,
                forall|bi: int|
                    0 <= bi < bases@.len() ==> {
                        let o = spec_hex_base_offsets(rs)[bi];
                        (#[trigger] bases@[bi]).0 == chunk.0 + o.0 && bases@[bi].1 == chunk.1
                            + o.1 && bases@[bi].2 == chunk.2 + o.2
                    },
                forall|j: int|
                    0 <= j < out@.len() ==> (#[trigger] out@[j]).is_hex() && out@[j].3 == j % (
                    levels as int) && chunk.spec_distance_step(out@[j].spec_get_base()) <= radius,
                forall|j: int|
                    0 <= j < out@.len() ==> {
                        let o = spec_hex_base_offsets(rs)[j / (levels as int)];
                        (#[trigger] out@[j]).0 == chunk.0 + o.0 && out@[j].1 == chunk.1 + o.1
                            && out@[j].2 == chunk.2 + o.2
                    },
            decreases bases@.len() - b,
        {
            let base = bases[b];
            let mut hh: i64 = 0;
            while hh < levels
                invariant
                    0 <= hh <= levels,
                    0 <= b < bases@.len(),
                    base == bases@[b as int],
                    out@.len() == b * (levels as int) + hh,
                    forall|bi: int|
                        0 <= bi < bases@.len() ==> {
                            let o = spec_hex_base_offsets(rs)[bi];
                            (#[trigger] bases@[bi]).0 == chunk.0 + o.0 && bases@[bi].1 == chunk.1
                                + o.1 && bases@[bi].2 == chunk.2 + o.2
                        },
                    forall|j: int|
                        0 <= j < out@.len() ==> (#[trigger] out@[j]).is_hex() && out@[j].3 == j % (
                        levels as int) && chunk.spec_distance_step(out@[j].spec_get_base())
                            <= radius,
                    forall|j: int|
                        0 <= j < out@.len() ==> {
                            let o = spec_hex_base_offsets(rs)[j / (levels as int)];
                            (#[trigger] out@[j]).0 == chunk.0 + o.0 && out@[j].1 == chunk.1 + o.1
                                && out@[j].2 == chunk.2 + o.2
                        },
                decreases levels - hh,
            {
                proof {
                    let j = b * (levels as int) + hh;
                    vstd::arithmetic::div_mod::lemma_fundamental_div_mod_converse(
                        j,
                        levels as int,
                        b as int,
                        hh as int,
                    );
                }
                out.push(ExtrudedCubeHexCoord(base.0, base.1, base.2, hh));
                hh = hh + 1;
            }
            b = b + 1;
            proof {
                assert((b - 1) * (levels as int) + levels == b * (levels as int))
                    by (nonlinear_arith);
            }
        }
        proof {
            assert(bases@.len() * (levels as int) == spec_hex_period(rs) * (height + 1));
        }
        out
    }
}

/// The tile-membership law of the hexagonal layout, in the form the
/// voxel enumeration delivers: any tile whose planar base lies within
/// the chunk radius of a chunk center resolves to exactly that center.
pub proof fn lemma_tile_near_center_resolves(
    layout: CubeHexLayout,
    chunk: CubeHexCoord,
    base: CubeHexCoord,
)
    requires
        layout.wf(),
        chunk.is_hex(),
        base.is_hex(),
        layout.spec_is_chunk_center(chunk.0 as int, chunk.2 as int),
        chunk.spec_distance_step(base) <= layout.chunk_voxel_radius,
    ensures
        layout.spec_voxel_to_chunk(base.0 as int, base.2 as int) == (chunk.0 as int, chunk.2 as int),
{
    let dx = base.0 - chunk.0;
    let dz = base.2 - chunk.2;
    crate::hex::lemma_distance_step_is_max(chunk, base);
    assert(spec_hex_norm(dx, dz) <= layout.chunk_voxel_radius);
    layout.lemma_chunk_tile_resolves(chunk.0 as int, chunk.2 as int, dx, dz);
}

/// Bound on the fixed-point denominator for fractional hex rounding.
pub const FRACTION_DENOM_LIMIT: i64 = 0x1000_0000;

/// Nearest-integer rounding of the fraction `v / den` (halves toward
/// positive infinity): `floor((2v + den) / (2 den))`.
pub open spec fn spec_round_nearest(v: int, den: int) -> int {
    (2 * v + den) / (2 * den)
}

/// The rounding error of that rounding, scaled by the denominator:
/// `|round(v/den) * den - v|`.
pub open spec fn spec_round_error(v: int, den: int) -> int {
    abs(spec_round_nearest(v, den) * den - v) as int
}

/// Rounds `v / den` to the nearest integer (halves toward positive
/// infinity): `floor((2v + den) / (2 den))`.  Exact multiples round to
/// themselves and the scaled rounding error never exceeds the
/// denominator.
fn round_div(v: i64, den: i64) -> (q: i64)
    requires
        1 <= den <= FRACTION_DENOM_LIMIT as int,
        abs(v as int) <= SPACE_LIMIT as int / 4,
    ensures
        q == (2 * v + den) as int / (2 * den) as int,
        abs(q * den - v) <= den,
        abs(q as int) <= abs(v as int) + den,
        v as int % den as int == 0 ==> q == v as int / den as int,
    decreases 0int,
{
    let q = floor_div(2 * v + den, 2 * den);
    proof {
        let vi = v as int;
        let di = den as int;
        let qi = q as int;
        lemma_fundamental_div_mod(2 * vi + di, 2 * di);
        lemma_mod_bound(2 * vi + di, 2 * di);
        let rr = (2 * vi + di) % (2 * di);
        assert((2 * di) * qi == 2 * (di * qi)) by (nonlinear_arith);
        assert(2 * vi + di == 2 * (di * qi) + rr);
        assert(2 * (qi * di - vi) == di - rr) by {
            assert(qi * di == di * qi) by (nonlinear_arith);
        }
        assert(abs(qi * di - vi) <= di);
        assert(abs(qi) <= abs(vi) + di) by (nonlinear_arith)
            requires
                abs(qi * di - vi) <= di && di >= 1,
        ;
        if vi % di == 0 {
            lemma_fundamental_div_mod(vi, di);
            let k = vi / di;
            assert(vi == di * k);
            assert(2 * vi + di == k * (2 * di) + di) by (nonlinear_arith)
                requires
                    vi == di * k,
            ;
            vstd::arithmetic::div_mod::lemma_fundamental_div_mod_converse(
                2 * vi + di,
                2 * di,
                k,
                di,
            );
        }
    }
    q
}

impl CubeHexCoord {
    /// Rounds a fractional cube-hex coordinate — given as numerators
    /// `xn`, `zn` over a common positive denominator `den` — to the
    /// nearest tile.  All three cube components are rounded to nearest;
    /// the component with the strictly largest rounding error is then
    /// recomputed as the negation of the other two, restoring the
    /// zero-sum invariant exactly (ties resolved in x, y, z priority
    /// order).  An exactly representable coordinate rounds to itself.
    pub fn from_fractional_xz(xn: i64, zn: i64, den: i64) -> (c: CubeHexCoord)
        requires
            1 <= den <= FRACTION_DENOM_LIMIT as int,
            abs(xn as int) <= SPACE_LIMIT as int / 16,
            abs(zn as int) <= SPACE_LIMIT as int / 16,
        ensures
            c.is_hex(),
            ({
                let rx = spec_round_nearest(xn as int, den as int);
                let ry = spec_round_nearest(-xn - zn, den as int);
                let rz = spec_round_nearest(zn as int, den as int);
                let ex = spec_round_error(xn as int, den as int);
                let ey = spec_round_error(-xn - zn, den as int);
                let ez = spec_round_error(zn as int, den as int);
                if ex > ey && ex > ez {
                    c == CubeHexCoord((-ry - rz) as i64, ry as i64, rz as i64)
                } else if ey > ez {
                    c == CubeHexCoord(rx as i64, (-rx - rz) as i64, rz as i64)
                } else {
                    c == CubeHexCoord(rx as i64, ry as i64, (-rx - ry) as i64)
                }
            }),
            xn as int % den as int == 0 && zn as int % den as int == 0 ==> c.0 == xn as int
                / den as int && c.2 == zn as int / den as int,
    {
        let yn = -xn - zn;
        let rx = round_div(xn, den);
        let ry = round_div(yn, den);
        let rz = round_div(zn, den);
        let ex = abs_i64(rx * den - xn);
        let ey = abs_i64(ry * den - yn);
        let ez = abs_i64(rz * den - zn);
        proof {
            if xn as int % den as int == 0 && zn as int % den as int == 0 {
                let a = xn as int / den as int;
                let b = zn as int / den as int;
                lemma_fundamental_div_mod(xn as int, den as int);
                lemma_fundamental_div_mod(zn as int, den as int);
                assert(yn == den as int * (-a - b)) by (nonlinear_arith)
                    requires
                        xn == den as int * a && zn == den as int * b && yn == -xn - zn,
                ;
                vstd::arithmetic::div_mod::lemma_fundamental_div_mod_converse(
                    yn as int,
                    den as int,
                    -a - b,
                    0int,
                );
                assert(rx * den - xn == 0) by (nonlinear_arith)
                    requires
                        rx == a && xn == den as int * a,
                ;
                assert(rz * den - zn == 0) by (nonlinear_arith)
                    requires
                        rz == b && zn == den as int * b,
                ;
            }
        }
        if ex > ey && ex > ez {
            CubeHexCoord(-ry - rz, ry, rz)
        } else if ey > ez {
            CubeHexCoord(rx, -rx - rz, rz)
        } else {
            CubeHexCoord(rx, ry, -rx - ry)
        }
    }
}

} // verus!
