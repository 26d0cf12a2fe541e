use chunk_stream::hex::{CubeHexCoord, ExtrudedCubeHexCoord};
use chunk_stream::hex_layout::{CubeHexLayout, HexLayoutError};
use chunk_stream::square::{ChunkId, CubicVoxelLayout, SpacePos, VoxelId};

#[test]
fn from_xz_coords_total_to_zero() {
    for x in -50i64..50 {
        for z in -50i64..50 {
            let c = CubeHexCoord::from_xz(x, z);
            assert_eq!(c.x() + c.y() + c.z(), 0);
        }
    }
}

#[test]
fn from_axis_coords_total_to_zero() {
    let c = CubeHexCoord::from_axis_coord(7, -3);
    assert_eq!(c.x() + c.y() + c.z(), 0);
}

#[test]
fn hex_period_is_centered_hexagonal_number() {
    let layout = CubeHexLayout::new(CubeHexCoord(0, 0, 0), 1, 0).ok().expect("valid geometry");
    assert_eq!(layout.chunk_voxel_period, 7);
    let layout3 = CubeHexLayout::new(CubeHexCoord(0, 0, 0), 3, 0).ok().expect("valid geometry");
    assert_eq!(layout3.chunk_voxel_period, 37);
}

#[test]
fn hex_layout_rejects_bad_radius() {
    match CubeHexLayout::new(CubeHexCoord(0, 0, 0), 0, 0) {
        Err(e) => assert_eq!(e, HexLayoutError::InvalidConfig),
        Ok(_) => panic!("radius 0 must be rejected"),
    }
    match CubeHexLayout::new(CubeHexCoord(0, 0, 0), -3, 5) {
        Err(e) => assert_eq!(e, HexLayoutError::InvalidConfig),
        Ok(_) => panic!("negative radius must be rejected"),
    }
}

#[test]
fn hex_origin_chunk_has_seven_tiles_at_height_zero() {
    let layout = CubeHexLayout::new(CubeHexCoord(0, 0, 0), 1, 0).ok().expect("valid geometry");
    let origin = CubeHexCoord(0, 0, 0);
    let voxels = layout.get_chunk_voxels(&origin);
    assert_eq!(voxels.len(), 7);
    for v in &voxels {
        assert_eq!(v.h(), 0);
        let base = v.get_base();
        assert!(origin.distance_step(&base) <= 1);
    }
}

#[test]
fn hex_every_tile_resolves_to_its_chunk() {
    for radius in 1i64..=4 {
        let layout = CubeHexLayout::new(CubeHexCoord(0, 0, 0), radius, 2).ok().expect("valid geometry");
        let chunk = layout.voxel_to_chunk(&ExtrudedCubeHexCoord::from_xzh(11, -4, 0));
        for v in layout.get_chunk_voxels(&chunk) {
            let resolved = layout.voxel_to_chunk(&v);
            assert_eq!(resolved, chunk);
        }
    }
}

#[test]
fn hex_tile_to_chunk_distance_within_radius() {
    for radius in 1i64..=5 {
        let layout = CubeHexLayout::new(CubeHexCoord(0, 0, 0), radius, 0).ok().expect("valid geometry");
        for x in -12i64..=12 {
            for z in -12i64..=12 {
                let v = ExtrudedCubeHexCoord::from_xzh(x, z, 0);
                let chunk = layout.voxel_to_chunk(&v);
                assert!(chunk.distance_step(&v.get_base()) <= radius);
            }
        }
    }
}

#[test]
fn hex_ring_has_six_d_elements() {
    let layout = CubeHexLayout::new(CubeHexCoord(0, 0, 0), 2, 0).ok().expect("valid geometry");
    let center = CubeHexCoord(0, 0, 0);
    for d in 1i64..=4 {
        let ring = layout.get_ring(center, d);
        assert_eq!(ring.len() as i64, 6 * d);
        for t in &ring {
            assert_eq!(center.distance_step(t), d);
        }
    }
}

#[test]
fn hex_neighbors_count_and_mutual() {
    let layout = CubeHexLayout::new(CubeHexCoord(0, 0, 0), 2, 0).ok().expect("valid geometry");
    let chunk = layout.voxel_to_chunk(&ExtrudedCubeHexCoord::from_xzh(0, 0, 0));
    for d in 1i64..=3 {
        let neighbors = layout.get_chunk_neighbors(chunk, d);
        assert_eq!(neighbors.len() as i64, 3 * d * d + 3 * d);
        for n in &neighbors {
            let back = layout.get_chunk_neighbors(*n, d);
            assert_eq!(back.iter().filter(|b| **b == chunk).count(), 1);
        }
    }
}

#[test]
fn hex_fractional_rounding_is_exact_on_integers() {
    let den = 1000i64;
    for x in -5i64..=5 {
        for z in -5i64..=5 {
            let c = CubeHexCoord::from_fractional_xz(x * den, z * den, den);
            assert_eq!(c, CubeHexCoord(x, -(x + z), z));
        }
    }
    let c = CubeHexCoord::from_fractional_xz(2499, -1000, 1000);
    assert_eq!(c.0 + c.1 + c.2, 0);
}

#[test]
fn square_chunk_neighbors_count_and_mutual() {
    let layout = CubicVoxelLayout::new(ChunkId(0, 0), 1, 2, 2);
    let chunk = ChunkId(3, -2);
    for d in 1i64..=3 {
        let neighbors = layout.get_chunk_neighbors(chunk, d);
        assert_eq!(neighbors.len() as i64, (2 * d + 1) * (2 * d + 1) - 1);
        for n in &neighbors {
            let dx = (n.x() - chunk.x()).abs();
            let dy = (n.y() - chunk.y()).abs();
            assert!(dx.max(dy) >= 1 && dx.max(dy) <= d);
            let back = layout.get_chunk_neighbors(*n, d);
            assert_eq!(back.iter().filter(|b| **b == chunk).count(), 1);
        }
    }
}

#[test]
fn square_space_chunk_round_trip() {
    let layout = CubicVoxelLayout::new(ChunkId(0, 0), 1, 2, 1);
    for cx in -4i64..=4 {
        for cy in -4i64..=4 {
            let c = ChunkId(cx, cy);
            let space = layout.chunk_to_space(&c);
            assert_eq!(layout.space_to_chunk(&space), c);
        }
    }
}

#[test]
fn square_voxel_space_round_trip() {
    let layout = CubicVoxelLayout::new(ChunkId(1, -2), 3, 4, 3);
    for vx in -9i64..=9 {
        for vy in -4i64..=4 {
            for vz in -9i64..=9 {
                let v = VoxelId(vx, vy, vz);
                let space = layout.voxel_to_space(&v);
                assert_eq!(layout.space_to_voxel(&space), v);
            }
        }
    }
}

#[test]
fn square_space_height_uses_tile_size() {
    // Tile size 1, chunk height 2: a space height of 3 is the voxel at
    // height 3, independent of how many voxels a chunk stacks.
    let layout = CubicVoxelLayout::new(ChunkId(0, 0), 1, 1, 2);
    assert_eq!(layout.space_to_voxel(&SpacePos::new(0, 3, 0)), VoxelId(0, 3, 0));
    // Tile size 2: space height 2 is voxel height 1, space height 1 is
    // still inside voxel 0.
    let layout2 = CubicVoxelLayout::new(ChunkId(0, 0), 2, 1, 3);
    assert_eq!(layout2.space_to_voxel(&SpacePos::new(0, 2, 0)).y(), 1);
    assert_eq!(layout2.space_to_voxel(&SpacePos::new(0, 1, 0)).y(), 0);
}

#[test]
fn square_chunk_voxels_resolve_back() {
    let layout = CubicVoxelLayout::new(ChunkId(0, 0), 1, 2, 2);
    let chunk = ChunkId(-3, 5);
    let voxels = layout.get_chunk_voxels(&chunk);
    assert_eq!(voxels.len() as i64, 5 * 5 * 2);
    for v in &voxels {
        assert_eq!(layout.voxel_to_chunk(v), chunk);
    }
}

#[test]
fn square_resolves_fractional_origin_cell() {
    let layout = CubicVoxelLayout::new(ChunkId(0, 0), 1, 2, 1);
    assert_eq!(layout.space_to_chunk(&SpacePos::new(0, 0, 0)), ChunkId(0, 0));
    let neighbors = layout.get_chunk_neighbors(ChunkId(0, 0), 1);
    assert_eq!(neighbors.len(), 8);
}

#[test]
fn square_chunk_distance_is_floored_euclidean() {
    let layout = CubicVoxelLayout::new(ChunkId(0, 0), 1, 2, 1);
    assert_eq!(layout.get_chunk_distance(&ChunkId(0, 0), &ChunkId(0, 0)), 0);
    assert_eq!(layout.get_chunk_distance(&ChunkId(0, 0), &ChunkId(1, 0)), 5);
    assert_eq!(layout.get_chunk_distance(&ChunkId(0, 0), &ChunkId(1, 1)), 7);
}
