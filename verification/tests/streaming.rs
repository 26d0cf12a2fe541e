use chunk_stream::square::{ChunkId, CubicVoxelLayout, SpacePos};
use chunk_stream::streaming::{ChunkLifecycle, StreamingController, VoxelType};
use chunk_stream::tracker::ChunkTracker;

#[test]
fn try_spawn_reports_fresh_spawn_exactly_once() {
    let mut tracker = ChunkTracker::new();
    let id = ChunkId(2, -7);
    assert!(tracker.try_spawn(id));
    assert!(!tracker.try_spawn(id));
    assert!(!tracker.try_spawn(id));
    assert!(tracker.try_despawn(id));
    assert!(!tracker.try_despawn(id));
    assert!(tracker.try_spawn(id));
}

#[test]
fn tracker_membership_is_per_identifier() {
    let mut tracker = ChunkTracker::new();
    assert!(tracker.try_spawn(ChunkId(0, 0)));
    assert!(tracker.try_spawn(ChunkId(0, 1)));
    assert!(tracker.contains(&ChunkId(0, 0)));
    assert!(tracker.contains(&ChunkId(0, 1)));
    assert!(!tracker.contains(&ChunkId(1, 0)));
    assert!(tracker.try_despawn(ChunkId(0, 0)));
    assert!(!tracker.contains(&ChunkId(0, 0)));
    assert!(tracker.contains(&ChunkId(0, 1)));
}

fn controller() -> StreamingController {
    // Chunk radius 2 on the square grid, tile size 1: chunks are 5x5
    // voxel columns. Streaming radius 1, despawn past 100 space units,
    // despawn checked once per second.
    let layout = CubicVoxelLayout::new(ChunkId(0, 0), 1, 2, 1);
    StreamingController::new(layout, 1, 100, 1000)
}

#[test]
fn site_move_across_chunk_boundary_spawns_once() {
    let mut ctrl = controller();
    let site = ctrl.add_site();

    // First placement loads the origin chunk and its 8 neighbors.
    let spawned = ctrl.spawn_pass_site(site, SpacePos::new(0, 0, 0));
    assert_eq!(spawned.len(), 9);
    assert!(spawned.contains(&ChunkId(0, 0)));

    // A second pass at the same position is the stationary fast path.
    let again = ctrl.spawn_pass_site(site, SpacePos::new(0, 0, 0));
    assert_eq!(again.len(), 0);

    // One chunk-diameter away: a new chunk, but already-loaded chunks
    // are not re-spawned.
    let moved = ctrl.spawn_pass_site(site, SpacePos::new(5, 0, 5));
    assert!(!moved.is_empty());
    assert!(moved.len() < 9);
    for c in &moved {
        assert!(!spawned.contains(c));
    }
}

#[test]
fn lifecycle_advances_through_both_stages() {
    let mut ctrl = controller();
    let site = ctrl.add_site();
    let spawned = ctrl.spawn_pass_site(site, SpacePos::new(0, 0, 0));
    assert_eq!(spawned.len(), 9);

    let requests = ctrl.request_voxel_loads();
    assert_eq!(requests.len(), 9);
    for r in &ctrl.records {
        assert_eq!(r.lifecycle, ChunkLifecycle::VoxelsLoading);
    }
    // Requesting again finds nothing in Spawned state.
    assert_eq!(ctrl.request_voxel_loads().len(), 0);

    // The host generator completes stage one for each chunk.
    for (id, voxels) in requests {
        let buffer: Vec<_> = voxels.into_iter().map(|v| (v, VoxelType::Air)).collect();
        assert!(ctrl.on_voxels_loaded(id, buffer));
    }
    for r in &ctrl.records {
        assert_eq!(r.lifecycle, ChunkLifecycle::VoxelsLoaded);
        assert!(r.voxels.is_some());
    }

    // Stage two.
    let mesh_requests = ctrl.request_mesh_builds();
    assert_eq!(mesh_requests.len(), 9);
    for (n, id) in mesh_requests.into_iter().enumerate() {
        assert!(ctrl.on_mesh_built(id, n as u64));
    }
    for r in &ctrl.records {
        assert_eq!(r.lifecycle, ChunkLifecycle::MeshAttached);
        assert!(r.mesh.is_some());
    }

    // A stale completion for an unknown chunk is discarded.
    assert!(!ctrl.on_mesh_built(ChunkId(100, 100), 7));
    assert!(!ctrl.on_voxels_loaded(ChunkId(100, 100), Vec::new()));
}

#[test]
fn distance_pass_consumes_fresh_flag() {
    let mut ctrl = controller();
    let site = ctrl.add_site();
    ctrl.spawn_pass_site(site, SpacePos::new(0, 0, 0));
    assert!(ctrl.sites[site].fresh);

    ctrl.distance_pass();
    assert!(!ctrl.sites[site].fresh);
    assert_eq!(ctrl.records[0].distance_to_nearest_site, 0);

    // Without a fresh site the pass is a no-op.
    ctrl.distance_pass();
    assert!(!ctrl.sites[site].fresh);
}

#[test]
fn despawn_pass_waits_for_timer_and_removes_far_chunks() {
    let mut ctrl = controller();
    let site = ctrl.add_site();
    let first = ctrl.spawn_pass_site(site, SpacePos::new(0, 0, 0));
    assert_eq!(first.len(), 9);
    ctrl.distance_pass();

    // Move far away: one more spawn burst, then recompute distances.
    ctrl.spawn_pass_site(site, SpacePos::new(10_000, 0, 10_000));
    ctrl.distance_pass();

    // Before the interval elapses nothing is despawned.
    assert_eq!(ctrl.despawn_pass(500).len(), 0);
    assert_eq!(ctrl.records.len(), 18);

    // Once the timer fires, the chunks around the origin (distance
    // far above 100) are dropped; the chunks near the site stay.
    let dropped = ctrl.despawn_pass(500);
    assert_eq!(dropped.len(), 9);
    assert_eq!(ctrl.records.len(), 9);
    for c in &dropped {
        assert!(first.contains(c));
        assert!(!ctrl.tracker.contains(c));
    }

    // Despawned chunks can spawn again.
    let back = ctrl.spawn_pass_site(site, SpacePos::new(0, 0, 0));
    assert_eq!(back.len(), 9);
}
