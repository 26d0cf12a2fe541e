//! Streaming controller: spawns chunks around observer sites, tracks
//! per-chunk lifecycle through two asynchronous content-generation
//! stages, recomputes distances when sites move, and despawns chunks
//! past a distance threshold on a periodic timer.
//!
//! The controller holds all decisions; the host performs the outside
//! work (generation and meshing on worker tasks) and reports results
//! back through [`StreamingController::on_voxels_loaded`] and
//! [`StreamingController::on_mesh_built`].  Results for chunks that
//! were despawned meanwhile are discarded, never an error.

use vstd::prelude::*;
use crate::square::{
    lemma_space_to_chunk_bounded,
    lemma_square_neighbor_offsets_bounded,
    spec_square_neighbor_offsets,
    ChunkId,
    CubicVoxelLayout,
    SpacePos,
    VoxelId,
    CHUNK_LIMIT,
};
use crate::tracker::ChunkTracker;

verus! {

/// Lifecycle of one streamed chunk, from spawn to a fully attached
/// mesh.  Despawning can interrupt any state.
#[derive(Clone, Copy, PartialEq, Eq, Structural, Debug)]
pub enum ChunkLifecycle {
    Spawned,
    VoxelsLoading,
    VoxelsLoaded,
    MeshBuilding,
    MeshAttached,
}

/// Content of one voxel, as produced by the external generator.
#[derive(Clone, Copy, PartialEq, Eq, Structural, Debug)]
pub enum VoxelType {
    Air,
}

/// Per-chunk streaming state: identity, distance to the nearest
/// observer, lifecycle stage, and the attached content.
pub struct ChunkRecord {
    pub id: ChunkId,
    pub distance_to_nearest_site: i64,
    pub lifecycle: ChunkLifecycle,
    pub voxels: Option<Vec<(VoxelId, VoxelType)>>,
    pub mesh: Option<u64>,
}

impl ChunkRecord {
    /// Stage/content coherence: voxels are attached exactly from
    /// `VoxelsLoaded` on, a mesh handle exactly in `MeshAttached`.
    pub open spec fn wf(self) -> bool {
        &&& self.id.bounded(2 * CHUNK_LIMIT as int)
        &&& self.distance_to_nearest_site >= 0
        &&& (self.voxels is Some <==> (self.lifecycle is VoxelsLoaded || self.lifecycle
            is MeshBuilding || self.lifecycle is MeshAttached))
        &&& (self.mesh is Some <==> self.lifecycle is MeshAttached)
    }
}

/// A tracked observer position: the chunk it last loaded around, and
/// whether that chunk changed since the last distance pass.
#[derive(Clone, Copy, PartialEq, Eq, Structural, Debug)]
pub struct ChunkSpawner {
    pub last_loaded_chunk: Option<ChunkId>,
    pub fresh: bool,
}

/// The streaming controller.  One instance drives the whole lifecycle;
/// the host calls the pass methods once per tick.
pub struct StreamingController {
    pub layout: CubicVoxelLayout,
    pub tracker: ChunkTracker,
    pub records: Vec<ChunkRecord>,
    pub sites: Vec<ChunkSpawner>,
    /// Chunk rings spawned around a site, independent of the chunk
    /// radius.
    pub streaming_radius: i64,
    /// Records farther than this (in space units) are despawned.
    pub min_despawn_distance: i64,
    /// The despawn pass runs each time this many milliseconds elapse.
    pub despawn_interval_ms: u64,
    pub despawn_timer_ms: u64,
}

impl StreamingController {
    /// Whether some record carries this chunk identifier.
    pub open spec fn spec_has_record(self, c: ChunkId) -> bool {
        exists|i: int| 0 <= i < self.records@.len() && self.records@[i].id == c
    }

    pub open spec fn wf(self) -> bool {
        &&& self.layout.wf()
        &&& self.tracker.wf()
        &&& 1 <= self.streaming_radius <= 0x100
        &&& 0 <= self.min_despawn_distance
        &&& 1 <= self.despawn_interval_ms <= 0x8000_0000
        &&& self.despawn_timer_ms < self.despawn_interval_ms
        &&& forall|i: int, j: int|
            0 <= i < j < self.records@.len() ==> self.records@[i].id != self.records@[j].id
        &&& forall|i: int| 0 <= i < self.records@.len() ==> (#[trigger] self.records@[i]).wf()
        &&& forall|c: ChunkId| #[trigger] self.tracker.spec_contains(c) <==> self.spec_has_record(c)
        &&& forall|i: int|
            0 <= i < self.sites@.len() ==> ((#[trigger] self.sites@[i]).fresh
                ==> self.sites@[i].last_loaded_chunk is Some)
        &&& forall|i: int|
            0 <= i < self.sites@.len() ==> ((#[trigger] self.sites@[i]).last_loaded_chunk is Some
                ==> self.sites@[i].last_loaded_chunk->0.bounded(2 * CHUNK_LIMIT as int))
    }

    /// Configuration fields never changed by the pass methods.
    pub open spec fn same_config(self, other: Self) -> bool {
        &&& self.layout == other.layout
        &&& self.streaming_radius == other.streaming_radius
        &&& self.min_despawn_distance == other.min_despawn_distance
        &&& self.despawn_interval_ms == other.despawn_interval_ms
    }

    /// The chunk a space position resolves to, as a chunk identifier.
    pub open spec fn spec_site_chunk(self, pos: SpacePos) -> ChunkId {
        ChunkId(
            self.layout.spec_space_to_chunk(pos.x as int, pos.y as int, pos.z as int).0 as i64,
            self.layout.spec_space_to_chunk(pos.x as int, pos.y as int, pos.z as int).1 as i64,
        )
    }

    /// Whether a chunk is the resolved chunk of `pos` or one of its
    /// neighbors within the streaming radius: the candidates that a
    /// spawn pass at `pos` loads.
    pub open spec fn spec_spawn_candidate(self, pos: SpacePos, c: ChunkId) -> bool {
        let cur = self.spec_site_chunk(pos);
        c == cur || exists|j: int|
            0 <= j < spec_square_neighbor_offsets(self.streaming_radius as int).len() && c == (
            ChunkId(
                (cur.0 + #[trigger] spec_square_neighbor_offsets(self.streaming_radius as int)[j].0)
                    as i64,
                (cur.1 + spec_square_neighbor_offsets(self.streaming_radius as int)[j].1) as i64,
            ))
    }

    pub fn new(
        layout: CubicVoxelLayout,
        streaming_radius: i64,
        min_despawn_distance: i64,
        despawn_interval_ms: u64,
    ) -> (ctrl: Self)
        requires
            layout.wf(),
            1 <= streaming_radius <= 0x100,
            0 <= min_despawn_distance,
            1 <= despawn_interval_ms <= 0x8000_0000,
        ensures
            ctrl.wf(),
            ctrl.layout == layout,
            ctrl.streaming_radius == streaming_radius,
            ctrl.min_despawn_distance == min_despawn_distance,
            ctrl.despawn_interval_ms == despawn_interval_ms,
            ctrl.despawn_timer_ms == 0,
            ctrl.records@.len() == 0,
            ctrl.sites@.len() == 0,
            forall|c: ChunkId| !ctrl.tracker.spec_contains(c),
    {
        StreamingController {
            layout,
            tracker: ChunkTracker::new(),
            records: Vec::new(),
            sites: Vec::new(),
            streaming_radius,
            min_despawn_distance,
            despawn_interval_ms,
            despawn_timer_ms: 0,
        }
    }

    /// Registers a new observer site, initially with no loaded chunk.
    /// Returns its index.
    pub fn add_site(&mut self) -> (idx: usize)
        requires
            old(self).wf(),
        ensures
            final(self).wf(),
            final(self).same_config(*old(self)),
            idx == old(self).sites@.len(),
            final(self).sites@ == old(self).sites@.push(
                ChunkSpawner { last_loaded_chunk: None, fresh: false },
            ),
            final(self).records@ == old(self).records@,
            final(self).tracker == old(self).tracker,
            final(self).despawn_timer_ms == old(self).despawn_timer_ms,
    {
        let idx = self.sites.len();
        self.sites.push(ChunkSpawner { last_loaded_chunk: None, fresh: false });
        idx
    }

    /// One spawn pass for one site at its current position.  If the
    /// site still resolves to the chunk it last loaded around, nothing
    /// happens (the stationary fast path).  Otherwise the resolved
    /// chunk and every neighbor within the streaming radius is spawned
    /// if not already loaded; each fresh spawn gets a record in state
    /// `Spawned`, and the site is marked fresh for the next distance
    /// pass.  Returns the newly spawned identifiers.
    #[verifier::loop_isolation(false)]
    pub fn spawn_pass_site(&mut self, site_index: usize, pos: SpacePos) -> (spawned: Vec<ChunkId>)
        requires
            old(self).wf(),
            site_index < old(self).sites@.len(),
            pos.bounded(CHUNK_LIMIT as int),
        ensures
            final(self).wf(),
            final(self).same_config(*old(self)),
            final(self).despawn_timer_ms == old(self).despawn_timer_ms,
            old(self).sites@[site_index as int].last_loaded_chunk == Some(
                old(self).spec_site_chunk(pos),
            ) ==> final(self).sites@ == old(self).sites@ && final(self).records@ == old(
                self,
            ).records@ && final(self).tracker.loaded_chunks@ == old(self).tracker.loaded_chunks@
                && spawned@.len() == 0,
            old(self).sites@[site_index as int].last_loaded_chunk != Some(
                old(self).spec_site_chunk(pos),
            ) ==> {
                &&& final(self).sites@ == old(self).sites@.update(
                    site_index as int,
                    ChunkSpawner {
                        last_loaded_chunk: Some(old(self).spec_site_chunk(pos)),
                        fresh: true,
                    },
                )
                &&& forall|c: ChunkId|
                    #[trigger] final(self).tracker.spec_contains(c) <==> old(
                        self,
                    ).tracker.spec_contains(c) || spawned@.contains(c)
                &&& forall|k: int|
                    0 <= k < spawned@.len() ==> !old(self).tracker.spec_contains(
                        #[trigger] spawned@[k],
                    ) && old(self).spec_spawn_candidate(pos, spawned@[k])
                &&& forall|k: int, l: int|
                    0 <= k < l < spawned@.len() ==> spawned@[k] != spawned@[l]
                &&& final(self).records@.len() == old(self).records@.len() + spawned@.len()
                &&& forall|i: int|
                    0 <= i < old(self).records@.len() ==> final(self).records@[i] == old(
                        self,
                    ).records@[i]
                &&& forall|k: int|
                    0 <= k < spawned@.len() ==> {
                        let rec = #[trigger] final(self).records@[old(self).records@.len() + k];
                        rec.id == spawned@[k] && rec.lifecycle is Spawned && rec.voxels is None
                            && rec.mesh is None && rec.distance_to_nearest_site == 0
                    }
                &&& forall|c: ChunkId|
                    #[trigger] old(self).spec_spawn_candidate(pos, c)
                        ==> final(self).tracker.spec_contains(c)
            },
    {
        let ghost init = *self;
        let current_chunk = self.compute_site_chunk(pos);
        let site = self.sites[site_index];
        let skip = match site.last_loaded_chunk {
            Some(last) => last == current_chunk,
            None => false,
        };
        if skip {
            proof {
                assert(init.sites@[site_index as int].last_loaded_chunk == Some(
                    init.spec_site_chunk(pos),
                ));
            }
            return Vec::new();
        }
        let neighbors = self.layout.get_chunk_neighbors(current_chunk, self.streaming_radius);
        let ghost nlen = neighbors@.len();
        proof {
            assert(4 * (init.streaming_radius as int) * (init.streaming_radius as int + 1)
                <= 0x41_0400) by (nonlinear_arith)
                requires
                    1 <= init.streaming_radius as int <= 0x100,
            ;
        }
        let mut spawned: Vec<ChunkId> = Vec::new();
        let mut candidate_index: usize = 0;
        while candidate_index <= neighbors.len()
            invariant
                0 <= candidate_index <= 1 + nlen,
                nlen == neighbors@.len(),
                nlen == 4 * (init.streaming_radius as int) * (init.streaming_radius as int + 1),
                nlen <= 0x41_0400,
                forall|j: int|
                    0 <= j < nlen ==> {
                        let off = #[trigger] spec_square_neighbor_offsets(
                            init.streaming_radius as int,
                        )[j];
                        neighbors@[j].0 == current_chunk.0 + off.0 && neighbors@[j].1
                            == current_chunk.1 + off.1
                    },
                current_chunk == init.spec_site_chunk(pos),
                current_chunk.bounded(2 * CHUNK_LIMIT as int - 0x1_0000),
                self.layout == init.layout,
                self.records@.len() == init.records@.len() + spawned@.len(),
                self.tracker.wf(),
                forall|i: int, j: int|
                    0 <= i < j < self.records@.len() ==> self.records@[i].id != self.records@[j].id,
                forall|i: int| 0 <= i < self.records@.len() ==> (#[trigger] self.records@[i]).wf(),
                forall|c: ChunkId|
                    #[trigger] self.tracker.spec_contains(c) <==> self.spec_has_record(c),
                forall|c: ChunkId|
                    #[trigger] self.tracker.spec_contains(c) <==> init.tracker.spec_contains(c)
                        || spawned@.contains(c),
                forall|k: int|
                    0 <= k < spawned@.len() ==> !init.tracker.spec_contains(#[trigger] spawned@[k])
                        && init.spec_spawn_candidate(pos, spawned@[k]),
                forall|k: int, l: int| 0 <= k < l < spawned@.len() ==> spawned@[k] != spawned@[l],
                candidate_index >= 1 ==> self.tracker.spec_contains(current_chunk),
                forall|j: int|
                    0 <= j < candidate_index - 1 ==> {
                        let off = #[trigger] spec_square_neighbor_offsets(
                            init.streaming_radius as int,
                        )[j];
                        self.tracker.spec_contains(
                            ChunkId(
                                (current_chunk.0 + off.0) as i64,
                                (current_chunk.1 + off.1) as i64,
                            ),
                        )
                    },
                forall|i: int|
                    0 <= i < init.records@.len() ==> self.records@[i] == init.records@[i],
                forall|k: int|
                    0 <= k < spawned@.len() ==> {
                        let rec = #[trigger] self.records@[init.records@.len() + k];
                        rec.id == spawned@[k] && rec.lifecycle is Spawned && rec.voxels is None
                            && rec.mesh is None && rec.distance_to_nearest_site == 0
                    },
                self.sites@ == init.sites@,
                self.despawn_timer_ms == init.despawn_timer_ms,
                self.streaming_radius == init.streaming_radius,
                self.min_despawn_distance == init.min_despawn_distance,
                self.despawn_interval_ms == init.despawn_interval_ms,
            decreases nlen + 1 - candidate_index,
        {
            let ghost s0 = *self;
            let chunk = if candidate_index == 0 {
                current_chunk
            } else {
                neighbors[candidate_index - 1]
            };
            proof {
                if candidate_index == 0 {
                    assert(chunk == init.spec_site_chunk(pos));
                } else {
                    let j = candidate_index - 1;
                    crate::square::lemma_square_neighbor_offsets_len(
                        init.streaming_radius as int,
                    );
                    let off = spec_square_neighbor_offsets(init.streaming_radius as int)[j as int];
                    assert(chunk.0 == current_chunk.0 + off.0 && chunk.1 == current_chunk.1
                        + off.1);
                    lemma_square_neighbor_offsets_bounded(init.streaming_radius as int, j as int);
                    let cur = init.spec_site_chunk(pos);
                    assert(chunk == ChunkId((cur.0 + off.0) as i64, (cur.1 + off.1) as i64));
                }
                assert(init.spec_spawn_candidate(pos, chunk));
                assert(chunk.bounded(2 * CHUNK_LIMIT as int));
            }
            if self.tracker.try_spawn(chunk) {
                let ghost prev_spawned = spawned@;
                let ghost prev_records = self.records@;
                spawned.push(chunk);
                self.records.push(
                    ChunkRecord {
                        id: chunk,
                        distance_to_nearest_site: 0,
                        lifecycle: ChunkLifecycle::Spawned,
                        voxels: None,
                        mesh: None,
                    },
                );
                proof {
                    assert forall|c: ChunkId| #[trigger]
                        self.tracker.spec_contains(c) <==> self.spec_has_record(c) by {
                        if self.tracker.spec_contains(c) {
                            if c == chunk {
                                assert(self.records@[self.records@.len() - 1].id == c);
                            } else {
                                let i = choose|i: int|
                                    0 <= i < prev_records.len() && prev_records[i].id == c;
                                assert(self.records@[i].id == c);
                            }
                        }
                        if self.spec_has_record(c) {
                            let i = choose|i: int|
                                0 <= i < self.records@.len() && self.records@[i].id == c;
                            if i < self.records@.len() - 1 {
                                assert(init.records@.len() + prev_spawned.len()
                                    == self.records@.len() - 1);
                            }
                        }
                    }
                    assert(spawned@[spawned@.len() - 1] == chunk);
                    assert forall|c: ChunkId| #[trigger]
                        self.tracker.spec_contains(c) <==> init.tracker.spec_contains(c)
                            || spawned@.contains(c) by {
                        if prev_spawned.contains(c) {
                            let k = choose|k: int|
                                0 <= k < prev_spawned.len() && prev_spawned[k] == c;
                            assert(spawned@[k] == c);
                        }
                        if spawned@.contains(c) {
                            let k = choose|k: int| 0 <= k < spawned@.len() && spawned@[k] == c;
                            if k < prev_spawned.len() {
                                assert(prev_spawned[k] == c);
                            } else {
                                assert(c == chunk);
                            }
                        }
                    }
                    assert(!s0.tracker.spec_contains(chunk));
                    assert(!s0.spec_has_record(chunk));
                    assert forall|i: int, j2: int|
                        0 <= i < j2 < self.records@.len() implies self.records@[i].id
                        != self.records@[j2].id by {
                        if j2 == self.records@.len() - 1 {
                            assert(self.records@[i] == prev_records[i]);
                            if prev_records[i].id == chunk {
                                assert(s0.records@[i].id == chunk);
                            }
                        } else {
                            assert(self.records@[i] == prev_records[i] && self.records@[j2]
                                == prev_records[j2]);
                        }
                    }
                }
            }
            candidate_index = candidate_index + 1;
        }
        proof {
            assert forall|c: ChunkId| #[trigger]
                init.spec_spawn_candidate(pos, c) implies self.tracker.spec_contains(c) by {
                let cur = init.spec_site_chunk(pos);
                if c == cur {
                    assert(self.tracker.spec_contains(current_chunk));
                } else {
                    let j = choose|j: int|
                        0 <= j < spec_square_neighbor_offsets(
                            init.streaming_radius as int,
                        ).len() && c == (ChunkId(
                            (cur.0 + #[trigger] spec_square_neighbor_offsets(
                                init.streaming_radius as int,
                            )[j].0) as i64,
                            (cur.1 + spec_square_neighbor_offsets(
                                init.streaming_radius as int,
                            )[j].1) as i64,
                        ));
                    crate::square::lemma_square_neighbor_offsets_len(
                        init.streaming_radius as int,
                    );
                    let off = spec_square_neighbor_offsets(init.streaming_radius as int)[j];
                    assert(self.tracker.spec_contains(
                        ChunkId(
                            (current_chunk.0 + off.0) as i64,
                            (current_chunk.1 + off.1) as i64,
                        ),
                    ));
                }
            }
        }
        let site_entry = ChunkSpawner { last_loaded_chunk: Some(current_chunk), fresh: true };
        self.sites.set(site_index, site_entry);
        proof {
            assert(final(self).sites@ == init.sites@.update(site_index as int, site_entry));
        }
        spawned
    }

    /// Resolves a position to its chunk identifier through the layout.
    fn compute_site_chunk(&self, pos: SpacePos) -> (c: ChunkId)
        requires
            self.wf(),
            pos.bounded(CHUNK_LIMIT as int),
        ensures
            c == self.spec_site_chunk(pos),
            c.bounded(2 * CHUNK_LIMIT as int - 0x1_0000),
    {
        proof {
            lemma_space_to_chunk_bounded(self.layout, pos.x as int, pos.y as int, pos.z as int);
        }
        self.layout.space_to_chunk(&pos)
    }
}

impl StreamingController {
    /// Whether any site changed chunks since the last distance pass.
    pub open spec fn spec_any_fresh(self) -> bool {
        exists|i: int| 0 <= i < self.sites@.len() && (#[trigger] self.sites@[i]).fresh
    }

    /// The minimum, over the fresh sites among the first `n`, of the
    /// layout distance from `id` to the site's loaded chunk;
    /// `i64::MAX` when none of them is fresh.
    pub open spec fn spec_min_fresh_distance(self, id: ChunkId, n: int) -> int
        decreases n,
    {
        if n <= 0 {
            0x7fff_ffff_ffff_ffff
        } else {
            let rest = self.spec_min_fresh_distance(id, n - 1);
            if self.sites@[n - 1].fresh {
                let d = self.layout.spec_chunk_distance(
                    id,
                    self.sites@[n - 1].last_loaded_chunk->0,
                );
                if d < rest {
                    d
                } else {
                    rest
                }
            } else {
                rest
            }
        }
    }

    /// Distance pass: if no site is fresh, distances are stable and
    /// nothing changes.  Otherwise every record's distance becomes the
    /// minimum layout distance to a fresh site's loaded chunk, and all
    /// fresh flags are cleared.
    #[verifier::loop_isolation(false)]
    pub fn distance_pass(&mut self)
        requires
            old(self).wf(),
        ensures
            final(self).wf(),
            final(self).same_config(*old(self)),
            final(self).despawn_timer_ms == old(self).despawn_timer_ms,
            final(self).tracker.loaded_chunks@ == old(self).tracker.loaded_chunks@,
            !old(self).spec_any_fresh() ==> final(self).records@ == old(self).records@
                && final(self).sites@ == old(self).sites@,
            old(self).spec_any_fresh() ==> {
                &&& final(self).records@.len() == old(self).records@.len()
                &&& forall|j: int|
                    0 <= j < old(self).records@.len() ==> {
                        let r_new = #[trigger] final(self).records@[j];
                        let r_old = old(self).records@[j];
                        r_new.id == r_old.id && r_new.lifecycle == r_old.lifecycle && r_new.voxels
                            == r_old.voxels && r_new.mesh == r_old.mesh
                            && r_new.distance_to_nearest_site == old(self).spec_min_fresh_distance(
                            r_old.id,
                            old(self).sites@.len() as int,
                        )
                    }
                &&& final(self).sites@.len() == old(self).sites@.len()
                &&& forall|i: int|
                    0 <= i < old(self).sites@.len() ==> #[trigger] final(self).sites@[i] == (
                    ChunkSpawner {
                        last_loaded_chunk: old(self).sites@[i].last_loaded_chunk,
                        fresh: false,
                    })
            },
    {
        let ghost init = *self;
        let mut any_fresh = false;
        let mut i: usize = 0;
        while i < self.sites.len()
            invariant
                *self == init,
                0 <= i <= self.sites@.len(),
                any_fresh == exists|k: int| 0 <= k < i && (#[trigger] self.sites@[k]).fresh,
            decreases self.sites@.len() - i,
        {
            if self.sites[i].fresh {
                any_fresh = true;
                proof {
                    assert(self.sites@[i as int].fresh);
                }
            }
            i = i + 1;
        }
        if !any_fresh {
            return ;
        }
        let site_count = self.sites.len();
        let mut j: usize = 0;
        while j < self.records.len()
            invariant
                self.layout == init.layout,
                self.tracker == init.tracker,
                self.sites@ == init.sites@,
                self.streaming_radius == init.streaming_radius,
                self.min_despawn_distance == init.min_despawn_distance,
                self.despawn_interval_ms == init.despawn_interval_ms,
                self.despawn_timer_ms == init.despawn_timer_ms,
                init.wf(),
                site_count == init.sites@.len(),
                0 <= j <= self.records@.len(),
                self.records@.len() == init.records@.len(),
                forall|k: int| j <= k < self.records@.len() ==> #[trigger] self.records@[k]
                    == init.records@[k],
                forall|k: int|
                    0 <= k < j ==> {
                        let r_new = #[trigger] self.records@[k];
                        let r_old = init.records@[k];
                        r_new.id == r_old.id && r_new.lifecycle == r_old.lifecycle && r_new.voxels
                            == r_old.voxels && r_new.mesh == r_old.mesh
                            && r_new.distance_to_nearest_site == init.spec_min_fresh_distance(
                            r_old.id,
                            init.sites@.len() as int,
                        ) && r_new.wf()
                    },
            decreases self.records@.len() - j,
        {
            let ghost prev_records = self.records@;
            let mut rec = self.records.remove(j);
            let mut mind: i64 = 0x7fff_ffff_ffff_ffff;
            let mut i2: usize = 0;
            while i2 < site_count
                invariant
                    0 <= i2 <= site_count,
                    site_count == init.sites@.len(),
                    self.sites@ == init.sites@,
                    self.layout == init.layout,
                    init.wf(),
                    rec.id.bounded(2 * CHUNK_LIMIT as int),
                    mind == init.spec_min_fresh_distance(rec.id, i2 as int),
                    mind >= 0,
                decreases site_count - i2,
            {
                let st = self.sites[i2];
                if st.fresh {
                    let last = match st.last_loaded_chunk {
                        Some(l) => l,
                        None => {
                            proof {
                                assert(init.sites@[i2 as int].fresh);
                                assert(false);
                            }
                            ChunkId(0, 0)
                        },
                    };
                    let d = self.layout.get_chunk_distance(&rec.id, &last);
                    if d < mind {
                        mind = d;
                    }
                }
                i2 = i2 + 1;
            }
            rec.distance_to_nearest_site = mind;
            self.records.insert(j, rec);
            proof {
                assert(self.records@ =~= prev_records.update(
                    j as int,
                    ChunkRecord {
                        id: prev_records[j as int].id,
                        distance_to_nearest_site: mind,
                        lifecycle: prev_records[j as int].lifecycle,
                        voxels: prev_records[j as int].voxels,
                        mesh: prev_records[j as int].mesh,
                    },
                ));
            }
            j = j + 1;
        }
        let mut i3: usize = 0;
        let ghost mid = *self;
        while i3 < self.sites.len()
            invariant
                self.layout == mid.layout,
                self.tracker == mid.tracker,
                self.records@ == mid.records@,
                self.streaming_radius == mid.streaming_radius,
                self.min_despawn_distance == mid.min_despawn_distance,
                self.despawn_interval_ms == mid.despawn_interval_ms,
                self.despawn_timer_ms == mid.despawn_timer_ms,
                0 <= i3 <= self.sites@.len(),
                self.sites@.len() == mid.sites@.len(),
                forall|k: int| i3 <= k < self.sites@.len() ==> #[trigger] self.sites@[k]
                    == mid.sites@[k],
                forall|k: int|
                    0 <= k < i3 ==> #[trigger] self.sites@[k] == (ChunkSpawner {
                        last_loaded_chunk: mid.sites@[k].last_loaded_chunk,
                        fresh: false,
                    }),
            decreases self.sites@.len() - i3,
        {
            let st = self.sites[i3];
            self.sites.set(
                i3,
                ChunkSpawner { last_loaded_chunk: st.last_loaded_chunk, fresh: false },
            );
            i3 = i3 + 1;
        }
        proof {
            assert forall|c: ChunkId| #[trigger]
                self.tracker.spec_contains(c) <==> self.spec_has_record(c) by {
                if init.tracker.spec_contains(c) {
                    let i4 = choose|i4: int|
                        0 <= i4 < init.records@.len() && init.records@[i4].id == c;
                    assert(self.records@[i4].id == c);
                }
                if self.spec_has_record(c) {
                    let i4 = choose|i4: int|
                        0 <= i4 < self.records@.len() && self.records@[i4].id == c;
                    assert(init.records@[i4].id == c);
                }
            }
        }
    }
}

/// The identifiers of the records in a given lifecycle stage, in
/// record order.
pub open spec fn spec_ids_in_stage(records: Seq<ChunkRecord>, stage: ChunkLifecycle) -> Seq<
    ChunkId,
>
    decreases records.len(),
{
    if records.len() == 0 {
        Seq::empty()
    } else {
        let prefix = spec_ids_in_stage(records.drop_last(), stage);
        if records.last().lifecycle == stage {
            prefix.push(records.last().id)
        } else {
            prefix
        }
    }
}

/// Every identifier selected from well-formed records is within the
/// addressable chunk bounds.
pub proof fn lemma_ids_in_stage_bounded(records: Seq<ChunkRecord>, stage: ChunkLifecycle)
    requires
        forall|j: int| 0 <= j < records.len() ==> (#[trigger] records[j]).wf(),
    ensures
        forall|k: int|
            0 <= k < spec_ids_in_stage(records, stage).len() ==> (#[trigger] spec_ids_in_stage(
                records,
                stage,
            )[k]).bounded(2 * CHUNK_LIMIT as int),
    decreases records.len(),
{
    if records.len() > 0 {
        assert forall|j: int|
            0 <= j < records.drop_last().len() implies (#[trigger] records.drop_last()[j]).wf() by {
            assert(records.drop_last()[j] == records[j]);
        }
        lemma_ids_in_stage_bounded(records.drop_last(), stage);
        assert(records[records.len() - 1].wf());
        let prefix = spec_ids_in_stage(records.drop_last(), stage);
        assert forall|k: int|
            0 <= k < spec_ids_in_stage(records, stage).len() implies (#[trigger] spec_ids_in_stage(
            records,
            stage,
        )[k]).bounded(2 * CHUNK_LIMIT as int) by {
            if k < prefix.len() {
                assert(spec_ids_in_stage(records, stage)[k] == prefix[k]);
            } else {
                assert(spec_ids_in_stage(records, stage)[k] == records[records.len() - 1].id);
            }
        }
    }
}

impl StreamingController {
    /// Marks every record in state `Spawned` as `VoxelsLoading` and
    /// returns their chunk identifiers, in record order.
    #[verifier::loop_isolation(false)]
    fn mark_voxel_loads(&mut self) -> (ids: Vec<ChunkId>)
        requires
            old(self).wf(),
        ensures
            final(self).wf(),
            final(self).same_config(*old(self)),
            final(self).despawn_timer_ms == old(self).despawn_timer_ms,
            final(self).tracker.loaded_chunks@ == old(self).tracker.loaded_chunks@,
            final(self).sites@ == old(self).sites@,
            final(self).records@.len() == old(self).records@.len(),
            forall|j: int|
                0 <= j < old(self).records@.len() ==> {
                    let r_old = old(self).records@[j];
                    let r_new = #[trigger] final(self).records@[j];
                    if r_old.lifecycle is Spawned {
                        r_new == (ChunkRecord {
                            id: r_old.id,
                            distance_to_nearest_site: r_old.distance_to_nearest_site,
                            lifecycle: ChunkLifecycle::VoxelsLoading,
                            voxels: None,
                            mesh: None,
                        })
                    } else {
                        r_new == r_old
                    }
                },
            ids@ == spec_ids_in_stage(old(self).records@, ChunkLifecycle::Spawned),
    {
        let ghost init = *self;
        let mut ids: Vec<ChunkId> = Vec::new();
        let mut j: usize = 0;
        proof {
            assert(init.records@.take(0) =~= Seq::<ChunkRecord>::empty());
        }
        while j < self.records.len()
            invariant
                init.wf(),
                self.layout == init.layout,
                self.tracker == init.tracker,
                self.sites@ == init.sites@,
                self.streaming_radius == init.streaming_radius,
                self.min_despawn_distance == init.min_despawn_distance,
                self.despawn_interval_ms == init.despawn_interval_ms,
                self.despawn_timer_ms == init.despawn_timer_ms,
                0 <= j <= self.records@.len(),
                self.records@.len() == init.records@.len(),
                forall|k: int| j <= k < self.records@.len() ==> #[trigger] self.records@[k]
                    == init.records@[k],
                forall|k: int|
                    0 <= k < j ==> {
                        let r_old = init.records@[k];
                        let r_new = #[trigger] self.records@[k];
                        if r_old.lifecycle is Spawned {
                            r_new == (ChunkRecord {
                                id: r_old.id,
                                distance_to_nearest_site: r_old.distance_to_nearest_site,
                                lifecycle: ChunkLifecycle::VoxelsLoading,
                                voxels: None,
                                mesh: None,
                            })
                        } else {
                            r_new == r_old
                        }
                    },
                ids@ == spec_ids_in_stage(
                    init.records@.take(j as int),
                    ChunkLifecycle::Spawned,
                ),
            decreases self.records@.len() - j,
        {
            proof {
                assert(init.records@.take(j + 1).drop_last() =~= init.records@.take(j as int));
                assert(init.records@.take(j + 1).last() == init.records@[j as int]);
            }
            let is_spawned = match self.records[j].lifecycle {
                ChunkLifecycle::Spawned => true,
                _ => false,
            };
            if is_spawned {
                let id = self.records[j].id;
                let dist = self.records[j].distance_to_nearest_site;
                self.records.set(
                    j,
                    ChunkRecord {
                        id,
                        distance_to_nearest_site: dist,
                        lifecycle: ChunkLifecycle::VoxelsLoading,
                        voxels: None,
                        mesh: None,
                    },
                );
                ids.push(id);
            }
            j = j + 1;
        }
        proof {
            assert(init.records@.take(self.records@.len() as int) =~= init.records@);
            assert forall|c: ChunkId| #[trigger]
                self.tracker.spec_contains(c) <==> self.spec_has_record(c) by {
                if init.tracker.spec_contains(c) {
                    let i4 = choose|i4: int|
                        0 <= i4 < init.records@.len() && init.records@[i4].id == c;
                    assert(self.records@[i4].id == c);
                }
                if self.spec_has_record(c) {
                    let i4 = choose|i4: int|
                        0 <= i4 < self.records@.len() && self.records@[i4].id == c;
                    assert(init.records@[i4].id == c);
                }
            }
        }
        ids
    }

    /// Requests stage-one content for every freshly spawned record:
    /// each record in state `Spawned` moves to `VoxelsLoading`, exactly
    /// once per chunk, and its chunk identifier is returned together
    /// with the voxel identifiers the external generator must fill.
    #[verifier::loop_isolation(false)]
    pub fn request_voxel_loads(&mut self) -> (requests: Vec<(ChunkId, Vec<VoxelId>)>)
        requires
            old(self).wf(),
        ensures
            final(self).wf(),
            final(self).same_config(*old(self)),
            final(self).despawn_timer_ms == old(self).despawn_timer_ms,
            final(self).tracker.loaded_chunks@ == old(self).tracker.loaded_chunks@,
            final(self).sites@ == old(self).sites@,
            final(self).records@.len() == old(self).records@.len(),
            forall|j: int|
                0 <= j < old(self).records@.len() ==> {
                    let r_old = old(self).records@[j];
                    let r_new = #[trigger] final(self).records@[j];
                    if r_old.lifecycle is Spawned {
                        r_new == (ChunkRecord {
                            id: r_old.id,
                            distance_to_nearest_site: r_old.distance_to_nearest_site,
                            lifecycle: ChunkLifecycle::VoxelsLoading,
                            voxels: None,
                            mesh: None,
                        })
                    } else {
                        r_new == r_old
                    }
                },
            requests@.len() == spec_ids_in_stage(
                old(self).records@,
                ChunkLifecycle::Spawned,
            ).len(),
            forall|k: int|
                0 <= k < requests@.len() ==> (#[trigger] requests@[k]).0 == spec_ids_in_stage(
                    old(self).records@,
                    ChunkLifecycle::Spawned,
                )[k],
            forall|k: int|
                0 <= k < requests@.len() ==> {
                    let rq = #[trigger] requests@[k];
                    rq.1@.len() == old(self).layout.spec_full_length() * old(
                        self,
                    ).layout.spec_full_length() * old(self).layout.chunk_voxel_height
                        && forall|i: int|
                        0 <= i < rq.1@.len() ==> (
                        #[trigger] rq.1@[i].0 as int,
                        rq.1@[i].1 as int,
                        rq.1@[i].2 as int,
                        ) == old(self).layout.spec_chunk_voxel_at(rq.0, i)
                },
    {
        let ids = self.mark_voxel_loads();
        proof {
            lemma_ids_in_stage_bounded(old(self).records@, ChunkLifecycle::Spawned);
        }
        let mut requests: Vec<(ChunkId, Vec<VoxelId>)> = Vec::new();
        let mut k: usize = 0;
        while k < ids.len()
            invariant
                self.wf(),
                ids@ == spec_ids_in_stage(old(self).records@, ChunkLifecycle::Spawned),
                self.layout == old(self).layout,
                forall|k2: int| 0 <= k2 < ids@.len() ==> (#[trigger] ids@[k2]).bounded(
                    2 * CHUNK_LIMIT as int,
                ),
                0 <= k <= ids@.len(),
                requests@.len() == k,
                forall|k2: int| 0 <= k2 < k ==> (#[trigger] requests@[k2]).0 == ids@[k2],
                forall|k2: int|
                    0 <= k2 < k ==> {
                        let rq = #[trigger] requests@[k2];
                        rq.1@.len() == self.layout.spec_full_length()
                            * self.layout.spec_full_length() * self.layout.chunk_voxel_height
                            && forall|i: int|
                            0 <= i < rq.1@.len() ==> (
                            #[trigger] rq.1@[i].0 as int,
                            rq.1@[i].1 as int,
                            rq.1@[i].2 as int,
                            ) == self.layout.spec_chunk_voxel_at(rq.0, i)
                    },
            decreases ids@.len() - k,
        {
            let id = ids[k];
            let voxels = self.layout.get_chunk_voxels(&id);
            requests.push((id, voxels));
            k = k + 1;
        }
        requests
    }

    /// Position of the record carrying `id`, if any.
    #[verifier::loop_isolation(false)]
    fn find_record(&self, id: &ChunkId) -> (found: Option<usize>)
        ensures
            found is Some ==> found->0 < self.records@.len() && self.records@[
                found->0 as int
            ].id == *id,
            found is None ==> forall|j: int|
                0 <= j < self.records@.len() ==> (#[trigger] self.records@[j]).id != *id,
    {
        let mut j: usize = 0;
        while j < self.records.len()
            invariant
                0 <= j <= self.records@.len(),
                forall|k: int| 0 <= k < j ==> (#[trigger] self.records@[k]).id != *id,
            decreases self.records@.len() - j,
        {
            if self.records[j].id == *id {
                return Some(j);
            }
            j = j + 1;
        }
        None
    }

    /// Delivers stage-one content for a chunk.  Accepted exactly when a
    /// record for `id` exists in state `VoxelsLoading`: the buffer is
    /// attached and the record becomes `VoxelsLoaded`.  A result for a
    /// chunk no longer tracked (or not awaiting voxels) is discarded
    /// and everything is left unchanged.
    pub fn on_voxels_loaded(&mut self, id: ChunkId, voxels: Vec<(VoxelId, VoxelType)>) -> (accepted:
        bool)
        requires
            old(self).wf(),
        ensures
            final(self).wf(),
            final(self).same_config(*old(self)),
            final(self).despawn_timer_ms == old(self).despawn_timer_ms,
            final(self).tracker.loaded_chunks@ == old(self).tracker.loaded_chunks@,
            final(self).sites@ == old(self).sites@,
            accepted <==> exists|j: int|
                0 <= j < old(self).records@.len() && (#[trigger] old(self).records@[j]).id == id
                    && old(self).records@[j].lifecycle is VoxelsLoading,
            !accepted ==> final(self).records@ == old(self).records@,
            accepted ==> exists|j: int|
                {
                    &&& 0 <= j < old(self).records@.len()
                    &&& (#[trigger] old(self).records@[j]).id == id
                    &&& old(self).records@[j].lifecycle is VoxelsLoading
                    &&& final(self).records@ == old(self).records@.update(
                        j,
                        ChunkRecord {
                            id,
                            distance_to_nearest_site: old(
                                self,
                            ).records@[j].distance_to_nearest_site,
                            lifecycle: ChunkLifecycle::VoxelsLoaded,
                            voxels: Some(voxels),
                            mesh: None,
                        },
                    )
                },
    {
        let ghost init = *self;
        let found = self.find_record(&id);
        let j = match found {
            Some(j) => j,
            None => {
                return false;
            },
        };
        let is_loading = match self.records[j].lifecycle {
            ChunkLifecycle::VoxelsLoading => true,
            _ => false,
        };
        if !is_loading {
            proof {
                assert forall|j2: int|
                    0 <= j2 < init.records@.len() && (#[trigger] init.records@[j2]).id == id
                        implies !(init.records@[j2].lifecycle is VoxelsLoading) by {
                    if j2 != j as int {
                        assert(init.records@[j2].id != init.records@[j as int].id);
                    }
                }
            }
            return false;
        }
        let rec = self.records.remove(j);
        let updated = ChunkRecord {
            id: rec.id,
            distance_to_nearest_site: rec.distance_to_nearest_site,
            lifecycle: ChunkLifecycle::VoxelsLoaded,
            voxels: Some(voxels),
            mesh: None,
        };
        self.records.insert(j, updated);
        proof {
            assert(self.records@ =~= init.records@.update(
                j as int,
                ChunkRecord {
                    id,
                    distance_to_nearest_site: init.records@[j as int].distance_to_nearest_site,
                    lifecycle: ChunkLifecycle::VoxelsLoaded,
                    voxels: self.records@[j as int].voxels,
                    mesh: None,
                },
            ));
            assert forall|c: ChunkId| #[trigger]
                self.tracker.spec_contains(c) <==> self.spec_has_record(c) by {
                if init.tracker.spec_contains(c) {
                    let i4 = choose|i4: int|
                        0 <= i4 < init.records@.len() && init.records@[i4].id == c;
                    assert(self.records@[i4].id == c);
                }
                if self.spec_has_record(c) {
                    let i4 = choose|i4: int|
                        0 <= i4 < self.records@.len() && self.records@[i4].id == c;
                    assert(init.records@[i4].id == c);
                }
            }
        }
        true
    }
}

impl StreamingController {
    /// Requests stage-two content: every record whose voxels are loaded
    /// and which has no mesh yet moves to `MeshBuilding`, exactly once
    /// per chunk.  Returns the chunk identifiers the external mesher
    /// must build, in record order.
    #[verifier::loop_isolation(false)]
    pub fn request_mesh_builds(&mut self) -> (requests: Vec<ChunkId>)
        requires
            old(self).wf(),
        ensures
            final(self).wf(),
            final(self).same_config(*old(self)),
            final(self).despawn_timer_ms == old(self).despawn_timer_ms,
            final(self).tracker.loaded_chunks@ == old(self).tracker.loaded_chunks@,
            final(self).sites@ == old(self).sites@,
            final(self).records@.len() == old(self).records@.len(),
            forall|j: int|
                0 <= j < old(self).records@.len() ==> {
                    let r_old = old(self).records@[j];
                    let r_new = #[trigger] final(self).records@[j];
                    if r_old.lifecycle is VoxelsLoaded {
                        r_new == (ChunkRecord {
                            id: r_old.id,
                            distance_to_nearest_site: r_old.distance_to_nearest_site,
                            lifecycle: ChunkLifecycle::MeshBuilding,
                            voxels: r_old.voxels,
                            mesh: None,
                        })
                    } else {
                        r_new == r_old
                    }
                },
            requests@ == spec_ids_in_stage(old(self).records@, ChunkLifecycle::VoxelsLoaded),
    {
        let ghost init = *self;
        let mut requests: Vec<ChunkId> = Vec::new();
        let mut j: usize = 0;
        proof {
            assert(init.records@.take(0) =~= Seq::<ChunkRecord>::empty());
        }
        while j < self.records.len()
            invariant
                init.wf(),
                self.layout == init.layout,
                self.tracker == init.tracker,
                self.sites@ == init.sites@,
                self.streaming_radius == init.streaming_radius,
                self.min_despawn_distance == init.min_despawn_distance,
                self.despawn_interval_ms == init.despawn_interval_ms,
                self.despawn_timer_ms == init.despawn_timer_ms,
                0 <= j <= self.records@.len(),
                self.records@.len() == init.records@.len(),
                forall|k: int| j <= k < self.records@.len() ==> #[trigger] self.records@[k]
                    == init.records@[k],
                forall|k: int|
                    0 <= k < j ==> {
                        let r_old = init.records@[k];
                        let r_new = #[trigger] self.records@[k];
                        if r_old.lifecycle is VoxelsLoaded {
                            r_new == (ChunkRecord {
                                id: r_old.id,
                                distance_to_nearest_site: r_old.distance_to_nearest_site,
                                lifecycle: ChunkLifecycle::MeshBuilding,
                                voxels: r_old.voxels,
                                mesh: None,
                            })
                        } else {
                            r_new == r_old
                        }
                    },
                requests@ == spec_ids_in_stage(
                    init.records@.take(j as int),
                    ChunkLifecycle::VoxelsLoaded,
                ),
            decreases self.records@.len() - j,
        {
            proof {
                assert(init.records@.take(j + 1).drop_last() =~= init.records@.take(j as int));
                assert(init.records@.take(j + 1).last() == init.records@[j as int]);
            }
            let is_loaded = match self.records[j].lifecycle {
                ChunkLifecycle::VoxelsLoaded => true,
                _ => false,
            };
            if is_loaded {
                let ghost prev_records = self.records@;
                let mut rec = self.records.remove(j);
                let id = rec.id;
                rec.lifecycle = ChunkLifecycle::MeshBuilding;
                self.records.insert(j, rec);
                requests.push(id);
                proof {
                    assert(self.records@ =~= prev_records.update(
                        j as int,
                        ChunkRecord {
                            id: init.records@[j as int].id,
                            distance_to_nearest_site: init.records@[
                                j as int
                            ].distance_to_nearest_site,
                            lifecycle: ChunkLifecycle::MeshBuilding,
                            voxels: init.records@[j as int].voxels,
                            mesh: None,
                        },
                    ));
                }
            }
            j = j + 1;
        }
        proof {
            assert(init.records@.take(self.records@.len() as int) =~= init.records@);
            assert forall|c: ChunkId| #[trigger]
                self.tracker.spec_contains(c) <==> self.spec_has_record(c) by {
                if init.tracker.spec_contains(c) {
                    let i4 = choose|i4: int|
                        0 <= i4 < init.records@.len() && init.records@[i4].id == c;
                    assert(self.records@[i4].id == c);
                }
                if self.spec_has_record(c) {
                    let i4 = choose|i4: int|
                        0 <= i4 < self.records@.len() && self.records@[i4].id == c;
                    assert(init.records@[i4].id == c);
                }
            }
        }
        requests
    }

    /// Delivers a built mesh for a chunk.  Accepted exactly when a
    /// record for `id` exists in state `MeshBuilding`: the handle is
    /// attached and the record becomes `MeshAttached`.  A result for a
    /// chunk no longer tracked (or not awaiting a mesh) is discarded
    /// and everything is left unchanged.
    pub fn on_mesh_built(&mut self, id: ChunkId, mesh: u64) -> (accepted: bool)
        requires
            old(self).wf(),
        ensures
            final(self).wf(),
            final(self).same_config(*old(self)),
            final(self).despawn_timer_ms == old(self).despawn_timer_ms,
            final(self).tracker.loaded_chunks@ == old(self).tracker.loaded_chunks@,
            final(self).sites@ == old(self).sites@,
            accepted <==> exists|j: int|
                0 <= j < old(self).records@.len() && (#[trigger] old(self).records@[j]).id == id
                    && old(self).records@[j].lifecycle is MeshBuilding,
            !accepted ==> final(self).records@ == old(self).records@,
            accepted ==> exists|j: int|
                {
                    &&& 0 <= j < old(self).records@.len()
                    &&& (#[trigger] old(self).records@[j]).id == id
                    &&& old(self).records@[j].lifecycle is MeshBuilding
                    &&& final(self).records@ == old(self).records@.update(
                        j,
                        ChunkRecord {
                            id,
                            distance_to_nearest_site: old(
                                self,
                            ).records@[j].distance_to_nearest_site,
                            lifecycle: ChunkLifecycle::MeshAttached,
                            voxels: old(self).records@[j].voxels,
                            mesh: Some(mesh),
                        },
                    )
                },
    {
        let ghost init = *self;
        let found = self.find_record(&id);
        let j = match found {
            Some(j) => j,
            None => {
                return false;
            },
        };
        let is_building = match self.records[j].lifecycle {
            ChunkLifecycle::MeshBuilding => true,
            _ => false,
        };
        if !is_building {
            proof {
                assert forall|j2: int|
                    0 <= j2 < init.records@.len() && (#[trigger] init.records@[j2]).id == id
                        implies !(init.records@[j2].lifecycle is MeshBuilding) by {
                    if j2 != j as int {
                        assert(init.records@[j2].id != init.records@[j as int].id);
                    }
                }
            }
            return false;
        }
        let mut rec = self.records.remove(j);
        rec.lifecycle = ChunkLifecycle::MeshAttached;
        rec.mesh = Some(mesh);
        self.records.insert(j, rec);
        proof {
            assert(self.records@ =~= init.records@.update(
                j as int,
                ChunkRecord {
                    id,
                    distance_to_nearest_site: init.records@[j as int].distance_to_nearest_site,
                    lifecycle: ChunkLifecycle::MeshAttached,
                    voxels: init.records@[j as int].voxels,
                    mesh: Some(mesh),
                },
            ));
            assert forall|c: ChunkId| #[trigger]
                self.tracker.spec_contains(c) <==> self.spec_has_record(c) by {
                if init.tracker.spec_contains(c) {
                    let i4 = choose|i4: int|
                        0 <= i4 < init.records@.len() && init.records@[i4].id == c;
                    assert(self.records@[i4].id == c);
                }
                if self.spec_has_record(c) {
                    let i4 = choose|i4: int|
                        0 <= i4 < self.records@.len() && self.records@[i4].id == c;
                    assert(init.records@[i4].id == c);
                }
            }
        }
        true
    }
}

/// The records at or below a distance threshold, in their original
/// order: what a despawn sweep must leave behind.
pub open spec fn spec_kept_records(records: Seq<ChunkRecord>, threshold: i64) -> Seq<ChunkRecord>
    decreases records.len(),
{
    if records.len() == 0 {
        Seq::empty()
    } else {
        spec_kept_records(records.drop_last(), threshold) + (if records.last(
        ).distance_to_nearest_site <= threshold {
            seq![records.last()]
        } else {
            Seq::empty()
        })
    }
}

/// A sequence with no record past the threshold is its own survivor
/// list.
proof fn lemma_kept_records_all_kept(records: Seq<ChunkRecord>, threshold: i64)
    requires
        forall|j: int|
            0 <= j < records.len() ==> (#[trigger] records[j]).distance_to_nearest_site
                <= threshold,
    ensures
        spec_kept_records(records, threshold) == records,
    decreases records.len(),
{
    if records.len() > 0 {
        assert forall|j: int|
            0 <= j < records.drop_last().len() implies (
        #[trigger] records.drop_last()[j]).distance_to_nearest_site <= threshold by {
            assert(records.drop_last()[j] == records[j]);
        }
        lemma_kept_records_all_kept(records.drop_last(), threshold);
        assert(records[records.len() - 1].distance_to_nearest_site <= threshold);
        assert(records.drop_last() + seq![records.last()] =~= records);
    } else {
        assert(spec_kept_records(records, threshold) =~= records);
    }
}

/// Removing a record past the threshold does not change the survivor
/// list.
proof fn lemma_kept_records_remove(records: Seq<ChunkRecord>, threshold: i64, j: int)
    requires
        0 <= j < records.len(),
        records[j].distance_to_nearest_site > threshold,
    ensures
        spec_kept_records(records.remove(j), threshold) == spec_kept_records(records, threshold),
    decreases records.len(),
{
    if j == records.len() - 1 {
        assert(records.remove(j) =~= records.drop_last());
    } else {
        let shorter = records.remove(j);
        assert(shorter.len() == records.len() - 1);
        assert(shorter.last() == records.last());
        assert(shorter.drop_last() =~= records.drop_last().remove(j));
        lemma_kept_records_remove(records.drop_last(), threshold, j);
    }
}

impl StreamingController {
    /// Whether a record is past the despawn threshold.
    pub open spec fn spec_should_despawn(self, r: ChunkRecord) -> bool {
        r.distance_to_nearest_site > self.min_despawn_distance
    }

    /// Position of a record past the despawn threshold, if any.
    #[verifier::loop_isolation(false)]
    fn find_despawnable(&self) -> (found: Option<usize>)
        ensures
            found is Some ==> found->0 < self.records@.len() && self.spec_should_despawn(
                self.records@[found->0 as int],
            ),
            found is None ==> forall|j: int|
                0 <= j < self.records@.len() ==> !self.spec_should_despawn(
                    #[trigger] self.records@[j],
                ),
    {
        let mut j: usize = 0;
        while j < self.records.len()
            invariant
                0 <= j <= self.records@.len(),
                forall|k: int|
                    0 <= k < j ==> !self.spec_should_despawn(#[trigger] self.records@[k]),
            decreases self.records@.len() - j,
        {
            if self.records[j].distance_to_nearest_site > self.min_despawn_distance {
                return Some(j);
            }
            j = j + 1;
        }
        None
    }

    /// Despawn pass, gated by a periodic timer.  Elapsed milliseconds
    /// accumulate; when they reach the interval, every record whose
    /// distance exceeds the threshold is removed — from the record
    /// list and from the tracker — and the timer resets.  In-flight
    /// work for removed chunks is implicitly discarded: later
    /// completions find no record and are rejected.  Returns the
    /// despawned identifiers.
    #[verifier::loop_isolation(false)]
    pub fn despawn_pass(&mut self, dt_ms: u64) -> (despawned: Vec<ChunkId>)
        requires
            old(self).wf(),
            dt_ms <= 0x8000_0000_0000_0000,
        ensures
            final(self).wf(),
            final(self).same_config(*old(self)),
            final(self).sites@ == old(self).sites@,
            old(self).despawn_timer_ms + dt_ms < old(self).despawn_interval_ms ==> {
                &&& final(self).despawn_timer_ms == old(self).despawn_timer_ms + dt_ms
                &&& final(self).records@ == old(self).records@
                &&& final(self).tracker.loaded_chunks@ == old(self).tracker.loaded_chunks@
                &&& despawned@.len() == 0
            },
            old(self).despawn_timer_ms + dt_ms >= old(self).despawn_interval_ms ==> {
                &&& final(self).despawn_timer_ms == 0
                &&& final(self).records@ == spec_kept_records(
                    old(self).records@,
                    old(self).min_despawn_distance,
                )
                &&& forall|j: int|
                    0 <= j < final(self).records@.len() ==> !final(self).spec_should_despawn(
                        #[trigger] final(self).records@[j],
                    )
                &&& forall|k: int|
                    0 <= k < despawned@.len() ==> old(self).tracker.spec_contains(
                        #[trigger] despawned@[k],
                    ) && !final(self).tracker.spec_contains(despawned@[k])
                &&& forall|c: ChunkId|
                    #[trigger] final(self).tracker.spec_contains(c) ==> old(
                        self,
                    ).tracker.spec_contains(c)
            },
    {
        let ghost init = *self;
        let new_timer = self.despawn_timer_ms + dt_ms;
        if new_timer < self.despawn_interval_ms {
            self.despawn_timer_ms = new_timer;
            return Vec::new();
        }
        self.despawn_timer_ms = 0;
        let mut despawned: Vec<ChunkId> = Vec::new();
        loop
            invariant
                self.wf(),
                self.layout == init.layout,
                self.sites@ == init.sites@,
                self.streaming_radius == init.streaming_radius,
                self.min_despawn_distance == init.min_despawn_distance,
                self.despawn_interval_ms == init.despawn_interval_ms,
                self.despawn_timer_ms == 0,
                forall|c: ChunkId|
                    #[trigger] self.tracker.spec_contains(c) ==> init.tracker.spec_contains(c),
                forall|k: int|
                    0 <= k < despawned@.len() ==> init.tracker.spec_contains(
                        #[trigger] despawned@[k],
                    ) && !self.tracker.spec_contains(despawned@[k]),
                spec_kept_records(self.records@, self.min_despawn_distance) == spec_kept_records(
                    init.records@,
                    init.min_despawn_distance,
                ),
            decreases self.records@.len(),
        {
            let found = self.find_despawnable();
            let j = match found {
                Some(j) => j,
                None => {
                    break ;
                },
            };
            let ghost prev = *self;
            let rec = self.records.remove(j);
            let _removed = self.tracker.try_despawn(rec.id);
            let ghost prev_despawned = despawned@;
            despawned.push(rec.id);
            proof {
                let after = self.records@;
                let before = prev.records@;
                assert(after == before.remove(j as int));
                assert(before[j as int].distance_to_nearest_site > self.min_despawn_distance);
                lemma_kept_records_remove(before, self.min_despawn_distance, j as int);
                assert forall|a: int|
                    0 <= a < after.len() implies after[a] == (if a < j as int {
                        before[a]
                    } else {
                        before[a + 1]
                    }) by {}
                assert forall|a: int, b: int|
                    0 <= a < b < after.len() implies after[a].id != after[b].id by {
                    let pa: int = if a < j as int { a } else { a + 1 };
                    let pb: int = if b < j as int { b } else { b + 1 };
                    assert(after[a] == before[pa] && after[b] == before[pb]);
                    assert(0 <= pa && pa < pb && pb < before.len());
                }
                assert(rec == before[j as int]);
                assert forall|c: ChunkId| #[trigger]
                    self.tracker.spec_contains(c) <==> self.spec_has_record(c) by {
                    if self.tracker.spec_contains(c) {
                        assert(prev.tracker.spec_contains(c) && c != rec.id);
                        let i = choose|i: int| 0 <= i < before.len() && before[i].id == c;
                        assert(i != j as int);
                        if i < j as int {
                            assert(after[i].id == c);
                        } else {
                            assert(after[i - 1].id == c);
                        }
                    }
                    if self.spec_has_record(c) {
                        let a = choose|a: int| 0 <= a < after.len() && after[a].id == c;
                        let pa: int = if a < j as int { a } else { a + 1 };
                        assert(before[pa].id == c);
                        assert(prev.tracker.spec_contains(c));
                        assert(pa != j as int);
                        assert(before[pa].id != before[j as int].id);
                    }
                }
                assert(init.tracker.spec_contains(rec.id)) by {
                    assert(prev.tracker.spec_contains(rec.id)) by {
                        assert(before[j as int].id == rec.id);
                    }
                }
                assert(despawned@[despawned@.len() - 1] == rec.id);
                assert forall|k: int|
                    0 <= k < despawned@.len() implies init.tracker.spec_contains(
                    #[trigger] despawned@[k]) && !self.tracker.spec_contains(despawned@[k]) by {
                    if k < prev_despawned.len() {
                        assert(despawned@[k] == prev_despawned[k]);
                    } else {
                        assert(despawned@[k] == rec.id);
                        assert(!self.tracker.spec_contains(rec.id));
                    }
                }
            }
        }
        proof {
            lemma_kept_records_all_kept(self.records@, self.min_despawn_distance);
        }
        despawned
    }
}

} // verus!
