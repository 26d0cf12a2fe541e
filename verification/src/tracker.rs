//! Membership oracle for loaded chunks.
//!
//! The tracker owns the set of currently loaded chunk identifiers and
//! nothing else: no distance or lifecycle logic.  `try_spawn` and
//! `try_despawn` are idempotent, so "spawn chunk" side effects can run
//! exactly once per identifier even across repeated requests.

use vstd::prelude::*;
use crate::square::ChunkId;

verus! {

/// The set of currently loaded chunks, as a duplicate-free vector.
pub struct ChunkTracker {
    pub loaded_chunks: Vec<ChunkId>,
}

impl ChunkTracker {
    /// No chunk identifier is listed twice.
    pub open spec fn wf(self) -> bool {
        forall|i: int, j: int|
            0 <= i < j < self.loaded_chunks@.len() ==> self.loaded_chunks@[i]
                != self.loaded_chunks@[j]
    }

    /// Whether a chunk is currently loaded.
    pub open spec fn spec_contains(self, chunk: ChunkId) -> bool {
        self.loaded_chunks@.contains(chunk)
    }

    pub fn new() -> (t: Self)
        ensures
            t.wf(),
            forall|c: ChunkId| !t.spec_contains(c),
            t.loaded_chunks@.len() == 0,
    {
        ChunkTracker { loaded_chunks: Vec::new() }
    }

    /// Whether `chunk` is currently loaded.
    #[verifier::loop_isolation(false)]
    pub fn contains(&self, chunk: &ChunkId) -> (r: bool)
        ensures
            r == self.spec_contains(*chunk),
    {
        let mut i: usize = 0;
        while i < self.loaded_chunks.len()
            invariant
                0 <= i <= self.loaded_chunks@.len(),
                forall|j: int| 0 <= j < i ==> self.loaded_chunks@[j] != *chunk,
            decreases self.loaded_chunks@.len() - i,
        {
            if self.loaded_chunks[i] == *chunk {
                return true;
            }
            i = i + 1;
        }
        false
    }

    /// Marks a chunk loaded.  Returns true only if it was absent before
    /// the call; a chunk that is already loaded is left untouched and
    /// reported as not newly spawned.
    pub fn try_spawn(&mut self, chunk: ChunkId) -> (spawned: bool)
        requires
            old(self).wf(),
        ensures
            final(self).wf(),
            spawned == !old(self).spec_contains(chunk),
            final(self).spec_contains(chunk),
            forall|c: ChunkId|
                #[trigger] final(self).spec_contains(c) <==> old(self).spec_contains(c) || c
                    == chunk,
            !spawned ==> final(self).loaded_chunks@ == old(self).loaded_chunks@,
            spawned ==> final(self).loaded_chunks@ == old(self).loaded_chunks@.push(chunk),
    {
        if self.contains(&chunk) {
            false
        } else {
            self.loaded_chunks.push(chunk);
            proof {
                let prev = old(self).loaded_chunks@;
                let now = self.loaded_chunks@;
                assert(now[prev.len() as int] == chunk);
                assert forall|c: ChunkId| #[trigger]
                    self.spec_contains(c) <==> old(self).spec_contains(c) || c == chunk by {
                    assert(now[prev.len() as int] == chunk);
                    if old(self).spec_contains(c) {
                        let i = choose|i: int| 0 <= i < prev.len() && prev[i] == c;
                        assert(now[i] == c);
                    }
                    if self.spec_contains(c) && c != chunk {
                        let i = choose|i: int| 0 <= i < now.len() && now[i] == c;
                        assert(i < prev.len());
                        assert(prev[i] == c);
                    }
                }
            }
            true
        }
    }

    /// Removes a chunk from the loaded set.  Returns true only if it
    /// was present; removing an absent chunk is a no-op.
    #[verifier::loop_isolation(false)]
    pub fn try_despawn(&mut self, chunk: ChunkId) -> (removed: bool)
        requires
            old(self).wf(),
        ensures
            final(self).wf(),
            removed == old(self).spec_contains(chunk),
            !final(self).spec_contains(chunk),
            forall|c: ChunkId|
                #[trigger] final(self).spec_contains(c) <==> old(self).spec_contains(c) && c
                    != chunk,
            !removed ==> final(self).loaded_chunks@ == old(self).loaded_chunks@,
    {
        let ghost prev = self.loaded_chunks@;
        let mut i: usize = 0;
        while i < self.loaded_chunks.len()
            invariant
                self.loaded_chunks@ == prev,
                0 <= i <= prev.len(),
                forall|j: int| 0 <= j < i ==> prev[j] != chunk,
            decreases prev.len() - i,
        {
            if self.loaded_chunks[i] == chunk {
                self.loaded_chunks.remove(i);
                proof {
                    let after = self.loaded_chunks@;
                    assert(after =~= prev.subrange(0, i as int) + prev.subrange(
                        i as int + 1,
                        prev.len() as int,
                    ));
                    assert forall|a: int|
                        0 <= a < after.len() implies after[a] == (if a < i {
                            prev[a]
                        } else {
                            prev[a + 1]
                        }) by {}
                    assert(after.len() == prev.len() - 1);
                    assert forall|a: int, b: int|
                        0 <= a < b < after.len() implies after[a] != after[b] by {
                        let pa: int = if a < i as int { a } else { a + 1 };
                        let pb: int = if b < i as int { b } else { b + 1 };
                        assert(after[a] == prev[pa] && after[b] == prev[pb]);
                        assert(0 <= pa && pa < pb && pb < prev.len());
                        assert(old(self).loaded_chunks@[pa] != old(self).loaded_chunks@[pb]);
                    }
                    assert forall|c: ChunkId| #[trigger]
                        self.spec_contains(c) <==> old(self).spec_contains(c) && c != chunk by {
                        if self.spec_contains(c) {
                            let a = choose|a: int| 0 <= a < after.len() && after[a] == c;
                            let pa: int = if a < i as int { a } else { a + 1 };
                            assert(prev[pa] == c);
                            assert(c != chunk);
                        }
                        if old(self).spec_contains(c) && c != chunk {
                            let pa = choose|pa: int| 0 <= pa < prev.len() && prev[pa] == c;
                            if pa < i {
                                assert(after[pa] == c);
                            } else {
                                assert(pa != i);
                                assert(after[pa - 1] == c);
                            }
                        }
                    }
                    assert(!self.spec_contains(chunk));
                }
                return true;
            }
            i = i + 1;
        }
        proof {
            assert(!old(self).spec_contains(chunk));
        }
        false
    }
}

/// Spawning reports a fresh spawn exactly once per identifier: after a
/// successful `try_spawn(id)` the tracker contains `id`, so by the
/// contract of `try_spawn` every further spawn of `id` reports false
/// and leaves the tracker unchanged, until a `try_despawn(id)` succeeds
/// and removes `id`, after which one spawn succeeds again.
pub proof fn lemma_spawn_once(before_spawn: ChunkTracker, after_spawn: ChunkTracker, id: ChunkId)
    requires
        !before_spawn.spec_contains(id),
        forall|c: ChunkId|
            #[trigger] after_spawn.spec_contains(c) <==> before_spawn.spec_contains(c) || c == id,
    ensures
        after_spawn.spec_contains(id),
{
}

/// Despawning re-arms spawning: once a successful `try_despawn(id)` has
/// removed `id`, the next `try_spawn(id)` succeeds again.
pub proof fn lemma_despawn_rearms_spawn(
    after_spawn: ChunkTracker,
    after_despawn: ChunkTracker,
    id: ChunkId,
)
    requires
        after_spawn.spec_contains(id),
        forall|c: ChunkId|
            #[trigger] after_despawn.spec_contains(c) <==> after_spawn.spec_contains(c) && c != id,
    ensures
        !after_despawn.spec_contains(id),
{
}

} // verus!
