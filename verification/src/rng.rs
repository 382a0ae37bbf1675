//! Deterministic random numbers for one simulation: a ChaCha8 generator
//! seeded from a number, a count of draws, and snapshots to replay a
//! stretch of draws. The draws themselves produce floating-point numbers
//! and are made by the caller on the generator `draw_source` hands out,
//! which counts each of them.
use vstd::prelude::*;
use rand_chacha::ChaCha8Rng;
use rand_chacha::rand_core::SeedableRng;

verus! {

#[verifier::external_type_specification]
#[verifier::external_body]
pub struct ExChaCha8Rng(ChaCha8Rng);

/// The generator `<ChaCha8Rng as SeedableRng>::seed_from_u64` makes from
/// a seed.
pub uninterp spec fn seeded_rng(seed: u64) -> ChaCha8Rng;

/// Wraps `<ChaCha8Rng as SeedableRng>::seed_from_u64`. Its state is opaque
/// here; the source makes it a function of the seed alone (the seed is
/// expanded by a fixed PCG32 sequence into the key that `from_seed` takes),
/// which is what naming it `seeded_rng(seed)` claims.
#[verifier::external_body]
fn seeded_generator(seed: u64) -> (r: ChaCha8Rng)
    ensures
        r == seeded_rng(seed),
{
    ChaCha8Rng::seed_from_u64(seed)
}

/// Specifies `<ChaCha8Rng as Clone>::clone`, which the crate derives on
/// plain data: the copy has the same state as the original.
pub assume_specification[ <ChaCha8Rng as Clone>::clone ](rng: &ChaCha8Rng) -> (r: ChaCha8Rng)
    ensures
        r == *rng,
;

/// The generator state and draw count at one point in time.
#[derive(Debug, Clone)]
pub struct RngSnapshot {
    rng: ChaCha8Rng,
    call_count: u64,
}

/// Deterministic random number manager. Each simulation should use its
/// own manager seeded with `base_seed + sim_index`.
#[derive(Debug, Clone)]
pub struct RNGManager {
    rng: ChaCha8Rng,
    seed: u64,
    call_count: u64,
}

impl RNGManager {
    /// The seed the manager was created with.
    pub closed spec fn seed_of(&self) -> u64 {
        self.seed
    }

    /// The generator state.
    pub closed spec fn generator(&self) -> ChaCha8Rng {
        self.rng
    }

    /// How many draws have been made.
    pub closed spec fn calls(&self) -> u64 {
        self.call_count
    }

    /// The generator state and draw count a snapshot holds.
    pub closed spec fn snapshot_state(s: RngSnapshot) -> (ChaCha8Rng, u64) {
        (s.rng, s.call_count)
    }

    /// A manager seeded with `seed`, with no draw made; its generator is
    /// the one the seed determines.
    pub fn new(seed: u64) -> (r: Self)
        ensures
            r.seed_of() == seed,
            r.generator() == seeded_rng(seed),
            r.calls() == 0,
    {
        RNGManager { rng: seeded_generator(seed), seed, call_count: 0 }
    }

    /// The generator for one draw: the draw is counted, and the generator
    /// handed out is the manager's own, so the draw advances it.
    pub fn draw_source(&mut self) -> (g: &mut ChaCha8Rng)
        requires
            old(self).calls() < u64::MAX,
        ensures
            *g == old(self).generator(),
            final(self).generator() == *final(g),
            final(self).calls() == old(self).calls() + 1,
            final(self).seed_of() == old(self).seed_of(),
    {
        self.call_count = self.call_count + 1;
        &mut self.rng
    }

    /// The current generator state and draw count.
    pub fn snapshot(&self) -> (s: RngSnapshot)
        ensures
            RNGManager::snapshot_state(s) == (self.generator(), self.calls()),
    {
        RngSnapshot { rng: self.rng.clone(), call_count: self.call_count }
    }

    /// Go back to the generator state and draw count of a snapshot.
    pub fn restore(&mut self, snapshot: RngSnapshot)
        ensures
            (final(self).generator(), final(self).calls()) == RNGManager::snapshot_state(snapshot),
            final(self).seed_of() == old(self).seed_of(),
    {
        self.rng = snapshot.rng;
        self.call_count = snapshot.call_count;
    }

    /// The seed the manager was created with.
    pub fn seed(&self) -> (r: u64)
        ensures
            r == self.seed_of(),
    {
        self.seed
    }

    /// How many draws have been made.
    pub fn call_count(&self) -> (r: u64)
        ensures
            r == self.calls(),
    {
        self.call_count
    }
}

/// Law: managers made with the same seed start with the same generator,
/// so they make the same draws.
pub proof fn lemma_same_seed_same_generator(a: RNGManager, b: RNGManager, seed: u64)
    requires
        a.generator() == seeded_rng(seed),
        b.generator() == seeded_rng(seed),
    ensures
        a.generator() == b.generator(),
{
}

/// Law: restoring a snapshot taken of a manager gives back that manager's
/// generator state and draw count, whatever happened in between; the seed
/// never changes.
pub proof fn lemma_restore_replays(at_snapshot: RNGManager, snap: RngSnapshot, restored: RNGManager)
    requires
        RNGManager::snapshot_state(snap) == (at_snapshot.generator(), at_snapshot.calls()),
        (restored.generator(), restored.calls()) == RNGManager::snapshot_state(snap),
    ensures
        restored.generator() == at_snapshot.generator(),
        restored.calls() == at_snapshot.calls(),
{
}

} // verus!
