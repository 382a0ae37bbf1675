//! Planning a batch of independent simulations: the seed of each run and
//! when progress is reported.
use vstd::prelude::*;

verus! {

/// The seed of run `sim_index` of a batch: the base seed plus the index,
/// wrapping around.
pub fn sim_seed(base_seed: u64, sim_index: usize) -> (r: u64)
    ensures
        r == (base_seed + sim_index) % 0x1_0000_0000_0000_0000,
{
    base_seed.wrapping_add(sim_index as u64)
}

/// Progress is reported every this many finished runs: one hundredth of
/// the batch, rounded up, and at least one.
pub fn progress_step(sim_count: usize) -> (r: usize)
    ensures
        r >= 1,
        sim_count > 0 ==> r * 100 >= sim_count && (r - 1) * 100 < sim_count,
        sim_count == 0 ==> r == 1,
{
    let q = sim_count / 100;
    let r = if sim_count % 100 == 0 { q } else { q + 1 };
    if r == 0 { 1 } else { r }
}

/// Whether progress is reported after `completed` of `sim_count` runs:
/// at every step, and when the batch is done.
pub fn should_report(completed: usize, step: usize, sim_count: usize) -> (r: bool)
    requires
        step >= 1,
    ensures
        r == (completed % step == 0 || completed == sim_count),
{
    completed % step == 0 || completed == sim_count
}

} // verus!
