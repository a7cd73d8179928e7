//! Setting up a group of workers with consecutive seeds.

use crate::frequency::calculate_byte_frequencies;
use crate::sampler::SearchError;
use crate::worker::{SearchWorker, WorkerState};
use vstd::prelude::*;

verus! {

/// The seed of worker `i` of a group whose base seed is `base`: `base + i`,
/// wrapping around at 2^64.
pub open spec fn seed_for(base: u64, i: int) -> u64 {
    ((base as int + i) % 0x1_0000_0000_0000_0000int) as u64
}

/// The seeds `base, base + 1, ..., base + count - 1`, wrapping around at 2^64.
pub fn worker_seeds(base: u64, count: usize) -> (r: Vec<u64>)
    ensures
        r@.len() == count,
        forall|i: int| 0 <= i < count ==> r@[i] == seed_for(base, i),
{
    let mut seeds: Vec<u64> = Vec::new();
    let mut seed: u64 = base;
    let mut i: usize = 0;
    while i < count
        invariant
            i <= count,
            seeds@.len() == i,
            seed == seed_for(base, i as int),
            forall|j: int| 0 <= j < i ==> seeds@[j] == seed_for(base, j),
        decreases count - i,
    {
        seeds.push(seed);
        seed = if seed == u64::MAX {
            0
        } else {
            seed + 1
        };
        i = i + 1;
    }
    seeds
}

/// Builds the frequency model of `target` once and makes `count` running
/// workers from it, worker `i` seeded with `seed_for(base_seed, i)`.
///
/// An empty target has no distribution to draw from: then no worker is made
/// and the result is `ConfigurationError`, whatever `count` is.
pub fn prepare_workers(target: &Vec<u8>, base_seed: u64, count: usize) -> (r: Result<
    Vec<SearchWorker>,
    SearchError,
>)
    ensures
        r is Err <==> target@.len() == 0,
        r matches Err(e) ==> e == SearchError::ConfigurationError,
        r matches Ok(ws) ==> {
            &&& ws@.len() == count
            &&& forall|i: int|
                0 <= i < count ==> {
                    &&& (#[trigger] ws@[i]).wf()
                    &&& ws@[i].target_view() == target@
                    &&& ws@[i].seed_view() == seed_for(base_seed, i)
                    &&& ws@[i].history() == Seq::<u8>::empty()
                    &&& ws@[i].state_view() == WorkerState::Running
                }
        },
{
    let model = calculate_byte_frequencies(target.as_slice());
    if model.symbols().len() == 0 {
        return Err(SearchError::ConfigurationError);
    }
    let seeds = worker_seeds(base_seed, count);
    let mut workers: Vec<SearchWorker> = Vec::new();
    let mut i: usize = 0;
    while i < count
        invariant
            i <= count,
            seeds@.len() == count,
            forall|j: int| 0 <= j < count ==> seeds@[j] == seed_for(base_seed, j),
            model.wf(),
            model.source() == target@,
            target@.len() > 0,
            workers@.len() == i,
            forall|j: int|
                0 <= j < i ==> {
                    &&& (#[trigger] workers@[j]).wf()
                    &&& workers@[j].target_view() == target@
                    &&& workers@[j].seed_view() == seed_for(base_seed, j)
                    &&& workers@[j].history() == Seq::<u8>::empty()
                    &&& workers@[j].state_view() == WorkerState::Running
                },
        decreases count - i,
    {
        match SearchWorker::new(target, &model, seeds[i]) {
            Err(e) => {
                return Err(e);
            },
            Ok(w) => {
                workers.push(w);
            },
        }
        i = i + 1;
    }
    Ok(workers)
}

} // verus!
