//! Counters by timestep.

use std::collections::HashMap;
use vstd::prelude::*;

verus! {

/// A count for each timestep that was ever added to. A timestep that was
/// never added to counts zero. No timestep is ever removed.
pub struct Histogram {
    counts: HashMap<u64, u64>,
}

impl View for Histogram {
    type V = Map<u64, u64>;

    closed spec fn view(&self) -> Map<u64, u64> {
        self.counts@
    }
}

impl Histogram {
    /// The count at `timestep`.
    pub open spec fn count_at(&self, timestep: u64) -> u64 {
        if self@.contains_key(timestep) {
            self@[timestep]
        } else {
            0
        }
    }

    /// A histogram without timesteps.
    pub fn new() -> (histogram: Histogram)
        ensures
            histogram@ == Map::<u64, u64>::empty(),
    {
        Histogram { counts: HashMap::new() }
    }

    /// Adds one at `timestep`.
    pub fn increment(&mut self, timestep: u64)
        requires
            old(self).count_at(timestep) < u64::MAX,
        ensures
            final(self)@ == old(self)@.insert(
                timestep,
                (old(self).count_at(timestep) + 1) as u64,
            ),
    {
        self.add(timestep, 1);
    }

    /// Adds `value` at `timestep`, which from then on is a timestep of the
    /// histogram.
    pub fn add(&mut self, timestep: u64, value: u64)
        requires
            old(self).count_at(timestep) + value <= u64::MAX,
        ensures
            final(self)@ == old(self)@.insert(
                timestep,
                (old(self).count_at(timestep) + value) as u64,
            ),
    {
        broadcast use vstd::std_specs::hash::group_hash_axioms;

        let count = self.get(timestep);
        self.counts.insert(timestep, count + value);
    }

    /// The count at `timestep`.
    pub fn get(&self, timestep: u64) -> (count: u64)
        ensures
            count == self.count_at(timestep),
    {
        broadcast use vstd::std_specs::hash::group_hash_axioms;

        match self.counts.get(&timestep) {
            Some(count) => *count,
            None => 0,
        }
    }
}

} // verus!
