//! The tuner beside the cache that it fills, on the allocation clock: how
//! many fetches a workload can cost.
//!
//! The cache is taken to do what a bin does with the blocks of the
//! reserve: a fetch of some amount puts that many blocks into it, every
//! allocation takes one block out of it while it holds one, and a free
//! leaves it as it is. The tuner sees of it only whether it has run dry.
//!
//! Beside such a cache the fetches keep to the schedule of one fetch to
//! `target_apf` allocations, up to a lead that does not grow with the
//! workload: `target_apf` times the fetches is at most the time, the length
//! of a burst and `target_apf` together. A fetch that comes before its time
//! asks for the blocks that the time left until then needs; only a window
//! that the reuse table still holds can ask for fewer, and no table is
//! longer than a burst.

use crate::apf::reuse::{reuse_table_of, table_entry};
use crate::apf::reuse_counter::ReuseView;
use crate::apf::trace::{alloc_count, Event};
use crate::apf::tuner::TunerView;
use crate::ratio::{ceil_div, clamp_to_usize};
use vstd::prelude::*;

verus! {

/// The most allocations that a burst of `reuse` holds when every
/// allocation is followed by a tick: the length of a burst, and one where
/// that is zero.
pub open spec fn burst_bound(reuse: ReuseView) -> nat {
    if reuse.burst_length == 0 {
        1
    } else {
        reuse.burst_length
    }
}

/// The reuse counter of a tuner: no allocation of the burst has gone
/// without its tick, the ticks are counted below the length of a burst,
/// and the table is no longer than a burst.
pub open spec fn reuse_in_step(reuse: ReuseView) -> bool {
    &&& reuse.trace matches Some(events) ==> alloc_count(events) <= reuse.n && (reuse.n == 0
        || reuse.n < reuse.burst_length)
    &&& reuse.table matches Some(numerators) ==> numerators.len() <= burst_bound(reuse)
}

/// A tuner and the number of blocks in the cache that it fills.
pub struct Cached {
    pub tuner: TunerView,
    pub blocks: nat,
}

impl Cached {
    /// What `check` answers: zero exactly where the cache has run dry.
    pub open spec fn answer(self) -> u32 {
        if self.blocks > u32::MAX {
            u32::MAX
        } else {
            self.blocks as u32
        }
    }

    /// The tuner and the cache after an allocation of `slot`: the tuner
    /// counts it and fetches if the cache has run dry and there is a
    /// demand to go by; what is fetched joins the cache; and the allocation
    /// takes one block out of the cache if it holds one.
    pub open spec fn after_malloc(self, slot: usize) -> Cached {
        let fetched: nat = if self.blocks == 0 {
            match self.tuner.after_malloc(slot).fetch_amount() {
                Some(amount) => amount as nat,
                None => 0,
            }
        } else {
            0
        };
        let stocked = self.blocks + fetched;
        Cached {
            tuner: self.tuner.malloc_outcome(slot, self.answer()).0,
            blocks: if stocked == 0 {
                0
            } else {
                (stocked - 1) as nat
            },
        }
    }

    /// The tuner and the cache after a free of `slot`: the tuner counts
    /// it, and the cache stays as it is.
    pub open spec fn after_free(self, slot: usize) -> Cached {
        Cached { tuner: self.tuner.after_free(slot), blocks: self.blocks }
    }

    /// The tuner and the cache after `event`.
    pub open spec fn after(self, event: Event) -> Cached {
        match event {
            Event::Alloc(slot) => self.after_malloc(slot),
            Event::Free(slot) => self.after_free(slot),
        }
    }

    /// The tuner and the cache after the workload `events`.
    pub open spec fn run(self, events: Seq<Event>) -> Cached
        decreases events.len(),
    {
        if events.len() == 0 {
            self
        } else {
            self.run(events.drop_last()).after(events.last())
        }
    }

    /// The fetches keep to the schedule. Time is counted in allocations.
    /// `target_apf` times the fetches is at most the time, the blocks in
    /// the cache and the length of a burst together, and at most the time,
    /// the length of a burst and `target_apf` together.
    pub open spec fn steady(self) -> bool {
        let tuner = self.tuner;
        &&& tuner.allocation_clock
        &&& reuse_in_step(tuner.reuse)
        &&& tuner.target_apf * tuner.fetch_count <= tuner.time + self.blocks + burst_bound(
            tuner.reuse,
        )
        &&& tuner.target_apf * tuner.fetch_count <= tuner.time + burst_bound(tuner.reuse)
            + tuner.target_apf
    }
}

/// The reuse counter of a tuner stays in step over an allocation and its
/// tick.
proof fn lemma_in_step_after_alloc(reuse: ReuseView, slot: usize)
    requires
        reuse_in_step(reuse),
    ensures
        reuse_in_step(reuse.after_event(Event::Alloc(slot)).after_tick()),
        burst_bound(reuse.after_event(Event::Alloc(slot)).after_tick()) == burst_bound(reuse),
{
    if let Some(events) = reuse.trace {
        let longer = events.push(Event::Alloc(slot));
        assert(longer.drop_last() =~= events);
        assert(alloc_count(longer) == alloc_count(events) + 1);
        assert(reuse_table_of(longer).len() == alloc_count(longer));
    }
}

/// The reuse counter of a tuner stays in step over a free.
proof fn lemma_in_step_after_free(reuse: ReuseView, slot: usize)
    requires
        reuse_in_step(reuse),
    ensures
        reuse_in_step(reuse.after_event(Event::Free(slot))),
        burst_bound(reuse.after_event(Event::Free(slot))) == burst_bound(reuse),
{
    if let Some(events) = reuse.trace {
        let longer = events.push(Event::Free(slot));
        assert(longer.drop_last() =~= events);
        assert(alloc_count(longer) == alloc_count(events));
    }
}

/// A fetch over a window that the reuse table does not hold asks for as
/// many blocks as the window is long.
proof fn lemma_fetch_beyond_table(tuner: TunerView)
    requires
        tuner.allocation_clock,
        tuner.reuse.table matches Some(numerators) && numerators.len() < tuner.dapf(),
        tuner.dapf() <= tuner.time <= usize::MAX,
    ensures
        tuner.fetch_amount() == Some(tuner.dapf() as usize),
{
    let k = tuner.dapf();
    let numerators = tuner.reuse.table->0;
    assert(table_entry(numerators, k) == (0int, 1int));
    assert(tuner.reuse.reuse(k) == Some((0int, 1int)));
    assert(k * 1 - 0 == k);
    assert(tuner.demand(k) == Some((k, 1int)));
    assert(k % 1 == 0 && k / 1 == k);
    assert(ceil_div(k, 1) == k);
    assert(clamp_to_usize(k) == k as usize);
}

/// An allocation keeps the fetches to the schedule.
pub proof fn lemma_steady_after_malloc(state: Cached, slot: usize)
    requires
        state.steady(),
        state.tuner.time < usize::MAX,
    ensures
        state.after_malloc(slot).steady(),
        state.after_malloc(slot).tuner.time == state.tuner.time + 1,
        state.after_malloc(slot).tuner.target_apf == state.tuner.target_apf,
        burst_bound(state.after_malloc(slot).tuner.reuse) == burst_bound(state.tuner.reuse),
{
    let before = state.tuner;
    let counted = before.after_malloc(slot);
    let after = state.after_malloc(slot);
    let target = before.target_apf as int;
    let fetches = before.fetch_count as int;
    let bound = burst_bound(before.reuse);
    lemma_in_step_after_alloc(before.reuse, slot);
    assert(counted.reuse == before.reuse.after_event(Event::Alloc(slot)).after_tick());
    assert(target * (fetches + 1) == target * fetches + target) by (nonlinear_arith);
    if state.blocks == 0 && counted.fetch_amount() is Some {
        assert(state.answer() == 0);
        assert(after.tuner == counted.after_fetch());
        assert(counted.demand(counted.dapf()) is Some);
        assert(counted.dapf() <= counted.time);
        if counted.time >= target * (fetches + 1) {
        } else {
            let window = counted.dapf();
            assert(window == target * (fetches + 1) - counted.time);
            if window > bound {
                assert(counted.reuse.table is Some);
                lemma_fetch_beyond_table(counted);
                assert(after.blocks == window - 1);
            }
        }
    } else if state.blocks == 0 {
        assert(state.answer() == 0);
        assert(after.tuner == counted);
    } else {
        assert(state.answer() != 0);
        assert(after.tuner == counted);
    }
}

/// A free keeps the fetches to the schedule.
pub proof fn lemma_steady_after_free(state: Cached, slot: usize)
    requires
        state.steady(),
    ensures
        state.after_free(slot).steady(),
        state.after_free(slot).tuner.time == state.tuner.time,
        state.after_free(slot).tuner.target_apf == state.tuner.target_apf,
        burst_bound(state.after_free(slot).tuner.reuse) == burst_bound(state.tuner.reuse),
{
    lemma_in_step_after_free(state.tuner.reuse, slot);
}

/// A workload keeps the fetches to the schedule, and its allocations are
/// the time that it takes.
pub proof fn lemma_steady_after_run(state: Cached, events: Seq<Event>)
    requires
        state.steady(),
        state.tuner.time + alloc_count(events) <= usize::MAX,
    ensures
        state.run(events).steady(),
        state.run(events).tuner.time == state.tuner.time + alloc_count(events),
        state.run(events).tuner.target_apf == state.tuner.target_apf,
        burst_bound(state.run(events).tuner.reuse) == burst_bound(state.tuner.reuse),
    decreases events.len(),
{
    if events.len() > 0 {
        lemma_steady_after_run(state, events.drop_last());
        let earlier = state.run(events.drop_last());
        match events.last() {
            Event::Alloc(slot) => {
                lemma_steady_after_malloc(earlier, slot);
            },
            Event::Free(slot) => {
                lemma_steady_after_free(earlier, slot);
            },
        }
    }
}

/// A new tuner on the allocation clock beside an empty cache, whatever
/// workload of malloc and free it is then given: `target_apf` times the
/// fetches is at most the allocations, the length of a burst and
/// `target_apf` together. So a workload of `periods * target_apf`
/// allocations, with frees wherever, costs at most `periods` fetches and as
/// many more as a burst and one period hold of `target_apf`: a number that
/// does not grow with the workload.
pub proof fn lemma_fetches_beside_cache(
    id: usize,
    target_apf: nat,
    burst_length: nat,
    hibernation_period: nat,
    use_record: bool,
    events: Seq<Event>,
)
    requires
        alloc_count(events) <= usize::MAX,
    ensures
        ({
            let start = Cached {
                tuner: TunerView::initial(
                    id,
                    target_apf,
                    burst_length,
                    hibernation_period,
                    true,
                    use_record,
                ),
                blocks: 0,
            };
            let end = start.run(events);
            &&& end.tuner.time == alloc_count(events)
            &&& target_apf * end.tuner.fetch_count <= alloc_count(events) + (if burst_length
                == 0 {
                1
            } else {
                burst_length
            }) + target_apf
        }),
{
    let start = Cached {
        tuner: TunerView::initial(id, target_apf, burst_length, hibernation_period, true, use_record),
        blocks: 0,
    };
    assert(alloc_count(Seq::<Event>::empty()) == 0);
    assert(target_apf * 0 == 0) by (nonlinear_arith);
    assert(start.steady());
    lemma_steady_after_run(start, events);
}

} // verus!
