//! The events of one sampling burst, in the order in which they came, and
//! what is read off them afterwards: how many allocations there were, and
//! over which stretch of them each freed slot was held.

use std::collections::HashMap;
use vstd::prelude::*;

verus! {

/// An allocation or a free of one slot. A slot is any number that names a
/// block (its address, mostly); two events concern the same block when their
/// slots are equal.
#[derive(Clone, Copy, Debug, PartialEq, Eq)]
pub enum Event {
    Alloc(usize),
    Free(usize),
}

/// How many of `events` are allocations.
pub open spec fn alloc_count(events: Seq<Event>) -> nat
    decreases events.len(),
{
    if events.len() == 0 {
        0
    } else {
        alloc_count(events.drop_last()) + (if events.last() is Alloc {
            1nat
        } else {
            0nat
        })
    }
}

/// The allocation of `slot` that is still open after `events`: the number of
/// allocations up to and including the latest `Alloc(slot)`, where no
/// `Free(slot)` has followed it; `None` where the slot is not held.
pub open spec fn open_alloc(events: Seq<Event>, slot: usize) -> Option<nat>
    decreases events.len(),
{
    if events.len() == 0 {
        None
    } else {
        match events.last() {
            Event::Alloc(s) => if s == slot {
                Some(alloc_count(events))
            } else {
                open_alloc(events.drop_last(), slot)
            },
            Event::Free(s) => if s == slot {
                None
            } else {
                open_alloc(events.drop_last(), slot)
            },
        }
    }
}

/// The free intervals of `events`, in the order of the frees that close them.
///
/// Time is counted in allocations: the first allocation happens at time 1,
/// and a free happens at the time of the latest allocation before it. A
/// `Free(slot)` that finds the slot held closes the interval `(start, end)`
/// from the time at which the slot was allocated to the time of the free. A
/// free of a slot that is not held closes nothing, and an allocation that is
/// never freed leaves no interval.
pub open spec fn free_intervals_of(events: Seq<Event>) -> Seq<(nat, nat)>
    decreases events.len(),
{
    if events.len() == 0 {
        Seq::empty()
    } else {
        let before = events.drop_last();
        match events.last() {
            Event::Alloc(_) => free_intervals_of(before),
            Event::Free(slot) => match open_alloc(before, slot) {
                Some(start) => free_intervals_of(before).push((start, alloc_count(before))),
                None => free_intervals_of(before),
            },
        }
    }
}

/// The pairs of `intervals` as natural numbers.
pub open spec fn as_nat_pairs(intervals: Seq<(usize, usize)>) -> Seq<(nat, nat)> {
    Seq::new(intervals.len(), |i: int| (intervals[i].0 as nat, intervals[i].1 as nat))
}

/// Every free interval starts at an allocation, at time 1 or later, ends no
/// earlier than it starts, and ends no later than the last allocation.
pub proof fn lemma_free_intervals_in_range(events: Seq<Event>, i: int)
    requires
        0 <= i < free_intervals_of(events).len(),
    ensures
        1 <= free_intervals_of(events)[i].0 <= free_intervals_of(events)[i].1 <= alloc_count(
            events,
        ),
    decreases events.len(),
{
    if events.len() > 0 {
        let before = events.drop_last();
        let closes = match events.last() {
            Event::Alloc(_) => false,
            Event::Free(slot) => open_alloc(before, slot) is Some,
        };
        if closes && i == free_intervals_of(before).len() {
            let slot = events.last()->Free_0;
            lemma_open_alloc_in_range(before, slot);
        } else {
            lemma_free_intervals_in_range(before, i);
        }
    }
}

/// An open allocation happened at time 1 or later, and no later than the
/// last allocation.
pub proof fn lemma_open_alloc_in_range(events: Seq<Event>, slot: usize)
    requires
        open_alloc(events, slot) is Some,
    ensures
        1 <= open_alloc(events, slot)->0 <= alloc_count(events),
    decreases events.len(),
{
    if events.len() > 0 {
        match events.last() {
            Event::Alloc(s) => {
                if s != slot {
                    lemma_open_alloc_in_range(events.drop_last(), slot);
                }
            },
            Event::Free(s) => {
                if s != slot {
                    lemma_open_alloc_in_range(events.drop_last(), slot);
                }
            },
        }
    }
}

/// There are no more free intervals than allocations: each interval takes
/// an allocation of its own.
pub proof fn lemma_free_intervals_count(events: Seq<Event>)
    ensures
        free_intervals_of(events).len() + held_count(events) == alloc_count(events)
            - dropped_count(events),
        free_intervals_of(events).len() <= alloc_count(events),
    decreases events.len(),
{
    lemma_held_count_bound(events);
    if events.len() > 0 {
        lemma_free_intervals_count(events.drop_last());
        lemma_held_count_bound(events.drop_last());
    }
}

/// How many allocations of `events` were made on a slot that was already
/// held: such an allocation takes the place of the earlier one.
pub open spec fn dropped_count(events: Seq<Event>) -> nat
    decreases events.len(),
{
    if events.len() == 0 {
        0
    } else {
        let before = events.drop_last();
        dropped_count(before) + (match events.last() {
            Event::Alloc(slot) => if open_alloc(before, slot) is Some {
                1nat
            } else {
                0nat
            },
            Event::Free(_) => 0nat,
        })
    }
}

/// How many slots are held after `events`.
pub open spec fn held_count(events: Seq<Event>) -> int
    decreases events.len(),
{
    if events.len() == 0 {
        0
    } else {
        let before = events.drop_last();
        held_count(before) + (match events.last() {
            Event::Alloc(slot) => if open_alloc(before, slot) is Some {
                0int
            } else {
                1int
            },
            Event::Free(slot) => if open_alloc(before, slot) is Some {
                -1int
            } else {
                0int
            },
        })
    }
}

/// The number of held slots is the number of slots with an open allocation,
/// so it is never negative.
pub proof fn lemma_held_count_bound(events: Seq<Event>)
    ensures
        held_count(events) == held_slots(events).len(),
        held_slots(events).finite(),
        held_count(events) >= 0,
    decreases events.len(),
{
    if events.len() == 0 {
        assert(held_slots(events) =~= Set::<usize>::empty());
    } else {
        let before = events.drop_last();
        lemma_held_count_bound(before);
        match events.last() {
            Event::Alloc(slot) => {
                assert(held_slots(events) =~= held_slots(before).insert(slot));
            },
            Event::Free(slot) => {
                assert(held_slots(events) =~= held_slots(before).remove(slot));
            },
        }
    }
}

/// The slots that are held after `events`.
pub open spec fn held_slots(events: Seq<Event>) -> Set<usize> {
    Set::new(|slot: usize| open_alloc(events, slot) is Some)
}

/// The events of one burst.
pub struct Trace {
    events: Vec<Event>,
}

impl View for Trace {
    type V = Seq<Event>;

    closed spec fn view(&self) -> Seq<Event> {
        self.events@
    }
}

impl Trace {
    /// A trace without events.
    pub fn new() -> (trace: Trace)
        ensures
            trace@ == Seq::<Event>::empty(),
    {
        Trace { events: Vec::new() }
    }

    /// Appends `event`.
    pub fn add(&mut self, event: Event)
        ensures
            final(self)@ == old(self)@.push(event),
    {
        self.events.push(event);
    }

    /// Appends `events` in their order.
    pub fn extend(&mut self, events: Vec<Event>)
        ensures
            final(self)@ == old(self)@ + events@,
    {
        let mut i: usize = 0;
        while i < events.len()
            invariant
                i <= events.len(),
                self@ == old(self)@ + events@.take(i as int),
            decreases events.len() - i,
        {
            self.events.push(events[i]);
            i = i + 1;
            assert(old(self)@ + events@.take(i as int) =~= (old(self)@ + events@.take(i - 1)).push(
                events@[i - 1],
            ));
        }
        assert(events@.take(i as int) =~= events@);
    }

    /// The number of events.
    pub fn length(&self) -> (n: usize)
        ensures
            n == self@.len(),
    {
        self.events.len()
    }

    /// The event at `index`.
    pub fn get(&self, index: usize) -> (event: Event)
        requires
            index < self@.len(),
        ensures
            event == self@[index as int],
    {
        self.events[index]
    }

    /// The number of allocations.
    pub fn alloc_length(&self) -> (n: usize)
        ensures
            n == alloc_count(self@),
    {
        let mut n: usize = 0;
        let mut i: usize = 0;
        while i < self.events.len()
            invariant
                i <= self.events.len(),
                n == alloc_count(self@.take(i as int)),
                n <= i,
            decreases self.events.len() - i,
        {
            proof {
                assert(self@.take(i + 1).drop_last() =~= self@.take(i as int));
            }
            match self.events[i] {
                Event::Alloc(_) => {
                    n = n + 1;
                },
                Event::Free(_) => {},
            }
            i = i + 1;
        }
        proof {
            assert(self@.take(i as int) =~= self@);
        }
        n
    }

    /// The free intervals, in the order of the frees that close them.
    pub fn free_intervals(&self) -> (intervals: Vec<(usize, usize)>)
        ensures
            as_nat_pairs(intervals@) == free_intervals_of(self@),
    {
        broadcast use vstd::std_specs::hash::group_hash_axioms;

        let mut held: HashMap<usize, usize> = HashMap::new();
        let mut intervals: Vec<(usize, usize)> = Vec::new();
        let mut clock: usize = 0;
        let mut i: usize = 0;
        while i < self.events.len()
            invariant
                i <= self.events.len(),
                clock == alloc_count(self@.take(i as int)),
                clock <= i,
                forall|slot: usize| #[trigger]
                    held@.contains_key(slot) <==> open_alloc(self@.take(i as int), slot) is Some,
                forall|slot: usize| #[trigger]
                    held@.contains_key(slot) ==> Some(held@[slot] as nat) == open_alloc(
                        self@.take(i as int),
                        slot,
                    ),
                as_nat_pairs(intervals@) == free_intervals_of(self@.take(i as int)),
            decreases self.events.len() - i,
        {
            proof {
                assert(self@.take(i + 1).drop_last() =~= self@.take(i as int));
            }
            let ghost closed = as_nat_pairs(intervals@);
            match self.events[i] {
                Event::Alloc(slot) => {
                    clock = clock + 1;
                    held.insert(slot, clock);
                },
                Event::Free(slot) => {
                    match held.remove(&slot) {
                        Some(start) => {
                            intervals.push((start, clock));
                            assert(as_nat_pairs(intervals@) =~= closed.push(
                                (start as nat, clock as nat),
                            ));
                        },
                        None => {},
                    }
                },
            }
            i = i + 1;
        }
        proof {
            assert(self@.take(i as int) =~= self@);
        }
        intervals
    }
}

} // verus!
