//! The reuse counter: it samples the events of a burst, computes the reuse
//! of the burst when the burst is over, and then rests for a while before it
//! samples again.

use crate::apf::reuse::{reuse, reuse_table_of, table_entry, ReuseTable};
use crate::apf::reuse::{MAX_BURST_ALLOCATIONS, MAX_NUMERATOR};
use crate::apf::trace::{alloc_count, Event, Trace};
use crate::ratio::Ratio;
use vstd::prelude::*;

verus! {

/// The state of a reuse counter.
pub struct ReuseView {
    /// The number of ticks that a burst lasts.
    pub burst_length: nat,
    /// The number of ticks that the counter rests between two bursts.
    pub hibernation_period: nat,
    /// The ticks since the counter began to sample or to rest.
    pub n: nat,
    /// The events of the current burst; `None` while the counter rests.
    pub trace: Option<Seq<Event>>,
    /// The numerators of the reuse of the last burst that gave a table;
    /// `None` until there is one.
    pub table: Option<Seq<int>>,
}

impl ReuseView {
    /// The counter samples.
    pub open spec fn sampling(self) -> bool {
        self.trace is Some
    }

    /// The state after `event`: while the counter samples, the event joins
    /// the trace.
    pub open spec fn after_event(self, event: Event) -> ReuseView {
        match self.trace {
            Some(events) => ReuseView { trace: Some(events.push(event)), ..self },
            None => self,
        }
    }

    /// The table that the burst `events` leaves, after `table`: its own,
    /// unless it holds more than `MAX_BURST_ALLOCATIONS` allocations, and
    /// then the one before.
    pub open spec fn table_after(table: Option<Seq<int>>, events: Seq<Event>) -> Option<
        Seq<int>,
    > {
        if alloc_count(events) <= MAX_BURST_ALLOCATIONS {
            Some(reuse_table_of(events))
        } else {
            table
        }
    }

    /// The state after a tick. A burst that has lasted `burst_length` ticks
    /// ends: its table is computed, the trace is dropped, and the counter
    /// rests. A rest that has lasted `hibernation_period` ticks ends: the
    /// counter samples again, on an empty trace. Either way the ticks are
    /// counted from zero again.
    pub open spec fn after_tick(self) -> ReuseView {
        match self.trace {
            Some(events) => if self.n + 1 >= self.burst_length {
                ReuseView {
                    n: 0,
                    trace: None,
                    table: Self::table_after(self.table, events),
                    ..self
                }
            } else {
                ReuseView { n: self.n + 1, ..self }
            },
            None => if self.n + 1 >= self.hibernation_period {
                ReuseView { n: 0, trace: Some(Seq::empty()), ..self }
            } else {
                ReuseView { n: self.n + 1, ..self }
            },
        }
    }

    /// The reuse at window length `k` as numerator and denominator; `None`
    /// until a burst has given a table.
    pub open spec fn reuse(self, k: int) -> Option<(int, int)> {
        match self.table {
            Some(numerators) => Some(table_entry(numerators, k)),
            None => None,
        }
    }
}

/// The reuse counter.
pub struct ReuseCounter {
    burst_length: usize,
    hibernation_period: usize,
    n: usize,
    trace: Option<Trace>,
    reuse: Option<ReuseTable>,
}

impl View for ReuseCounter {
    type V = ReuseView;

    closed spec fn view(&self) -> ReuseView {
        ReuseView {
            burst_length: self.burst_length as nat,
            hibernation_period: self.hibernation_period as nat,
            n: self.n as nat,
            trace: match self.trace {
                Some(trace) => Some(trace@),
                None => None,
            },
            table: match self.reuse {
                Some(table) => Some(table@),
                None => None,
            },
        }
    }
}

impl ReuseCounter {
    /// The ticks are counted below the length of the burst or of the rest
    /// that the counter is in.
    pub closed spec fn wf(&self) -> bool {
        self.n == 0 || (if self.trace is Some {
            self.n < self.burst_length
        } else {
            self.n < self.hibernation_period
        })
    }

    /// A counter that samples, on an empty trace, with bursts of `bl` ticks
    /// and rests of `hp` ticks.
    pub fn new(bl: usize, hp: usize) -> (counter: ReuseCounter)
        ensures
            counter.wf(),
            counter@ == (ReuseView {
                burst_length: bl as nat,
                hibernation_period: hp as nat,
                n: 0,
                trace: Some(Seq::empty()),
                table: None,
            }),
    {
        ReuseCounter {
            burst_length: bl,
            hibernation_period: hp,
            n: 0,
            trace: Some(Trace::new()),
            reuse: None,
        }
    }

    /// Tells the counter that `slot` was allocated.
    pub fn on_alloc(&mut self, slot: usize)
        requires
            old(self).wf(),
        ensures
            final(self).wf(),
            final(self)@ == old(self)@.after_event(Event::Alloc(slot)),
    {
        match &mut self.trace {
            Some(t) => {
                t.add(Event::Alloc(slot));
            },
            None => {},
        }
    }

    /// Tells the counter that `slot` was freed.
    pub fn free(&mut self, slot: usize)
        requires
            old(self).wf(),
        ensures
            final(self).wf(),
            final(self)@ == old(self)@.after_event(Event::Free(slot)),
    {
        match &mut self.trace {
            Some(t) => {
                t.add(Event::Free(slot));
            },
            None => {},
        }
    }

    /// Whether the counter samples.
    pub fn sampling(&self) -> (sampling: bool)
        ensures
            sampling == self@.sampling(),
    {
        self.trace.is_some()
    }

    /// Ticks the counter.
    pub fn inc_timer(&mut self)
        requires
            old(self).wf(),
        ensures
            final(self).wf(),
            final(self)@ == old(self)@.after_tick(),
    {
        self.n = self.n + 1;
        match &self.trace {
            Some(trace) => {
                if self.n >= self.burst_length {
                    match reuse(trace) {
                        Some(table) => {
                            self.reuse = Some(table);
                        },
                        None => {},
                    }
                    self.n = 0;
                    self.trace = None;
                }
            },
            None => {
                if self.n >= self.hibernation_period {
                    self.n = 0;
                    self.trace = Some(Trace::new());
                }
            },
        }
    }

    /// The reuse at window length `k`: `None` until a burst has given a
    /// table, then what the table holds for `k`, and zero for a `k` that it
    /// does not hold.
    pub fn reuse(&self, k: usize) -> (ratio: Option<Ratio>)
        ensures
            ratio is Some <==> self@.table is Some,
            ratio matches Some(r) ==> {
                &&& self@.reuse(k as int) == Some((r.numerator as int, r.denominator as int))
                &&& 1 <= r.denominator <= MAX_BURST_ALLOCATIONS
                &&& -MAX_NUMERATOR <= r.numerator <= MAX_NUMERATOR
            },
    {
        match &self.reuse {
            Some(table) => Some(table.get(k)),
            None => None,
        }
    }
}

} // verus!
