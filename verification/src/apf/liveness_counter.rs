//! The liveness counter: from the times of the allocations and of the frees
//! it answers how many blocks are live in a window of `k` timesteps, on
//! average over the windows of that length.

use crate::apf::histogram::Histogram;
use crate::ratio::Ratio;
use vstd::prelude::*;

verus! {

/// The last timestep that a liveness counter reaches.
pub const MAX_CLOCK: u64 = 0xffff_ffff;

/// No numerator of a liveness is further from zero than this.
pub const MAX_LIVENESS_NUMERATOR: i128 = 0x4_0000_0000_0000_0000_0000_0000;

/// How many of `times` are `t` or earlier.
pub open spec fn count_upto(times: Seq<nat>, t: int) -> int
    decreases times.len(),
{
    if times.len() == 0 {
        0
    } else {
        count_upto(times.drop_last(), t) + (if times.last() <= t {
            1int
        } else {
            0int
        })
    }
}

/// The sum of those of `times` that are `t` or earlier.
pub open spec fn sum_upto(times: Seq<nat>, t: int) -> int
    decreases times.len(),
{
    if times.len() == 0 {
        0
    } else {
        sum_upto(times.drop_last(), t) + (if times.last() <= t {
            times.last() as int
        } else {
            0int
        })
    }
}

/// What a liveness counter has seen: the timestep it is at, and the
/// timesteps at which blocks were allocated and freed, in the order in
/// which it was told.
pub struct LivenessView {
    pub clock: nat,
    pub alloc_times: Seq<nat>,
    pub free_times: Seq<nat>,
}

impl LivenessView {
    /// The number of allocations up to the timestep `t`; zero for a
    /// timestep that the clock has not reached.
    pub open spec fn alloc_counts(self, t: int) -> int {
        if t <= self.clock {
            count_upto(self.alloc_times, t)
        } else {
            0
        }
    }

    /// The sum of the allocation times up to the timestep `t`; zero for a
    /// timestep that the clock has not reached.
    pub open spec fn alloc_sum(self, t: int) -> int {
        if t <= self.clock {
            sum_upto(self.alloc_times, t)
        } else {
            0
        }
    }

    /// The number of frees up to the timestep `t`; zero for a timestep that
    /// the clock has not reached.
    pub open spec fn free_counts(self, t: int) -> int {
        if t <= self.clock {
            count_upto(self.free_times, t)
        } else {
            0
        }
    }

    /// The sum of the free times up to the timestep `t`; zero for a
    /// timestep that the clock has not reached.
    pub open spec fn free_sum(self, t: int) -> int {
        if t <= self.clock {
            sum_upto(self.free_times, t)
        } else {
            0
        }
    }

    /// The number of windows of `k` timesteps, `clock - k + 1`, by which
    /// the liveness is divided.
    pub open spec fn windows(self, k: int) -> int {
        self.clock - k + 1
    }

    /// The numerator of the liveness at window length `k`. With `i` the
    /// number of windows and `m` the number of allocations it is
    /// `((m - free_counts(i)) * i + free_sum(i))
    ///  - (alloc_counts(k) * k + alloc_sum(clock) - alloc_sum(k)) + m * k`.
    pub open spec fn liveness_numerator(self, k: int) -> int {
        let i = self.windows(k);
        let m = self.alloc_times.len() as int;
        ((m - self.free_counts(i)) * i + self.free_sum(i)) - (self.alloc_counts(k) * k
            + self.alloc_sum(self.clock as int) - self.alloc_sum(k)) + m * k
    }
}

/// A count up to any time lies between zero and the number of times.
pub proof fn lemma_count_upto_bound(times: Seq<nat>, t: int)
    ensures
        0 <= count_upto(times, t) <= times.len(),
    decreases times.len(),
{
    if times.len() > 0 {
        lemma_count_upto_bound(times.drop_last(), t);
    }
}

/// With no time later than `latest`, a sum up to any time lies between
/// zero and `latest` times the number of times.
pub proof fn lemma_sum_upto_bound(times: Seq<nat>, t: int, latest: int)
    requires
        forall|i: int| 0 <= i < times.len() ==> times[i] <= latest,
    ensures
        0 <= sum_upto(times, t) <= times.len() * latest,
    decreases times.len(),
{
    if times.len() > 0 {
        lemma_sum_upto_bound(times.drop_last(), t, latest);
        assert((times.len() - 1) * latest + latest == times.len() * latest) by (nonlinear_arith);
    }
}

/// Times that are all `t` or earlier are counted and summed in full at `t`
/// and at any later time.
pub proof fn lemma_upto_all(times: Seq<nat>, t: int, later: int)
    requires
        forall|i: int| 0 <= i < times.len() ==> times[i] <= t,
        t <= later,
    ensures
        count_upto(times, later) == count_upto(times, t),
        count_upto(times, t) == times.len(),
        sum_upto(times, later) == sum_upto(times, t),
    decreases times.len(),
{
    if times.len() > 0 {
        lemma_upto_all(times.drop_last(), t, later);
    }
}

/// What a histogram of counts, or of sums where `summed`, holds at the
/// timestep `t` when it keeps up with `times` and the clock: the count, or
/// the sum, of the times up to `t`; and nothing at a timestep that the
/// clock has not reached.
pub open spec fn kept_at(times: Seq<nat>, clock: nat, summed: bool, t: int) -> int {
    if t <= clock {
        if summed {
            sum_upto(times, t)
        } else {
            count_upto(times, t)
        }
    } else {
        0
    }
}

/// The histogram keeps up with `times` and the clock.
pub open spec fn keeps(histogram: Histogram, times: Seq<nat>, clock: nat, summed: bool) -> bool {
    forall|t: u64| #[trigger] histogram.count_at(t) == kept_at(times, clock, summed, t as int)
}

/// What one event at the timestep `clock` adds to a histogram: one to a
/// count, the timestep to a sum.
pub open spec fn event_weight(clock: nat, summed: bool) -> int {
    if summed {
        clock as int
    } else {
        1
    }
}

/// A histogram that keeps up, and to which an event at the clock is added
/// at the clock, keeps up with the times and that event.
proof fn lemma_keeps_event(
    before: Histogram,
    after: Histogram,
    times: Seq<nat>,
    clock: nat,
    summed: bool,
)
    requires
        keeps(before, times, clock, summed),
        clock <= u64::MAX,
        before.count_at(clock as u64) + event_weight(clock, summed) <= u64::MAX,
        after@ == before@.insert(
            clock as u64,
            (before.count_at(clock as u64) + event_weight(clock, summed)) as u64,
        ),
    ensures
        keeps(after, times.push(clock), clock, summed),
{
    assert(times.push(clock).drop_last() =~= times);
    assert forall|t: u64| #[trigger]
        after.count_at(t) == kept_at(times.push(clock), clock, summed, t as int) by {
        assert(before.count_at(t) == kept_at(times, clock, summed, t as int));
    }
}

/// A histogram that keeps up, and that carries what it holds at the clock
/// to the next timestep, keeps up with the clock moved there.
proof fn lemma_keeps_tick(
    before: Histogram,
    after: Histogram,
    times: Seq<nat>,
    clock: nat,
    summed: bool,
)
    requires
        keeps(before, times, clock, summed),
        clock < u64::MAX,
        forall|i: int| 0 <= i < times.len() ==> times[i] <= clock,
        after@ == before@.insert(
            (clock + 1) as u64,
            (before.count_at((clock + 1) as u64) + before.count_at(clock as u64)) as u64,
        ),
    ensures
        keeps(after, times, (clock + 1) as nat, summed),
{
    lemma_upto_all(times, clock as int, clock as int + 1);
    assert(before.count_at((clock + 1) as u64) == kept_at(times, clock, summed, clock as int + 1));
    assert(before.count_at(clock as u64) == kept_at(times, clock, summed, clock as int));
    assert forall|t: u64| #[trigger]
        after.count_at(t) == kept_at(times, (clock + 1) as nat, summed, t as int) by {
        assert(before.count_at(t) == kept_at(times, clock, summed, t as int));
    }
}

/// The liveness counter. `on_alloc` and `free` tell it of an allocation and of
/// a free at the current timestep; `inc_timer` moves it to the next one.
pub struct LivenessCounter {
    n: u64,
    m: u64,
    alloc_sum: Histogram,
    alloc_counts: Histogram,
    free_sum: Histogram,
    free_counts: Histogram,
    alloc_times: Ghost<Seq<nat>>,
    free_times: Ghost<Seq<nat>>,
}

impl View for LivenessCounter {
    type V = LivenessView;

    closed spec fn view(&self) -> LivenessView {
        LivenessView {
            clock: self.n as nat,
            alloc_times: self.alloc_times@,
            free_times: self.free_times@,
        }
    }
}

impl LivenessCounter {
    /// The histograms hold, at every timestep, what was seen up to it: the
    /// two of counts the numbers of allocations and of frees, the two of
    /// sums the sums of their times. The clock is at 1 or later, and no
    /// allocation or free is timed outside the timesteps 1 to the clock.
    pub closed spec fn wf(&self) -> bool {
        &&& 1 <= self.n <= MAX_CLOCK
        &&& self.m == self.alloc_times@.len()
        &&& forall|i: int|
            0 <= i < self.alloc_times@.len() ==> 1 <= #[trigger] self.alloc_times@[i] <= self.n
        &&& forall|i: int|
            0 <= i < self.free_times@.len() ==> 1 <= #[trigger] self.free_times@[i] <= self.n
        &&& keeps(self.alloc_counts, self.alloc_times@, self.n as nat, false)
        &&& keeps(self.alloc_sum, self.alloc_times@, self.n as nat, true)
        &&& keeps(self.free_counts, self.free_times@, self.n as nat, false)
        &&& keeps(self.free_sum, self.free_times@, self.n as nat, true)
    }

    /// The counter can be told of one more allocation: its count of
    /// allocations and its sum of allocation times have room for it.
    pub open spec fn takes_alloc(&self) -> bool {
        &&& self@.alloc_times.len() < u64::MAX
        &&& self@.alloc_sum(self@.clock as int) + self@.clock <= u64::MAX
    }

    /// The counter can be told of one more free: its count of frees and
    /// its sum of free times have room for it.
    pub open spec fn takes_free(&self) -> bool {
        &&& self@.free_times.len() < u64::MAX
        &&& self@.free_sum(self@.clock as int) + self@.clock <= u64::MAX
    }

    /// At the clock, the histograms hold all that the counter has seen: the
    /// number of allocations and the number of frees, and all of their
    /// times summed. No allocation or free is timed before 1 or after the
    /// clock, and the counts and sums are such as a `u64` holds.
    pub proof fn lemma_counts_at_clock(&self)
        requires
            self.wf(),
        ensures
            1 <= self@.clock <= MAX_CLOCK,
            forall|i: int|
                0 <= i < self@.alloc_times.len() ==> 1 <= #[trigger] self@.alloc_times[i]
                    <= self@.clock,
            forall|i: int|
                0 <= i < self@.free_times.len() ==> 1 <= #[trigger] self@.free_times[i]
                    <= self@.clock,
            self@.alloc_counts(self@.clock as int) == self@.alloc_times.len(),
            self@.free_counts(self@.clock as int) == self@.free_times.len(),
            self@.alloc_times.len() <= u64::MAX,
            self@.free_times.len() <= u64::MAX,
            0 <= self@.alloc_sum(self@.clock as int) <= u64::MAX,
            0 <= self@.free_sum(self@.clock as int) <= u64::MAX,
            forall|later: int|
                later >= self@.clock ==> sum_upto(self@.alloc_times, later) == self@.alloc_sum(
                    self@.clock as int,
                ),
            forall|later: int|
                later >= self@.clock ==> sum_upto(self@.free_times, later) == self@.free_sum(
                    self@.clock as int,
                ),
    {
        lemma_upto_all(self@.alloc_times, self@.clock as int, self@.clock as int);
        lemma_upto_all(self@.free_times, self@.clock as int, self@.clock as int);
        assert(self.alloc_counts.count_at(self.n) == kept_at(
            self.alloc_times@,
            self.n as nat,
            false,
            self.n as int,
        ));
        assert(self.free_counts.count_at(self.n) == kept_at(
            self.free_times@,
            self.n as nat,
            false,
            self.n as int,
        ));
        assert(self.alloc_sum.count_at(self.n) == kept_at(
            self.alloc_times@,
            self.n as nat,
            true,
            self.n as int,
        ));
        assert(self.free_sum.count_at(self.n) == kept_at(
            self.free_times@,
            self.n as nat,
            true,
            self.n as int,
        ));
        assert forall|later: int| later >= self@.clock implies sum_upto(
            self@.alloc_times,
            later,
        ) == self@.alloc_sum(self@.clock as int) by {
            lemma_upto_all(self@.alloc_times, self@.clock as int, later);
        }
        assert forall|later: int| later >= self@.clock implies sum_upto(self@.free_times, later)
            == self@.free_sum(self@.clock as int) by {
            lemma_upto_all(self@.free_times, self@.clock as int, later);
        }
    }

    /// A counter at timestep 1 that has seen nothing.
    pub fn new() -> (counter: LivenessCounter)
        ensures
            counter.wf(),
            counter@ == (LivenessView {
                clock: 1,
                alloc_times: Seq::empty(),
                free_times: Seq::empty(),
            }),
            counter@.alloc_sum(1) == 0,
            counter@.free_sum(1) == 0,
    {
        LivenessCounter {
            n: 1,
            m: 0,
            alloc_sum: Histogram::new(),
            alloc_counts: Histogram::new(),
            free_sum: Histogram::new(),
            free_counts: Histogram::new(),
            alloc_times: Ghost(Seq::empty()),
            free_times: Ghost(Seq::empty()),
        }
    }

    /// The current timestep.
    pub fn clock(&self) -> (n: u64)
        requires
            self.wf(),
        ensures
            n == self@.clock,
            1 <= n <= MAX_CLOCK,
    {
        self.n
    }

    /// The number of allocations seen.
    pub fn allocations(&self) -> (m: u64)
        requires
            self.wf(),
        ensures
            m == self@.alloc_times.len(),
    {
        self.m
    }

    /// The number of frees seen.
    pub fn frees(&self) -> (f: u64)
        requires
            self.wf(),
        ensures
            f == self@.free_times.len(),
    {
        proof {
            self.lemma_counts_at_clock();
        }
        self.free_counts.get(self.n)
    }

    /// The sum of the times of the allocations seen.
    pub fn alloc_time_sum(&self) -> (sum: u64)
        requires
            self.wf(),
        ensures
            sum == self@.alloc_sum(self@.clock as int),
    {
        self.alloc_sum.get(self.n)
    }

    /// The sum of the times of the frees seen.
    pub fn free_time_sum(&self) -> (sum: u64)
        requires
            self.wf(),
        ensures
            sum == self@.free_sum(self@.clock as int),
    {
        self.free_sum.get(self.n)
    }

    /// Tells the counter of an allocation at the current timestep.
    pub fn on_alloc(&mut self)
        requires
            old(self).wf(),
            old(self).takes_alloc(),
        ensures
            final(self).wf(),
            final(self)@ == (LivenessView {
                alloc_times: old(self)@.alloc_times.push(old(self)@.clock),
                ..old(self)@
            }),
            final(self)@.alloc_sum(old(self)@.clock as int) == old(self)@.alloc_sum(
                old(self)@.clock as int,
            ) + old(self)@.clock,
    {
        proof {
            self.lemma_counts_at_clock();
        }
        let ghost sums = self.alloc_sum;
        let ghost counts = self.alloc_counts;
        self.alloc_sum.add(self.n, self.n);
        self.alloc_counts.increment(self.n);
        self.m = self.m + 1;
        proof {
            lemma_keeps_event(sums, self.alloc_sum, self.alloc_times@, self.n as nat, true);
            lemma_keeps_event(counts, self.alloc_counts, self.alloc_times@, self.n as nat, false);
            assert(self.alloc_times@.push(self.n as nat).drop_last() =~= self.alloc_times@);
            self.alloc_times@ = self.alloc_times@.push(self.n as nat);
        }
    }

    /// Tells the counter of a free at the current timestep.
    pub fn free(&mut self)
        requires
            old(self).wf(),
            old(self).takes_free(),
        ensures
            final(self).wf(),
            final(self)@ == (LivenessView {
                free_times: old(self)@.free_times.push(old(self)@.clock),
                ..old(self)@
            }),
            final(self)@.free_sum(old(self)@.clock as int) == old(self)@.free_sum(
                old(self)@.clock as int,
            ) + old(self)@.clock,
    {
        proof {
            self.lemma_counts_at_clock();
        }
        let ghost sums = self.free_sum;
        let ghost counts = self.free_counts;
        self.free_sum.add(self.n, self.n);
        self.free_counts.increment(self.n);
        proof {
            lemma_keeps_event(sums, self.free_sum, self.free_times@, self.n as nat, true);
            lemma_keeps_event(counts, self.free_counts, self.free_times@, self.n as nat, false);
            assert(self.free_times@.push(self.n as nat).drop_last() =~= self.free_times@);
            self.free_times@ = self.free_times@.push(self.n as nat);
        }
    }

    /// Moves the counter to the next timestep, to which all four histograms
    /// carry what they hold.
    pub fn inc_timer(&mut self)
        requires
            old(self).wf(),
            old(self)@.clock < MAX_CLOCK,
        ensures
            final(self).wf(),
            final(self)@ == (LivenessView { clock: old(self)@.clock + 1, ..old(self)@ }),
            final(self)@.alloc_sum(old(self)@.clock as int + 1) == old(self)@.alloc_sum(
                old(self)@.clock as int,
            ),
            final(self)@.free_sum(old(self)@.clock as int + 1) == old(self)@.free_sum(
                old(self)@.clock as int,
            ),
    {
        let ghost before = *self;
        proof {
            assert(self.alloc_counts.count_at((self.n + 1) as u64) == 0);
            assert(self.alloc_sum.count_at((self.n + 1) as u64) == 0);
            assert(self.free_counts.count_at((self.n + 1) as u64) == 0);
            assert(self.free_sum.count_at((self.n + 1) as u64) == 0);
        }
        self.n = self.n + 1;
        let carried = self.alloc_counts.get(self.n - 1);
        self.alloc_counts.add(self.n, carried);
        let carried = self.alloc_sum.get(self.n - 1);
        self.alloc_sum.add(self.n, carried);
        let carried = self.free_counts.get(self.n - 1);
        self.free_counts.add(self.n, carried);
        let carried = self.free_sum.get(self.n - 1);
        self.free_sum.add(self.n, carried);
        proof {
            let clock = before.n as nat;
            lemma_keeps_tick(
                before.alloc_counts,
                self.alloc_counts,
                self.alloc_times@,
                clock,
                false,
            );
            lemma_keeps_tick(before.alloc_sum, self.alloc_sum, self.alloc_times@, clock, true);
            lemma_keeps_tick(before.free_counts, self.free_counts, self.free_times@, clock, false);
            lemma_keeps_tick(before.free_sum, self.free_sum, self.free_times@, clock, true);
            lemma_upto_all(self.alloc_times@, clock as int, clock as int + 1);
            lemma_upto_all(self.free_times@, clock as int, clock as int + 1);
        }
    }

    /// The liveness at window length `k`, for `k` no larger than the clock:
    /// the average over the windows of `k` timesteps of the number of blocks
    /// that are live in the window.
    pub fn liveness(&self, k: usize) -> (ratio: Ratio)
        requires
            self.wf(),
            k <= self@.clock,
        ensures
            ratio.numerator == self@.liveness_numerator(k as int),
            ratio.denominator == self@.windows(k as int),
            1 <= ratio.denominator <= MAX_CLOCK + 1,
            -MAX_LIVENESS_NUMERATOR <= ratio.numerator <= MAX_LIVENESS_NUMERATOR,
    {
        let windows: u64 = self.n - k as u64 + 1;
        let free_counts = self.free_counts.get(windows);
        let free_sum = self.free_sum.get(windows);
        let alloc_counts = self.alloc_counts.get(k as u64);
        let alloc_sum_now = self.alloc_sum.get(self.n);
        let alloc_sum_then = self.alloc_sum.get(k as u64);
        let i = windows as i128;
        let m = self.m as i128;
        let width = k as i128;
        proof {
            assert(-0x1_0000_0000_0000_0000_0000_0000 <= (m - free_counts) * i
                <= 0x1_0000_0000_0000_0000_0000_0000) by (nonlinear_arith)
                requires
                    -0x1_0000_0000_0000_0000 <= m - free_counts <= 0x1_0000_0000_0000_0000,
                    0 <= i <= 0x1_0000_0000,
            ;
            assert(0 <= alloc_counts * width <= 0x1_0000_0000_0000_0000_0000_0000)
                by (nonlinear_arith)
                requires
                    0 <= alloc_counts <= 0x1_0000_0000_0000_0000,
                    0 <= width <= 0x1_0000_0000,
            ;
            assert(0 <= m * width <= 0x1_0000_0000_0000_0000_0000_0000) by (nonlinear_arith)
                requires
                    0 <= m <= 0x1_0000_0000_0000_0000,
                    0 <= width <= 0x1_0000_0000,
            ;
        }
        let held = (m - free_counts as i128) * i + free_sum as i128;
        let begun = alloc_counts as i128 * width + alloc_sum_now as i128 - alloc_sum_then as i128;
        Ratio { numerator: held - begun + m * width, denominator: windows }
    }
}

} // verus!
