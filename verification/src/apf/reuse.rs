//! The reuse of a finished burst: for each window length `k`, how many
//! blocks were both taken and given back inside a window of `k`
//! allocations, on average over the windows of that length.
//!
//! With `n` allocations in the burst there are `n - k + 1` windows of
//! length `k`. The table holds, for each `k` from 1 to `n`, the numerator
//! `X(k) + Z(k) - Y(k)` of that average. The three terms are running sums
//! over `k`, each fed from tallies of the free intervals by span, by start
//! and by end; they are computed in one pass over the intervals and one over
//! the window lengths.
//!
//! The numerator can be negative for some bursts. It is kept as it comes
//! out; whoever uses it decides what a negative estimate means.

use crate::apf::trace::{alloc_count, as_nat_pairs, free_intervals_of, Event, Trace};
use crate::apf::trace::{lemma_free_intervals_count, lemma_free_intervals_in_range};
use crate::ratio::Ratio;
use std::collections::HashMap;
use vstd::prelude::*;

verus! {

/// The most allocations of one burst for which a table is computed. With
/// no more than these, every sum of the computation fits in an `i128`.
pub const MAX_BURST_ALLOCATIONS: usize = 0xffff_ffff;

/// No numerator of a table is further from zero than this.
pub const MAX_NUMERATOR: i128 = 0x8_0000_0000_0000_0000_0000_0000;

/// The span of an interval: the number of allocation times it covers, both
/// ends counted.
pub open spec fn span(p: (nat, nat)) -> int {
    p.1 - p.0 + 1
}

/// An interval of a burst of `n` allocations starts at time 1 or later and
/// ends between its start and `n`.
pub open spec fn valid_interval(p: (nat, nat), n: nat) -> bool {
    1 <= p.0 <= p.1 <= n
}

pub open spec fn valid_intervals(intervals: Seq<(nat, nat)>, n: nat) -> bool {
    forall|i: int| 0 <= i < intervals.len() ==> valid_interval(#[trigger] intervals[i], n)
}

/// What is counted or summed over the intervals.
pub enum Tally {
    /// The intervals of span `key`.
    Spans,
    /// The starts of the intervals of span `key`.
    Starts,
    /// The starts of the intervals of span `key`, each capped at `n - key`.
    CappedStarts,
    /// The ends of the intervals of span `key`.
    Ends,
    /// The ends of the intervals of span `key`, each raised to `key` at least.
    RaisedEnds,
    /// The intervals that start at `key`.
    StartsAt,
    /// The intervals that end at `key`.
    EndsAt,
    /// The intervals that start in the last `key` times before `n`.
    LateStarts,
    /// The intervals that end at `key` or earlier.
    EarlyEnds,
    /// The intervals of span `key` or less.
    ShortSpans,
}

/// What the interval `p` adds to the tally at `key`.
pub open spec fn weight(tally: Tally, p: (nat, nat), n: nat, key: int) -> int {
    match tally {
        Tally::Spans => if span(p) == key {
            1
        } else {
            0
        },
        Tally::Starts => if span(p) == key {
            p.0 as int
        } else {
            0
        },
        Tally::CappedStarts => if span(p) == key {
            if n - key < p.0 {
                n - key
            } else {
                p.0 as int
            }
        } else {
            0
        },
        Tally::Ends => if span(p) == key {
            p.1 as int
        } else {
            0
        },
        Tally::RaisedEnds => if span(p) == key {
            if key > p.1 {
                key
            } else {
                p.1 as int
            }
        } else {
            0
        },
        Tally::StartsAt => if p.0 == key {
            1
        } else {
            0
        },
        Tally::EndsAt => if p.1 == key {
            1
        } else {
            0
        },
        Tally::LateStarts => if n - key <= p.0 <= n - 1 {
            1
        } else {
            0
        },
        Tally::EarlyEnds => if 1 <= p.1 <= key {
            1
        } else {
            0
        },
        Tally::ShortSpans => if span(p) <= key {
            1
        } else {
            0
        },
    }
}

/// The tally at `key` over all of `intervals`.
pub open spec fn tally_of(tally: Tally, intervals: Seq<(nat, nat)>, n: nat, key: int) -> int
    decreases intervals.len(),
{
    if intervals.len() == 0 {
        0
    } else {
        tally_of(tally, intervals.drop_last(), n, key) + weight(tally, intervals.last(), n, key)
    }
}

/// `X(k)`: `X(1)` is the sum of the starts of the intervals of span 1, and
/// each further `k` adds the capped starts of the intervals of span `k` and
/// takes away the number of intervals that start in the last `k - 1` times.
pub open spec fn window_x(intervals: Seq<(nat, nat)>, n: nat, k: int) -> int
    decreases k,
{
    if k <= 1 {
        tally_of(Tally::Starts, intervals, n, 1)
    } else {
        window_x(intervals, n, k - 1) + tally_of(Tally::CappedStarts, intervals, n, k) - tally_of(
            Tally::LateStarts,
            intervals,
            n,
            k - 1,
        )
    }
}

/// `Y(k)`: `Y(1)` is the sum of the ends of the intervals of span 1, and
/// each further `k` adds the number of intervals that end at `k - 2` or
/// earlier and the raised ends of the intervals of span `k`.
pub open spec fn window_y(intervals: Seq<(nat, nat)>, n: nat, k: int) -> int
    decreases k,
{
    if k <= 1 {
        tally_of(Tally::Ends, intervals, n, 1)
    } else {
        window_y(intervals, n, k - 1) + tally_of(Tally::EarlyEnds, intervals, n, k - 2) + tally_of(
            Tally::RaisedEnds,
            intervals,
            n,
            k,
        )
    }
}

/// `Z(k)`: `Z(1)` is the number of intervals of span 1, and each further
/// `k` adds the number of intervals of span `k - 1` or less and `k` times
/// the number of intervals of span `k`.
pub open spec fn window_z(intervals: Seq<(nat, nat)>, n: nat, k: int) -> int
    decreases k,
{
    if k <= 1 {
        tally_of(Tally::Spans, intervals, n, 1)
    } else {
        window_z(intervals, n, k - 1) + tally_of(Tally::ShortSpans, intervals, n, k - 1) + k
            * tally_of(Tally::Spans, intervals, n, k)
    }
}

/// The numerator of the reuse at window length `k`.
pub open spec fn reuse_numerator(intervals: Seq<(nat, nat)>, n: nat, k: int) -> int {
    window_x(intervals, n, k) + window_z(intervals, n, k) - window_y(intervals, n, k)
}

/// The numerators for the window lengths 1 to `n`, in that order.
pub open spec fn reuse_numerators_of(intervals: Seq<(nat, nat)>, n: nat) -> Seq<int> {
    Seq::new(n, |i: int| reuse_numerator(intervals, n, i + 1))
}

/// The numerators of the burst `events`.
pub open spec fn reuse_table_of(events: Seq<Event>) -> Seq<int> {
    reuse_numerators_of(free_intervals_of(events), alloc_count(events))
}

/// The reuse at window length `k` that a table of `numerators` gives: the
/// numerator over the number of windows of that length, and zero for a
/// length that the table does not hold.
pub open spec fn table_entry(numerators: Seq<int>, k: int) -> (int, int) {
    if 1 <= k <= numerators.len() {
        (numerators[k - 1], numerators.len() - k + 1)
    } else {
        (0, 1)
    }
}

/// A tally over `intervals` with `p` appended is the tally over `intervals`
/// and what `p` adds.
pub proof fn lemma_tally_push(
    tally: Tally,
    intervals: Seq<(nat, nat)>,
    p: (nat, nat),
    n: nat,
    key: int,
)
    ensures
        tally_of(tally, intervals.push(p), n, key) == tally_of(tally, intervals, n, key) + weight(
            tally,
            p,
            n,
            key,
        ),
{
    assert(intervals.push(p).drop_last() =~= intervals);
}

/// Where each interval adds to one tally what it adds to two others
/// together, the first tally is the sum of the other two.
pub proof fn lemma_tally_split(
    whole: (Tally, int),
    left: (Tally, int),
    right: (Tally, int),
    intervals: Seq<(nat, nat)>,
    n: nat,
)
    requires
        valid_intervals(intervals, n),
        forall|p: (nat, nat)|
            valid_interval(p, n) ==> #[trigger] weight(whole.0, p, n, whole.1) == weight(
                left.0,
                p,
                n,
                left.1,
            ) + weight(right.0, p, n, right.1),
    ensures
        tally_of(whole.0, intervals, n, whole.1) == tally_of(left.0, intervals, n, left.1)
            + tally_of(right.0, intervals, n, right.1),
    decreases intervals.len(),
{
    if intervals.len() > 0 {
        assert(valid_interval(intervals.last(), n));
        lemma_tally_split(whole, left, right, intervals.drop_last(), n);
    }
}

/// A tally to which no interval adds is zero.
pub proof fn lemma_tally_none(tally: Tally, key: int, intervals: Seq<(nat, nat)>, n: nat)
    requires
        valid_intervals(intervals, n),
        forall|p: (nat, nat)| valid_interval(p, n) ==> #[trigger] weight(tally, p, n, key) == 0,
    ensures
        tally_of(tally, intervals, n, key) == 0,
    decreases intervals.len(),
{
    if intervals.len() > 0 {
        assert(valid_interval(intervals.last(), n));
        lemma_tally_none(tally, key, intervals.drop_last(), n);
    }
}

/// The intervals of a trace are valid for its number of allocations, and
/// there are no more of them than allocations.
pub proof fn lemma_trace_intervals_valid(events: Seq<Event>)
    ensures
        valid_intervals(free_intervals_of(events), alloc_count(events)),
        free_intervals_of(events).len() <= alloc_count(events),
{
    lemma_free_intervals_count(events);
    assert forall|i: int| 0 <= i < free_intervals_of(events).len() implies valid_interval(
        #[trigger] free_intervals_of(events)[i],
        alloc_count(events),
    ) by {
        lemma_free_intervals_in_range(events, i);
    }
}

/// The cell `j` of `cells` holds the tally at `j + offset`.
spec fn cells_hold(
    cells: Seq<i128>,
    tally: Tally,
    intervals: Seq<(nat, nat)>,
    n: nat,
    offset: int,
) -> bool {
    &&& cells.len() == n
    &&& forall|j: int|
        0 <= j < cells.len() ==> #[trigger] cells[j] == tally_of(tally, intervals, n, j + offset)
}

/// Every cell lies between zero and `bound`.
spec fn cells_within(cells: Seq<i128>, bound: int) -> bool {
    forall|j: int| 0 <= j < cells.len() ==> 0 <= #[trigger] cells[j] <= bound
}

/// The tallies by span, by start and by end.
struct Buckets {
    span_counts: Vec<i128>,
    start_sums: Vec<i128>,
    capped_start_sums: Vec<i128>,
    end_sums: Vec<i128>,
    raised_end_sums: Vec<i128>,
    start_counts: Vec<i128>,
    end_counts: Vec<i128>,
}

impl Buckets {
    spec fn holds(&self, intervals: Seq<(nat, nat)>, n: nat) -> bool {
        &&& cells_hold(self.span_counts@, Tally::Spans, intervals, n, 1)
        &&& cells_hold(self.start_sums@, Tally::Starts, intervals, n, 1)
        &&& cells_hold(self.capped_start_sums@, Tally::CappedStarts, intervals, n, 1)
        &&& cells_hold(self.end_sums@, Tally::Ends, intervals, n, 1)
        &&& cells_hold(self.raised_end_sums@, Tally::RaisedEnds, intervals, n, 1)
        &&& cells_hold(self.start_counts@, Tally::StartsAt, intervals, n, 0)
        &&& cells_hold(self.end_counts@, Tally::EndsAt, intervals, n, 0)
    }

    spec fn within(&self, count: int) -> bool {
        &&& cells_within(self.span_counts@, count)
        &&& cells_within(self.start_sums@, count * 0x1_0000_0000)
        &&& cells_within(self.capped_start_sums@, count * 0x1_0000_0000)
        &&& cells_within(self.end_sums@, count * 0x1_0000_0000)
        &&& cells_within(self.raised_end_sums@, count * 0x1_0000_0000)
        &&& cells_within(self.start_counts@, count)
        &&& cells_within(self.end_counts@, count)
    }
}

/// Tallies the intervals by span, by start and by end.
fn fill_buckets(intervals: &Vec<(usize, usize)>, n: usize) -> (buckets: Buckets)
    requires
        n <= MAX_BURST_ALLOCATIONS,
        intervals@.len() <= MAX_BURST_ALLOCATIONS,
        valid_intervals(as_nat_pairs(intervals@), n as nat),
    ensures
        buckets.holds(as_nat_pairs(intervals@), n as nat),
        buckets.within(intervals@.len() as int),
{
    let ghost all = as_nat_pairs(intervals@);
    let mut buckets = Buckets {
        span_counts: vec![0i128; n],
        start_sums: vec![0i128; n],
        capped_start_sums: vec![0i128; n],
        end_sums: vec![0i128; n],
        raised_end_sums: vec![0i128; n],
        start_counts: vec![0i128; n],
        end_counts: vec![0i128; n],
    };
    let mut i: usize = 0;
    while i < intervals.len()
        invariant
            i <= intervals@.len(),
            n <= MAX_BURST_ALLOCATIONS,
            intervals@.len() <= MAX_BURST_ALLOCATIONS,
            all == as_nat_pairs(intervals@),
            valid_intervals(all, n as nat),
            buckets.holds(all.take(i as int), n as nat),
            buckets.within(i as int),
        decreases intervals@.len() - i,
    {
        let (start, end) = intervals[i];
        let ghost p = (start as nat, end as nat);
        let ghost before = all.take(i as int);
        let ghost old_buckets = buckets;
        proof {
            assert(all[i as int] == p);
            assert(valid_interval(p, n as nat));
            assert(all.take(i + 1) =~= before.push(p));
            assert forall|tally: Tally, key: int|
                #[trigger] tally_of(tally, all.take(i + 1), n as nat, key) == tally_of(
                    tally,
                    before,
                    n as nat,
                    key,
                ) + weight(tally, p, n as nat, key) by {
                lemma_tally_push(tally, before, p, n as nat, key);
            }
        }
        let length: usize = end - start + 1;
        let cell: usize = length - 1;
        let capped_start: usize = if n - length < start {
            n - length
        } else {
            start
        };
        let raised_end: usize = if length > end {
            length
        } else {
            end
        };
        buckets.span_counts[cell] = buckets.span_counts[cell] + 1;
        buckets.start_sums[cell] = buckets.start_sums[cell] + start as i128;
        buckets.capped_start_sums[cell] = buckets.capped_start_sums[cell] + capped_start as i128;
        buckets.end_sums[cell] = buckets.end_sums[cell] + end as i128;
        buckets.raised_end_sums[cell] = buckets.raised_end_sums[cell] + raised_end as i128;
        if start < n {
            buckets.start_counts[start] = buckets.start_counts[start] + 1;
        }
        if end < n {
            buckets.end_counts[end] = buckets.end_counts[end] + 1;
        }
        i = i + 1;
    }
    proof {
        assert(all.take(i as int) =~= all);
    }
    buckets
}

/// A tally to which each interval adds between zero and `cap` lies between
/// zero and `cap` times the number of intervals.
proof fn lemma_tally_bound(tally: Tally, key: int, intervals: Seq<(nat, nat)>, n: nat, cap: int)
    requires
        valid_intervals(intervals, n),
        forall|p: (nat, nat)|
            valid_interval(p, n) ==> 0 <= #[trigger] weight(tally, p, n, key) <= cap,
    ensures
        0 <= tally_of(tally, intervals, n, key) <= intervals.len() * cap,
    decreases intervals.len(),
{
    if intervals.len() > 0 {
        assert(valid_interval(intervals.last(), n));
        lemma_tally_bound(tally, key, intervals.drop_last(), n, cap);
        assert((intervals.len() - 1) * cap + cap == intervals.len() * cap) by (nonlinear_arith);
    }
}

/// The running counts: of late starts, of early ends and of short spans.
struct Prefixes {
    late_starts: Vec<i128>,
    early_ends: Vec<i128>,
    short_spans: Vec<i128>,
}

impl Prefixes {
    spec fn holds_below(&self, intervals: Seq<(nat, nat)>, n: nat, filled: int) -> bool {
        &&& self.late_starts@.len() == n
        &&& self.early_ends@.len() == n
        &&& self.short_spans@.len() == n
        &&& forall|j: int|
            0 <= j < filled ==> #[trigger] self.late_starts@[j] == tally_of(
                Tally::LateStarts,
                intervals,
                n,
                j,
            )
        &&& forall|j: int|
            0 <= j < filled ==> #[trigger] self.early_ends@[j] == tally_of(
                Tally::EarlyEnds,
                intervals,
                n,
                j,
            )
        &&& forall|j: int|
            0 <= j < filled ==> #[trigger] self.short_spans@[j] == tally_of(
                Tally::ShortSpans,
                intervals,
                n,
                j + 1,
            )
    }
}

/// Sums the tallies by start, by end and by span into running counts.
fn running_counts(
    buckets: &Buckets,
    n: usize,
    Ghost(intervals): Ghost<Seq<(nat, nat)>>,
) -> (prefixes: Prefixes)
    requires
        n <= MAX_BURST_ALLOCATIONS,
        intervals.len() <= MAX_BURST_ALLOCATIONS,
        valid_intervals(intervals, n as nat),
        buckets.holds(intervals, n as nat),
    ensures
        prefixes.holds_below(intervals, n as nat, n as int),
{
    let mut prefixes = Prefixes {
        late_starts: vec![0i128; n],
        early_ends: vec![0i128; n],
        short_spans: vec![0i128; n],
    };
    if n == 0 {
        return prefixes;
    }
    prefixes.short_spans[0] = buckets.span_counts[0];
    proof {
        lemma_tally_none(Tally::LateStarts, 0, intervals, n as nat);
        lemma_tally_none(Tally::EarlyEnds, 0, intervals, n as nat);
        lemma_tally_none(Tally::ShortSpans, 0, intervals, n as nat);
        lemma_tally_split(
            (Tally::ShortSpans, 1),
            (Tally::ShortSpans, 0),
            (Tally::Spans, 1),
            intervals,
            n as nat,
        );
    }
    let mut i: usize = 1;
    while i < n
        invariant
            1 <= i <= n <= MAX_BURST_ALLOCATIONS,
            intervals.len() <= MAX_BURST_ALLOCATIONS,
            valid_intervals(intervals, n as nat),
            buckets.holds(intervals, n as nat),
            prefixes.holds_below(intervals, n as nat, i as int),
        decreases n - i,
    {
        proof {
            lemma_tally_split(
                (Tally::LateStarts, i as int),
                (Tally::LateStarts, i - 1),
                (Tally::StartsAt, n - i),
                intervals,
                n as nat,
            );
            lemma_tally_split(
                (Tally::EarlyEnds, i as int),
                (Tally::EarlyEnds, i - 1),
                (Tally::EndsAt, i as int),
                intervals,
                n as nat,
            );
            lemma_tally_split(
                (Tally::ShortSpans, i + 1),
                (Tally::ShortSpans, i as int),
                (Tally::Spans, i + 1),
                intervals,
                n as nat,
            );
            lemma_tally_bound(Tally::LateStarts, i as int, intervals, n as nat, 1);
            lemma_tally_bound(Tally::EarlyEnds, i as int, intervals, n as nat, 1);
            lemma_tally_bound(Tally::ShortSpans, i + 1, intervals, n as nat, 1);
            lemma_tally_bound(Tally::LateStarts, i - 1, intervals, n as nat, 1);
            lemma_tally_bound(Tally::EarlyEnds, i - 1, intervals, n as nat, 1);
            lemma_tally_bound(Tally::ShortSpans, i as int, intervals, n as nat, 1);
            lemma_tally_bound(Tally::StartsAt, n - i, intervals, n as nat, 1);
            lemma_tally_bound(Tally::EndsAt, i as int, intervals, n as nat, 1);
            lemma_tally_bound(Tally::Spans, i + 1, intervals, n as nat, 1);
        }
        prefixes.late_starts[i] = prefixes.late_starts[i - 1] + buckets.start_counts[n - i];
        prefixes.early_ends[i] = prefixes.early_ends[i - 1] + buckets.end_counts[i];
        prefixes.short_spans[i] = prefixes.short_spans[i - 1] + buckets.span_counts[i];
        i = i + 1;
    }
    prefixes
}

/// The numerators of the reuse for the window lengths 1 to `allocations`,
/// from the free intervals of a burst, each under its window length.
fn reuse_numerators(intervals: &Vec<(usize, usize)>, allocations: usize) -> (numerators: HashMap<
    usize,
    i128,
>)
    requires
        allocations <= MAX_BURST_ALLOCATIONS,
        intervals@.len() <= MAX_BURST_ALLOCATIONS,
        valid_intervals(as_nat_pairs(intervals@), allocations as nat),
    ensures
        forall|k: usize| #[trigger] numerators@.contains_key(k) <==> 1 <= k <= allocations,
        forall|k: usize|
            1 <= k <= allocations ==> #[trigger] numerators@[k] == reuse_numerator(
                as_nat_pairs(intervals@),
                allocations as nat,
                k as int,
            ),
        forall|k: usize|
            1 <= k <= allocations ==> -MAX_NUMERATOR <= #[trigger] numerators@[k]
                <= MAX_NUMERATOR,
{
    broadcast use vstd::std_specs::hash::group_hash_axioms;

    let n = allocations;
    let ghost all = as_nat_pairs(intervals@);
    let ghost count = intervals@.len() as int;
    let buckets = fill_buckets(intervals, n);
    let prefixes = running_counts(&buckets, n, Ghost(all));
    let mut numerators: HashMap<usize, i128> = HashMap::new();
    if n == 0 {
        return numerators;
    }
    let mut x: i128 = buckets.start_sums[0];
    let mut y: i128 = buckets.end_sums[0];
    let mut z: i128 = buckets.span_counts[0];
    numerators.insert(1, x + z - y);
    let mut i: usize = 1;
    while i < n
        invariant
            1 <= i <= n <= MAX_BURST_ALLOCATIONS,
            0 <= count <= MAX_BURST_ALLOCATIONS,
            all.len() == count,
            valid_intervals(all, n as nat),
            buckets.holds(all, n as nat),
            buckets.within(count),
            prefixes.holds_below(all, n as nat, n as int),
            x == window_x(all, n as nat, i as int),
            y == window_y(all, n as nat, i as int),
            z == window_z(all, n as nat, i as int),
            -i * 0x2_0000_0000_0000_0000 <= x <= i * 0x2_0000_0000_0000_0000,
            0 <= y <= i * 0x2_0000_0000_0000_0000,
            0 <= z <= i * 0x2_0000_0000_0000_0000,
            forall|k: usize| #[trigger] numerators@.contains_key(k) <==> 1 <= k <= i,
            forall|k: usize|
                1 <= k <= i ==> #[trigger] numerators@[k] == reuse_numerator(
                    all,
                    n as nat,
                    k as int,
                ),
            forall|k: usize|
                1 <= k <= i ==> -MAX_NUMERATOR <= #[trigger] numerators@[k] <= MAX_NUMERATOR,
        decreases n - i,
    {
        let k: i128 = i as i128 + 1;
        let spans: i128 = buckets.span_counts[i];
        proof {
            lemma_tally_bound(Tally::LateStarts, i as int, all, n as nat, 1);
            lemma_tally_bound(Tally::EarlyEnds, i - 1, all, n as nat, 1);
            lemma_tally_bound(Tally::ShortSpans, i as int, all, n as nat, 1);
            assert(0 <= k * spans <= 0x1_0000_0000_0000_0000) by (nonlinear_arith)
                requires
                    0 <= k <= 0x1_0000_0000,
                    0 <= spans <= 0x1_0000_0000,
            ;
        }
        x = x + buckets.capped_start_sums[i] - prefixes.late_starts[i];
        y = y + prefixes.early_ends[i - 1] + buckets.raised_end_sums[i];
        z = z + prefixes.short_spans[i - 1] + k * spans;
        numerators.insert(i + 1, x + z - y);
        i = i + 1;
    }
    numerators
}

/// The reuse of a finished burst, by window length: the numerator of every
/// window length from 1 to the number of allocations of the burst, under
/// that window length.
pub struct ReuseTable {
    allocations: usize,
    numerators: HashMap<usize, i128>,
}

impl ReuseTable {
    #[verifier::type_invariant]
    spec fn bounded(&self) -> bool {
        &&& self.allocations <= MAX_BURST_ALLOCATIONS
        &&& forall|k: usize| #[trigger]
            self.numerators@.contains_key(k) <==> 1 <= k <= self.allocations
        &&& forall|k: usize|
            1 <= k <= self.allocations ==> -MAX_NUMERATOR <= #[trigger] self.numerators@[k]
                <= MAX_NUMERATOR
    }
}

impl View for ReuseTable {
    type V = Seq<int>;

    /// The numerators for the window lengths 1, 2, and so on.
    closed spec fn view(&self) -> Seq<int> {
        Seq::new(self.allocations as nat, |i: int| self.numerators@[(i + 1) as usize] as int)
    }
}

impl ReuseTable {
    /// The number of allocations of the burst, which is the largest window
    /// length of the table.
    pub fn allocations(&self) -> (n: usize)
        ensures
            n == self@.len(),
    {
        self.allocations
    }

    /// The reuse at window length `k`: the numerator over the number of
    /// windows of that length, and zero for a length that the table does
    /// not hold.
    pub fn get(&self, k: usize) -> (ratio: Ratio)
        ensures
            (ratio.numerator as int, ratio.denominator as int) == table_entry(self@, k as int),
            1 <= ratio.denominator <= MAX_BURST_ALLOCATIONS,
            -MAX_NUMERATOR <= ratio.numerator <= MAX_NUMERATOR,
    {
        broadcast use vstd::std_specs::hash::group_hash_axioms;

        proof {
            use_type_invariant(self);
        }
        match self.numerators.get(&k) {
            Some(numerator) => {
                assert(self.numerators@.contains_key(k));
                Ratio { numerator: *numerator, denominator: (self.allocations - k + 1) as u64 }
            },
            None => {
                assert(!self.numerators@.contains_key(k));
                Ratio::zero()
            },
        }
    }
}

/// The reuse table of the burst `trace`; `None` for a burst of more than
/// `MAX_BURST_ALLOCATIONS` allocations.
pub fn reuse(trace: &Trace) -> (table: Option<ReuseTable>)
    ensures
        table is Some <==> alloc_count(trace@) <= MAX_BURST_ALLOCATIONS,
        table matches Some(t) ==> t@ == reuse_table_of(trace@),
{
    let n = trace.alloc_length();
    if n > MAX_BURST_ALLOCATIONS {
        return None;
    }
    let intervals = trace.free_intervals();
    proof {
        lemma_trace_intervals_valid(trace@);
        assert(as_nat_pairs(intervals@).len() == intervals@.len());
    }
    let numerators = reuse_numerators(&intervals, n);
    let table = ReuseTable { allocations: n, numerators };
    proof {
        assert(table@ =~= reuse_table_of(trace@));
    }
    Some(table)
}

} // verus!
