use apfmalloc::apf::histogram::Histogram;
use apfmalloc::apf::liveness_counter::LivenessCounter;
use apfmalloc::apf::reuse::reuse;
use apfmalloc::apf::reuse_counter::ReuseCounter;
use apfmalloc::apf::trace::{Event, Trace};
use apfmalloc::ratio::Ratio;

fn as_f32(ratio: Ratio) -> f32 {
    ratio.numerator as f32 / ratio.denominator as f32
}

fn burst() -> Vec<Event> {
    vec![
        Event::Alloc(1),
        Event::Alloc(2),
        Event::Free(1),
        Event::Alloc(1),
        Event::Free(2),
        Event::Alloc(2),
        Event::Free(1),
        Event::Alloc(3),
        Event::Alloc(1),
    ]
}

// Example from section 3.3
#[test]
fn test_liveness_counter() {
    let mut lc = LivenessCounter::new();
    lc.on_alloc(); // a1
    lc.inc_timer();
    lc.on_alloc(); // a2
    lc.inc_timer();
    lc.on_alloc(); // a3
    lc.inc_timer();
    lc.free(); // f1
    lc.inc_timer();
    lc.free(); // f2
    lc.inc_timer();
    lc.free(); // f3

    assert_eq!(as_f32(lc.liveness(1)), 2.0);
    assert_eq!(lc.liveness(1), Ratio { numerator: 12, denominator: 6 });
}

#[test]
fn liveness_with_all_frees_in_one_timestep() {
    let mut lc = LivenessCounter::new();
    lc.on_alloc();
    lc.inc_timer();
    lc.on_alloc();
    lc.inc_timer();
    lc.on_alloc();
    lc.inc_timer();
    lc.free();
    lc.free();
    lc.free();

    assert_eq!(lc.clock(), 4);
    assert_eq!(lc.allocations(), 3);
    assert_eq!(lc.frees(), 3);
    assert_eq!(lc.alloc_time_sum(), 1 + 2 + 3);
    assert_eq!(lc.free_time_sum(), 4 + 4 + 4);
    assert_eq!(lc.liveness(1), Ratio { numerator: 9, denominator: 4 });
    assert_eq!(as_f32(lc.liveness(1)), 2.25);
}

#[test]
fn liveness_of_the_empty_window() {
    let mut lc = LivenessCounter::new();
    lc.on_alloc();
    lc.inc_timer();
    lc.on_alloc();
    // clock 2, allocations at 1 and 2: (2 * 3 + 0) - (0 + 3 - 0) + 0 over 3 windows
    assert_eq!(lc.liveness(0), Ratio { numerator: 3, denominator: 3 });
    // window 2: one window; (2 * 1 + 0) - (2 * 2 + 3 - 3) + 4
    assert_eq!(lc.liveness(2), Ratio { numerator: 2, denominator: 1 });
}

#[test]
fn liveness_can_be_negative() {
    let mut lc = LivenessCounter::new();
    lc.free();
    lc.free();
    // no allocation, two frees at 1: ((0 - 2) * 1 + 2) - 0 + 0
    assert_eq!(lc.liveness(1), Ratio { numerator: 0, denominator: 1 });
    lc.inc_timer();
    // clock 2, window 1: i = 2, ((0 - 2) * 2 + 2) = -2
    assert_eq!(lc.liveness(1), Ratio { numerator: -2, denominator: 2 });
}

#[test]
fn new_liveness_counter_starts_at_one() {
    let lc = LivenessCounter::new();
    assert_eq!(lc.clock(), 1);
    assert_eq!(lc.allocations(), 0);
    assert_eq!(lc.frees(), 0);
    assert_eq!(lc.liveness(1), Ratio { numerator: 0, denominator: 1 });
}

#[test]
fn test_reuse_counter() {
    let mut rc = ReuseCounter::new(6, 18);
    rc.on_alloc(1);
    rc.inc_timer();
    rc.on_alloc(2);
    rc.inc_timer();
    rc.free(1);
    rc.on_alloc(1);
    rc.inc_timer();
    rc.free(2);
    rc.on_alloc(2);
    rc.inc_timer();
    rc.free(1);
    rc.on_alloc(3);
    rc.inc_timer();
    rc.on_alloc(1);
    rc.inc_timer();

    rc.free(1);
    rc.free(3);
    rc.on_alloc(3);
    rc.inc_timer();

    assert_eq!(rc.reuse(4).map(as_f32), Some(7.0 / 3.0));
    assert_eq!(rc.reuse(4), Some(Ratio { numerator: 7, denominator: 3 }));
}

#[test]
fn reuse_counter_has_nothing_before_its_first_burst() {
    let mut rc = ReuseCounter::new(3, 2);
    assert!(rc.sampling());
    assert_eq!(rc.reuse(1), None);
    rc.on_alloc(7);
    rc.inc_timer();
    rc.inc_timer();
    assert!(rc.sampling());
    assert_eq!(rc.reuse(1), None);
    rc.inc_timer();
    assert!(!rc.sampling());
    assert_eq!(rc.reuse(1), Some(Ratio { numerator: 0, denominator: 1 }));
    // a length that the table does not hold
    assert_eq!(rc.reuse(0), Some(Ratio { numerator: 0, denominator: 1 }));
    assert_eq!(rc.reuse(2), Some(Ratio { numerator: 0, denominator: 1 }));
}

#[test]
fn reuse_counter_rests_and_samples_again() {
    let mut rc = ReuseCounter::new(1, 2);
    rc.on_alloc(1);
    rc.free(1);
    rc.inc_timer();
    assert!(!rc.sampling());
    // one interval (1, 1): X(1) = 1, Y(1) = 1, Z(1) = 1
    assert_eq!(rc.reuse(1), Some(Ratio { numerator: 1, denominator: 1 }));
    // ignored while resting
    rc.on_alloc(2);
    rc.inc_timer();
    assert!(!rc.sampling());
    rc.inc_timer();
    assert!(rc.sampling());
    // the table stays until the next burst is over
    assert_eq!(rc.reuse(1), Some(Ratio { numerator: 1, denominator: 1 }));
    rc.on_alloc(3);
    rc.on_alloc(4);
    rc.inc_timer();
    assert!(!rc.sampling());
    assert_eq!(rc.reuse(1), Some(Ratio { numerator: 0, denominator: 2 }));
    assert_eq!(rc.reuse(2), Some(Ratio { numerator: 0, denominator: 1 }));
}

#[test]
fn reuse_table_of_the_burst() {
    let mut trace = Trace::new();
    trace.extend(burst());
    let table = reuse(&trace).unwrap();
    assert_eq!(table.allocations(), 6);
    assert_eq!(table.get(1), Ratio { numerator: 0, denominator: 6 });
    assert_eq!(table.get(2), Ratio { numerator: 3, denominator: 5 });
    assert_eq!(table.get(3), Ratio { numerator: 6, denominator: 4 });
    assert_eq!(table.get(4), Ratio { numerator: 7, denominator: 3 });
    assert_eq!(table.get(5), Ratio { numerator: 6, denominator: 2 });
    assert_eq!(table.get(6), Ratio { numerator: 3, denominator: 1 });
    assert_eq!(table.get(7), Ratio { numerator: 0, denominator: 1 });
    assert_eq!(table.get(0), Ratio { numerator: 0, denominator: 1 });
}

#[test]
fn reuse_table_can_hold_negative_numerators() {
    let mut trace = Trace::new();
    // intervals (1, 1) and (2, 2) of two allocations
    trace.extend(vec![Event::Alloc(1), Event::Free(1), Event::Alloc(2), Event::Free(2)]);
    let table = reuse(&trace).unwrap();
    assert_eq!(table.allocations(), 2);
    // X(1) = 3, Y(1) = 3, Z(1) = 2
    assert_eq!(table.get(1), Ratio { numerator: 2, denominator: 2 });
    // X(2) = 3 - 1, Y(2) = 3 + 0, Z(2) = 2 + 2
    assert_eq!(table.get(2), Ratio { numerator: 3, denominator: 1 });

    let mut late = Trace::new();
    // interval (2, 3) of three allocations
    late.extend(vec![Event::Alloc(1), Event::Alloc(2), Event::Alloc(3), Event::Free(2)]);
    let table = reuse(&late).unwrap();
    // X(2) = 0 + min(1, 2) - 1 = 0, Y(2) = 0 + 0 + max(2, 3) = 3, Z(2) = 0 + 0 + 2
    assert_eq!(table.get(2), Ratio { numerator: -1, denominator: 2 });
}

#[test]
fn reuse_table_of_an_empty_trace() {
    let trace = Trace::new();
    let table = reuse(&trace).unwrap();
    assert_eq!(table.allocations(), 0);
    assert_eq!(table.get(1), Ratio { numerator: 0, denominator: 1 });
}

#[test]
fn trace_counts_and_intervals() {
    let mut trace = Trace::new();
    assert_eq!(trace.length(), 0);
    trace.extend(burst());
    assert_eq!(trace.length(), 9);
    assert_eq!(trace.get(2), Event::Free(1));
    assert_eq!(trace.alloc_length(), 6);
    assert_eq!(trace.free_intervals(), vec![(1, 2), (2, 3), (3, 4)]);
    trace.add(Event::Free(1));
    trace.add(Event::Free(5));
    trace.add(Event::Free(1));
    assert_eq!(trace.alloc_length(), 6);
    assert_eq!(trace.free_intervals(), vec![(1, 2), (2, 3), (3, 4), (6, 6)]);
}

#[test]
fn trace_takes_the_latest_allocation_of_a_slot() {
    let mut trace = Trace::new();
    trace.add(Event::Free(9));
    trace.add(Event::Alloc(9));
    trace.add(Event::Alloc(4));
    trace.add(Event::Alloc(9));
    trace.add(Event::Free(9));
    trace.add(Event::Free(4));
    assert_eq!(trace.free_intervals(), vec![(3, 3), (2, 3)]);
    assert_eq!(trace.alloc_length(), 3);
}

#[test]
fn histogram_adds_and_defaults() {
    let mut histogram = Histogram::new();
    assert_eq!(histogram.get(3), 0);
    histogram.increment(3);
    histogram.add(3, 4);
    histogram.add(5, 0);
    assert_eq!(histogram.get(3), 5);
    assert_eq!(histogram.get(5), 0);
    assert_eq!(histogram.get(4), 0);
}
