use apfmalloc::apf::constants::{
    REUSE_BURST_LENGTH, REUSE_HIBERNATION_PERIOD, TARGET_APF, USE_ALLOCATION_CLOCK,
};
use apfmalloc::apf::tuner::record_lines;
use apfmalloc::apf::ApfTuner;
use apfmalloc::ratio::Mixed;
use std::cell::{Cell, RefCell};
use std::rc::Rc;

fn run_burst<C, G, R>(tuner: &mut ApfTuner<C, G, R>)
where
    C: Fn(usize) -> u32,
    G: Fn(usize, usize) -> bool,
    R: Fn(usize, u32) -> bool,
{
    assert!(tuner.malloc(1));
    assert!(tuner.malloc(2));
    assert!(!tuner.free(1));
    assert!(tuner.malloc(1));
    assert!(!tuner.free(2));
    assert!(tuner.malloc(2));
    assert!(!tuner.free(1));
    assert!(tuner.malloc(3));
    assert!(tuner.malloc(1));
}

#[test]
fn tuner_settings_are_sane() {
    assert!(TARGET_APF > 0);
    assert!(REUSE_BURST_LENGTH > 0);
    assert!(REUSE_HIBERNATION_PERIOD >= REUSE_BURST_LENGTH);
    assert!(USE_ALLOCATION_CLOCK);
    assert_eq!(apfmalloc::apf::TARGET_APF, TARGET_APF);
}

#[test]
fn tuner_does_not_fetch_without_a_table() {
    let fetched = Rc::new(Cell::new(0usize));
    let seen = fetched.clone();
    let mut tuner = ApfTuner::new(
        3,
        |_id: usize| 0u32,
        move |_id: usize, amount: usize| {
            seen.set(seen.get() + amount + 1);
            true
        },
        |_id: usize, _amount: u32| true,
        true,
    );
    assert!(!tuner.malloc(0x100));
    assert!(!tuner.malloc(0x200));
    assert!(!tuner.free(0x100));
    assert_eq!(fetched.get(), 0);
    assert_eq!(tuner.record(), Some(vec![]));
    assert_eq!(tuner.fetch_amount(), None);
    assert_eq!(tuner.demand(1), None);
}

#[test]
fn tuner_fetches_the_demand_rounded_up() {
    let free_blocks = Rc::new(Cell::new(5u32));
    let gets = Rc::new(RefCell::new(Vec::new()));
    let rets = Rc::new(RefCell::new(Vec::new()));
    let (blocks, got, returned) = (free_blocks.clone(), gets.clone(), rets.clone());
    let mut tuner = ApfTuner::with_settings(
        7,
        move |id: usize| {
            assert_eq!(id, 7);
            blocks.get()
        },
        move |id: usize, amount: usize| {
            got.borrow_mut().push((id, amount));
            true
        },
        move |id: usize, amount: u32| {
            returned.borrow_mut().push((id, amount));
            true
        },
        true,
        4,
        6,
        18,
        true,
    );
    run_burst(&mut tuner);
    assert!(gets.borrow().is_empty());
    assert!(rets.borrow().is_empty());

    // time 6, no fetch yet: the window is the target, and the demand is 4 - 7/3
    assert_eq!(tuner.calculate_dapf(), 4);
    assert_eq!(tuner.demand(4), Some(Mixed { whole: 1, part: 2, denominator: 3 }));
    assert_eq!(tuner.demand(7), None);
    assert_eq!(tuner.fetch_amount(), Some(2));

    free_blocks.set(0);
    assert!(tuner.malloc(9));
    assert_eq!(*gets.borrow(), vec![(7, 2)]);
    assert_eq!(tuner.record(), Some(vec![(7, 4)]));

    // time 7, one fetch: the window is 2 * 4 - 7, and the demand is 1 - 0/6
    assert_eq!(tuner.calculate_dapf(), 1);
    assert_eq!(tuner.demand(1), Some(Mixed { whole: 1, part: 0, denominator: 6 }));
    assert_eq!(tuner.return_amount(2), None);
    assert_eq!(tuner.return_amount(3), Some(2));

    free_blocks.set(2);
    assert!(tuner.free(9));
    assert!(rets.borrow().is_empty());
    free_blocks.set(3);
    assert!(tuner.free(9));
    assert_eq!(*rets.borrow(), vec![(7, 2)]);
}

#[test]
fn tuner_set_id_reaches_the_callbacks() {
    let asked = Rc::new(Cell::new(0usize));
    let seen = asked.clone();
    let mut tuner = ApfTuner::new(
        1,
        move |id: usize| {
            seen.set(id);
            1u32
        },
        |_id: usize, _amount: usize| true,
        |_id: usize, _amount: u32| true,
        false,
    );
    tuner.set_id(12);
    assert!(tuner.malloc(0x10));
    assert_eq!(asked.get(), 12);
    assert_eq!(tuner.record(), None);
}

#[test]
fn tuner_on_the_event_clock() {
    let gets = Rc::new(RefCell::new(Vec::new()));
    let got = gets.clone();
    let free_blocks = Rc::new(Cell::new(1u32));
    let blocks = free_blocks.clone();
    let mut tuner = ApfTuner::with_settings(
        0,
        move |_id: usize| blocks.get(),
        move |_id: usize, amount: usize| {
            got.borrow_mut().push(amount);
            true
        },
        |_id: usize, _amount: u32| true,
        false,
        1,
        2,
        100,
        false,
    );
    assert!(tuner.malloc(1));
    free_blocks.set(0);
    // the burst ends with this allocation; liveness(1) = 3/3, liveness(0) = 3/4, reuse(1) = 0/2
    assert!(tuner.malloc(2));
    assert_eq!(*gets.borrow(), vec![1]);
    assert_eq!(tuner.demand(1), Some(Mixed { whole: 0, part: 6, denominator: 24 }));
    assert_eq!(tuner.demand(3), None);
}

#[test]
fn tuner_fetches_at_most_twice_per_target_period() {
    let fetches = Rc::new(Cell::new(0usize));
    let counted = fetches.clone();
    let target = 5usize;
    let mut tuner = ApfTuner::with_settings(
        0,
        |_id: usize| 0u32,
        move |_id: usize, _amount: usize| {
            counted.set(counted.get() + 1);
            true
        },
        |_id: usize, _amount: u32| true,
        true,
        target,
        3,
        4,
        true,
    );
    let periods = 40usize;
    for event in 0..periods * target {
        let slot = 0x1000 + 8 * (event % 7);
        tuner.malloc(slot);
        tuner.free(slot);
        let time = event + 1;
        assert!(target * fetches.get() <= 2 * time);
    }
    // a cache that is always dry reaches the bound: two fetches to a period
    assert_eq!(fetches.get(), 2 * periods);
    assert_eq!(tuner.record().unwrap().len(), fetches.get());
}

#[test]
fn record_lines_span_the_windows() {
    assert_eq!(record_lines(&vec![]), vec![]);
    assert_eq!(
        record_lines(&vec![(7, 4), (12, 1), (std::usize::MAX, 2)]),
        vec![(7, 11, 1), (12, 13, 2), (std::usize::MAX as u128, std::usize::MAX as u128 + 2, 3)]
    );
}

#[test]
fn tuner_beside_a_cache_keeps_to_the_schedule() {
    // a cache that takes what is fetched and gives one block to every allocation
    for (target, burst, periods, expected) in
        [(5usize, 3usize, 40usize, 41usize), (5, 50, 40, 49), (10, 100, 160, 167)]
    {
        let blocks = Rc::new(Cell::new(0usize));
        let fetches = Rc::new(Cell::new(0usize));
        let (held, stocked, counted) = (blocks.clone(), blocks.clone(), fetches.clone());
        let mut tuner = ApfTuner::with_settings(
            0,
            move |_id: usize| held.get().min(u32::MAX as usize) as u32,
            move |_id: usize, amount: usize| {
                stocked.set(stocked.get() + amount);
                counted.set(counted.get() + 1);
                true
            },
            |_id: usize, _amount: u32| true,
            false,
            target,
            burst,
            4,
            true,
        );
        for event in 0..periods * target {
            let slot = 0x1000 + 8 * event;
            tuner.malloc(slot);
            if blocks.get() > 0 {
                blocks.set(blocks.get() - 1);
            }
            tuner.free(slot);
            assert!(target * fetches.get() <= (event + 1) + burst + target);
        }
        assert_eq!(fetches.get(), expected);
    }
}
