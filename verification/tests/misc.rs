use apfmalloc::mem_info::{
    align_val, CACHE_LINE, CACHE_LINE_MASK, HUGE_PAGE, LG_CACHE_LINE, LG_HUGE_PAGE, LG_PAGE,
    LG_PTR, MAX_SZ, MAX_SZ_IDX, MIN_ALIGN, PAGE, PAGE_MASK, PTR_MASK, PTR_SIZE,
};
use apfmalloc::ratio::{Mixed, Ratio};
use apfmalloc::thread_cache::ThreadCacheBin;

#[test]
fn constants_fit_together() {
    assert_eq!(MAX_SZ_IDX, 40);
    assert_eq!(MAX_SZ, (1 << 13) + (1 << 11) * 3);
    assert_eq!(PTR_SIZE, 1 << LG_PTR);
    assert_eq!(CACHE_LINE, 1 << LG_CACHE_LINE);
    assert_eq!(PAGE, 1 << LG_PAGE);
    assert_eq!(HUGE_PAGE, 1 << LG_HUGE_PAGE);
    assert_eq!(PTR_MASK, PTR_SIZE - 1);
    assert_eq!(CACHE_LINE_MASK, CACHE_LINE - 1);
    assert_eq!(PAGE_MASK, PAGE - 1);
    assert_eq!(MIN_ALIGN, LG_PTR);
}

#[test]
fn align_val_rounds_up() {
    assert_eq!(align_val(0, 8), Some(0));
    assert_eq!(align_val(1, 8), Some(8));
    assert_eq!(align_val(8, 8), Some(8));
    assert_eq!(align_val(9, 8), Some(16));
    assert_eq!(align_val(10, 3), Some(12));
    assert_eq!(align_val(std::usize::MAX, 1), Some(std::usize::MAX));
    assert_eq!(align_val(std::usize::MAX, 2), None);
    assert_eq!(align_val(std::usize::MAX - 7, 8), Some(std::usize::MAX - 7));
}

#[test]
fn ratio_as_mixed_number() {
    let mixed = Ratio { numerator: 7, denominator: 3 }.to_mixed();
    assert_eq!(mixed, Mixed { whole: 2, part: 1, denominator: 3 });
    let mixed = Ratio { numerator: -7, denominator: 3 }.to_mixed();
    assert_eq!(mixed, Mixed { whole: -3, part: 2, denominator: 3 });
    let mixed = Ratio { numerator: -6, denominator: 3 }.to_mixed();
    assert_eq!(mixed, Mixed { whole: -2, part: 0, denominator: 3 });
    let mixed = Ratio { numerator: 0, denominator: 5 }.to_mixed();
    assert_eq!(mixed, Mixed { whole: 0, part: 0, denominator: 5 });
    assert_eq!(Ratio::zero(), Ratio { numerator: 0, denominator: 1 });
}

#[test]
fn mixed_number_rounds_up_into_usize() {
    assert_eq!(Mixed { whole: 1, part: 2, denominator: 3 }.ceil_to_usize(), 2);
    assert_eq!(Mixed { whole: 1, part: 0, denominator: 3 }.ceil_to_usize(), 1);
    assert_eq!(Mixed { whole: -1, part: 2, denominator: 3 }.ceil_to_usize(), 0);
    assert_eq!(Mixed { whole: -4, part: 0, denominator: 3 }.ceil_to_usize(), 0);
    assert_eq!(
        Mixed { whole: std::usize::MAX as i128, part: 1, denominator: 3 }.ceil_to_usize(),
        std::usize::MAX
    );
    assert_eq!(
        Mixed { whole: std::usize::MAX as i128 - 1, part: 1, denominator: 3 }.ceil_to_usize(),
        std::usize::MAX
    );
    assert!(Mixed { whole: -1, part: 2, denominator: 3 }.is_negative());
    assert!(!Mixed { whole: 0, part: 0, denominator: 3 }.is_negative());
}

#[test]
fn mixed_number_against_a_count() {
    // 5/3: twice and one is 13/3
    let demand = Mixed { whole: 1, part: 2, denominator: 3 };
    assert!(!demand.twice_and_one_fit(4));
    assert!(demand.twice_and_one_fit(5));
    // 3/2: twice and one is 4
    let demand = Mixed { whole: 1, part: 1, denominator: 2 };
    assert!(!demand.twice_and_one_fit(3));
    assert!(demand.twice_and_one_fit(4));
    // 2: twice and one is 5
    let demand = Mixed { whole: 2, part: 0, denominator: 7 };
    assert!(!demand.twice_and_one_fit(4));
    assert!(demand.twice_and_one_fit(5));
    assert!(demand.twice_and_one_fit(6));
    // 0
    let demand = Mixed { whole: 0, part: 0, denominator: 1 };
    assert!(!demand.twice_and_one_fit(0));
    assert!(demand.twice_and_one_fit(1));
}

#[test]
fn bin_pushes_and_pops_blocks() {
    let mut bin = ThreadCacheBin::new();
    assert_eq!(bin.peek_block(), 0);
    assert_eq!(bin.get_block_num(), 0);
    // the word to write into the pushed block is the old head
    assert_eq!(bin.push_block(0x1000), 0);
    assert_eq!(bin.push_block(0x2000), 0x1000);
    assert_eq!(bin.peek_block(), 0x2000);
    assert_eq!(bin.get_block_num(), 2);
    // the word read from the popped block, marked in its lowest bit
    assert_eq!(bin.pop_block(0x1001), 0x2000);
    assert_eq!(bin.peek_block(), 0x1000);
    assert_eq!(bin.get_block_num(), 1);
    assert_eq!(bin.pop_block(0), 0x1000);
    assert_eq!(bin.peek_block(), std::usize::MAX);
    assert_eq!(bin.get_block_num(), 0);
}

#[test]
fn bin_takes_and_loses_lists() {
    let mut bin = ThreadCacheBin::new();
    bin.push_list(0x8000, 12);
    assert_eq!(bin.peek_block(), 0x8000);
    assert_eq!(bin.get_block_num(), 12);
    bin.pop_list(0x9000, 5);
    assert_eq!(bin.peek_block(), 0x9000);
    assert_eq!(bin.get_block_num(), 7);
    bin.pop_list(0, 7);
    assert_eq!(bin.get_block_num(), 0);
    bin.push_list(0xa000, 1);
    assert_eq!(bin.get_block_num(), 1);
}
