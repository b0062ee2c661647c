use apfmalloc::abi::{
    __rust_alloc, __rust_alloc_zeroed, __rust_dealloc, __rust_realloc, aligned_alloc,
    memalign_outcome, raise_to_platform, zeroed_bytes, calloc, check_override, free, malloc, posix_memalign, realloc, zero_fill,
    HeapCall, MemalignCode, MemalignPlan, OverrideFlags, RustAllocator,
};

#[test]
fn lib_overrides_malloc() {
    let mut flags = OverrideFlags::new();
    flags.malloc = false;
    let _ret = malloc(&mut flags, 8);
    assert!(flags.malloc, "Malloc wasn't overwritten!");
}

#[test]
fn lib_overrides_calloc() {
    let mut flags = OverrideFlags::new();
    flags.calloc = false;
    let _ret = calloc(&mut flags, 1, 8);
    assert!(flags.calloc, "Calloc wasn't overwritten!");
}

#[test]
fn lib_overrides_realloc() {
    let mut flags = OverrideFlags::new();
    flags.realloc = false;
    let first = 0x1000;
    let _first = malloc(&mut flags, 8);
    let _ret = realloc(&mut flags, first, 8);
    assert!(flags.realloc, "Realloc wasn't overwritten!");
}

#[test]
fn lib_overrides_free() {
    let mut flags = OverrideFlags::new();
    let _ret = malloc(&mut flags, 8);
    flags.free = false;
    let _ = free(&mut flags, 0x1000);
    assert!(flags.free, "Free wasn't overwritten!");
}

#[test]
fn allocates() {
    let mut flags = OverrideFlags::new();
    let call = malloc(&mut flags, std::mem::size_of::<usize>());
    assert!(call != HeapCall::Null);
    assert_eq!(call, HeapCall::Malloc { size: std::mem::size_of::<usize>() });
}

#[test]
fn zero_bytes_malloc_no_fail() {
    let mut flags = OverrideFlags::new();
    let call = malloc(&mut flags, 0);
    assert!(call != HeapCall::Null);
    assert_eq!(call, HeapCall::Malloc { size: 0 });
}

#[test]
fn calloc_fails_on_overflow() {
    let mut flags = OverrideFlags::new();
    assert!(calloc(&mut flags, std::usize::MAX, 2) == HeapCall::Null);
    assert!(flags.calloc);
    assert!(!flags.malloc);
}

#[test]
fn calloc_zeroes() {
    let mut flags = OverrideFlags::new();
    let call = calloc(&mut flags, std::mem::size_of::<u8>(), 16);
    assert!(call != HeapCall::Null);
    assert_eq!(call, HeapCall::Malloc { size: 16 });
    assert_eq!(zeroed_bytes(call, 0x7000), Some(16));
    let mut block = vec![0xa5u8; 16];
    zero_fill(&mut block[..]);
    assert_eq!(block.len(), 16);
    for i in 0..16 {
        assert_eq!(block[i], 0)
    }
}

#[test]
fn calloc_of_nothing_still_asks() {
    let mut flags = OverrideFlags::new();
    assert_eq!(calloc(&mut flags, 0, 16), HeapCall::Malloc { size: 0 });
    assert_eq!(calloc(&mut flags, 16, 0), HeapCall::Malloc { size: 0 });
    assert!(flags.malloc);
}

#[test]
fn calloc_takes_the_largest_product() {
    let mut flags = OverrideFlags::new();
    assert_eq!(calloc(&mut flags, std::usize::MAX, 1), HeapCall::Malloc { size: std::usize::MAX });
    assert_eq!(calloc(&mut flags, 1 << 40, 1 << 40), HeapCall::Null);
}

#[test]
fn aligned_alloc_checks_consistency() {
    let mut flags = OverrideFlags::new();
    assert!(
        aligned_alloc(&mut flags, std::mem::size_of::<usize>() + 1, 8) == HeapCall::Null,
        "Alignment required to be power of 2"
    );
    assert!(
        aligned_alloc(
            &mut flags,
            std::mem::size_of::<usize>(),
            std::mem::size_of::<usize>() * 3 / 2
        ) == HeapCall::Null,
        "Size must be a multiple of alignment"
    );
    assert!(flags.aligned_alloc);
}

#[test]
fn aligned_alloc_passes_multiples_on() {
    let mut flags = OverrideFlags::new();
    assert_eq!(
        aligned_alloc(&mut flags, 16, 64),
        HeapCall::AlignedAlloc { alignment: 16, size: 64 }
    );
    assert_eq!(aligned_alloc(&mut flags, 16, 0), HeapCall::AlignedAlloc { alignment: 16, size: 0 });
    assert_eq!(aligned_alloc(&mut flags, 0, 0), HeapCall::AlignedAlloc { alignment: 0, size: 0 });
    assert_eq!(aligned_alloc(&mut flags, 0, 8), HeapCall::Null);
    assert_eq!(aligned_alloc(&mut flags, 24, 48), HeapCall::AlignedAlloc { alignment: 24, size: 48 });
}

#[test]
fn realloc_on_null() {
    let mut flags = OverrideFlags::new();
    let call = realloc(&mut flags, 0, 16);
    assert!(call != HeapCall::Null);
    assert_eq!(call, HeapCall::Malloc { size: 16 });
    let mut other = OverrideFlags::new();
    assert_eq!(call, malloc(&mut other, 16));
}

#[test]
fn realloc_of_a_block_resizes_it() {
    let mut flags = OverrideFlags::new();
    assert_eq!(realloc(&mut flags, 0x2000, 32), HeapCall::Realloc { address: 0x2000, size: 32 });
    assert_eq!(realloc(&mut flags, 0x2000, 0), HeapCall::Realloc { address: 0x2000, size: 0 });
    assert!(flags.realloc);
    assert!(!flags.malloc);
}

#[test]
fn free_of_null_does_nothing() {
    let mut flags = OverrideFlags::new();
    assert_eq!(free(&mut flags, 0), HeapCall::Null);
    assert!(flags.free);
    assert_eq!(free(&mut flags, 0x3000), HeapCall::Free { address: 0x3000 });
}

#[test]
fn posix_memalign_refuses_odd_alignment() {
    let mut flags = OverrideFlags::new();
    let plan = posix_memalign(&mut flags, false, 12, 64, 1, 8);
    assert_eq!(
        plan,
        MemalignPlan { call: HeapCall::Null, write_out: false, code: MemalignCode::InvalidAlignment }
    );
    let plan = posix_memalign(&mut flags, true, 3, 64, 16, 8);
    assert_eq!(plan.code, MemalignCode::InvalidAlignment);
    assert!(!plan.write_out);
    assert!(flags.aligned_alloc);
}

#[test]
fn posix_memalign_writes_the_pointer() {
    let mut flags = OverrideFlags::new();
    let plan = posix_memalign(&mut flags, false, 16, 64, 1, 8);
    assert_eq!(
        plan,
        MemalignPlan {
            call: HeapCall::AlignedAlloc { alignment: 16, size: 64 },
            write_out: true,
            code: MemalignCode::Done,
        }
    );
}

#[test]
fn posix_memalign_raises_the_alignment() {
    let mut flags = OverrideFlags::new();
    let plan = posix_memalign(&mut flags, false, 8, 64, 16, 8);
    assert_eq!(plan.call, HeapCall::AlignedAlloc { alignment: 16, size: 64 });
    let plan = posix_memalign(&mut flags, false, 8, 8, 16, 8);
    assert_eq!(
        plan,
        MemalignPlan { call: HeapCall::Null, write_out: true, code: MemalignCode::Done }
    );
}

#[test]
fn posix_memalign_without_output() {
    let mut flags = OverrideFlags::new();
    let plan = posix_memalign(&mut flags, true, 8, 64, 1, 8);
    assert_eq!(
        plan,
        MemalignPlan {
            call: HeapCall::AlignedAlloc { alignment: 8, size: 64 },
            write_out: false,
            code: MemalignCode::NoMemory,
        }
    );
}

#[test]
fn check_override_after_a_workload() {
    let mut flags = OverrideFlags::new();
    assert_eq!(check_override(&flags), 0);
    let _ = malloc(&mut flags, 8);
    assert_eq!(check_override(&flags), 0);
    let _ = realloc(&mut flags, 0x1000, 64);
    let _ = calloc(&mut flags, 8, 8);
    let _ = free(&mut flags, 0x1000);
    assert_eq!(check_override(&flags), 0);
    let _ = aligned_alloc(&mut flags, 8, 8);
    assert_eq!(check_override(&flags), 1);
}

#[test]
fn entry_points_leave_other_flags() {
    let mut flags = OverrideFlags::new();
    let _ = free(&mut flags, 0);
    assert_eq!(
        flags,
        OverrideFlags { malloc: false, calloc: false, realloc: false, free: true, aligned_alloc: false }
    );
    let _ = calloc(&mut flags, 2, 2);
    assert_eq!(
        flags,
        OverrideFlags { malloc: true, calloc: true, realloc: false, free: true, aligned_alloc: false }
    );
}

#[test]
fn rust_allocator_keeps_the_alignment() {
    let allocator = RustAllocator;
    let mut flags = OverrideFlags::new();
    assert_eq!(
        allocator.allocate(&mut flags, 24, 8),
        HeapCall::AlignedAlloc { alignment: 8, size: 24 }
    );
    assert!(flags.aligned_alloc);
    assert_eq!(allocator.dealloc(&mut flags, 0x4000), HeapCall::Free { address: 0x4000 });
    assert!(flags.free);
    assert_eq!(allocator.alloc_zeroed(&mut flags, 20, 8), HeapCall::Malloc { size: 24 });
    assert!(flags.calloc && flags.malloc);
    assert_eq!(
        allocator.realloc(&mut flags, 0x4000, 16, 33),
        HeapCall::Realloc { address: 0x4000, size: 48 }
    );
    assert_eq!(allocator.realloc(&mut flags, 0x4000, 16, std::usize::MAX), HeapCall::Null);
    assert_eq!(allocator.alloc_zeroed(&mut flags, std::usize::MAX - 2, 8), HeapCall::Null);
}

#[test]
fn runtime_symbols_go_through_the_entry_points() {
    let mut flags = OverrideFlags::new();
    assert_eq!(__rust_alloc(&mut flags, 64, 16), HeapCall::AlignedAlloc { alignment: 16, size: 64 });
    assert_eq!(__rust_alloc(&mut flags, 60, 16), HeapCall::Null);
    assert!(flags.aligned_alloc && !flags.calloc);
    assert_eq!(
        __rust_alloc_zeroed(&mut flags, 32, 8),
        HeapCall::AlignedAlloc { alignment: 8, size: 32 }
    );
    assert!(flags.calloc && !flags.malloc);
    assert_eq!(__rust_dealloc(&mut flags, 0x5000), HeapCall::Free { address: 0x5000 });
    assert!(flags.free);
    assert_eq!(
        __rust_realloc(&mut flags, 0x5000, 96),
        HeapCall::Realloc { address: 0x5000, size: 96 }
    );
    assert!(flags.realloc);
}

#[test]
fn platform_raises_plain_requests() {
    let plain = HeapCall::Malloc { size: 24 };
    assert_eq!(raise_to_platform(plain, 1, 8), plain);
    assert_eq!(raise_to_platform(plain, 8, 8), plain);
    assert_eq!(raise_to_platform(plain, 16, 8), HeapCall::AlignedAlloc { alignment: 16, size: 24 });
    let aligned = HeapCall::AlignedAlloc { alignment: 8, size: 24 };
    assert_eq!(raise_to_platform(aligned, 16, 8), aligned);
    assert_eq!(raise_to_platform(HeapCall::Null, 16, 8), HeapCall::Null);
    assert_eq!(
        raise_to_platform(HeapCall::Free { address: 0x10 }, 16, 8),
        HeapCall::Free { address: 0x10 }
    );
}

#[test]
fn posix_memalign_without_a_block_reports_missing_memory() {
    let mut flags = OverrideFlags::new();
    let plan = posix_memalign(&mut flags, false, 16, 64, 1, 8);
    assert_eq!(plan.code, MemalignCode::Done);
    // the heap has nothing left
    assert_eq!(
        memalign_outcome(plan, 0),
        MemalignPlan {
            call: HeapCall::AlignedAlloc { alignment: 16, size: 64 },
            write_out: false,
            code: MemalignCode::NoMemory,
        }
    );
    // the heap hands out a block
    assert_eq!(memalign_outcome(plan, 0x7000), plan);
    assert!(memalign_outcome(plan, 0x7000).write_out);
}

#[test]
fn posix_memalign_of_a_size_that_does_not_fit_the_alignment() {
    let mut flags = OverrideFlags::new();
    // 8 is raised to 16, of which 8 is no multiple: the heap is not asked
    let plan = posix_memalign(&mut flags, false, 8, 8, 16, 8);
    assert_eq!(plan.call, HeapCall::Null);
    let end = memalign_outcome(plan, 0);
    assert_eq!(end.code, MemalignCode::NoMemory);
    assert!(!end.write_out);
}

#[test]
fn posix_memalign_outcome_keeps_other_ends() {
    let mut flags = OverrideFlags::new();
    let invalid = posix_memalign(&mut flags, false, 12, 64, 1, 8);
    assert_eq!(memalign_outcome(invalid, 0), invalid);
    assert_eq!(memalign_outcome(invalid, 0x7000), invalid);
    let no_output = posix_memalign(&mut flags, true, 8, 64, 1, 8);
    assert_eq!(memalign_outcome(no_output, 0x7000), no_output);
    assert_eq!(memalign_outcome(no_output, 0).code, MemalignCode::NoMemory);
}

#[test]
fn nothing_is_zeroed_without_a_block() {
    let call = HeapCall::Malloc { size: 64 };
    assert_eq!(zeroed_bytes(call, 0), None);
    assert_eq!(zeroed_bytes(call, 0x9000), Some(64));
    assert_eq!(
        zeroed_bytes(HeapCall::AlignedAlloc { alignment: 16, size: 32 }, 0x9000),
        Some(32)
    );
    assert_eq!(zeroed_bytes(HeapCall::Null, 0x9000), None);
    assert_eq!(zeroed_bytes(HeapCall::Free { address: 0x9000 }, 0x9000), None);
}

#[test]
fn posix_memalign_goes_by_the_pointer_size_it_is_given() {
    let mut flags = OverrideFlags::new();
    // 12 is a multiple of a 4-byte pointer, not of an 8-byte one
    assert_eq!(posix_memalign(&mut flags, false, 12, 24, 1, 4).code, MemalignCode::Done);
    assert_eq!(
        posix_memalign(&mut flags, false, 12, 24, 1, 8).code,
        MemalignCode::InvalidAlignment
    );
    assert_eq!(
        posix_memalign(&mut flags, false, 16, 32, 1, std::mem::size_of::<usize>()).call,
        HeapCall::AlignedAlloc { alignment: 16, size: 32 }
    );
    // a plain request is raised only above the pointer size
    let plain = HeapCall::Malloc { size: 24 };
    assert_eq!(raise_to_platform(plain, 8, 4), HeapCall::AlignedAlloc { alignment: 8, size: 24 });
    assert_eq!(raise_to_platform(plain, 8, 8), plain);
}
