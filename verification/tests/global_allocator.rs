use apfmalloc::abi::{HeapCall, OverrideFlags, RustAllocator};
use std::alloc::Layout;

#[test]
fn global_allocator() {
    let allocator = RustAllocator;
    let mut flags = OverrideFlags::new();
    let layout = Layout::array::<usize>(100).unwrap();
    assert_eq!(
        allocator.allocate(&mut flags, layout.size(), layout.align()),
        HeapCall::AlignedAlloc { alignment: layout.align(), size: layout.size() }
    );

    let mut vec: Vec<_> = (0..100).collect::<Vec<usize>>();

    for i in 0usize..100 {
        assert_eq!(i, vec[i])
    }

    let v: Vec<_> = vec.drain(0..100).collect();
    assert_eq!(vec.len(), 0);
    assert_eq!(v.len(), 100);

    assert_eq!(allocator.dealloc(&mut flags, 0x1000), HeapCall::Free { address: 0x1000 });
    assert!(flags.aligned_alloc && flags.free);
}
