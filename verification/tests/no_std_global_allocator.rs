use apfmalloc::abi::{HeapCall, OverrideFlags, RustAllocator};
use std::alloc::Layout;

#[test]
fn no_std_global_allocator() {
    let allocator = RustAllocator;
    let mut flags = OverrideFlags::new();
    let layout = Layout::array::<usize>(8).unwrap();
    let call = allocator.allocate(&mut flags, layout.size(), layout.align());
    assert_eq!(call, HeapCall::AlignedAlloc { alignment: layout.align(), size: layout.size() });
    let _vec = Vec::<usize>::with_capacity(8);
}
