//! The entry points of the allocator, as far as they decide: each marks
//! that it was reached, checks its arguments, and names the call into the
//! heap that serves it. Making that call, and handing its result on as a
//! pointer, is left to whoever owns the heap.

use crate::mem_info::{align_val, spec_align_val};
use vstd::prelude::*;

verus! {

/// For each entry point whether a call has reached it.
#[derive(Clone, Copy, Debug, PartialEq, Eq)]
pub struct OverrideFlags {
    pub malloc: bool,
    pub calloc: bool,
    pub realloc: bool,
    pub free: bool,
    pub aligned_alloc: bool,
}

impl OverrideFlags {
    /// No entry point was reached.
    pub fn new() -> (flags: OverrideFlags)
        ensures
            flags == (OverrideFlags {
                malloc: false,
                calloc: false,
                realloc: false,
                free: false,
                aligned_alloc: false,
            }),
    {
        OverrideFlags {
            malloc: false,
            calloc: false,
            realloc: false,
            free: false,
            aligned_alloc: false,
        }
    }

    /// Every entry point was reached.
    pub open spec fn all_set(self) -> bool {
        self.malloc && self.calloc && self.realloc && self.free && self.aligned_alloc
    }

    /// The flags after `malloc` was reached.
    pub open spec fn with_malloc(self) -> OverrideFlags {
        OverrideFlags { malloc: true, ..self }
    }

    /// The flags after `calloc` was reached; `asked` tells whether it went
    /// on to ask through `malloc`.
    pub open spec fn with_calloc(self, asked: bool) -> OverrideFlags {
        OverrideFlags { calloc: true, malloc: self.malloc || asked, ..self }
    }

    /// The flags after `realloc` was reached.
    pub open spec fn with_realloc(self) -> OverrideFlags {
        OverrideFlags { realloc: true, ..self }
    }

    /// The flags after `free` was reached.
    pub open spec fn with_free(self) -> OverrideFlags {
        OverrideFlags { free: true, ..self }
    }

    /// The flags after `aligned_alloc` or `posix_memalign` was reached.
    pub open spec fn with_aligned_alloc(self) -> OverrideFlags {
        OverrideFlags { aligned_alloc: true, ..self }
    }
}

/// What an entry point asks of the heap. Addresses stand for pointers, and
/// the address 0 for the null pointer.
#[derive(Clone, Copy, Debug, PartialEq, Eq)]
pub enum HeapCall {
    /// No call: the entry point answers with the null pointer, or has
    /// nothing to do.
    Null,
    /// `size` bytes.
    Malloc { size: usize },
    /// `size` bytes at a multiple of `alignment`.
    AlignedAlloc { alignment: usize, size: usize },
    /// The block at `address`, resized to `size` bytes.
    Realloc { address: usize, size: usize },
    /// The block at `address` is given back.
    Free { address: usize },
}

/// How `posix_memalign` ends.
#[derive(Clone, Copy, Debug, PartialEq, Eq)]
pub enum MemalignCode {
    /// The pointer was written: the result 0.
    Done,
    /// The alignment is no multiple of the size of a pointer: `EINVAL`.
    InvalidAlignment,
    /// There is nowhere to write the pointer to, or no block to write:
    /// `ENOMEM`.
    NoMemory,
}

/// What `posix_memalign` sets out to do: the call into the heap, whether
/// the result of that call is to be written through the output pointer, and
/// how it is to end. `memalign_outcome` settles the last two once the heap
/// has answered.
#[derive(Clone, Copy, Debug, PartialEq, Eq)]
pub struct MemalignPlan {
    pub call: HeapCall,
    pub write_out: bool,
    pub code: MemalignCode,
}

/// `size` is a multiple of `alignment`.
pub open spec fn is_multiple(size: usize, alignment: usize) -> bool {
    if alignment == 0 {
        size == 0
    } else {
        size % alignment == 0
    }
}

/// What `aligned_alloc` asks of the heap: nothing where `size` is no
/// multiple of `alignment`.
pub open spec fn aligned_call(alignment: usize, size: usize) -> HeapCall {
    if is_multiple(size, alignment) {
        HeapCall::AlignedAlloc { alignment, size }
    } else {
        HeapCall::Null
    }
}

/// What `calloc` asks of the heap: nothing where `num * size` is more than
/// a `usize` holds.
pub open spec fn calloc_call(num: usize, size: usize) -> HeapCall {
    if num * size <= usize::MAX {
        HeapCall::Malloc { size: (num * size) as usize }
    } else {
        HeapCall::Null
    }
}

/// The larger of `alignment` and the least alignment of the platform.
pub open spec fn raised_alignment(alignment: usize, min_alignment: usize) -> usize {
    if alignment < min_alignment {
        min_alignment
    } else {
        alignment
    }
}

/// The call that serves `call` on a platform whose least alignment is
/// `min_alignment` and whose pointers are `pointer_size` bytes wide: where
/// the least alignment is more than the size of a pointer, a plain request
/// for `size` bytes becomes a request for `size` bytes at a multiple of it.
/// Every other call stays as it is.
pub open spec fn raised_call(call: HeapCall, min_alignment: usize, pointer_size: usize) -> HeapCall {
    match call {
        HeapCall::Malloc { size } => if min_alignment > pointer_size {
            HeapCall::AlignedAlloc { alignment: min_alignment, size }
        } else {
            call
        },
        _ => call,
    }
}

/// The call that serves `call` on a platform whose least alignment is
/// `min_alignment` and whose pointers are `pointer_size` bytes wide. What
/// `malloc`, `calloc` and `realloc` ask goes through here on its way to the
/// heap.
pub fn raise_to_platform(call: HeapCall, min_alignment: usize, pointer_size: usize) -> (raised:
    HeapCall)
    ensures
        raised == raised_call(call, min_alignment, pointer_size),
{
    match call {
        HeapCall::Malloc { size } => if min_alignment > pointer_size {
            HeapCall::AlignedAlloc { alignment: min_alignment, size }
        } else {
            call
        },
        _ => call,
    }
}

/// `malloc`: asks the heap for `size` bytes.
pub fn malloc(flags: &mut OverrideFlags, size: usize) -> (call: HeapCall)
    ensures
        *final(flags) == old(flags).with_malloc(),
        call == (HeapCall::Malloc { size }),
{
    flags.malloc = true;
    HeapCall::Malloc { size }
}

/// `calloc`: asks the heap for `num * size` bytes, all of which are then
/// to be set to zero; answers with the null pointer where the product is
/// more than a `usize` holds. The request goes through `malloc`.
pub fn calloc(flags: &mut OverrideFlags, num: usize, size: usize) -> (call: HeapCall)
    ensures
        call == calloc_call(num, size),
        *final(flags) == old(flags).with_calloc(call != HeapCall::Null),
{
    flags.calloc = true;
    match num.checked_mul(size) {
        None => HeapCall::Null,
        Some(bytes) => malloc(flags, bytes),
    }
}

/// How many bytes at `block` are to be set to zero once the heap has
/// answered `call` with the block at `block`, 0 standing for no block: all
/// the bytes that were asked for; `None` where no block came, or `call`
/// asks for none.
pub open spec fn zeroed_bytes_of(call: HeapCall, block: usize) -> Option<usize> {
    if block == 0 {
        None
    } else {
        match call {
            HeapCall::Malloc { size } => Some(size),
            HeapCall::AlignedAlloc { alignment, size } => Some(size),
            _ => None,
        }
    }
}

/// How many bytes at `block` are to be set to zero once the heap has
/// answered `call` with the block at `block`. `calloc` and the zeroed
/// allocations of the runtime go by it: where it gives `None`, they hand
/// on what the heap answered and write nothing.
pub fn zeroed_bytes(call: HeapCall, block: usize) -> (bytes: Option<usize>)
    ensures
        bytes == zeroed_bytes_of(call, block),
{
    if block == 0 {
        None
    } else {
        match call {
            HeapCall::Malloc { size } => Some(size),
            HeapCall::AlignedAlloc { alignment, size } => Some(size),
            _ => None,
        }
    }
}

/// Sets every byte of `block` to zero.
pub fn zero_fill(block: &mut [u8])
    ensures
        final(block)@.len() == old(block)@.len(),
        forall|i: int| 0 <= i < final(block)@.len() ==> final(block)@[i] == 0,
{
    let mut i: usize = 0;
    while i < block.len()
        invariant
            block@.len() == old(block)@.len(),
            i <= block@.len(),
            forall|j: int| 0 <= j < i ==> block@[j] == 0,
        decreases block@.len() - i,
    {
        block[i] = 0;
        i = i + 1;
    }
}

/// `realloc`: asks the heap to resize the block at `address` to
/// `new_size` bytes; for the null pointer it asks what `malloc` asks.
pub fn realloc(flags: &mut OverrideFlags, address: usize, new_size: usize) -> (call: HeapCall)
    ensures
        *final(flags) == old(flags).with_realloc(),
        call == (if address == 0 {
            HeapCall::Malloc { size: new_size }
        } else {
            HeapCall::Realloc { address, size: new_size }
        }),
{
    flags.realloc = true;
    if address == 0 {
        HeapCall::Malloc { size: new_size }
    } else {
        HeapCall::Realloc { address, size: new_size }
    }
}

/// `free`: gives the block at `address` back to the heap; for the null
/// pointer it does nothing.
pub fn free(flags: &mut OverrideFlags, address: usize) -> (call: HeapCall)
    ensures
        *final(flags) == old(flags).with_free(),
        call == (if address == 0 {
            HeapCall::Null
        } else {
            HeapCall::Free { address }
        }),
{
    flags.free = true;
    if address == 0 {
        HeapCall::Null
    } else {
        HeapCall::Free { address }
    }
}

/// `aligned_alloc`: asks the heap for `size` bytes at a multiple of
/// `alignment`; answers with the null pointer where `size` is no multiple
/// of `alignment`. Whether `alignment` is a power of two is left to the
/// heap.
pub fn aligned_alloc(flags: &mut OverrideFlags, alignment: usize, size: usize) -> (call: HeapCall)
    ensures
        *final(flags) == old(flags).with_aligned_alloc(),
        call == aligned_call(alignment, size),
{
    flags.aligned_alloc = true;
    let multiple = if alignment == 0 {
        size == 0
    } else {
        size % alignment == 0
    };
    if multiple {
        HeapCall::AlignedAlloc { alignment, size }
    } else {
        HeapCall::Null
    }
}

/// What `posix_memalign` sets out to do. An alignment that is no multiple
/// of the size of a pointer ends it at once: no call, nothing written. Else
/// the alignment is raised to `min_alignment`, the least that the platform
/// takes, and the heap is asked as `aligned_alloc` asks it; the result is to
/// be written where there is an output pointer, and where there is none the
/// memory counts as missing.
pub open spec fn memalign_plan(
    out_is_null: bool,
    alignment: usize,
    size: usize,
    min_alignment: usize,
    pointer_size: usize,
) -> MemalignPlan {
    if !is_multiple(alignment, pointer_size) {
        MemalignPlan {
            call: HeapCall::Null,
            write_out: false,
            code: MemalignCode::InvalidAlignment,
        }
    } else {
        MemalignPlan {
            call: aligned_call(raised_alignment(alignment, min_alignment), size),
            write_out: !out_is_null,
            code: if out_is_null {
                MemalignCode::NoMemory
            } else {
                MemalignCode::Done
            },
        }
    }
}

/// How `posix_memalign` ends once the heap has answered `plan.call` with
/// the block at `block`, 0 standing for no block. A plan that was to end
/// well ends well only with a block: without one, nothing is written and
/// the memory counts as missing. That is so where the heap has nothing
/// left, and where it was not asked because the size is no multiple of the
/// alignment. Any other plan ends as it was to end.
pub open spec fn memalign_end(plan: MemalignPlan, block: usize) -> MemalignPlan {
    if plan.code == MemalignCode::Done && block == 0 {
        MemalignPlan { write_out: false, code: MemalignCode::NoMemory, ..plan }
    } else {
        plan
    }
}

/// `posix_memalign`, up to the call into the heap, on a platform whose
/// least alignment is `min_alignment` and whose pointers are `pointer_size`
/// bytes wide: marks that it was reached, checks the alignment, and names
/// the call. What the heap answers
/// goes to `memalign_outcome`, which tells how the entry point ends.
pub fn posix_memalign(
    flags: &mut OverrideFlags,
    out_is_null: bool,
    alignment: usize,
    size: usize,
    min_alignment: usize,
    pointer_size: usize,
) -> (plan: MemalignPlan)
    ensures
        *final(flags) == old(flags).with_aligned_alloc(),
        plan == memalign_plan(out_is_null, alignment, size, min_alignment, pointer_size),
{
    flags.aligned_alloc = true;
    let fits = if pointer_size == 0 {
        alignment == 0
    } else {
        alignment % pointer_size == 0
    };
    if !fits {
        return MemalignPlan {
            call: HeapCall::Null,
            write_out: false,
            code: MemalignCode::InvalidAlignment,
        };
    }
    let raised = if alignment < min_alignment {
        min_alignment
    } else {
        alignment
    };
    let call = aligned_alloc(flags, raised, size);
    if out_is_null {
        MemalignPlan { call, write_out: false, code: MemalignCode::NoMemory }
    } else {
        MemalignPlan { call, write_out: true, code: MemalignCode::Done }
    }
}

/// `posix_memalign`, from the answer of the heap on: whether the block at
/// `block` is written through the output pointer, and how the entry point
/// ends.
pub fn memalign_outcome(plan: MemalignPlan, block: usize) -> (end: MemalignPlan)
    ensures
        end == memalign_end(plan, block),
{
    match plan.code {
        MemalignCode::Done => if block == 0 {
            MemalignPlan { call: plan.call, write_out: false, code: MemalignCode::NoMemory }
        } else {
            plan
        },
        _ => plan,
    }
}

/// `posix_memalign` ends well exactly where the alignment is a multiple of
/// the size of a pointer, there is an output pointer, and the heap has
/// handed out a block; and exactly then the block is written. It ends on
/// the alignment exactly where that is no multiple of the size of a
/// pointer, whatever the heap would answer.
pub proof fn lemma_memalign_ends(
    out_is_null: bool,
    alignment: usize,
    size: usize,
    min_alignment: usize,
    pointer_size: usize,
    block: usize,
)
    ensures
        ({
            let end = memalign_end(
                memalign_plan(out_is_null, alignment, size, min_alignment, pointer_size),
                block,
            );
            &&& end.code == MemalignCode::Done <==> is_multiple(alignment, pointer_size)
                && !out_is_null && block != 0
            &&& end.write_out <==> end.code == MemalignCode::Done
            &&& end.code == MemalignCode::InvalidAlignment <==> !is_multiple(
                alignment,
                pointer_size,
            )
            &&& end.code == MemalignCode::InvalidAlignment ==> end.call == HeapCall::Null
        }),
{
}

/// 1 if every entry point was reached, else 0.
pub fn check_override(flags: &OverrideFlags) -> (reached: u8)
    ensures
        reached == (if flags.all_set() {
            1u8
        } else {
            0u8
        }),
{
    if flags.malloc && flags.realloc && flags.calloc && flags.free && flags.aligned_alloc {
        1
    } else {
        0
    }
}

/// The allocator as the language runtime asks for it: by size and
/// alignment. Every request keeps its alignment on the way to the heap.
#[derive(Clone, Copy, Debug)]
pub struct RustAllocator;

impl RustAllocator {
    /// Asks the heap for `size` bytes at a multiple of `align`.
    pub fn allocate(&self, flags: &mut OverrideFlags, size: usize, align: usize) -> (call: HeapCall)
        ensures
            *final(flags) == old(flags).with_aligned_alloc(),
            call == (HeapCall::AlignedAlloc { alignment: align, size }),
    {
        flags.aligned_alloc = true;
        HeapCall::AlignedAlloc { alignment: align, size }
    }

    /// Gives the block at `address` back to the heap.
    pub fn dealloc(&self, flags: &mut OverrideFlags, address: usize) -> (call: HeapCall)
        ensures
            *final(flags) == old(flags).with_free(),
            call == (HeapCall::Free { address }),
    {
        flags.free = true;
        HeapCall::Free { address }
    }

    /// Asks as `calloc` asks for one object of `size` bytes rounded up to a
    /// multiple of `align`; answers with the null pointer where the rounded
    /// size is more than a `usize` holds.
    pub fn alloc_zeroed(&self, flags: &mut OverrideFlags, size: usize, align: usize) -> (call:
        HeapCall)
        requires
            align > 0,
        ensures
            call == (if spec_align_val(size as int, align as int) <= usize::MAX {
                HeapCall::Malloc { size: spec_align_val(size as int, align as int) as usize }
            } else {
                HeapCall::Null
            }),
            *final(flags) == (OverrideFlags {
                calloc: old(flags).calloc || call != HeapCall::Null,
                malloc: old(flags).malloc || call != HeapCall::Null,
                ..*old(flags)
            }),
    {
        match align_val(size, align) {
            Some(rounded) => {
                assert(1 * rounded == rounded);
                calloc(flags, 1, rounded)
            },
            None => HeapCall::Null,
        }
    }

    /// Asks the heap to resize the block at `address` to `new_size` bytes
    /// rounded up to a multiple of `align`; answers with the null pointer
    /// where the rounded size is more than a `usize` holds.
    pub fn realloc(
        &self,
        flags: &mut OverrideFlags,
        address: usize,
        align: usize,
        new_size: usize,
    ) -> (call: HeapCall)
        requires
            align > 0,
        ensures
            *final(flags) == old(flags).with_realloc(),
            call == (if spec_align_val(new_size as int, align as int) <= usize::MAX {
                HeapCall::Realloc {
                    address,
                    size: spec_align_val(new_size as int, align as int) as usize,
                }
            } else {
                HeapCall::Null
            }),
    {
        flags.realloc = true;
        match align_val(new_size, align) {
            Some(rounded) => HeapCall::Realloc { address, size: rounded },
            None => HeapCall::Null,
        }
    }
}

/// The allocation of the language runtime, where it is served without
/// `RustAllocator`: as `aligned_alloc`.
pub fn __rust_alloc(flags: &mut OverrideFlags, size: usize, align: usize) -> (call: HeapCall)
    ensures
        *final(flags) == old(flags).with_aligned_alloc(),
        call == aligned_call(align, size),
{
    aligned_alloc(flags, align, size)
}

/// The zeroed allocation of the language runtime, where it is served
/// without `RustAllocator`: as `aligned_alloc`, and the `size` bytes are
/// then to be set to zero. It counts as a call of `calloc`.
pub fn __rust_alloc_zeroed(flags: &mut OverrideFlags, size: usize, align: usize) -> (call: HeapCall)
    ensures
        *final(flags) == (OverrideFlags { calloc: true, ..old(flags).with_aligned_alloc() }),
        call == aligned_call(align, size),
{
    flags.calloc = true;
    aligned_alloc(flags, align, size)
}

/// The deallocation of the language runtime, where it is served without
/// `RustAllocator`: as `free`.
pub fn __rust_dealloc(flags: &mut OverrideFlags, address: usize) -> (call: HeapCall)
    ensures
        *final(flags) == old(flags).with_free(),
        call == (if address == 0 {
            HeapCall::Null
        } else {
            HeapCall::Free { address }
        }),
{
    free(flags, address)
}

/// The reallocation of the language runtime, where it is served without
/// `RustAllocator`: as `realloc`.
pub fn __rust_realloc(flags: &mut OverrideFlags, address: usize, new_size: usize) -> (call:
    HeapCall)
    ensures
        *final(flags) == old(flags).with_realloc(),
        call == (if address == 0 {
            HeapCall::Malloc { size: new_size }
        } else {
            HeapCall::Realloc { address, size: new_size }
        }),
{
    realloc(flags, address, new_size)
}

/// Once `malloc`, `realloc`, `calloc`, `free` and `aligned_alloc` have each
/// been reached, whatever the flags were before and whether or not `calloc`
/// went on to ask, every flag is set, and so `check_override` gives 1.
pub proof fn lemma_self_test_sets_all(before: OverrideFlags, asked: bool)
    ensures
        before.with_malloc().with_realloc().with_calloc(asked).with_free().with_aligned_alloc().all_set(),
{
}

/// An entry point leaves set every flag that was set before it was
/// reached.
pub proof fn lemma_flags_stay_set(before: OverrideFlags, asked: bool)
    ensures
        before.all_set() ==> {
            &&& before.with_malloc().all_set()
            &&& before.with_calloc(asked).all_set()
            &&& before.with_realloc().all_set()
            &&& before.with_free().all_set()
            &&& before.with_aligned_alloc().all_set()
        },
{
}

} // verus!
