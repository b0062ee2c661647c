//! Sizes of the size-class table, of pages and of cache lines, and the
//! rounding that alignment needs.

use vstd::prelude::*;

verus! {

/// Number of size classes.
pub const MAX_SZ_IDX: usize = 40;

pub const LG_MAX_SIZE_IDX: usize = 6;

/// The largest size that a size class serves.
pub const MAX_SZ: usize = 0x3800;

/// The width of a pointer in bytes, on a 64-bit target.
pub const LG_PTR: usize = 8;

/// A cache line is 64 bytes.
pub const LG_CACHE_LINE: usize = 6;

/// A page is 4 KiB.
pub const LG_PAGE: usize = 12;

/// A huge page is 2 MiB.
pub const LG_HUGE_PAGE: usize = 21;

/// Two to the power `LG_PTR`.
pub const PTR_SIZE: usize = 0x100;

/// Two to the power `LG_CACHE_LINE`.
pub const CACHE_LINE: usize = 0x40;

/// Two to the power `LG_PAGE`.
pub const PAGE: usize = 0x1000;

/// Two to the power `LG_HUGE_PAGE`.
pub const HUGE_PAGE: usize = 0x20_0000;

pub const PTR_MASK: usize = 0xff;

pub const CACHE_LINE_MASK: usize = 0x3f;

pub const PAGE_MASK: usize = 0xfff;

/// The least alignment that the allocator hands out.
pub const MIN_ALIGN: usize = LG_PTR;

/// The least multiple of `align` that is not below `val`.
pub open spec fn spec_align_val(val: int, align: int) -> int
    recommends
        align > 0,
{
    ((val + align - 1) / align) * align
}

/// The least multiple of `align` that is not below `val`, where a `usize`
/// holds it.
pub fn align_val(val: usize, align: usize) -> (aligned: Option<usize>)
    requires
        align > 0,
    ensures
        aligned == (if spec_align_val(val as int, align as int) <= usize::MAX {
            Some(spec_align_val(val as int, align as int) as usize)
        } else {
            None
        }),
{
    let rest: usize = val % align;
    if rest == 0 {
        proof {
            lemma_round_up(val as int, align as int);
        }
        Some(val)
    } else {
        let gap: usize = align - rest;
        proof {
            lemma_round_up(val as int, align as int);
        }
        val.checked_add(gap)
    }
}

/// Rounding up adds what the remainder lacks of a whole `align`.
pub proof fn lemma_round_up(val: int, align: int)
    requires
        val >= 0,
        align > 0,
    ensures
        spec_align_val(val, align) == (if val % align == 0 {
            val
        } else {
            val + align - val % align
        }),
        spec_align_val(val, align) % align == 0,
        val <= spec_align_val(val, align) < val + align,
{
    let q = val / align;
    let r = val % align;
    assert(val == q * align + r) by (nonlinear_arith)
        requires
            q == val / align,
            r == val % align,
            align > 0,
    ;
    if r == 0 {
        assert((val + align - 1) / align == q) by (nonlinear_arith)
            requires
                val == q * align,
                align > 0,
        ;
        assert((q * align) % align == 0) by (nonlinear_arith)
            requires
                align > 0,
        ;
    } else {
        assert((val + align - 1) / align == q + 1) by (nonlinear_arith)
            requires
                val == q * align + r,
                0 < r < align,
        ;
        assert((q + 1) * align == val + align - r) by (nonlinear_arith)
            requires
                val == q * align + r,
        ;
        assert(((q + 1) * align) % align == 0) by (nonlinear_arith)
            requires
                align > 0,
        ;
    }
}

} // verus!
