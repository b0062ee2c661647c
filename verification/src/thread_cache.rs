//! The cache of one thread for one size class: a list of free blocks, last
//! in, first out.
//!
//! The list runs through the blocks themselves: the first word of every
//! free block holds the address of the next one. The bin keeps the address
//! of the first block and the number of blocks. It does not touch the
//! blocks: whoever pushes a block first writes into it the address of the
//! block that is first until then, which `peek_block` gives, and whoever
//! pops a block hands the bin the word that the block held.

use vstd::prelude::*;

verus! {

/// A bin: the address of its first free block, and the number of its
/// blocks. The address 0 stands for no block.
#[derive(Debug, Copy, Clone)]
pub struct ThreadCacheBin {
    pub block: usize,
    pub block_num: u32,
}

/// The address that follows from the word `next` of a popped block: one
/// byte below it, and the last address where the word is 0. The reserve
/// marks the words it writes in their lowest bit.
pub open spec fn next_block(next: usize) -> usize {
    if next == 0 {
        usize::MAX
    } else {
        (next - 1) as usize
    }
}

impl ThreadCacheBin {
    /// A bin without blocks.
    pub fn new() -> (bin: ThreadCacheBin)
        ensures
            bin == (ThreadCacheBin { block: 0, block_num: 0 }),
    {
        ThreadCacheBin { block: 0, block_num: 0 }
    }

    /// Puts `block` in front of the list. Returns the address of the block
    /// that was first until now, which the first word of `block` must hold
    /// by then.
    pub fn push_block(&mut self, block: usize) -> (next: usize)
        requires
            old(self).block_num < u32::MAX,
        ensures
            next == old(self).block,
            *final(self) == (ThreadCacheBin {
                block,
                block_num: (old(self).block_num + 1) as u32,
            }),
    {
        let next = self.block;
        self.block = block;
        self.block_num = self.block_num + 1;
        next
    }

    /// Fills the bin, which holds no block, with the list of `length`
    /// blocks that starts at `block`.
    pub fn push_list(&mut self, block: usize, length: u32)
        requires
            old(self).block_num == 0,
        ensures
            *final(self) == (ThreadCacheBin { block, block_num: length }),
    {
        self.block = block;
        self.block_num = length;
    }

    /// Takes the first block off the list of a bin that holds one, and
    /// returns its address. `next` is the first word of that block.
    pub fn pop_block(&mut self, next: usize) -> (block: usize)
        requires
            old(self).block_num > 0,
        ensures
            block == old(self).block,
            *final(self) == (ThreadCacheBin {
                block: next_block(next),
                block_num: (old(self).block_num - 1) as u32,
            }),
    {
        let block = self.block;
        self.block = if next == 0 {
            usize::MAX
        } else {
            next - 1
        };
        self.block_num = self.block_num - 1;
        block
    }

    /// Tells the bin that its first `length` blocks were taken off the
    /// list, which now starts at `block`.
    pub fn pop_list(&mut self, block: usize, length: u32)
        requires
            old(self).block_num >= length,
        ensures
            *final(self) == (ThreadCacheBin {
                block,
                block_num: (old(self).block_num - length) as u32,
            }),
    {
        self.block = block;
        self.block_num = self.block_num - length;
    }

    /// The address of the first block.
    pub fn peek_block(&self) -> (block: usize)
        ensures
            block == self.block,
    {
        self.block
    }

    /// The number of blocks.
    pub fn get_block_num(&self) -> (block_num: u32)
        ensures
            block_num == self.block_num,
    {
        self.block_num
    }
}

} // verus!
