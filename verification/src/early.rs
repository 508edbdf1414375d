//! The allocator itself.

use crate::align::checked_round_up;
use crate::align::lemma_round_up_aligned;
use crate::error::AllocError;
use crate::model::lemma_accounting_adds_up;
use crate::model::lemma_whole_pages;
use crate::model::AllocState;
use vstd::arithmetic::div_mod::lemma_small_mod;
use vstd::arithmetic::mul::lemma_mul_strictly_positive;
use vstd::prelude::*;

verus! {

/// A two-ended bump allocator over one region, with pages of
/// `PAGE_SIZE` bytes.
///
/// Bytes are handed out upward from the base and are reclaimed all at
/// once when the last outstanding allocation is given back. Pages are
/// handed out downward from the top and are never reclaimed.
pub struct EarlyAllocator<const PAGE_SIZE: usize> {
    start: usize,
    size: usize,
    byte_cursor: usize,
    page_cursor: usize,
    byte_alloc_count: usize,
    page_batch_remaining: usize,
}

impl<const PAGE_SIZE: usize> View for EarlyAllocator<PAGE_SIZE> {
    type V = AllocState;

    closed spec fn view(&self) -> AllocState {
        AllocState {
            start: self.start as nat,
            size: self.size as nat,
            page_size: PAGE_SIZE as nat,
            byte_cursor: self.byte_cursor as nat,
            page_cursor: self.page_cursor as nat,
            byte_alloc_count: self.byte_alloc_count as nat,
            page_batch_remaining: self.page_batch_remaining as nat,
        }
    }
}

impl<const PAGE_SIZE: usize> EarlyAllocator<PAGE_SIZE> {
    /// Every allocator satisfies the invariant of its abstract value.
    #[verifier::type_invariant]
    pub open spec fn wf(&self) -> bool {
        self@.inv()
    }

    /// An allocator without a region. It has no room for a byte or a
    /// page until `init` binds it to one.
    pub fn new() -> (fresh: Self)
        requires
            PAGE_SIZE > 0,
        ensures
            fresh@ == AllocState::unbound(PAGE_SIZE as nat),
            fresh@.inv(),
    {
        proof {
            lemma_small_mod(0, PAGE_SIZE as nat);
        }
        EarlyAllocator {
            start: 0,
            size: 0,
            byte_cursor: 0,
            page_cursor: 0,
            byte_alloc_count: 0,
            page_batch_remaining: 0,
        }
    }

    /// Binds the allocator to the region `[start, start + size)`: both
    /// cursors go to their ends of it and both counters to zero.
    ///
    /// A region is bound once, to an allocator that has none yet, and it
    /// has to end within the address space.
    pub fn init(&mut self, start: usize, size: usize)
        requires
            old(self)@ == AllocState::unbound(PAGE_SIZE as nat),
            start + size <= usize::MAX,
        ensures
            final(self)@ == AllocState::bound(start as nat, size as nat, PAGE_SIZE as nat),
            final(self)@.inv(),
    {
        proof {
            use_type_invariant(&*self);
            lemma_small_mod(0, PAGE_SIZE as nat);
        }
        *self = EarlyAllocator {
            start,
            size,
            byte_cursor: start,
            page_cursor: start + size,
            byte_alloc_count: 0,
            page_batch_remaining: 0,
        };
    }

    /// Growing the region is not supported: the request is turned down
    /// and the allocator stays as it is.
    pub fn add_memory(&mut self, _start: usize, _size: usize) -> (outcome: Result<(), AllocError>)
        ensures
            outcome == Err::<(), AllocError>(AllocError::InvalidParam),
            final(self)@ == old(self)@,
            final(self)@.inv(),
    {
        proof {
            use_type_invariant(&*self);
        }
        Err(AllocError::InvalidParam)
    }

    /// Hands out `size` bytes at a multiple of `align` and returns the
    /// address of the first one.
    ///
    /// The allocation begins at the byte cursor rounded up to the
    /// alignment, and the byte cursor moves to its end. The request
    /// fails, and changes nothing, when that end would lie above the
    /// page cursor.
    pub fn alloc_bytes(&mut self, size: usize, align: usize) -> (granted: Result<usize, AllocError>)
        requires
            align > 0,
        ensures
            final(self)@.inv(),
            match granted {
                Ok(base) => {
                    &&& old(self)@.bytes_fit(size as nat, align as nat)
                    &&& base == old(self)@.byte_base(align as nat)
                    &&& base % align == 0
                    &&& old(self)@.byte_cursor <= base
                    &&& base + size <= old(self)@.page_cursor
                    &&& final(self)@ == old(self)@.take_bytes(size as nat, align as nat)
                },
                Err(why) => {
                    &&& !old(self)@.bytes_fit(size as nat, align as nat)
                    &&& why == AllocError::NoMemory
                    &&& final(self)@ == old(self)@
                },
            },
    {
        proof {
            use_type_invariant(&*self);
            lemma_round_up_aligned(self.byte_cursor as nat, align as nat);
        }
        let base: usize = match checked_round_up(self.byte_cursor, align) {
            Some(base) => base,
            None => { return Err(AllocError::NoMemory); },
        };
        let end: usize = match base.checked_add(size) {
            Some(end) => end,
            None => { return Err(AllocError::NoMemory); },
        };
        if end > self.page_cursor {
            return Err(AllocError::NoMemory);
        }
        self.byte_alloc_count = self.byte_alloc_count.saturating_add(1);
        self.byte_cursor = end;
        Ok(base)
    }

    /// Gives one byte allocation back. When it was the last one
    /// outstanding, the byte region empties as a whole and the byte
    /// cursor returns to the base of the region.
    ///
    /// Allocations are counted, not tracked: the address, the size and
    /// the alignment are not looked at. With nothing outstanding the
    /// call changes nothing.
    pub fn dealloc(&mut self, _addr: usize, _size: usize, _align: usize)
        ensures
            final(self)@ == old(self)@.give_bytes(),
            old(self)@.byte_alloc_count == 0 ==> final(self)@ == old(self)@,
            final(self)@.inv(),
    {
        proof {
            use_type_invariant(&*self);
        }
        let left: usize = self.byte_alloc_count.saturating_sub(1);
        if left == 0 {
            self.byte_cursor = self.start;
        }
        self.byte_alloc_count = left;
    }

    /// Length of the region in bytes.
    pub fn total_bytes(&self) -> (bytes: usize)
        ensures
            bytes == self@.total_bytes(),
    {
        self.size
    }

    /// Bytes that are in use: those below the byte cursor together with
    /// those that page allocations have taken.
    pub fn used_bytes(&self) -> (bytes: usize)
        ensures
            bytes == self@.used_bytes(),
            bytes + self@.available_bytes() == self@.total_bytes(),
    {
        proof {
            use_type_invariant(self);
        }
        self.total_bytes() - self.available_bytes()
    }

    /// Bytes that are free: those between the two cursors.
    pub fn available_bytes(&self) -> (bytes: usize)
        ensures
            bytes == self@.available_bytes(),
    {
        proof {
            use_type_invariant(self);
        }
        self.page_cursor - self.byte_cursor
    }

    /// Hands out `num_pages` contiguous pages from the top of the free
    /// space and returns the base address of the span.
    ///
    /// The span is carved out directly below the page cursor, which moves
    /// down to its base, so every span that is handed out lies below all
    /// the earlier ones. The request fails, and changes nothing, when the
    /// span would reach below the byte cursor, and when no page is asked
    /// for.
    ///
    /// The alignment is accepted for the sake of the calling convention
    /// and has no effect on the address: spans lie back to back from the
    /// end of the region downward, so each begins a whole number of pages
    /// below that end.
    pub fn alloc_pages(&mut self, num_pages: usize, _align: usize) -> (granted: Result<
        usize,
        AllocError,
    >)
        ensures
            final(self)@.inv(),
            match granted {
                Ok(base) => {
                    &&& old(self)@.pages_fit(num_pages as nat)
                    &&& base == old(self)@.page_base(num_pages as nat)
                    &&& old(self)@.byte_cursor <= base
                    &&& base + old(self)@.span_bytes(num_pages as nat) == old(self)@.page_cursor
                    &&& base < old(self)@.page_cursor
                    &&& final(self)@ == old(self)@.take_pages(num_pages as nat)
                },
                Err(why) => {
                    &&& !old(self)@.pages_fit(num_pages as nat)
                    &&& why == AllocError::NoMemory
                    &&& final(self)@ == old(self)@
                },
            },
    {
        proof {
            use_type_invariant(&*self);
        }
        if num_pages == 0 {
            return Err(AllocError::NoMemory);
        }
        let gap: usize = self.page_cursor - self.byte_cursor;
        match num_pages.checked_mul(PAGE_SIZE) {
            Some(span) => {
                if span <= gap {
                    proof {
                        lemma_whole_pages(
                            self@.reserved_page_bytes(),
                            num_pages as nat,
                            PAGE_SIZE as nat,
                        );
                        lemma_mul_strictly_positive(num_pages as int, PAGE_SIZE as int);
                    }
                    self.page_cursor = self.page_cursor - span;
                    self.page_batch_remaining = 0;
                    Ok(self.page_cursor)
                } else {
                    Err(AllocError::NoMemory)
                }
            },
            None => Err(AllocError::NoMemory),
        }
    }

    /// Takes note that a page span was given back, by counting it. The
    /// pages themselves are retired for good: the page cursor does not
    /// move, and neither the address nor the length is looked at.
    pub fn dealloc_pages(&mut self, _addr: usize, _num_pages: usize)
        ensures
            final(self)@ == old(self)@.give_pages(),
            final(self)@.page_cursor == old(self)@.page_cursor,
            final(self)@.inv(),
    {
        proof {
            use_type_invariant(&*self);
        }
        self.page_batch_remaining = self.page_batch_remaining.saturating_add(1);
    }

    /// Whole pages in the region.
    pub fn total_pages(&self) -> (pages: usize)
        ensures
            pages == self@.total_pages(),
    {
        proof {
            use_type_invariant(self);
        }
        self.size / PAGE_SIZE
    }

    /// Pages that are in use: those of the region that are not free.
    pub fn used_pages(&self) -> (pages: usize)
        ensures
            pages == self@.used_pages(),
            pages + self@.available_pages() == self@.total_pages(),
    {
        proof {
            use_type_invariant(self);
            lemma_accounting_adds_up(self@);
        }
        self.total_pages() - self.available_pages()
    }

    /// Whole pages that fit between the two cursors.
    pub fn available_pages(&self) -> (pages: usize)
        ensures
            pages == self@.available_pages(),
    {
        proof {
            use_type_invariant(self);
        }
        (self.page_cursor - self.byte_cursor) / PAGE_SIZE
    }

    /// Base of the region.
    pub fn start(&self) -> (addr: usize)
        ensures
            addr == self@.start,
    {
        self.start
    }

    /// First byte above the byte allocations.
    pub fn byte_cursor(&self) -> (addr: usize)
        ensures
            addr == self@.byte_cursor,
    {
        self.byte_cursor
    }

    /// Base of the lowest page span handed out so far.
    pub fn page_cursor(&self) -> (addr: usize)
        ensures
            addr == self@.page_cursor,
    {
        self.page_cursor
    }

    /// Byte allocations that have not been given back yet.
    pub fn byte_alloc_count(&self) -> (count: usize)
        ensures
            count == self@.byte_alloc_count,
    {
        self.byte_alloc_count
    }

    /// Page spans given back since pages were last handed out.
    pub fn page_batch_remaining(&self) -> (count: usize)
        ensures
            count == self@.page_batch_remaining,
    {
        self.page_batch_remaining
    }

    /// Asking again gives the same answers. The accounting figures are
    /// functions of the allocator's value and a query leaves that value
    /// alone, so two allocators of equal value, and with them one
    /// allocator asked twice with no request in between, report the same
    /// six figures.
    pub proof fn lemma_same_value_same_figures(&self, other: &Self)
        requires
            self@ == other@,
        ensures
            self@.total_bytes() == other@.total_bytes(),
            self@.used_bytes() == other@.used_bytes(),
            self@.available_bytes() == other@.available_bytes(),
            self@.total_pages() == other@.total_pages(),
            self@.used_pages() == other@.used_pages(),
            self@.available_pages() == other@.available_pages(),
    {
    }
}

} // verus!
