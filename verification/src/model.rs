//! The allocator as a mathematical value: the region, its two cursors and
//! its two counters, with the effect of every request written as a
//! function on that value.

use crate::align::round_up;
use vstd::arithmetic::div_mod::lemma_div_by_multiple;
use vstd::arithmetic::div_mod::lemma_div_is_ordered;
use vstd::arithmetic::div_mod::lemma_fundamental_div_mod;
use vstd::arithmetic::div_mod::lemma_div_pos_is_pos;
use vstd::arithmetic::div_mod::lemma_mod_multiples_vanish;
use vstd::arithmetic::div_mod::lemma_small_mod;
use vstd::arithmetic::div_mod::lemma_sub_mod_noop;
use vstd::arithmetic::mul::lemma_mul_inequality;
use vstd::arithmetic::mul::lemma_mul_is_commutative;
use vstd::prelude::*;

verus! {

/// The abstract value of an allocator.
pub struct AllocState {
    /// Base of the managed region.
    pub start: nat,
    /// Length of the managed region in bytes.
    pub size: nat,
    /// Length of one page in bytes.
    pub page_size: nat,
    /// First byte above the byte allocations.
    pub byte_cursor: nat,
    /// Base of the lowest page span handed out so far.
    pub page_cursor: nat,
    /// Byte allocations that have not been given back yet.
    pub byte_alloc_count: nat,
    /// Page spans given back since pages were last handed out. A batch
    /// of pages goes to the caller in full the moment it is reserved, so
    /// nothing of it remains to be drawn from later.
    pub page_batch_remaining: nat,
}

/// `count + 1`, held at the largest value a counter can take.
pub open spec fn count_up(count: nat) -> nat {
    if count < usize::MAX {
        count + 1
    } else {
        count
    }
}

/// `count - 1`, held at zero.
pub open spec fn count_down(count: nat) -> nat {
    if count > 0 {
        (count - 1) as nat
    } else {
        0
    }
}

impl AllocState {
    /// One past the last byte of the region.
    pub open spec fn end(self) -> nat {
        self.start + self.size
    }

    /// What holds of every allocator at every moment.
    pub open spec fn inv(self) -> bool {
        &&& self.page_size > 0
        &&& self.start <= self.byte_cursor
        &&& self.byte_cursor <= self.page_cursor
        &&& self.page_cursor <= self.end()
        &&& self.end() <= usize::MAX
        &&& self.byte_alloc_count <= usize::MAX
        &&& self.page_batch_remaining <= usize::MAX
        &&& (self.byte_alloc_count == 0 ==> self.byte_cursor == self.start)
        &&& self.reserved_page_bytes() % (self.page_size as int) == 0
    }

    /// An allocator that has not been given a region yet.
    pub open spec fn unbound(page_size: nat) -> AllocState {
        AllocState {
            start: 0,
            size: 0,
            page_size,
            byte_cursor: 0,
            page_cursor: 0,
            byte_alloc_count: 0,
            page_batch_remaining: 0,
        }
    }

    /// An allocator right after it was given `[start, start + size)`.
    pub open spec fn bound(start: nat, size: nat, page_size: nat) -> AllocState {
        AllocState {
            start,
            size,
            page_size,
            byte_cursor: start,
            page_cursor: start + size,
            byte_alloc_count: 0,
            page_batch_remaining: 0,
        }
    }

    /// Where a byte allocation with this alignment would begin.
    pub open spec fn byte_base(self, align: nat) -> nat
        recommends
            align > 0,
    {
        round_up(self.byte_cursor, align)
    }

    /// Whether `size` bytes at this alignment fit below the page cursor.
    pub open spec fn bytes_fit(self, size: nat, align: nat) -> bool
        recommends
            align > 0,
    {
        self.byte_base(align) + size <= self.page_cursor
    }

    /// The allocator after a byte allocation that fits.
    pub open spec fn take_bytes(self, size: nat, align: nat) -> AllocState
        recommends
            align > 0,
            self.bytes_fit(size, align),
    {
        AllocState {
            byte_cursor: self.byte_base(align) + size,
            byte_alloc_count: count_up(self.byte_alloc_count),
            ..self
        }
    }

    /// The allocator after one byte allocation was given back: the byte
    /// region empties as a whole when the last one returns.
    pub open spec fn give_bytes(self) -> AllocState {
        AllocState {
            byte_cursor: if self.byte_alloc_count <= 1 {
                self.start
            } else {
                self.byte_cursor
            },
            byte_alloc_count: count_down(self.byte_alloc_count),
            ..self
        }
    }

    /// Length in bytes of a span of `num_pages` pages.
    pub open spec fn span_bytes(self, num_pages: nat) -> nat {
        num_pages * self.page_size
    }

    /// Whether a span of `num_pages` pages can be handed out: it holds
    /// at least one page and fits above the byte cursor.
    pub open spec fn pages_fit(self, num_pages: nat) -> bool {
        &&& num_pages > 0
        &&& self.byte_cursor + self.span_bytes(num_pages) <= self.page_cursor
    }

    /// Where a span of `num_pages` pages would begin.
    pub open spec fn page_base(self, num_pages: nat) -> int {
        self.page_cursor - self.span_bytes(num_pages)
    }

    /// The allocator after a page allocation that fits. The batch that
    /// was reserved is the span that was asked for, and all of it goes to
    /// the caller.
    pub open spec fn take_pages(self, num_pages: nat) -> AllocState
        recommends
            self.pages_fit(num_pages),
    {
        AllocState {
            page_cursor: self.page_base(num_pages) as nat,
            page_batch_remaining: 0,
            ..self
        }
    }

    /// The allocator after a page span was given back. The span is only
    /// counted, whatever its length: the page cursor stays where it is.
    pub open spec fn give_pages(self) -> AllocState {
        AllocState { page_batch_remaining: count_up(self.page_batch_remaining), ..self }
    }

    /// Bytes between the base and the byte cursor.
    pub open spec fn byte_region_bytes(self) -> int {
        self.byte_cursor - self.start
    }

    /// Bytes between the page cursor and the end: what page allocations
    /// have taken for good.
    pub open spec fn reserved_page_bytes(self) -> int {
        self.end() - self.page_cursor
    }

    /// Length of the region in bytes.
    pub open spec fn total_bytes(self) -> int {
        self.size as int
    }

    /// Bytes between the two cursors.
    pub open spec fn available_bytes(self) -> int {
        self.page_cursor - self.byte_cursor
    }

    /// Bytes outside the gap between the two cursors.
    pub open spec fn used_bytes(self) -> int {
        self.byte_region_bytes() + self.reserved_page_bytes()
    }

    /// Whole pages in the region.
    pub open spec fn total_pages(self) -> int {
        self.size as int / self.page_size as int
    }

    /// Whole pages between the two cursors.
    pub open spec fn available_pages(self) -> int {
        self.available_bytes() / self.page_size as int
    }

    /// Pages of the region that are not available.
    pub open spec fn used_pages(self) -> int {
        self.total_pages() - self.available_pages()
    }
}

/// Taking a whole number of pages off a whole number of pages leaves a
/// whole number of pages.
pub proof fn lemma_whole_pages(reserved: int, num_pages: nat, page_size: nat)
    requires
        page_size > 0,
        reserved % (page_size as int) == 0,
    ensures
        (reserved + num_pages * page_size) % (page_size as int) == 0,
{
    lemma_mod_multiples_vanish(num_pages as int, reserved, page_size as int);
    lemma_mul_is_commutative(page_size as int, num_pages as int);
}

/// The accounting of a valid allocator adds up: every byte, and every
/// page, of the region is either used or available, and none is counted
/// twice.
pub proof fn lemma_accounting_adds_up(s: AllocState)
    requires
        s.inv(),
    ensures
        s.used_bytes() + s.available_bytes() == s.total_bytes(),
        0 <= s.used_bytes() <= s.total_bytes(),
        0 <= s.available_bytes() <= s.total_bytes(),
        s.used_pages() + s.available_pages() == s.total_pages(),
        0 <= s.used_pages() <= s.total_pages(),
        0 <= s.available_pages() <= s.total_pages(),
{
    let p: int = s.page_size as int;
    lemma_div_is_ordered(s.available_bytes(), s.total_bytes(), p);
    lemma_div_pos_is_pos(s.available_bytes(), p);
}

/// A page span ends a whole number of pages below the end of the region.
/// In a region that ends at a multiple of the page size, every span
/// begins at one.
pub proof fn lemma_page_base_whole_pages(s: AllocState, num_pages: nat)
    requires
        s.inv(),
        s.pages_fit(num_pages),
    ensures
        (s.end() - s.page_base(num_pages)) % (s.page_size as int) == 0,
        s.end() % s.page_size == 0 ==> s.page_base(num_pages) % (s.page_size as int) == 0,
{
    let p: int = s.page_size as int;
    let below: int = s.end() - s.page_base(num_pages);
    lemma_whole_pages(s.reserved_page_bytes(), num_pages, s.page_size);
    if s.end() % s.page_size == 0 {
        lemma_sub_mod_noop(s.end() as int, below, p);
        lemma_small_mod(0, s.page_size);
    }
}

/// The available figures say what a single request can get: bytes fit,
/// when no alignment is asked for, exactly up to the available bytes, and
/// pages exactly up to the available pages.
pub proof fn lemma_available_is_what_fits(s: AllocState, size: nat, num_pages: nat)
    requires
        s.inv(),
    ensures
        s.bytes_fit(size, 1) <==> size <= s.available_bytes(),
        s.pages_fit(num_pages) <==> 0 < num_pages <= s.available_pages(),
{
    let p: int = s.page_size as int;
    let n: int = num_pages as int;
    let gap: int = s.available_bytes();
    lemma_fundamental_div_mod(gap, p);
    if n * p <= gap {
        lemma_div_is_ordered(n * p, gap, p);
        lemma_div_by_multiple(n, p);
    }
    if n <= gap / p {
        lemma_mul_inequality(n, gap / p, p);
        lemma_mul_is_commutative(p, gap / p);
    }
}

} // verus!
