//! Sequences of requests, and what holds of every one of them.

use crate::align::lemma_round_up_aligned;
use crate::model::lemma_accounting_adds_up;
use crate::model::lemma_whole_pages;
use crate::model::AllocState;
use vstd::arithmetic::mul::lemma_mul_strictly_positive;
use vstd::prelude::*;

verus! {

/// One request to an allocator, reduced to what its effect depends on.
pub enum Request {
    /// Allocate `size` bytes at a multiple of `align`, as `alloc_bytes`
    /// does.
    Bytes { size: nat, align: nat },
    /// Give one byte allocation back, as `dealloc` does.
    GiveBytes,
    /// Allocate `num_pages` contiguous pages, as `alloc_pages` does.
    Pages { num_pages: nat },
    /// Give one page span back, as `dealloc_pages` does.
    GivePages,
}

impl Request {
    /// A byte allocation names an alignment of at least one.
    pub open spec fn well_formed(self) -> bool {
        self matches Request::Bytes { align, .. } ==> align > 0
    }
}

impl AllocState {
    /// Whether the request is served. Giving back is always served.
    pub open spec fn grants(self, req: Request) -> bool {
        match req {
            Request::Bytes { size, align } => self.bytes_fit(size, align),
            Request::Pages { num_pages } => self.pages_fit(num_pages),
            _ => true,
        }
    }

    /// The address that an allocating request is served at.
    pub open spec fn base_for(self, req: Request) -> int {
        match req {
            Request::Bytes { size, align } => self.byte_base(align) as int,
            Request::Pages { num_pages } => self.page_base(num_pages),
            _ => 0,
        }
    }

    /// The number of bytes that an allocating request asks for.
    pub open spec fn len_for(self, req: Request) -> int {
        match req {
            Request::Bytes { size, align } => size as int,
            Request::Pages { num_pages } => self.span_bytes(num_pages) as int,
            _ => 0,
        }
    }

    /// The allocator after the request. A request that is not served
    /// leaves it as it was.
    pub open spec fn apply(self, req: Request) -> AllocState {
        match req {
            Request::Bytes { size, align } => if self.bytes_fit(size, align) {
                self.take_bytes(size, align)
            } else {
                self
            },
            Request::GiveBytes => self.give_bytes(),
            Request::Pages { num_pages } => if self.pages_fit(num_pages) {
                self.take_pages(num_pages)
            } else {
                self
            },
            Request::GivePages => self.give_pages(),
        }
    }

    /// The allocator after the requests, taken from the first to the last.
    pub open spec fn replay(self, reqs: Seq<Request>) -> AllocState
        decreases reqs.len(),
    {
        if reqs.len() == 0 {
            self
        } else {
            self.replay(reqs.drop_last()).apply(reqs.last())
        }
    }

    /// The allocator as request number `i` of `reqs` finds it.
    pub open spec fn before(self, reqs: Seq<Request>, i: int) -> AllocState {
        self.replay(reqs.take(i))
    }
}

/// Every request in the sequence is well formed.
pub open spec fn all_well_formed(reqs: Seq<Request>) -> bool {
    forall|k: int| 0 <= k < reqs.len() ==> (#[trigger] reqs[k]).well_formed()
}

/// A well-formed request keeps the invariant, whether it is served or not.
pub proof fn lemma_apply_keeps_inv(s: AllocState, req: Request)
    requires
        s.inv(),
        req.well_formed(),
    ensures
        s.apply(req).inv(),
{
    match req {
        Request::Bytes { size, align } => {
            lemma_round_up_aligned(s.byte_cursor, align);
        },
        Request::Pages { num_pages } => {
            lemma_whole_pages(s.reserved_page_bytes(), num_pages, s.page_size);
        },
        _ => {},
    }
}

/// What a request leaves alone: the region and the page size are fixed,
/// the count of remaining pages goes down only when pages are handed out
/// and up only when pages are given back, and a request that is not
/// served changes nothing at all.
pub proof fn lemma_apply_frame(s: AllocState, req: Request)
    ensures
        s.apply(req).start == s.start,
        s.apply(req).size == s.size,
        s.apply(req).page_size == s.page_size,
        !s.grants(req) ==> s.apply(req) == s,
        req is Pages ==> s.apply(req).page_batch_remaining <= s.page_batch_remaining,
        req is GivePages ==> s.apply(req).page_batch_remaining >= s.page_batch_remaining,
        !(req is Pages) && !(req is GivePages) ==> s.apply(req).page_batch_remaining
            == s.page_batch_remaining,
        !(req is Pages) ==> s.apply(req).page_cursor == s.page_cursor,
        !(req is Bytes) && !(req is GiveBytes) ==> s.apply(req).byte_cursor == s.byte_cursor
            && s.apply(req).byte_alloc_count == s.byte_alloc_count,
{
}

/// Request number `i` turns the state it finds into the state that
/// request number `i + 1` finds.
pub proof fn lemma_before_next(s: AllocState, reqs: Seq<Request>, i: int)
    requires
        0 <= i < reqs.len(),
    ensures
        s.before(reqs, i + 1) == s.before(reqs, i).apply(reqs[i]),
{
    assert(reqs.take(i + 1).drop_last() =~= reqs.take(i));
}

/// No sequence of requests changes the region or the page size.
pub proof fn lemma_replay_frame(s: AllocState, reqs: Seq<Request>)
    ensures
        s.replay(reqs).start == s.start,
        s.replay(reqs).size == s.size,
        s.replay(reqs).page_size == s.page_size,
    decreases reqs.len(),
{
    if reqs.len() > 0 {
        lemma_replay_frame(s, reqs.drop_last());
        lemma_apply_frame(s.replay(reqs.drop_last()), reqs.last());
    }
}

/// The invariant holds after every request of a well-formed sequence.
pub proof fn lemma_replay_keeps_inv(s: AllocState, reqs: Seq<Request>)
    requires
        s.inv(),
        all_well_formed(reqs),
    ensures
        s.replay(reqs).inv(),
    decreases reqs.len(),
{
    if reqs.len() > 0 {
        lemma_replay_keeps_inv(s, reqs.drop_last());
        lemma_apply_keeps_inv(s.replay(reqs.drop_last()), reqs.last());
    }
}

/// The invariant holds at every point of a well-formed sequence.
pub proof fn lemma_before_keeps_inv(s: AllocState, reqs: Seq<Request>, i: int)
    requires
        s.inv(),
        all_well_formed(reqs),
        0 <= i <= reqs.len(),
    ensures
        s.before(reqs, i).inv(),
{
    lemma_replay_keeps_inv(s, reqs.take(i));
}

/// No request from number `from` up to, but not including, number `to`
/// empties the byte region: whenever a byte allocation is given back,
/// another one is still outstanding.
pub open spec fn bytes_stay(s: AllocState, reqs: Seq<Request>, from: int, to: int) -> bool {
    forall|k: int|
        from <= k < to && (#[trigger] reqs[k]) is GiveBytes ==> s.before(reqs, k).byte_alloc_count
            > 1
}

/// While the byte region is not emptied, the byte cursor only moves up.
pub proof fn lemma_byte_cursor_never_falls(s: AllocState, reqs: Seq<Request>, from: int, to: int)
    requires
        all_well_formed(reqs),
        0 <= from <= to <= reqs.len(),
        bytes_stay(s, reqs, from, to),
    ensures
        s.before(reqs, from).byte_cursor <= s.before(reqs, to).byte_cursor,
    decreases to - from,
{
    if from < to {
        lemma_byte_cursor_never_falls(s, reqs, from, to - 1);
        lemma_before_next(s, reqs, to - 1);
        let found = s.before(reqs, to - 1);
        match reqs[to - 1] {
            Request::Bytes { size, align } => {
                lemma_round_up_aligned(found.byte_cursor, align);
            },
            _ => {},
        }
    }
}

/// The page cursor only moves down, whatever is requested.
pub proof fn lemma_page_cursor_never_rises(s: AllocState, reqs: Seq<Request>, from: int, to: int)
    requires
        0 <= from <= to <= reqs.len(),
    ensures
        s.before(reqs, to).page_cursor <= s.before(reqs, from).page_cursor,
    decreases to - from,
{
    if from < to {
        lemma_page_cursor_never_rises(s, reqs, from, to - 1);
        lemma_before_next(s, reqs, to - 1);
    }
}

/// Byte allocations do not overlap, and each begins at a multiple of the
/// alignment it was asked with.
///
/// Of two byte allocations that were served, with the byte region not
/// emptied between them, the earlier one ends where the later one begins
/// or below.
pub proof fn lemma_byte_allocations_apart(s: AllocState, reqs: Seq<Request>, i: int, j: int)
    requires
        s.inv(),
        all_well_formed(reqs),
        0 <= i < j < reqs.len(),
        reqs[i] is Bytes,
        reqs[j] is Bytes,
        s.before(reqs, i).grants(reqs[i]),
        s.before(reqs, j).grants(reqs[j]),
        bytes_stay(s, reqs, i + 1, j),
    ensures
        s.before(reqs, i).base_for(reqs[i]) + s.before(reqs, i).len_for(reqs[i]) <= s.before(
            reqs,
            j,
        ).base_for(reqs[j]),
        s.before(reqs, i).base_for(reqs[i]) % (reqs[i]->align as int) == 0,
        s.before(reqs, j).base_for(reqs[j]) % (reqs[j]->align as int) == 0,
{
    lemma_before_next(s, reqs, i);
    lemma_byte_cursor_never_falls(s, reqs, i + 1, j);
    lemma_round_up_aligned(s.before(reqs, i).byte_cursor, reqs[i]->align);
    lemma_round_up_aligned(s.before(reqs, j).byte_cursor, reqs[j]->align);
}

/// A page span overlaps neither the byte region as it stands when the
/// span is handed out, nor any page span handed out before it: it ends
/// where the earlier span begins or below, and so begins strictly below
/// it.
pub proof fn lemma_page_spans_apart(s: AllocState, reqs: Seq<Request>, i: int, j: int)
    requires
        s.inv(),
        all_well_formed(reqs),
        0 <= i < j < reqs.len(),
        reqs[i] is Pages,
        reqs[j] is Pages,
        s.before(reqs, i).grants(reqs[i]),
        s.before(reqs, j).grants(reqs[j]),
    ensures
        s.before(reqs, j).base_for(reqs[j]) + s.before(reqs, j).len_for(reqs[j]) <= s.before(
            reqs,
            i,
        ).base_for(reqs[i]),
        s.before(reqs, j).base_for(reqs[j]) < s.before(reqs, i).base_for(reqs[i]),
        s.start <= s.before(reqs, j).byte_cursor <= s.before(reqs, j).base_for(reqs[j]),
{
    lemma_before_next(s, reqs, i);
    lemma_page_cursor_never_rises(s, reqs, i + 1, j);
    lemma_before_keeps_inv(s, reqs, j);
    lemma_replay_frame(s, reqs.take(j));
    lemma_mul_strictly_positive(reqs[j]->num_pages as int, s.page_size as int);
}

/// Once a page span is handed out, the page cursor stays at or below its
/// base: nothing that is requested later brings the span back into the
/// free space.
pub proof fn lemma_page_span_stays_taken(s: AllocState, reqs: Seq<Request>, i: int)
    requires
        0 <= i < reqs.len(),
        reqs[i] is Pages,
        s.before(reqs, i).grants(reqs[i]),
    ensures
        s.replay(reqs).page_cursor <= s.before(reqs, i).base_for(reqs[i]),
{
    lemma_before_next(s, reqs, i);
    lemma_page_cursor_never_rises(s, reqs, i + 1, reqs.len() as int);
    assert(reqs.take(reqs.len() as int) =~= reqs);
}

/// A byte allocation and a page span never overlap, whichever came
/// first, as long as the byte region was not emptied after the byte
/// allocation was made.
pub proof fn lemma_bytes_and_pages_apart(s: AllocState, reqs: Seq<Request>, b: int, p: int)
    requires
        s.inv(),
        all_well_formed(reqs),
        0 <= b < reqs.len(),
        0 <= p < reqs.len(),
        reqs[b] is Bytes,
        reqs[p] is Pages,
        s.before(reqs, b).grants(reqs[b]),
        s.before(reqs, p).grants(reqs[p]),
        b < p ==> bytes_stay(s, reqs, b + 1, p),
    ensures
        s.before(reqs, b).base_for(reqs[b]) + s.before(reqs, b).len_for(reqs[b]) <= s.before(
            reqs,
            p,
        ).base_for(reqs[p]),
{
    if b < p {
        lemma_before_next(s, reqs, b);
        lemma_byte_cursor_never_falls(s, reqs, b + 1, p);
    } else {
        lemma_before_next(s, reqs, p);
        lemma_page_cursor_never_rises(s, reqs, p + 1, b);
    }
}

/// The accounting adds up after every request of a well-formed sequence.
pub proof fn lemma_accounting_adds_up_after(s: AllocState, reqs: Seq<Request>)
    requires
        s.inv(),
        all_well_formed(reqs),
    ensures
        s.replay(reqs).used_bytes() + s.replay(reqs).available_bytes() == s.replay(
            reqs,
        ).total_bytes(),
        s.replay(reqs).used_pages() + s.replay(reqs).available_pages() == s.replay(
            reqs,
        ).total_pages(),
{
    lemma_replay_keeps_inv(s, reqs);
    lemma_accounting_adds_up(s.replay(reqs));
}

/// `count` requests, each giving one byte allocation back.
pub open spec fn give_bytes_times(count: nat) -> Seq<Request> {
    Seq::new(count, |k: int| Request::GiveBytes)
}

/// Giving back some of the outstanding byte allocations lowers their
/// count by as many and touches nothing on the page side.
pub proof fn lemma_some_given_back(s: AllocState, given: nat)
    requires
        s.inv(),
        given <= s.byte_alloc_count,
    ensures
        s.replay(give_bytes_times(given)).byte_alloc_count == s.byte_alloc_count - given,
        s.replay(give_bytes_times(given)).start == s.start,
        s.replay(give_bytes_times(given)).size == s.size,
        s.replay(give_bytes_times(given)).page_size == s.page_size,
        s.replay(give_bytes_times(given)).page_cursor == s.page_cursor,
        s.replay(give_bytes_times(given)).page_batch_remaining == s.page_batch_remaining,
        s.replay(give_bytes_times(given)).inv(),
    decreases given,
{
    if given > 0 {
        let fewer: nat = (given - 1) as nat;
        lemma_some_given_back(s, fewer);
        assert(give_bytes_times(given).drop_last() =~= give_bytes_times(fewer));
    }
}

/// When every outstanding byte allocation has been given back once, the
/// byte cursor is back at the base of the region, and all of the region
/// is available again but for what page allocations have taken.
pub proof fn lemma_all_given_back(s: AllocState)
    requires
        s.inv(),
    ensures
        s.replay(give_bytes_times(s.byte_alloc_count)).byte_alloc_count == 0,
        s.replay(give_bytes_times(s.byte_alloc_count)).byte_cursor == s.start,
        s.replay(give_bytes_times(s.byte_alloc_count)).reserved_page_bytes()
            == s.reserved_page_bytes(),
        s.replay(give_bytes_times(s.byte_alloc_count)).available_bytes() == s.total_bytes()
            - s.reserved_page_bytes(),
{
    lemma_some_given_back(s, s.byte_alloc_count);
}

/// How many of the requests give a byte allocation back.
pub open spec fn bytes_given_in(reqs: Seq<Request>) -> nat
    decreases reqs.len(),
{
    if reqs.len() == 0 {
        0
    } else if reqs.last() is GiveBytes {
        bytes_given_in(reqs.drop_last()) + 1
    } else {
        bytes_given_in(reqs.drop_last())
    }
}

/// No request in the sequence allocates bytes.
pub open spec fn no_bytes_asked(reqs: Seq<Request>) -> bool {
    forall|k: int| 0 <= k < reqs.len() ==> !((#[trigger] reqs[k]) is Bytes)
}

/// While no bytes are allocated, the count of outstanding byte
/// allocations falls by one with each that is given back, down to zero.
pub proof fn lemma_outstanding_after(s: AllocState, reqs: Seq<Request>)
    requires
        no_bytes_asked(reqs),
    ensures
        s.replay(reqs).byte_alloc_count == if bytes_given_in(reqs) <= s.byte_alloc_count {
            s.byte_alloc_count - bytes_given_in(reqs)
        } else {
            0
        },
    decreases reqs.len(),
{
    if reqs.len() > 0 {
        let earlier: Seq<Request> = reqs.drop_last();
        assert(no_bytes_asked(earlier)) by {
            assert forall|k: int| 0 <= k < earlier.len() implies !((#[trigger] earlier[k])
                is Bytes) by {
                assert(earlier[k] == reqs[k]);
            }
        }
        lemma_outstanding_after(s, earlier);
        assert(!(reqs[reqs.len() - 1] is Bytes));
    }
}

/// Whatever else is asked in between, short of new byte allocations:
/// once as many byte allocations have been given back as were
/// outstanding, the byte cursor is back at the base of the region and
/// all of the region is available again but for what page allocations
/// have taken.
pub proof fn lemma_byte_region_empties(s: AllocState, reqs: Seq<Request>)
    requires
        s.inv(),
        no_bytes_asked(reqs),
        bytes_given_in(reqs) >= s.byte_alloc_count,
    ensures
        s.replay(reqs).byte_alloc_count == 0,
        s.replay(reqs).byte_cursor == s.start,
        s.replay(reqs).available_bytes() == s.total_bytes() - s.replay(
            reqs,
        ).reserved_page_bytes(),
{
    lemma_outstanding_after(s, reqs);
    assert(all_well_formed(reqs)) by {
        assert forall|k: int| 0 <= k < reqs.len() implies (#[trigger] reqs[k]).well_formed() by {
            assert(!(reqs[k] is Bytes));
        }
    }
    lemma_replay_keeps_inv(s, reqs);
    lemma_replay_frame(s, reqs);
}

} // verus!
