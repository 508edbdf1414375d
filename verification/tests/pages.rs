use bump_allocator::AllocError;
use bump_allocator::EarlyAllocator;

const PAGE_SIZE: usize = 4096;

fn region(start: usize, size: usize) -> EarlyAllocator<PAGE_SIZE> {
    let mut a = EarlyAllocator::<PAGE_SIZE>::new();
    a.init(start, size);
    a
}

#[test]
fn page_spans_lie_back_to_back_below_the_end() {
    let mut a = region(0x10000, 8 * PAGE_SIZE);
    assert_eq!(a.alloc_pages(2, PAGE_SIZE), Ok(0x16000));
    assert_eq!(a.page_cursor(), 0x16000);
    assert_eq!(a.alloc_pages(3, 1), Ok(0x13000));
    assert_eq!(a.alloc_pages(4, 1), Err(AllocError::NoMemory));
    assert_eq!(a.page_cursor(), 0x13000);
    assert_eq!(a.alloc_pages(3, 1), Ok(0x10000));
    assert_eq!(a.available_bytes(), 0);
    assert_eq!(a.alloc_pages(1, 1), Err(AllocError::NoMemory));
}

#[test]
fn page_spans_do_not_overlap() {
    let mut a = region(0x40000, 16 * PAGE_SIZE);
    let asked: [usize; 4] = [1, 4, 2, 3];
    let mut spans: Vec<(usize, usize)> = Vec::new();
    for num_pages in asked {
        let base = a.alloc_pages(num_pages, 1).unwrap();
        spans.push((base, base + num_pages * PAGE_SIZE));
    }
    for i in 0..spans.len() {
        assert!(a.byte_cursor() <= spans[i].0);
        for j in (i + 1)..spans.len() {
            assert!(spans[j].1 <= spans[i].0);
        }
    }
}

#[test]
fn page_span_stays_clear_of_the_byte_region() {
    let mut a = region(0x10000, 2 * PAGE_SIZE);
    assert_eq!(a.alloc_bytes(1, 1), Ok(0x10000));
    assert_eq!(a.alloc_pages(2, 1), Err(AllocError::NoMemory));
    assert_eq!(a.alloc_pages(1, 1), Ok(0x11000));
    assert_eq!(a.alloc_pages(1, 1), Err(AllocError::NoMemory));
    assert_eq!(a.byte_cursor(), 0x10001);
    assert_eq!(a.page_cursor(), 0x11000);
}

#[test]
fn page_request_that_does_not_fit_changes_nothing() {
    let mut a = region(0x10000, 3 * PAGE_SIZE);
    assert_eq!(a.alloc_bytes(10, 1), Ok(0x10000));
    a.dealloc_pages(0, 1);
    assert_eq!(a.alloc_pages(3, 1), Err(AllocError::NoMemory));
    assert_eq!(a.byte_cursor(), 0x1000a);
    assert_eq!(a.page_cursor(), 0x13000);
    assert_eq!(a.byte_alloc_count(), 1);
    assert_eq!(a.page_batch_remaining(), 1);
}

#[test]
fn page_request_beyond_the_address_space_fails() {
    let mut a = region(0x10000, 3 * PAGE_SIZE);
    assert_eq!(a.alloc_pages(usize::MAX, 1), Err(AllocError::NoMemory));
    assert_eq!(a.alloc_pages(usize::MAX / PAGE_SIZE + 1, 1), Err(AllocError::NoMemory));
    assert_eq!(a.alloc_pages(usize::MAX / PAGE_SIZE, 1), Err(AllocError::NoMemory));
    assert_eq!(a.page_cursor(), 0x13000);
}

#[test]
fn page_request_for_no_pages_fails() {
    let mut a = region(0x10000, 2 * PAGE_SIZE);
    assert_eq!(a.alloc_pages(0, 1), Err(AllocError::NoMemory));
    assert_eq!(a.page_cursor(), 0x12000);
    assert_eq!(a.alloc_pages(1, 1), Ok(0x11000));
    a.dealloc_pages(0x11000, 1);
    assert_eq!(a.alloc_pages(0, 1), Err(AllocError::NoMemory));
    assert_eq!(a.page_cursor(), 0x11000);
    assert_eq!(a.page_batch_remaining(), 1);
    assert_eq!(a.alloc_pages(1, 1), Ok(0x10000));
}

#[test]
fn page_alignment_argument_has_no_effect() {
    let mut a = region(0x10000, 4 * PAGE_SIZE);
    let mut b = region(0x10000, 4 * PAGE_SIZE);
    assert_eq!(a.alloc_pages(1, 1), b.alloc_pages(1, 4 * PAGE_SIZE));
    assert_eq!(a.alloc_pages(2, 0), b.alloc_pages(2, 2 * PAGE_SIZE));
    assert_eq!(a.page_cursor(), 0x11000);
    assert_eq!(b.page_cursor(), 0x11000);
}

#[test]
fn page_spans_in_a_page_aligned_region_are_page_aligned() {
    let mut a = region(0x10000, 8 * PAGE_SIZE);
    assert_eq!(a.alloc_bytes(33, 1), Ok(0x10000));
    for num_pages in [1usize, 2, 3] {
        let base = a.alloc_pages(num_pages, 1).unwrap();
        assert_eq!(base % PAGE_SIZE, 0);
    }
}

#[test]
fn page_spans_keep_the_offset_of_an_odd_end() {
    let mut a = region(0x1000, 2 * PAGE_SIZE + 0x10);
    assert_eq!(a.alloc_pages(1, 1), Ok(0x2010));
    assert_eq!(a.alloc_pages(1, 1), Ok(0x1010));
    assert_eq!(a.alloc_pages(1, 1), Err(AllocError::NoMemory));
    assert_eq!(a.alloc_bytes(0x10, 1), Ok(0x1000));
    assert_eq!(a.alloc_bytes(1, 1), Err(AllocError::NoMemory));
}

#[test]
fn giving_pages_back_never_moves_the_page_cursor() {
    let mut a = region(0x10000, 4 * PAGE_SIZE);
    let first = a.alloc_pages(2, 1).unwrap();
    assert_eq!(first, 0x12000);
    assert_eq!(a.page_batch_remaining(), 0);
    a.dealloc_pages(first, 2);
    assert_eq!(a.page_cursor(), 0x12000);
    assert_eq!(a.page_batch_remaining(), 1);
    a.dealloc_pages(first, 2);
    assert_eq!(a.page_cursor(), 0x12000);
    assert_eq!(a.page_batch_remaining(), 2);
    assert_eq!(a.available_pages(), 2);
    let second = a.alloc_pages(1, 1).unwrap();
    assert_eq!(second, 0x11000);
    assert!(second + PAGE_SIZE <= first);
    assert_eq!(a.page_batch_remaining(), 0);
}

#[test]
fn page_cursor_only_moves_down() {
    let mut a = region(0x10000, 6 * PAGE_SIZE);
    let mut seen: usize = a.page_cursor();
    let first = a.alloc_pages(1, 1).unwrap();
    assert!(a.page_cursor() <= seen);
    seen = a.page_cursor();
    assert_eq!(a.alloc_bytes(64, 64), Ok(0x10000));
    assert_eq!(a.page_cursor(), seen);
    a.dealloc_pages(first, 1);
    assert_eq!(a.page_cursor(), seen);
    a.dealloc(0x10000, 64, 64);
    assert_eq!(a.page_cursor(), seen);
    assert_eq!(a.alloc_pages(100, 1), Err(AllocError::NoMemory));
    assert_eq!(a.page_cursor(), seen);
    assert_eq!(a.add_memory(0, 0), Err(AllocError::InvalidParam));
    assert_eq!(a.page_cursor(), seen);
    assert_eq!(a.alloc_pages(2, 1), Ok(0x13000));
    assert!(a.page_cursor() <= seen);
    assert!(a.page_cursor() <= first);
}

#[test]
fn other_page_sizes_are_honoured() {
    let mut a = EarlyAllocator::<0x200000>::new();
    a.init(0x4000_0000, 0x80_0000);
    assert_eq!(a.total_pages(), 4);
    assert_eq!(a.alloc_pages(3, 1), Ok(0x4020_0000));
    assert_eq!(a.available_pages(), 1);
    assert_eq!(a.used_pages(), 3);
    let mut b = EarlyAllocator::<1>::new();
    b.init(10, 5);
    assert_eq!(b.total_pages(), 5);
    assert_eq!(b.alloc_pages(2, 1), Ok(13));
    assert_eq!(b.alloc_pages(4, 1), Err(AllocError::NoMemory));
}

#[test]
fn byte_allocations_and_page_spans_do_not_overlap() {
    let mut a = region(0x80000, 8 * PAGE_SIZE);
    let mut taken: Vec<(usize, usize)> = Vec::new();
    let bytes0 = a.alloc_bytes(100, 8).unwrap();
    taken.push((bytes0, bytes0 + 100));
    let pages0 = a.alloc_pages(2, 1).unwrap();
    taken.push((pages0, pages0 + 2 * PAGE_SIZE));
    let bytes1 = a.alloc_bytes(5000, 64).unwrap();
    taken.push((bytes1, bytes1 + 5000));
    let pages1 = a.alloc_pages(3, 1).unwrap();
    taken.push((pages1, pages1 + 3 * PAGE_SIZE));
    let bytes2 = a.alloc_bytes(3000, 1).unwrap();
    taken.push((bytes2, bytes2 + 3000));
    assert_eq!(taken, [
        (0x80000, 0x80064),
        (0x86000, 0x88000),
        (0x80080, 0x81408),
        (0x83000, 0x86000),
        (0x81408, 0x81fc0),
    ]);
    for i in 0..taken.len() {
        assert!(0x80000 <= taken[i].0 && taken[i].1 <= 0x88000);
        for j in (i + 1)..taken.len() {
            assert!(taken[i].1 <= taken[j].0 || taken[j].1 <= taken[i].0);
        }
    }
    assert_eq!(a.alloc_pages(1, 1), Ok(0x82000));
    assert_eq!(a.alloc_bytes(0x41, 1), Err(AllocError::NoMemory));
    assert_eq!(a.alloc_bytes(0x40, 1), Ok(0x81fc0));
    assert_eq!(a.available_bytes(), 0);
}
