use parcel_heap::arena::{round_up, Arena, Cursor};
use parcel_heap::codec::pack_addr;
use parcel_heap::page_store::PageAllocator;

#[test]
fn sizes_are_rounded_up_to_eight() {
    assert_eq!(round_up(0), 0);
    assert_eq!(round_up(1), 8);
    assert_eq!(round_up(7), 8);
    assert_eq!(round_up(8), 8);
    assert_eq!(round_up(9), 16);
    assert_eq!(round_up(65529), 65536);
    assert_eq!(round_up(u32::MAX - 7), u32::MAX - 7);
}

#[test]
fn the_first_allocation_starts_a_page() {
    let mut heap = PageAllocator::new();
    let mut arena = Arena::new();
    assert_eq!(heap.page_count(), 0);
    assert_eq!(arena.allocate(&mut heap, 5), 0);
    assert_eq!(heap.page_count(), 1);
    assert_eq!(heap.page_len(0), 65536);
}

#[test]
fn allocations_follow_each_other() {
    let mut heap = PageAllocator::new();
    let mut arena = Arena::default();
    assert_eq!(arena.allocate(&mut heap, 5), 0);
    assert_eq!(arena.allocate(&mut heap, 8), 8);
    assert_eq!(arena.allocate(&mut heap, 1), 16);
    assert_eq!(arena.allocate(&mut heap, 17), 24);
    assert_eq!(arena.allocate(&mut heap, 0), 48);
    assert_eq!(arena.allocate(&mut heap, 3), 48);
    assert_eq!(arena.allocate(&mut heap, 3), 56);
    assert_eq!(heap.page_count(), 1);
}

#[test]
fn a_page_is_filled_to_its_last_byte() {
    let mut heap = PageAllocator::new();
    let mut arena = Arena::new();
    assert_eq!(arena.allocate(&mut heap, 65520), 0);
    assert_eq!(arena.allocate(&mut heap, 8), 65520);
    assert_eq!(arena.allocate(&mut heap, 8), 65528);
    assert_eq!(heap.page_count(), 1);
    assert_eq!(
        arena.position(),
        Some(Cursor {
            page: 0,
            offset: 65536
        })
    );
    assert_eq!(arena.allocate(&mut heap, 8), pack_addr(1, 0));
    assert_eq!(arena.allocate(&mut heap, 8), pack_addr(1, 8));
    assert_eq!(heap.page_count(), 2);
}

#[test]
fn two_halves_fill_a_page() {
    let mut heap = PageAllocator::new();
    let mut arena = Arena::new();
    assert_eq!(arena.allocate(&mut heap, 32768), 0);
    assert_eq!(arena.allocate(&mut heap, 32768), 32768);
    assert_eq!(heap.page_count(), 1);
    assert_eq!(arena.allocate(&mut heap, 32768), pack_addr(1, 0));
    assert_eq!(arena.allocate(&mut heap, 32761), pack_addr(1, 32768));
    assert_eq!(arena.allocate(&mut heap, 1), pack_addr(2, 0));
}

#[test]
fn a_block_that_would_pass_the_end_starts_a_page() {
    let mut heap = PageAllocator::new();
    let mut arena = Arena::new();
    assert_eq!(arena.allocate(&mut heap, 65528), 0);
    assert_eq!(arena.allocate(&mut heap, 9), pack_addr(1, 0));
    assert_eq!(arena.allocate(&mut heap, 65520), pack_addr(1, 16));
    assert_eq!(arena.allocate(&mut heap, 0), pack_addr(1, 0));
    assert_eq!(heap.page_count(), 2);
}

#[test]
fn nothing_is_handed_out_behind_a_block_of_a_page_or_more() {
    let mut heap = PageAllocator::new();
    let mut arena = Arena::new();
    assert_eq!(arena.allocate(&mut heap, 65536), 0);
    assert_eq!(arena.allocate(&mut heap, 8), pack_addr(1, 0));
    assert_eq!(arena.allocate(&mut heap, 100_000), pack_addr(2, 0));
    assert_eq!(heap.page_len(2), 100_000);
    assert_eq!(
        arena.position(),
        Some(Cursor {
            page: 2,
            offset: 100_000
        })
    );
    assert_eq!(arena.allocate(&mut heap, 8), pack_addr(3, 0));
    assert_eq!(arena.allocate(&mut heap, 8), pack_addr(3, 8));
    assert_eq!(heap.page_count(), 4);
}

#[test]
fn a_large_block_that_was_given_back_is_handed_out_again() {
    let mut heap = PageAllocator::new();
    let mut arena = Arena::new();
    let large = arena.allocate(&mut heap, 100_000);
    assert_eq!(large, 0);
    arena.dealloc(&heap, heap.get(large), 100_000);
    assert_eq!(arena.position(), Some(Cursor { page: 0, offset: 0 }));
    assert_eq!(arena.allocate(&mut heap, 65_000), 0);
    // The next block begins where an address can still point, and runs on
    // past that point.
    assert_eq!(arena.allocate(&mut heap, 30_000), 65_000);
    assert_eq!(arena.position(), Some(Cursor { page: 0, offset: 95_000 }));
    // Nothing more begins in this page: an address could not say where.
    assert_eq!(arena.allocate(&mut heap, 8), pack_addr(1, 0));
}

#[test]
fn equal_allocations_run_up_a_page_and_then_start_the_next() {
    let mut heap = PageAllocator::new();
    let mut arena = Arena::new();
    let size = 32;
    let per_page = 2048;
    let mut last = None;
    for n in 0..3 * per_page {
        let addr = arena.allocate(&mut heap, size);
        assert_eq!(addr, pack_addr(n / per_page, (n % per_page) * size));
        if let Some(before) = last {
            assert!(addr > before);
        }
        assert_eq!(heap.page_count() as u32, n / per_page + 1);
        last = Some(addr);
    }
}

#[test]
fn a_large_allocation_gets_a_page_of_its_own() {
    let mut heap = PageAllocator::new();
    let mut arena = Arena::new();
    assert_eq!(arena.allocate(&mut heap, 16), 0);
    assert_eq!(arena.allocate(&mut heap, 70_000), pack_addr(1, 0));
    assert_eq!(heap.page_len(0), 65536);
    assert_eq!(heap.page_len(1), 70_000);
    assert_eq!(arena.allocate(&mut heap, 65_536), pack_addr(2, 0));
    assert_eq!(heap.page_len(2), 65536);
    assert_eq!(arena.allocate(&mut heap, 65_537), pack_addr(3, 0));
    assert_eq!(heap.page_len(3), 65544);
}

#[test]
fn equal_allocations_that_do_not_divide_a_page_leave_its_end_unused() {
    let mut heap = PageAllocator::new();
    let mut arena = Arena::new();
    let size = 24;
    let per_page = 2730;
    for n in 0..2 * per_page + 1 {
        let addr = arena.allocate(&mut heap, size);
        assert_eq!(addr, pack_addr(n / per_page, (n % per_page) * size));
    }
}

#[test]
fn the_last_allocation_can_be_given_back() {
    let mut heap = PageAllocator::new();
    let mut arena = Arena::new();
    let first = arena.allocate(&mut heap, 16);
    let second = arena.allocate(&mut heap, 5);
    assert_eq!((first, second), (0, 16));
    arena.dealloc(&heap, heap.get(second), 5);
    assert_eq!(arena.allocate(&mut heap, 8), 16);
    assert_eq!(arena.allocate(&mut heap, 8), 24);
}

#[test]
fn an_allocation_in_the_middle_is_not_reclaimed() {
    let mut heap = PageAllocator::new();
    let mut arena = Arena::new();
    let first = arena.allocate(&mut heap, 16);
    let second = arena.allocate(&mut heap, 8);
    assert_eq!((first, second), (0, 16));
    arena.dealloc(&heap, heap.get(first), 16);
    assert_eq!(arena.allocate(&mut heap, 8), 24);
    arena.dealloc(&heap, heap.get(second), 8);
    assert_eq!(arena.allocate(&mut heap, 8), 32);
    arena.dealloc(&heap, 0, 8);
    assert_eq!(arena.allocate(&mut heap, 8), 40);
}

#[test]
fn the_bytes_before_the_cursor_are_taken_back_whoever_got_them() {
    let mut heap = PageAllocator::new();
    let mut arena = Arena::new();
    assert_eq!(arena.allocate(&mut heap, 16), 0);
    assert_eq!(arena.allocate(&mut heap, 8), 16);
    assert_eq!(arena.allocate(&mut heap, 8), 24);
    arena.dealloc(&heap, heap.get(16), 16);
    assert_eq!(arena.allocate(&mut heap, 8), 16);
    arena.dealloc(&heap, heap.get(8), 13);
    assert_eq!(arena.allocate(&mut heap, 8), 8);
}

#[test]
fn a_fresh_arena_has_nothing_to_take_back() {
    let mut heap = PageAllocator::new();
    heap.alloc_page(0, false);
    let mut arena = Arena::new();
    arena.dealloc(&heap, heap.get(0), 8);
    arena.dealloc(&heap, heap.get(0) + 1, 0);
    assert_eq!(arena.allocate(&mut heap, 8), pack_addr(1, 0));
}
