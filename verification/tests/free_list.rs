use parcel_heap::arena::Arena;
use parcel_heap::codec::pack_addr;
use parcel_heap::page_store::PageAllocator;
use parcel_heap::slab::{FreeRun, Slab, NODE_SIZE};

#[allow(dead_code)]
struct Small(u8);

#[allow(dead_code)]
struct Wide([u64; 3]);

#[test]
fn a_slot_holds_a_value_or_a_header() {
    assert_eq!(NODE_SIZE, 8);
    assert_eq!(Slab::<Small>::slot_bytes(), 8);
    assert_eq!(Slab::<u64>::slot_bytes(), 8);
    assert_eq!(Slab::<Wide>::slot_bytes(), 24);
}

#[test]
fn a_new_slab_asks_the_arena() {
    let mut heap = PageAllocator::new();
    let mut arena = Arena::new();
    let mut slab = Slab::<Wide>::default();
    assert_eq!(slab.debug_free_list(&heap), vec![]);
    assert_eq!(slab.allocate(&mut heap, &mut arena, 2), 0);
    assert_eq!(slab.allocate(&mut heap, &mut arena, 1), 48);
    assert_eq!(arena.allocate(&mut heap, 8), 72);
    assert_eq!(slab.allocate(&mut heap, &mut arena, 3), 80);
    assert_eq!(slab.debug_free_list(&heap), vec![]);
}

#[test]
fn a_freed_run_holds_its_header() {
    let mut heap = PageAllocator::new();
    let mut arena = Arena::new();
    let mut slab = Slab::<u64>::new();
    let first = slab.allocate(&mut heap, &mut arena, 3);
    let second = slab.allocate(&mut heap, &mut arena, 2);
    assert_eq!((first, second), (0, 24));
    slab.dealloc(&mut heap, first, 3);
    assert_eq!(heap.slice(first, 8), &[3, 0, 0, 0, 1, 0, 0, 0]);
    slab.dealloc(&mut heap, second, 2);
    assert_eq!(heap.slice(second, 8), &[2, 0, 0, 0, 0, 0, 0, 0]);
    assert_eq!(
        slab.debug_free_list(&heap),
        vec![FreeRun { addr: 24, slots: 2 }, FreeRun { addr: 0, slots: 3 }]
    );
}

#[test]
fn the_first_run_that_fits_is_taken() {
    let mut heap = PageAllocator::new();
    let mut arena = Arena::new();
    let mut slab = Slab::<u64>::new();
    let a = slab.allocate(&mut heap, &mut arena, 4);
    let b = slab.allocate(&mut heap, &mut arena, 1);
    let c = slab.allocate(&mut heap, &mut arena, 2);
    let d = slab.allocate(&mut heap, &mut arena, 1);
    let e = slab.allocate(&mut heap, &mut arena, 6);
    assert_eq!((a, b, c, d, e), (0, 32, 40, 56, 64));
    slab.dealloc(&mut heap, e, 6);
    slab.dealloc(&mut heap, c, 2);
    slab.dealloc(&mut heap, a, 4);
    assert_eq!(
        slab.debug_free_list(&heap),
        vec![
            FreeRun { addr: 0, slots: 4 },
            FreeRun { addr: 40, slots: 2 },
            FreeRun { addr: 64, slots: 6 }
        ]
    );
    // Not the run that fits best, but the first that fits: its last slots.
    assert_eq!(slab.allocate(&mut heap, &mut arena, 2), 16);
    assert_eq!(
        slab.debug_free_list(&heap),
        vec![
            FreeRun { addr: 0, slots: 2 },
            FreeRun { addr: 40, slots: 2 },
            FreeRun { addr: 64, slots: 6 }
        ]
    );
    // The first two runs are too short.
    assert_eq!(slab.allocate(&mut heap, &mut arena, 5), 72);
    assert_eq!(
        slab.debug_free_list(&heap),
        vec![
            FreeRun { addr: 0, slots: 2 },
            FreeRun { addr: 40, slots: 2 },
            FreeRun { addr: 64, slots: 1 }
        ]
    );
    // A run of just the right length leaves the list: here the first.
    assert_eq!(slab.allocate(&mut heap, &mut arena, 2), 0);
    assert_eq!(
        slab.debug_free_list(&heap),
        vec![FreeRun { addr: 40, slots: 2 }, FreeRun { addr: 64, slots: 1 }]
    );
    // And here the last.
    slab.dealloc(&mut heap, 0, 1);
    assert_eq!(slab.allocate(&mut heap, &mut arena, 2), 40);
    assert_eq!(
        slab.debug_free_list(&heap),
        vec![FreeRun { addr: 0, slots: 1 }, FreeRun { addr: 64, slots: 1 }]
    );
    assert_eq!(heap.slice(0, 8), &[1, 0, 0, 0, 64, 0, 0, 0]);
    assert_eq!(slab.allocate(&mut heap, &mut arena, 1), 0);
    assert_eq!(slab.allocate(&mut heap, &mut arena, 1), 64);
    assert_eq!(slab.debug_free_list(&heap), vec![]);
}

#[test]
fn where_no_run_fits_the_arena_is_asked() {
    let mut heap = PageAllocator::new();
    let mut arena = Arena::new();
    let mut slab = Slab::<u64>::new();
    let first = slab.allocate(&mut heap, &mut arena, 2);
    let second = slab.allocate(&mut heap, &mut arena, 2);
    assert_eq!((first, second), (0, 16));
    slab.dealloc(&mut heap, first, 2);
    assert_eq!(slab.allocate(&mut heap, &mut arena, 3), 32);
    assert_eq!(
        slab.debug_free_list(&heap),
        vec![FreeRun { addr: 0, slots: 2 }]
    );
    assert_eq!(slab.allocate(&mut heap, &mut arena, 8191), pack_addr(1, 0));
    assert_eq!(heap.page_count(), 2);
}

#[test]
fn two_slabs_share_a_store() {
    let mut heap = PageAllocator::new();
    let mut arena = Arena::new();
    let mut words = Slab::<u64>::new();
    let mut wides = Slab::<Wide>::new();
    let w1 = words.allocate(&mut heap, &mut arena, 1);
    let x1 = wides.allocate(&mut heap, &mut arena, 1);
    let w2 = words.allocate(&mut heap, &mut arena, 1);
    assert_eq!((w1, x1, w2), (0, 8, 32));
    wides.dealloc(&mut heap, x1, 1);
    words.dealloc(&mut heap, w1, 1);
    assert_eq!(words.allocate(&mut heap, &mut arena, 1), 0);
    assert_eq!(words.allocate(&mut heap, &mut arena, 1), 40);
    assert_eq!(wides.allocate(&mut heap, &mut arena, 1), 8);
    assert_eq!(wides.debug_free_list(&heap), vec![]);
    assert_eq!(words.debug_free_list(&heap), vec![]);
}

#[test]
fn neighbouring_free_runs_are_not_joined() {
    let mut heap = PageAllocator::new();
    let mut arena = Arena::new();
    let mut slab = Slab::<u64>::new();
    let first = slab.allocate(&mut heap, &mut arena, 2);
    let second = slab.allocate(&mut heap, &mut arena, 2);
    assert_eq!((first, second), (0, 16));
    slab.dealloc(&mut heap, first, 2);
    slab.dealloc(&mut heap, second, 2);
    assert_eq!(
        slab.debug_free_list(&heap),
        vec![FreeRun { addr: 16, slots: 2 }, FreeRun { addr: 0, slots: 2 }]
    );
    // Four slots lie free side by side, but no run has more than two.
    assert_eq!(slab.allocate(&mut heap, &mut arena, 4), 32);
    assert_eq!(slab.allocate(&mut heap, &mut arena, 2), 16);
    assert_eq!(slab.allocate(&mut heap, &mut arena, 2), 0);
}

#[test]
fn freed_slots_do_not_go_back_to_the_arena() {
    let mut heap = PageAllocator::new();
    let mut arena = Arena::new();
    let mut slab = Slab::<u64>::new();
    let only = slab.allocate(&mut heap, &mut arena, 3);
    assert_eq!(only, 0);
    slab.dealloc(&mut heap, only, 3);
    // The slots were the last that the arena handed out; it goes on behind
    // them all the same.
    assert_eq!(arena.allocate(&mut heap, 8), 24);
    assert_eq!(slab.allocate(&mut heap, &mut arena, 3), 0);
}

#[test]
fn a_request_for_no_slots_takes_none() {
    let mut heap = PageAllocator::new();
    let mut arena = Arena::new();
    let mut slab = Slab::<u64>::new();
    assert_eq!(slab.allocate(&mut heap, &mut arena, 0), 0);
    assert_eq!(slab.allocate(&mut heap, &mut arena, 2), 0);
    slab.dealloc(&mut heap, 0, 2);
    assert_eq!(slab.allocate(&mut heap, &mut arena, 0), 16);
    assert_eq!(
        slab.debug_free_list(&heap),
        vec![FreeRun { addr: 0, slots: 2 }]
    );
}

#[test]
fn a_run_as_long_as_a_page_comes_from_its_own_page_and_goes_back() {
    let mut heap = PageAllocator::new();
    let mut arena = Arena::new();
    let mut slab = Slab::<u64>::new();
    let whole = slab.allocate(&mut heap, &mut arena, 8192);
    let next = slab.allocate(&mut heap, &mut arena, 1);
    assert_eq!((whole, next), (0, pack_addr(1, 0)));
    slab.dealloc(&mut heap, whole, 8192);
    assert_eq!(slab.allocate(&mut heap, &mut arena, 2), 65520);
    assert_eq!(
        slab.debug_free_list(&heap),
        vec![FreeRun { addr: 0, slots: 8190 }]
    );
}

#[test]
fn a_run_longer_than_an_address_reaches_is_taken_where_it_can_be_reached() {
    let mut heap = PageAllocator::new();
    let mut arena = Arena::new();
    let mut slab = Slab::<u64>::new();
    let long = slab.allocate(&mut heap, &mut arena, 10_000);
    assert_eq!(long, 0);
    assert_eq!(heap.page_len(0), 80_000);
    slab.dealloc(&mut heap, long, 10_000);
    // The last slot of the run lies where no address can point: the run
    // does not fit a request for one slot, and the arena is asked.
    assert_eq!(slab.allocate(&mut heap, &mut arena, 1), pack_addr(1, 0));
    // Its last 2000 slots begin at offset 64000, which an address can say.
    assert_eq!(slab.allocate(&mut heap, &mut arena, 2000), 64_000);
    assert_eq!(
        slab.debug_free_list(&heap),
        vec![FreeRun { addr: 0, slots: 8000 }]
    );
    // Taken whole, a run fits whatever its length.
    slab.dealloc(&mut heap, 64_000, 2000);
    assert_eq!(slab.allocate(&mut heap, &mut arena, 2000), 64_000);
    assert_eq!(slab.allocate(&mut heap, &mut arena, 8000), 0);
    assert_eq!(slab.debug_free_list(&heap), vec![]);
}
