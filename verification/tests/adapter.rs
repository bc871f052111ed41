use parcel_heap::adapter::SlabAllocator;
use parcel_heap::arena::Arena;
use parcel_heap::page_store::PageAllocator;
use parcel_heap::slab::{FreeRun, Slab};

#[test]
fn sizes_become_counts_of_values() {
    let words = SlabAllocator::<u32>::new();
    assert_eq!(words.count(0), 0);
    assert_eq!(words.count(3), 0);
    assert_eq!(words.count(4), 1);
    assert_eq!(words.count(17), 4);
    let wides = SlabAllocator::<[u64; 3]>::new().clone();
    assert_eq!(wides.count(24), 1);
    assert_eq!(wides.count(100), 4);
}

#[test]
fn allocate_takes_a_slot_for_each_value() {
    let mut heap = PageAllocator::new();
    let mut arena = Arena::new();
    let mut slab = Slab::<u32>::new();
    let adapter = SlabAllocator::<u32>::new();
    // Four values of four bytes, in four slots of eight bytes.
    assert_eq!(adapter.allocate(&mut slab, &mut heap, &mut arena, 16), 0);
    assert_eq!(adapter.allocate(&mut slab, &mut heap, &mut arena, 4), 32);
    assert_eq!(adapter.allocate(&mut slab, &mut heap, &mut arena, 9), 40);
    assert_eq!(arena.allocate(&mut heap, 8), 56);
}

#[test]
fn deallocate_finds_the_address_of_the_pointer() {
    let mut heap = PageAllocator::new();
    let mut arena = Arena::new();
    let mut slab = Slab::<u32>::new();
    let adapter = SlabAllocator::<u32>::new();
    let first = adapter.allocate(&mut slab, &mut heap, &mut arena, 16);
    let second = adapter.allocate(&mut slab, &mut heap, &mut arena, 8);
    assert_eq!((first, second), (0, 32));
    let ptr = heap.get(second);
    adapter.deallocate(&mut slab, &mut heap, ptr, 8);
    assert_eq!(
        slab.debug_free_list(&heap),
        vec![FreeRun { addr: 32, slots: 2 }]
    );
    let ptr = heap.get(first);
    adapter.deallocate(&mut slab, &mut heap, ptr, 16);
    assert_eq!(
        slab.debug_free_list(&heap),
        vec![FreeRun { addr: 0, slots: 4 }, FreeRun { addr: 32, slots: 2 }]
    );
    assert_eq!(adapter.allocate(&mut slab, &mut heap, &mut arena, 12), 8);
    assert_eq!(adapter.allocate(&mut slab, &mut heap, &mut arena, 8), 32);
}
