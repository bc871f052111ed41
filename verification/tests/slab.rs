use parcel_heap::arena::Arena;
use parcel_heap::page_store::PageAllocator;
use parcel_heap::slab::{FreeRun, Slab};

#[allow(dead_code)]
struct Test {
    foo: u32,
    bar: u32,
}

#[test]
fn test_slab() {
    let mut heap = PageAllocator::new();
    let mut arena = Arena::new();
    let mut slab = Slab::<Test>::new();
    let addr1 = slab.allocate(&mut heap, &mut arena, 5);
    assert_eq!(addr1, 0);
    let addr2 = slab.allocate(&mut heap, &mut arena, 2);
    assert_eq!(addr2, 40);
    slab.dealloc(&mut heap, addr1, 5);
    let addr = slab.allocate(&mut heap, &mut arena, 1);
    assert_eq!(addr, 32);
    slab.dealloc(&mut heap, addr2, 2);
    let addr = slab.allocate(&mut heap, &mut arena, 4);
    assert_eq!(addr, 0);
    assert_eq!(
        slab.debug_free_list(&heap),
        vec![FreeRun { addr: 40, slots: 2 }]
    );
}
