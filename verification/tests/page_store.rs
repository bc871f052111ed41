use parcel_heap::codec::{pack_addr, PAGE_SIZE};
use parcel_heap::page_store::{PageAllocator, ReadError};

#[test]
fn a_new_store_has_no_pages() {
    let heap = PageAllocator::new();
    assert_eq!(heap.page_count(), 0);
    assert_eq!(heap.find_page(0), None);
}

#[test]
fn pages_are_at_least_a_standard_page() {
    let mut heap = PageAllocator::new();
    assert_eq!(heap.alloc_page(10, false), 0);
    assert_eq!(heap.alloc_page(PAGE_SIZE, false), 1);
    assert_eq!(heap.alloc_page(70000, false), 2);
    assert_eq!(heap.alloc_page(0, true), 3);
    assert_eq!(heap.page_count(), 4);
    assert_eq!(heap.page_len(0), 65536);
    assert_eq!(heap.page_len(1), 65536);
    assert_eq!(heap.page_len(2), 70000);
    assert_eq!(heap.page_len(3), 65536);
    assert_eq!(heap.page(2).len(), 70000);
}

#[test]
fn allocate_returns_the_start_of_a_new_page() {
    let mut heap = PageAllocator::new();
    assert_eq!(heap.allocate(100), 0);
    assert_eq!(heap.allocate(100_000), 65536);
    assert_eq!(heap.allocate_zeroed(8), 131072);
    assert_eq!(heap.page_len(1), 100_000);
    heap.deallocate(65536, 100_000);
    assert_eq!(heap.page_count(), 3);
    assert_eq!(heap.page_len(1), 100_000);
}

#[test]
fn allocate_zeroed_gives_zero_bytes() {
    let mut heap = PageAllocator::new();
    let small = heap.allocate_zeroed(24);
    let large = heap.allocate_zeroed(70001);
    assert_eq!(small, pack_addr(0, 0));
    assert_eq!(large, pack_addr(1, 0));
    assert_eq!(heap.page(0).len(), 65536);
    assert_eq!(heap.page(1).len(), 70001);
    assert!(heap.page(0).iter().all(|byte| *byte == 0));
    assert!(heap.page(1).iter().all(|byte| *byte == 0));
    assert!(heap.slice(small, 24).iter().all(|byte| *byte == 0));
}

#[test]
fn a_written_slice_is_read_back() {
    let mut heap = PageAllocator::new();
    heap.alloc_page(0, true);
    heap.alloc_page(0, true);
    let addr = pack_addr(1, 16);
    heap.get_slice(addr, 4).copy_from_slice(&[1, 2, 3, 4]);
    assert_eq!(heap.slice(addr, 4), &[1, 2, 3, 4]);
    assert_eq!(heap.slice(pack_addr(1, 14), 8), &[0, 0, 1, 2, 3, 4, 0, 0]);
    assert_eq!(&heap.page(1)[16..20], &[1, 2, 3, 4]);
    assert!(heap.page(0).iter().all(|byte| *byte == 0));
    heap.get_page(0)[65535] = 9;
    assert_eq!(heap.slice(pack_addr(0, 65535), 1), &[9]);
    assert_eq!(heap.slice(addr, 4), &[1, 2, 3, 4]);
}

#[test]
fn words_are_stored_lowest_byte_first() {
    let mut heap = PageAllocator::new();
    heap.alloc_page(0, true);
    heap.store_u32(0, 8, 0x0102_0304);
    assert_eq!(heap.slice(8, 4), &[4, 3, 2, 1]);
    assert_eq!(heap.load_u32(0, 8), 0x0102_0304);
    heap.store_u32(0, 10, u32::MAX);
    assert_eq!(heap.slice(8, 8), &[4, 3, 255, 255, 255, 255, 0, 0]);
    assert_eq!(heap.load_u32(0, 8), 0xffff_0304);
    assert_eq!(heap.load_u32(0, 12), 0x0000_ffff);
}

#[test]
fn an_address_resolves_into_its_page() {
    let mut heap = PageAllocator::new();
    heap.alloc_page(0, false);
    heap.alloc_page(0, false);
    let first = heap.page_ptr(0);
    let second = heap.page_ptr(1);
    assert_ne!(first, second);
    assert_eq!(first, heap.page(0).as_ptr() as usize);
    assert_eq!(second, heap.page(1).as_ptr() as usize);
    assert_eq!(heap.get(pack_addr(0, 0)), first);
    assert_eq!(heap.get(pack_addr(0, 24)), first + 24);
    assert_eq!(heap.get(pack_addr(1, 65535)), second + 65535);
}

#[test]
fn find_page_undoes_get() {
    let mut heap = PageAllocator::new();
    heap.alloc_page(0, false);
    heap.alloc_page(0, false);
    heap.alloc_page(0, false);
    for addr in [0u32, 8, 65535, 65536, 65536 + 40, 2 * 65536 + 65528] {
        assert_eq!(heap.find_page(heap.get(addr)), Some(addr));
    }
    assert_eq!(heap.find_page(0), None);
    assert_eq!(heap.find_page(usize::MAX), None);
}

#[test]
fn the_persisted_form_starts_with_the_counts() {
    let mut heap = PageAllocator::new();
    heap.alloc_page(0, true);
    heap.alloc_page(70000, true);
    heap.get_slice(0, 2).copy_from_slice(&[0xaa, 0xbb]);
    heap.get_slice(pack_addr(1, 0), 1).copy_from_slice(&[0xcc]);
    let mut bytes = vec![0xfe];
    heap.write(&mut bytes);
    assert_eq!(bytes.len(), 1 + 4 + 4 + 65536 + 4 + 70000);
    assert_eq!(&bytes[0..11], &[0xfe, 2, 0, 0, 0, 0, 0, 1, 0, 0xaa, 0xbb]);
    let second = 1 + 4 + 4 + 65536;
    assert_eq!(&bytes[second..second + 5], &[0x70, 0x11, 1, 0, 0xcc]);
}

#[test]
fn an_empty_store_is_persisted_as_a_zero_count() {
    let heap = PageAllocator::new();
    let mut bytes = Vec::new();
    heap.write(&mut bytes);
    assert_eq!(bytes, vec![0, 0, 0, 0]);
    let loaded = PageAllocator::read(&bytes).unwrap();
    assert_eq!(loaded.page_count(), 0);
}

#[test]
fn what_was_written_is_read_back() {
    let mut heap = PageAllocator::new();
    heap.alloc_page(0, true);
    heap.alloc_page(100_000, true);
    heap.alloc_page(0, true);
    let captured = pack_addr(1, 4096);
    heap.get_slice(captured, 5).copy_from_slice(b"hello");
    heap.store_u32(2, 65532, 0xdead_beef);
    heap.get_page(0)[0] = 1;
    let mut bytes = Vec::new();
    heap.write(&mut bytes);

    let loaded = PageAllocator::read(&bytes).unwrap();
    assert_eq!(loaded.page_count(), 3);
    for index in 0..3 {
        assert_eq!(loaded.page_len(index), heap.page_len(index));
        assert_eq!(loaded.page(index), heap.page(index));
    }
    assert_eq!(loaded.slice(captured, 5), b"hello");
    assert_eq!(loaded.load_u32(2, 65532), 0xdead_beef);

    let mut again = Vec::new();
    loaded.write(&mut again);
    assert_eq!(again, bytes);
}

#[test]
fn what_follows_the_persisted_form_is_not_read() {
    let bytes = [1, 0, 0, 0, 3, 0, 0, 0, 9, 8, 7, 0xff, 0xff];
    let loaded = PageAllocator::read(&bytes).unwrap();
    assert_eq!(loaded.page_count(), 1);
    assert_eq!(loaded.page_len(0), 3);
    assert_eq!(loaded.page(0), &[9, 8, 7]);
}

#[test]
fn a_truncated_stream_is_refused() {
    assert_eq!(PageAllocator::read(&[]).err(), Some(ReadError::UnexpectedEof));
    assert_eq!(PageAllocator::read(&[1, 0, 0]).err(), Some(ReadError::UnexpectedEof));
    assert_eq!(PageAllocator::read(&[1, 0, 0, 0]).err(), Some(ReadError::UnexpectedEof));
    assert_eq!(
        PageAllocator::read(&[1, 0, 0, 0, 4, 0, 0]).err(),
        Some(ReadError::UnexpectedEof)
    );
    assert_eq!(
        PageAllocator::read(&[1, 0, 0, 0, 4, 0, 0, 0, 1, 2, 3]).err(),
        Some(ReadError::UnexpectedEof)
    );
    assert_eq!(
        PageAllocator::read(&[2, 0, 0, 0, 1, 0, 0, 0, 5]).err(),
        Some(ReadError::UnexpectedEof)
    );
    assert!(PageAllocator::read(&[1, 0, 0, 0, 4, 0, 0, 0, 1, 2, 3, 4]).is_ok());
}

#[test]
fn a_stream_with_too_many_pages_is_refused() {
    assert_eq!(
        PageAllocator::read(&[1, 0, 1, 0]).err(),
        Some(ReadError::TooManyPages)
    );
    assert_eq!(
        PageAllocator::read(&[255, 255, 255, 255, 0, 0]).err(),
        Some(ReadError::TooManyPages)
    );
    assert_eq!(
        PageAllocator::read(&[0, 0, 1, 0]).err(),
        Some(ReadError::UnexpectedEof)
    );
}
