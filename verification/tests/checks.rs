use parcel_heap::adapter::SlabAllocator;
use parcel_heap::arena::Arena;
use parcel_heap::codec::pack_addr;
use parcel_heap::fs::{find_above, FileSystem, MemoryFileSystem};
use parcel_heap::page_store::{bytes_awaited, PageAllocator, ReadError};
use parcel_heap::slab::Slab;

#[test]
fn the_pages_of_a_store_lie_apart() {
    let mut heap = PageAllocator::new();
    assert!(heap.lies_apart());
    heap.alloc_page(0, false);
    heap.alloc_page(100_000, true);
    heap.alloc_page(0, false);
    assert!(heap.lies_apart());
    let stream = {
        let mut stream = Vec::new();
        heap.write(&mut stream);
        stream
    };
    let loaded = PageAllocator::read(&stream).unwrap();
    assert!(loaded.lies_apart());
}

#[test]
fn an_address_that_is_resolved_is_found_again() {
    let mut heap = PageAllocator::new();
    heap.alloc_page(0, false);
    heap.alloc_page(100_000, false);
    heap.alloc_page(0, false);
    assert!(heap.lies_apart());
    for page in 0..3u32 {
        for offset in [0u32, 1, 8, 4096, 65528, 65535] {
            let addr = pack_addr(page, offset);
            assert_eq!(heap.find_page(heap.get(addr)), Some(addr));
        }
    }
}

#[test]
fn a_store_says_whether_it_can_take_a_page() {
    let heap = PageAllocator::new();
    assert!(heap.can_add_page(0));
    assert!(heap.can_add_page(u32::MAX as usize));
    assert!(!heap.can_add_page(u32::MAX as usize + 1));
}

#[test]
fn a_stream_is_awaited_piece_by_piece() {
    let mut heap = PageAllocator::new();
    heap.alloc_page(0, false);
    heap.alloc_page(70_000, false);
    let mut stream = Vec::new();
    heap.write(&mut stream);
    assert_eq!(stream.len(), 4 + 4 + 65536 + 4 + 70_000);

    assert_eq!(bytes_awaited(&[]), 4);
    assert_eq!(bytes_awaited(&stream[..1]), 3);
    assert_eq!(bytes_awaited(&stream[..4]), 4);
    assert_eq!(bytes_awaited(&stream[..6]), 2);
    assert_eq!(bytes_awaited(&stream[..8]), 65536);
    assert_eq!(bytes_awaited(&stream[..8 + 65535]), 1);
    assert_eq!(bytes_awaited(&stream[..8 + 65536]), 4);
    assert_eq!(bytes_awaited(&stream[..8 + 65536 + 4]), 70_000);
    assert_eq!(bytes_awaited(&stream[..stream.len() - 10]), 10);
    assert_eq!(bytes_awaited(&stream), 0);
    stream.extend_from_slice(&[1, 2, 3]);
    assert_eq!(bytes_awaited(&stream), 0);
}

#[test]
fn reading_what_is_awaited_ends_with_a_stream_that_can_be_read() {
    let mut heap = PageAllocator::new();
    heap.alloc_page(0, false);
    heap.store_u32(0, 16, 0xdead_beef);
    let mut stream = Vec::new();
    heap.write(&mut stream);
    stream.extend_from_slice(&[9; 100]);

    let mut read = 0;
    let mut steps = 0;
    loop {
        let more = bytes_awaited(&stream[..read]);
        assert_eq!(
            more == 0,
            !matches!(
                PageAllocator::read(&stream[..read]),
                Err(ReadError::UnexpectedEof)
            )
        );
        if more == 0 {
            break;
        }
        read += more;
        steps += 1;
    }
    assert_eq!(steps, 3);
    assert_eq!(read, 4 + 4 + 65536);
    let loaded = PageAllocator::read(&stream[..read]).unwrap();
    assert_eq!(loaded.load_u32(0, 16), 0xdead_beef);
}

#[test]
fn no_more_is_awaited_of_a_stream_with_too_many_pages() {
    let stream = 65537u32.to_le_bytes();
    assert_eq!(bytes_awaited(&stream), 0);
    assert!(matches!(
        PageAllocator::read(&stream),
        Err(ReadError::TooManyPages)
    ));
    let most = 65536u32.to_le_bytes();
    assert_eq!(bytes_awaited(&most), 4);
    let none = 0u32.to_le_bytes();
    assert_eq!(bytes_awaited(&none), 0);
}

#[test]
fn an_arena_says_what_fits_behind_its_cursor() {
    let mut heap = PageAllocator::new();
    let mut arena = Arena::new();
    assert!(!arena.has_room_for(&heap, 0));
    assert!(!arena.has_room_for(&heap, 8));
    assert!(arena.can_allocate(&heap, 8));
    assert!(arena.can_allocate(&heap, u32::MAX - 7));
    assert!(!arena.can_allocate(&heap, u32::MAX - 6));
    assert_eq!(arena.allocate(&mut heap, 16), 0);
    assert!(arena.has_room_for(&heap, 65520));
    assert!(!arena.has_room_for(&heap, 65528));
    assert_eq!(arena.allocate(&mut heap, 65520), 16);
    assert!(arena.has_room_for(&heap, 0));
    assert!(!arena.has_room_for(&heap, 8));
    assert!(arena.can_allocate(&heap, 1));
}

#[test]
fn a_slab_says_what_it_can_hand_out() {
    let mut heap = PageAllocator::new();
    let mut arena = Arena::new();
    let slab = Slab::<u64>::new();
    assert!(slab.can_allocate(&heap, &arena, 0));
    assert!(slab.can_allocate(&heap, &arena, 1));
    assert!(slab.can_allocate(&heap, &arena, (u32::MAX - 7) / 8));
    assert!(!slab.can_allocate(&heap, &arena, (u32::MAX - 7) / 8 + 1));
    assert!(!slab.can_allocate(&heap, &arena, u32::MAX));
    assert_eq!(arena.allocate(&mut heap, 8), 0);
    assert!(slab.can_allocate(&heap, &arena, 1));
}

#[test]
fn a_slab_says_what_it_can_take_back() {
    let mut heap = PageAllocator::new();
    let mut arena = Arena::new();
    let mut slab = Slab::<u64>::new();
    let addr = slab.allocate(&mut heap, &mut arena, 4);
    assert_eq!(addr, 0);
    assert!(slab.can_return(&heap, addr, 4));
    assert!(slab.can_return(&heap, 8, 3));
    assert!(slab.can_return(&heap, 0, 8192));
    // Past the end of the page.
    assert!(!slab.can_return(&heap, 0, 8193));
    assert!(!slab.can_return(&heap, 65528, 2));
    // In a page that the store does not have.
    assert!(!slab.can_return(&heap, pack_addr(1, 0), 1));
    // The address that stands for the end of the list.
    assert!(!slab.can_return(&heap, 1, 1));

    slab.dealloc(&mut heap, 8, 2);
    // Free already, in part or as a whole.
    assert!(!slab.can_return(&heap, 8, 2));
    assert!(!slab.can_return(&heap, 0, 2));
    assert!(!slab.can_return(&heap, 16, 1));
    assert!(!slab.can_return(&heap, 16, 2));
    // Beside the free run.
    assert!(slab.can_return(&heap, 0, 1));
    assert!(slab.can_return(&heap, 24, 1));
    // A run of no slots still takes a header.
    assert!(slab.can_return(&heap, 24, 0));
    assert!(!slab.can_return(&heap, 16, 0));
    slab.dealloc(&mut heap, 0, 1);
    assert!(!slab.can_return(&heap, 0, 1));
    assert!(slab.can_return(&heap, 24, 1));
}

#[test]
fn the_adapter_says_what_it_can_do() {
    let mut heap = PageAllocator::new();
    let mut arena = Arena::new();
    let mut slab = Slab::<u64>::new();
    let adapter = SlabAllocator::<u64>::new();
    assert!(adapter.can_allocate(&slab, &heap, &arena, 64));
    // The largest size whose slots the arena can still count, and the next.
    assert!(adapter.can_allocate(&slab, &heap, &arena, u32::MAX as usize));
    assert!(!adapter.can_allocate(&slab, &heap, &arena, u32::MAX as usize + 1));
    let addr = adapter.allocate(&mut slab, &mut heap, &mut arena, 64);
    let ptr = heap.get(addr);
    assert!(adapter.can_deallocate(&slab, &heap, ptr, 64));
    assert!(adapter.can_deallocate(&slab, &heap, ptr + 8, 16));
    // No page holds the address.
    assert!(!adapter.can_deallocate(&slab, &heap, 0, 64));
    // The slots run past the end of the page.
    assert!(!adapter.can_deallocate(&slab, &heap, ptr, 65544));
    adapter.deallocate(&mut slab, &mut heap, ptr, 64);
    // Free already.
    assert!(!adapter.can_deallocate(&slab, &heap, ptr, 64));
    assert!(!adapter.can_deallocate(&slab, &heap, ptr + 56, 8));
    assert!(adapter.can_deallocate(&slab, &heap, ptr + 64, 8));
}

fn memory() -> MemoryFileSystem {
    let files = vec![
        ("/project/.parcelrc", "root"),
        ("/project/packages/app/package.json", "{}"),
        ("/project/packages/app/.parcelrc", "app"),
        ("/project/node_modules/dep/lib/index.js", ""),
        ("/project/node_modules/.parcelrc", "hidden"),
    ];
    MemoryFileSystem::new(
        files
            .into_iter()
            .map(|(path, contents)| (String::from(path), String::from(contents)))
            .collect(),
        String::from("/project"),
    )
}

#[test]
fn the_search_on_any_file_system_finds_what_the_file_system_finds() {
    let fs = memory();
    let names = vec![String::from(".parcelrc.json"), String::from(".parcelrc")];
    let root = String::from("/project");
    let cases = [
        ("/project/packages/app/src", Some("/project/packages/app/.parcelrc")),
        ("/project/packages/app", Some("/project/packages/app/.parcelrc")),
        ("/project/packages", Some("/project/.parcelrc")),
        ("/project", Some("/project/.parcelrc")),
        ("/project/node_modules/dep/lib", None),
        ("/project/node_modules", None),
        ("/elsewhere/deep", None),
    ];
    for (from, expected) in cases {
        let from = String::from(from);
        let found = find_above(&fs, &names, &from, &root);
        assert_eq!(found, expected.map(String::from));
        assert_eq!(found, fs.find_ancestor_file(&names, &from, &root));
    }
}

#[test]
fn the_search_ends_behind_the_root() {
    let fs = memory();
    let names = vec![String::from(".parcelrc")];
    let found = find_above(
        &fs,
        &names,
        &String::from("/project/packages/lib"),
        &String::from("/project/packages"),
    );
    assert_eq!(found, None);
    let package = vec![String::from("package.json"), String::from(".parcelrc")];
    let found = find_above(
        &fs,
        &package,
        &String::from("/project/packages/app"),
        &String::from("/"),
    );
    assert_eq!(found, Some(String::from("/project/packages/app/package.json")));
}

#[test]
fn a_page_is_added_wherever_the_store_can_take_it() {
    let mut heap = PageAllocator::new();
    assert_eq!(heap.try_alloc_page(10, true), Some(0));
    assert_eq!(heap.try_alloc_page(70_000, true), Some(1));
    assert_eq!(heap.page_len(0), 65536);
    assert_eq!(heap.page_len(1), 70_000);
    assert!(heap.page(0).iter().all(|byte| *byte == 0));
    assert!(heap.page(1).iter().all(|byte| *byte == 0));
    heap.store_u32(0, 0, 0xdead_beef);
    assert_eq!(heap.try_alloc_page(u32::MAX as usize + 1, true), None);
    assert_eq!(heap.page_count(), 2);
    assert_eq!(heap.try_alloc_page(0, false), Some(2));
    assert_eq!(heap.load_u32(0, 0), 0xdead_beef);
    assert!(heap.lies_apart());
}
