//! The arena: a bump allocator that carves space out of the newest page of
//! a page store.

use crate::codec::{
    lemma_unpack_pack, offset_of, pack, pack_addr, page_of, NUM_PAGES, PAGE_SIZE,
};
use crate::page_store::{in_range, lens_of, PageAllocator};
use vstd::prelude::*;

verus! {

/// Where an arena stands: in page `page`, before the byte at `offset`. The
/// offset is kept apart from the page, since it can be as large as the page
/// is long, which is more than a packed address can say.
#[derive(Clone, Copy, Debug, PartialEq, Eq, Structural)]
pub struct Cursor {
    pub page: u32,
    pub offset: u32,
}

/// `size` rounded up to a multiple of 8.
pub open spec fn round_up8(size: int) -> int {
    (size + 7) / 8 * 8
}

/// Rounding up gives the next multiple of 8 that is no less than the size.
pub proof fn lemma_round_up8(size: int)
    requires
        0 <= size,
    ensures
        round_up8(size) % 8 == 0,
        size <= round_up8(size) < size + 8,
{
}

/// An allocation of `size` bytes fits behind `cursor`, in a store whose
/// pages have the lengths `lens`: the cursor stands in a page of the store,
/// the page has `size` bytes left behind it, and bytes that are handed out
/// begin where a packed address can point. A page may be filled to its last
/// byte.
pub open spec fn has_room(cursor: Option<Cursor>, lens: Seq<int>, size: int) -> bool {
    match cursor {
        Some(at) => {
            &&& at.page < lens.len()
            &&& at.offset + size <= lens[at.page as int]
            &&& size == 0 || at.offset < PAGE_SIZE
        },
        None => false,
    }
}

/// The address that an allocation of `size` bytes returns: that of the
/// cursor where the bytes fit, else that of the first byte of a new page.
pub open spec fn alloc_addr(cursor: Option<Cursor>, lens: Seq<int>, size: int) -> u32 {
    if has_room(cursor, lens, size) {
        pack(cursor->0.page, cursor->0.offset)
    } else {
        pack(lens.len() as u32, 0)
    }
}

/// Where the cursor stands after an allocation of `size` bytes: behind the
/// bytes, in the page in which they lie.
pub open spec fn alloc_cursor(cursor: Option<Cursor>, lens: Seq<int>, size: int) -> Cursor {
    if has_room(cursor, lens, size) {
        Cursor { page: cursor->0.page, offset: (cursor->0.offset + size) as u32 }
    } else {
        Cursor { page: lens.len() as u32, offset: size as u32 }
    }
}

/// The lengths of the pages after an allocation of `size` bytes.
pub open spec fn alloc_lens(cursor: Option<Cursor>, lens: Seq<int>, size: int) -> Seq<int> {
    if has_room(cursor, lens, size) {
        lens
    } else {
        lens.push(if size > PAGE_SIZE { size } else { PAGE_SIZE as int })
    }
}

/// The bytes of page `page` before `end` lie behind the cursor, in a store
/// of `count` pages: the arena has passed them, and hands none of them out
/// as long as they are not given back to it. Every page but the one in
/// which the cursor stands lies behind it as a whole.
pub open spec fn lies_behind(cursor: Option<Cursor>, count: int, page: int, end: int) -> bool {
    &&& 0 <= page < count
    &&& match cursor {
        Some(at) => page != at.page || end <= at.offset,
        None => true,
    }
}

/// What an allocation of `size` bytes, a multiple of 8, does to the cursor
/// `cursor` and the pages `pages`. Where the bytes fit behind the cursor,
/// they are the bytes at the cursor, which moves past them, and the pages
/// stay as they are. Where they do not, a page of at least `size` bytes,
/// and at least a standard page, is added behind the others; the bytes are
/// its first, and the cursor stands behind them.
pub open spec fn bumped(
    cursor: Option<Cursor>,
    pages: Seq<Seq<u8>>,
    size: int,
    addr: u32,
    cursor_after: Option<Cursor>,
    pages_after: Seq<Seq<u8>>,
) -> bool {
    &&& addr == alloc_addr(cursor, lens_of(pages), size)
    &&& cursor_after == Some(alloc_cursor(cursor, lens_of(pages), size))
    &&& lens_of(pages_after) == alloc_lens(cursor, lens_of(pages), size)
    &&& pages_after.len() == alloc_lens(cursor, lens_of(pages), size).len()
    &&& pages_after.subrange(0, pages.len() as int) == pages
    &&& in_range(pages_after, addr, size)
}

/// The `size` bytes at machine address `ptr`, rounded up to a multiple of
/// 8, are the last that lie before `cursor` in its page: they end where the
/// cursor stands, and begin in the same page. `ptrs` holds the machine
/// address of each page.
pub open spec fn ends_at_cursor(cursor: Option<Cursor>, ptrs: Seq<usize>, ptr: usize, size: int) -> bool {
    match cursor {
        Some(at) => {
            &&& at.offset != 0
            &&& at.page < ptrs.len()
            &&& round_up8(size) <= at.offset
            &&& ptr + round_up8(size) == ptrs[at.page as int] + at.offset
        },
        None => false,
    }
}

/// Where an allocation of `size` bytes puts them, and where it leaves the
/// cursor. Bytes that fit begin at the cursor, in its page; bytes that do
/// not fit are the first of a new page. Either way the cursor stands in the
/// page of the bytes, right behind them, and what lay behind the cursor
/// before lies behind it still.
pub proof fn lemma_cursor_moves(cursor: Option<Cursor>, lens: Seq<int>, size: int)
    requires
        0 < size <= u32::MAX,
        lens.len() <= NUM_PAGES,
        has_room(cursor, lens, size) || lens.len() < NUM_PAGES,
        has_room(cursor, lens, size) ==> lens[cursor->0.page as int] <= u32::MAX,
    ensures
        ({
            let addr = alloc_addr(cursor, lens, size);
            let moved = alloc_cursor(cursor, lens, size);
            let after = alloc_lens(cursor, lens, size);
            &&& page_of(addr) == moved.page
            &&& moved.offset == offset_of(addr) + size
            &&& moved.page < after.len()
            &&& moved.offset <= after[moved.page as int]
            &&& has_room(cursor, lens, size) ==> {
                &&& after == lens
                &&& moved.page == cursor->0.page
                &&& offset_of(addr) == cursor->0.offset
            }
            &&& !has_room(cursor, lens, size) ==> {
                &&& after.len() == lens.len() + 1
                &&& moved.page == lens.len()
                &&& offset_of(addr) == 0
            }
            &&& forall|page: int, end: int|
                #[trigger] lies_behind(cursor, lens.len() as int, page, end) ==> lies_behind(
                    Some(moved),
                    after.len() as int,
                    page,
                    end,
                ) && (page != page_of(addr) || end <= offset_of(addr))
        }),
{
    if has_room(cursor, lens, size) {
        lemma_unpack_pack(cursor->0.page, cursor->0.offset);
    } else {
        lemma_unpack_pack(lens.len() as u32, 0);
    }
}

/// An allocation of more than a standard page never fits behind the cursor
/// of an arena that has kept to its own pages: it gets a page of its own,
/// of just its size, and fills it.
pub proof fn lemma_large_alloc(cursor: Option<Cursor>, lens: Seq<int>, size: int)
    requires
        PAGE_SIZE < size <= u32::MAX,
        lens.len() < NUM_PAGES,
        !has_room(cursor, lens, size),
    ensures
        alloc_lens(cursor, lens, size) == lens.push(size),
        page_of(alloc_addr(cursor, lens, size)) == lens.len(),
        offset_of(alloc_addr(cursor, lens, size)) == 0,
        alloc_cursor(cursor, lens, size).offset == size,
        !has_room(
            Some(alloc_cursor(cursor, lens, size)),
            alloc_lens(cursor, lens, size),
            8,
        ),
{
    lemma_unpack_pack(lens.len() as u32, 0);
}

/// What the arena hands out is aligned to 8 bytes, as long as its cursor
/// is; and the cursor stays aligned, since sizes are rounded up.
pub proof fn lemma_aligned(cursor: Option<Cursor>, lens: Seq<int>, size: int)
    requires
        0 <= size <= u32::MAX,
        size % 8 == 0,
        cursor matches Some(at) ==> at.offset % 8 == 0,
        has_room(cursor, lens, size) ==> lens[cursor->0.page as int] <= u32::MAX,
    ensures
        offset_of(alloc_addr(cursor, lens, size)) % 8 == 0,
        alloc_cursor(cursor, lens, size).offset % 8 == 0,
{
    if has_room(cursor, lens, size) {
        let page = cursor->0.page;
        let offset = cursor->0.offset;
        let addr = pack(page, offset);
        assert(addr % 65536 % 8 == 0) by (bit_vector)
            requires
                offset % 8 == 0,
                addr == ((page % 65536) * 65536 + offset % 65536) as u32,
        ;
    } else {
        let fresh = lens.len() as u32;
        let addr = pack(fresh, 0);
        assert(addr % 65536 % 8 == 0) by (bit_vector)
            requires
                addr == ((fresh % 65536) * 65536 + 0u32 % 65536) as u32,
        ;
    }
}

/// The bytes that were handed out last can be given back: they end at the
/// cursor, so `dealloc` takes them, and the cursor is where they began.
pub proof fn lemma_last_comes_back(
    cursor: Option<Cursor>,
    lens: Seq<int>,
    ptrs: Seq<usize>,
    size: int,
)
    requires
        0 < size <= u32::MAX,
        size % 8 == 0,
        lens.len() <= NUM_PAGES,
        has_room(cursor, lens, size) || lens.len() < NUM_PAGES,
        has_room(cursor, lens, size) ==> lens[cursor->0.page as int] <= u32::MAX,
        ptrs.len() == alloc_lens(cursor, lens, size).len(),
        forall|i: int|
            0 <= i < ptrs.len() ==> ptrs[i] + alloc_lens(cursor, lens, size)[i] <= usize::MAX,
    ensures
        ({
            let addr = alloc_addr(cursor, lens, size);
            let moved = alloc_cursor(cursor, lens, size);
            let ptr = (ptrs[page_of(addr) as int] + offset_of(addr)) as usize;
            &&& ends_at_cursor(Some(moved), ptrs, ptr, size)
            &&& moved.offset - round_up8(size) == offset_of(addr)
        }),
{
    lemma_cursor_moves(cursor, lens, size);
    let moved = alloc_cursor(cursor, lens, size);
    let after = alloc_lens(cursor, lens, size);
    assert(ptrs[moved.page as int] + after[moved.page as int] <= usize::MAX);
}

/// The cursor and the page lengths after `n` allocations of `size` bytes
/// each, one after the other, from the cursor `cursor` and the lengths `lens`.
pub open spec fn after_allocs(cursor: Option<Cursor>, lens: Seq<int>, size: int, n: nat) -> (
    Option<Cursor>,
    Seq<int>,
)
    decreases n,
{
    if n == 0 {
        (cursor, lens)
    } else {
        let before = after_allocs(cursor, lens, size, (n - 1) as nat);
        (Some(alloc_cursor(before.0, before.1, size)), alloc_lens(before.0, before.1, size))
    }
}

/// The address that the allocation after the first `n` returns, where all
/// are of `size` bytes.
pub open spec fn nth_alloc(cursor: Option<Cursor>, lens: Seq<int>, size: int, n: nat) -> u32 {
    let before = after_allocs(cursor, lens, size, n);
    alloc_addr(before.0, before.1, size)
}

/// The arena has settled in the newest page: the page is a standard page,
/// and the cursor stands in it, right behind the `size` bytes at `last`
/// that it handed out last.
#[verifier::opaque]
pub open spec fn settled(cursor: Option<Cursor>, lens: Seq<int>, last: u32, size: int) -> bool {
    &&& cursor is Some
    &&& lens.len() >= 1
    &&& lens.last() == PAGE_SIZE
    &&& cursor->0.page == lens.len() - 1
    &&& page_of(last) == cursor->0.page
    &&& cursor->0.offset == offset_of(last) + size
    &&& cursor->0.offset <= PAGE_SIZE
}

/// One allocation of no more than a standard page, from an arena that is
/// fresh or has settled, leaves it settled: in the same page where the
/// bytes fit, right behind the bytes before them, and in a new one where
/// they do not. They fit exactly as long as the cursor, moved past them,
/// does not pass the end of the page.
pub proof fn lemma_alloc_step(cursor: Option<Cursor>, lens: Seq<int>, last: u32, size: int)
    requires
        0 < size <= PAGE_SIZE,
        lens.len() < NUM_PAGES,
        cursor is None || settled(cursor, lens, last, size),
    ensures
        settled(
            Some(alloc_cursor(cursor, lens, size)),
            alloc_lens(cursor, lens, size),
            alloc_addr(cursor, lens, size),
            size,
        ),
        has_room(cursor, lens, size) <==> cursor is Some && cursor->0.offset + size <= PAGE_SIZE,
        has_room(cursor, lens, size) ==> {
            &&& alloc_lens(cursor, lens, size) == lens
            &&& page_of(alloc_addr(cursor, lens, size)) == page_of(last)
            &&& offset_of(alloc_addr(cursor, lens, size)) == offset_of(last) + size
            &&& alloc_addr(cursor, lens, size) == last + size
        },
        !has_room(cursor, lens, size) ==> {
            &&& alloc_lens(cursor, lens, size).len() == lens.len() + 1
            &&& page_of(alloc_addr(cursor, lens, size)) == lens.len()
            &&& offset_of(alloc_addr(cursor, lens, size)) == 0
        },
{
    reveal(settled);
    lemma_cursor_moves(cursor, lens, size);
    if has_room(cursor, lens, size) {
        crate::codec::lemma_move_in_page(last, size as u32);
        crate::codec::lemma_pack_unpack(last);
        crate::codec::lemma_pack_unpack((last + size) as u32);
    }
}

/// After one or more allocations of one size, of no more than a standard
/// page, from a fresh arena, the arena has settled, and has added no more
/// pages than it made allocations.
pub proof fn lemma_cursor_follows(lens: Seq<int>, size: int, n: nat)
    requires
        0 < size <= PAGE_SIZE,
        lens.len() + n < NUM_PAGES,
    ensures
        settled(
            after_allocs(None, lens, size, n + 1).0,
            after_allocs(None, lens, size, n + 1).1,
            nth_alloc(None, lens, size, n),
            size,
        ),
        lens.len() <= after_allocs(None, lens, size, n).1.len() <= lens.len() + n,
    decreases n,
{
    let before = after_allocs(None, lens, size, n);
    let now = after_allocs(None, lens, size, n + 1);
    assert(now == (
        Some(alloc_cursor(before.0, before.1, size)),
        alloc_lens(before.0, before.1, size),
    ));
    if n == 0 {
        lemma_alloc_step(None, lens, 0, size);
    } else {
        let m = (n - 1) as nat;
        lemma_cursor_follows(lens, size, m);
        assert(before == after_allocs(None, lens, size, m + 1));
        let earlier = after_allocs(None, lens, size, m);
        assert(before.1 == alloc_lens(earlier.0, earlier.1, size));
        assert(earlier.1.len() <= before.1.len() <= earlier.1.len() + 1);
        lemma_alloc_step(before.0, before.1, nth_alloc(None, lens, size, m), size);
    }
}

/// The first allocation from a fresh arena takes the first bytes of a new
/// page.
pub proof fn lemma_first_alloc(lens: Seq<int>, size: int)
    requires
        lens.len() < NUM_PAGES,
    ensures
        nth_alloc(None, lens, size, 0) == pack(lens.len() as u32, 0),
        page_of(nth_alloc(None, lens, size, 0)) == lens.len(),
        offset_of(nth_alloc(None, lens, size, 0)) == 0,
{
    lemma_unpack_pack(lens.len() as u32, 0);
}

/// Allocations of one size, of no more than a standard page, from a fresh
/// arena run upwards through a page, each starting where the one before
/// ended, and a page is added exactly when the next would end past the end
/// of the newest page. Each address is larger than the one before.
pub proof fn lemma_equal_allocs(lens: Seq<int>, size: int, n: nat)
    requires
        0 < size <= PAGE_SIZE,
        lens.len() + n + 1 < NUM_PAGES,
    ensures
        ({
            let before = after_allocs(None, lens, size, n + 1);
            let after = after_allocs(None, lens, size, n + 2);
            let prev = nth_alloc(None, lens, size, n);
            let next = nth_alloc(None, lens, size, n + 1);
            &&& prev < next
            &&& if offset_of(prev) + 2 * size <= PAGE_SIZE {
                &&& after.1 == before.1
                &&& page_of(next) == page_of(prev)
                &&& next == prev + size
            } else {
                &&& after.1.len() == before.1.len() + 1
                &&& page_of(next) == page_of(prev) + 1
                &&& offset_of(next) == 0
            }
        }),
{
    let before = after_allocs(None, lens, size, n + 1);
    let prev = nth_alloc(None, lens, size, n);
    let next = nth_alloc(None, lens, size, n + 1);
    lemma_cursor_follows(lens, size, n);
    lemma_cursor_follows(lens, size, n + 1);
    assert(after_allocs(None, lens, size, n + 2) == (
        Some(alloc_cursor(before.0, before.1, size)),
        alloc_lens(before.0, before.1, size),
    ));
    lemma_alloc_step(before.0, before.1, prev, size);
    reveal(settled);
    crate::codec::lemma_pack_unpack(prev);
    crate::codec::lemma_pack_unpack(next);
    assert(prev == page_of(prev) * 65536 + offset_of(prev)) by {
        lemma_unpack_pack(page_of(prev), offset_of(prev));
    }
    assert(next == page_of(next) * 65536 + offset_of(next)) by {
        lemma_unpack_pack(page_of(next), offset_of(next));
    }
}

/// Rounds `size` up to a multiple of 8.
pub fn round_up(size: u32) -> (rounded: u32)
    requires
        size <= u32::MAX - 7,
    ensures
        rounded == round_up8(size as int),
{
    assert((size + 7) as u32 & !7u32 == (size + 7) as u32 / 8 * 8) by (bit_vector)
        requires
            size <= u32::MAX - 7,
    ;
    (size + 7) & !7
}

/// A bump allocator. It holds a cursor: the page from which it hands out
/// bytes and the offset of the next byte to hand out; or nothing, before
/// the first allocation. The offset is always a multiple of 8.
pub struct Arena {
    at: Option<Cursor>,
}

impl Default for Arena {
    fn default() -> (arena: Self)
        ensures
            arena.cursor() is None,
    {
        Arena::new()
    }
}

impl Arena {
    #[verifier::type_invariant]
    spec fn aligned(self) -> bool {
        match self.at {
            Some(at) => at.offset % 8 == 0,
            None => true,
        }
    }

    /// The cursor.
    pub closed spec fn cursor(&self) -> Option<Cursor> {
        self.at
    }

    /// The arena fits the store whose pages have the lengths `lens`: its
    /// cursor, if it has one, stands in a page of the store, at a multiple
    /// of 8, and no further than the page is long.
    pub open spec fn inv(&self, lens: Seq<int>) -> bool {
        match self.cursor() {
            Some(at) => {
                &&& at.page < lens.len()
                &&& at.offset <= lens[at.page as int]
                &&& at.offset % 8 == 0
            },
            None => true,
        }
    }

    /// An arena that has handed out nothing yet.
    pub fn new() -> (arena: Self)
        ensures
            arena.cursor() is None,
            forall|lens: Seq<int>| arena.inv(lens),
    {
        Arena { at: None }
    }

    /// Where the arena stands, if it has handed out anything yet.
    pub fn position(&self) -> (at: Option<Cursor>)
        ensures
            at == self.cursor(),
            at matches Some(here) ==> here.offset % 8 == 0,
    {
        proof {
            use_type_invariant(self);
        }
        self.at
    }

    /// Tells whether `size` bytes fit behind the cursor.
    pub fn has_room_for(&self, heap: &PageAllocator, size: u32) -> (room: bool)
        ensures
            room == has_room(self.cursor(), heap.lens(), size as int),
    {
        match self.at {
            Some(at) => {
                if (at.page as usize) < heap.page_count() {
                    let len = heap.page_len(at.page);
                    at.offset as u64 + size as u64 <= len as u64 && (size == 0 || at.offset
                        < 65536)
                } else {
                    false
                }
            },
            None => false,
        }
    }

    /// Tells whether `allocate` may be asked for `size` bytes: the rounded
    /// size is one that an address can count, and the bytes fit behind the
    /// cursor or the store can take one more page.
    pub fn can_allocate(&self, heap: &PageAllocator, size: u32) -> (ok: bool)
        ensures
            ok == {
                &&& size <= u32::MAX - 7
                &&& has_room(self.cursor(), heap.lens(), round_up8(size as int)) || heap@.len()
                    < NUM_PAGES
            },
    {
        if size > u32::MAX - 7 {
            return false;
        }
        let rounded = round_up(size);
        self.has_room_for(heap, rounded) || heap.page_count() < NUM_PAGES as usize
    }

    /// Hands out `size` bytes, rounded up to a multiple of 8, and returns
    /// their packed address, which is a multiple of 8 within its page.
    /// Where the bytes fit behind the cursor they are taken there and the
    /// cursor moves past them; a page may be filled to its last byte. Where
    /// they do not fit, a page of at least that many bytes is added to the
    /// store, the bytes are its first, and the cursor stands behind them.
    /// Bytes that lay behind the cursor lie behind it afterwards, and none
    /// of them is among those that are handed out.
    pub fn allocate(&mut self, heap: &mut PageAllocator, size: u32) -> (addr: u32)
        requires
            old(heap).wf(),
            size <= u32::MAX - 7,
            has_room(old(self).cursor(), old(heap).lens(), round_up8(size as int)) || old(heap)@.len()
                < NUM_PAGES,
        ensures
            final(heap).wf(),
            final(heap).ptrs().subrange(0, old(heap)@.len() as int) == old(heap).ptrs(),
            bumped(
                old(self).cursor(),
                old(heap)@,
                round_up8(size as int),
                addr,
                final(self).cursor(),
                final(heap)@,
            ),
            final(self).inv(final(heap).lens()),
            offset_of(addr) % 8 == 0,
            size > 0 ==> lies_behind(
                final(self).cursor(),
                final(heap)@.len() as int,
                page_of(addr) as int,
                offset_of(addr) + round_up8(size as int),
            ),
            size > 0 ==> forall|page: int, end: int|
                #[trigger] lies_behind(old(self).cursor(), old(heap)@.len() as int, page, end)
                    ==> lies_behind(final(self).cursor(), final(heap)@.len() as int, page, end)
                    && (page != page_of(addr) || end <= offset_of(addr)),
    {
        proof {
            use_type_invariant(&*self);
        }
        let rounded = round_up(size);
        proof {
            lemma_aligned(self.at, heap.lens(), rounded as int);
            if size > 0 {
                lemma_cursor_moves(self.at, heap.lens(), rounded as int);
            }
        }
        match self.at {
            Some(at) => {
                if (at.page as usize) < heap.page_count() {
                    let len = heap.page_len(at.page);
                    let end = at.offset as u64 + rounded as u64;
                    if end <= len as u64 && (rounded == 0 || at.offset < 65536) {
                        let addr = pack_addr(at.page, at.offset);
                        self.at = Some(Cursor { page: at.page, offset: at.offset + rounded });
                        proof {
                            assert(heap@.subrange(0, heap@.len() as int) =~= heap@);
                            assert(heap.ptrs().subrange(0, heap@.len() as int) =~= heap.ptrs());
                            if rounded > 0 {
                                lemma_unpack_pack(at.page, at.offset);
                            } else {
                                crate::codec::lemma_pack_unpack(addr);
                            }
                        }
                        return addr;
                    }
                }
            },
            None => {},
        }
        let page_index = heap.alloc_page(rounded as usize, false);
        self.at = Some(Cursor { page: page_index, offset: rounded });
        proof {
            assert(heap.lens() =~= old(heap).lens().push(
                if rounded > PAGE_SIZE {
                    rounded as int
                } else {
                    PAGE_SIZE as int
                },
            )) by {
                assert forall|i: int| 0 <= i < old(heap)@.len() implies heap@[i] == old(heap)@[i] by {
                    assert(heap@.subrange(0, old(heap)@.len() as int)[i] == heap@[i]);
                }
            }
            lemma_unpack_pack(page_index, 0);
        }
        pack_addr(page_index, 0)
    }

    /// Takes back the `size` bytes at machine address `ptr`, if they are the
    /// last that the cursor passed in its page: the cursor then moves back
    /// to where they begin. Any other bytes stay as they are; the arena
    /// reclaims no hole.
    pub fn dealloc(&mut self, heap: &PageAllocator, ptr: usize, size: usize)
        requires
            heap.wf(),
        ensures
            final(self).cursor() == if ends_at_cursor(
                old(self).cursor(),
                heap.ptrs(),
                ptr,
                size as int,
            ) {
                Some(
                    Cursor {
                        page: old(self).cursor()->0.page,
                        offset: (old(self).cursor()->0.offset - round_up8(size as int)) as u32,
                    },
                )
            } else {
                old(self).cursor()
            },
            old(self).inv(heap.lens()) ==> final(self).inv(heap.lens()),
    {
        proof {
            use_type_invariant(&*self);
        }
        match self.at {
            Some(at) => {
                if at.offset == 0 || at.page as usize >= heap.page_count() {
                    return ;
                }
                if size > u32::MAX as usize - 7 {
                    return ;
                }
                let rounded = round_up(size as u32);
                if rounded > at.offset {
                    return ;
                }
                let base = heap.page_ptr(at.page);
                match base.checked_add((at.offset - rounded) as usize) {
                    Some(start) => {
                        if ptr == start {
                            self.at = Some(Cursor { page: at.page, offset: at.offset - rounded });
                        }
                    },
                    None => {},
                }
            },
            None => {},
        }
    }
}

} // verus!
