//! Typed allocation: what a record type must be able to do to live in the
//! heap, and the helpers that allocate, fill and free one record. A type
//! says whether its values come straight from the arena or from a slab of
//! their own, and the helpers go where the type says.

use crate::arena::{bumped, ends_at_cursor, has_room, round_up8, Arena, Cursor};
use crate::codec::{offset_of, page_of, unpack_addr, NUM_PAGES};
use crate::page_store::{written, PageAllocator};
use crate::slab::{
    allocation, apart_from, behind_cursor, extent, first_fit, is_free_list,
    lemma_extent_monotone, lemma_free_list_frame, returnable, run_in_page, runs_behind,
    runs_disjoint, slot_size, with_node, FreeRun, Slab,
};
use vstd::layout::size_of;
use vstd::prelude::*;

verus! {

/// Where the values of a record type come from: straight from the arena,
/// or from a slab of their own.
pub trait Backing {
    /// The values come from a slab.
    spec fn slab() -> bool;

    /// Tells whether the values come from a slab.
    fn is_slab() -> (yes: bool)
        ensures
            yes == Self::slab(),
    ;
}

/// The backing of a type whose values come straight from the arena.
pub struct FromArena;

/// The backing of a type whose values come from a slab of their own.
pub struct FromSlab;

impl Backing for FromArena {
    open spec fn slab() -> bool {
        false
    }

    fn is_slab() -> (yes: bool) {
        false
    }
}

impl Backing for FromSlab {
    open spec fn slab() -> bool {
        true
    }

    fn is_slab() -> (yes: bool) {
        true
    }
}

/// The values of `T` come from a slab of their own rather than straight
/// from the arena.
pub open spec fn slab_backed<T: ArenaAllocated>() -> bool {
    <T::Home as Backing>::slab()
}

/// A record type that can live in the heap. The heap holds bytes, so the
/// type says how a value is laid down in them and how one is taken away
/// again: the two things that a constructor and a destructor do in place.
/// It also says where its values come from.
pub trait ArenaAllocated: Sized {
    /// Where the values of the type come from: `FromArena` or `FromSlab`.
    type Home: Backing;

    /// The bytes that stand for the value in the heap. A type that is
    /// verified says what they are; of another, nothing is known.
    open spec fn stored(&self) -> Seq<u8> {
        arbitrary()
    }

    /// What the destruction of a value leaves of the bytes that stood for
    /// it. A type that is verified says what that is; of another, nothing
    /// is known.
    open spec fn destroyed(stored: Seq<u8>) -> Seq<u8> {
        arbitrary()
    }

    /// Lays the value down in `dest`.
    fn write_in_place(self, dest: &mut [u8])
        requires
            old(dest)@.len() == size_of::<Self>(),
        ensures
            final(dest)@ == self.stored(),
            final(dest)@.len() == size_of::<Self>(),
    ;

    /// Destroys the value that `storage` holds.
    fn drop_in_place(storage: &mut [u8])
        requires
            old(storage)@.len() == size_of::<Self>(),
        ensures
            final(storage)@ == Self::destroyed(old(storage)@),
            final(storage)@.len() == size_of::<Self>(),
    ;
}

/// A record type whose values come from a slab of their own rather than
/// straight from the arena. A type that takes this name has chosen the
/// slab, and the helpers never send it to the arena.
pub trait SlabAllocated: ArenaAllocated<Home = FromSlab> {

}

/// A byte lives in the heap as itself, comes straight from the arena, and
/// is left as it is when it goes.
impl ArenaAllocated for u8 {
    type Home = FromArena;

    open spec fn stored(&self) -> Seq<u8> {
        seq![*self]
    }

    open spec fn destroyed(stored: Seq<u8>) -> Seq<u8> {
        stored
    }

    fn write_in_place(self, dest: &mut [u8]) {
        broadcast use vstd::layout::layout_of_primitives;

        dest[0] = self;
        assert(dest@ =~= seq![self]);
    }

    fn drop_in_place(storage: &mut [u8]) {
    }
}

/// A word lives in the heap as its four bytes, lowest first, comes from a
/// slab of words, and leaves its bytes as they are when it goes.
impl ArenaAllocated for u32 {
    type Home = FromSlab;

    open spec fn stored(&self) -> Seq<u8> {
        crate::bytes::u32_le(*self)
    }

    open spec fn destroyed(stored: Seq<u8>) -> Seq<u8> {
        stored
    }

    fn write_in_place(self, dest: &mut [u8]) {
        broadcast use vstd::layout::layout_of_primitives;

        let bytes = crate::bytes::u32_to_le_bytes(self);
        dest[0] = bytes[0];
        dest[1] = bytes[1];
        dest[2] = bytes[2];
        dest[3] = bytes[3];
        assert(dest@ =~= crate::bytes::u32_le(self));
    }

    fn drop_in_place(storage: &mut [u8]) {
    }
}

impl SlabAllocated for u32 {

}

/// A type that takes the name `SlabAllocated` comes from a slab.
pub proof fn lemma_slab_allocated<T: SlabAllocated>()
    ensures
        slab_backed::<T>(),
{
}

/// Number of bytes that a value of `T` takes in the heap.
pub fn record_size<T>() -> (size: usize)
    ensures
        size == size_of::<T>(),
{
    core::mem::size_of::<T>()
}

/// Takes the space for one `T` from the arena and returns its address.
fn arena_alloc_ptr<T: ArenaAllocated>(heap: &mut PageAllocator, arena: &mut Arena) -> (addr: u32)
    requires
        old(heap).wf(),
        size_of::<T>() <= u32::MAX - 7,
        has_room(old(arena).cursor(), old(heap).lens(), round_up8(size_of::<T>() as int)) || old(
            heap,
        )@.len() < NUM_PAGES,
    ensures
        final(heap).wf(),
        final(heap).ptrs().subrange(0, old(heap)@.len() as int) == old(heap).ptrs(),
        bumped(
            old(arena).cursor(),
            old(heap)@,
            round_up8(size_of::<T>() as int),
            addr,
            final(arena).cursor(),
            final(heap)@,
        ),
{
    arena.allocate(heap, record_size::<T>() as u32)
}

/// Moves `value` into the heap: takes the space for it from the arena, lays
/// it down there, and returns its address.
fn arena_commit<T: ArenaAllocated>(value: T, heap: &mut PageAllocator, arena: &mut Arena) -> (addr:
    u32)
    requires
        old(heap).wf(),
        size_of::<T>() <= u32::MAX - 7,
        has_room(old(arena).cursor(), old(heap).lens(), round_up8(size_of::<T>() as int)) || old(
            heap,
        )@.len() < NUM_PAGES,
    ensures
        final(heap).wf(),
        final(heap).ptrs().subrange(0, old(heap)@.len() as int) == old(heap).ptrs(),
        exists|mid: Seq<Seq<u8>>|
            {
                &&& #[trigger] bumped(
                    old(arena).cursor(),
                    old(heap)@,
                    round_up8(size_of::<T>() as int),
                    addr,
                    final(arena).cursor(),
                    mid,
                )
                &&& final(heap)@ == written(
                    mid,
                    page_of(addr) as int,
                    offset_of(addr) as int,
                    value.stored(),
                )
            },
        final(heap).contains_range(addr, size_of::<T>() as int),
        final(heap)@[page_of(addr) as int].subrange(
            offset_of(addr) as int,
            offset_of(addr) + size_of::<T>(),
        ) == value.stored(),
{
    let addr = arena_alloc_ptr::<T>(heap, arena);
    let ghost mid = *heap;
    let dest = heap.get_slice(addr, record_size::<T>());
    value.write_in_place(dest);
    proof {
        let p = page_of(addr) as int;
        let o = offset_of(addr) as int;
        let n = old(heap)@.len() as int;
        assert(heap@ == written(mid@, p, o, value.stored()));
        assert(heap@[p].subrange(o, o + size_of::<T>()) =~= value.stored());
        assert(heap.ptrs().subrange(0, n) =~= mid.ptrs().subrange(0, n));
        assert forall|i: int| 0 <= i < heap@.len() implies (#[trigger] heap@[i]).len() <= u32::MAX
            && heap.ptrs()[i] + heap@[i].len() <= usize::MAX by {
            assert(heap@[i].len() == mid@[i].len());
        }
    }
    addr
}

/// Destroys the `T` at `addr` and gives its space back to the arena, which
/// takes it if it was the last that it handed out.
fn arena_dealloc_ptr<T: ArenaAllocated>(heap: &mut PageAllocator, arena: &mut Arena, addr: u32)
    requires
        old(heap).wf(),
        old(heap).contains_range(addr, size_of::<T>() as int),
    ensures
        final(heap).wf(),
        final(heap).ptrs() == old(heap).ptrs(),
        final(heap)@ == written(
            old(heap)@,
            page_of(addr) as int,
            offset_of(addr) as int,
            T::destroyed(
                old(heap)@[page_of(addr) as int].subrange(
                    offset_of(addr) as int,
                    offset_of(addr) + size_of::<T>(),
                ),
            ),
        ),
        final(arena).cursor() == if ends_at_cursor(
            old(arena).cursor(),
            old(heap).ptrs(),
            (old(heap).ptrs()[page_of(addr) as int] + offset_of(addr)) as usize,
            size_of::<T>() as int,
        ) {
            Some(
                Cursor {
                    page: old(arena).cursor()->0.page,
                    offset: (old(arena).cursor()->0.offset - round_up8(
                        size_of::<T>() as int,
                    )) as u32,
                },
            )
        } else {
            old(arena).cursor()
        },
{
    let size = record_size::<T>();
    let (page, offset) = unpack_addr(addr);
    let storage = heap.get_slice(addr, size);
    T::drop_in_place(storage);
    proof {
        let p = page as int;
        let o = offset as int;
        assert(heap@ =~~= written(
            old(heap)@,
            p,
            o,
            T::destroyed(old(heap)@[p].subrange(o, o + size_of::<T>())),
        ));
        assert forall|i: int| 0 <= i < heap@.len() implies (#[trigger] heap@[i]).len() <= u32::MAX
            && heap.ptrs()[i] + heap@[i].len() <= usize::MAX by {
            assert(heap@[i].len() == old(heap)@[i].len());
        }
    }
    let ptr = heap.page_ptr(page) + offset as usize;
    arena.dealloc(heap, ptr, size);
}

/// Takes the space for one `T` from the slab of its type and returns its
/// address.
fn slab_alloc_ptr<T: ArenaAllocated>(
    slab: &mut Slab<T>,
    heap: &mut PageAllocator,
    arena: &mut Arena,
) -> (addr: u32)
    requires
        old(heap).wf(),
        old(slab).wf(old(heap)@),
        slot_size::<T>() <= u32::MAX - 7,
        first_fit(old(slab).free_list(), 1, slot_size::<T>()) is None ==> has_room(
            old(arena).cursor(),
            old(heap).lens(),
            round_up8(slot_size::<T>() as int),
        ) || old(heap)@.len() < NUM_PAGES,
    ensures
        final(heap).wf(),
        final(slab).wf(final(heap)@),
        final(heap).ptrs().subrange(0, old(heap)@.len() as int) == old(heap).ptrs(),
        allocation(
            slot_size::<T>(),
            1,
            old(slab).free_list(),
            old(heap)@,
            old(arena).cursor(),
            addr,
            final(slab).free_list(),
            final(heap)@,
            final(arena).cursor(),
        ),
        returnable(final(heap)@, addr, 1, slot_size::<T>()),
        runs_behind(
            old(slab).free_list(),
            old(arena).cursor(),
            old(heap)@.len() as int,
            slot_size::<T>(),
        ) ==> {
            &&& runs_behind(
                final(slab).free_list(),
                final(arena).cursor(),
                final(heap)@.len() as int,
                slot_size::<T>(),
            )
            &&& apart_from(final(slab).free_list(), addr, 1, slot_size::<T>())
            &&& behind_cursor(
                (FreeRun { addr, slots: 1 }),
                final(arena).cursor(),
                final(heap)@.len() as int,
                slot_size::<T>(),
            )
        },
{
    assert(slot_size::<T>() * 1 == slot_size::<T>());
    slab.allocate(heap, arena, 1)
}

/// Destroys the `T` at `addr` and gives its slot back to the slab of its
/// type. The value is destroyed first, and once; only then does the slot
/// take the header of a free run and become one that the slab may hand out
/// again.
fn slab_dealloc_ptr<T: ArenaAllocated>(slab: &mut Slab<T>, heap: &mut PageAllocator, addr: u32)
    requires
        old(heap).wf(),
        old(slab).wf(old(heap)@),
        returnable(old(heap)@, addr, 1, slot_size::<T>()),
        apart_from(old(slab).free_list(), addr, 1, slot_size::<T>()),
    ensures
        final(heap).wf(),
        final(slab).wf(final(heap)@),
        final(heap).ptrs() == old(heap).ptrs(),
        final(slab).free_list() == seq![(FreeRun { addr, slots: 1 })] + old(slab).free_list(),
        final(heap)@ == with_node(
            written(
                old(heap)@,
                page_of(addr) as int,
                offset_of(addr) as int,
                T::destroyed(
                    old(heap)@[page_of(addr) as int].subrange(
                        offset_of(addr) as int,
                        offset_of(addr) + size_of::<T>(),
                    ),
                ),
            ),
            addr,
            1,
            old(slab).head(),
        ),
{
    let size = record_size::<T>();
    let ghost slot = slot_size::<T>();
    let ghost p = page_of(addr) as int;
    let ghost o = offset_of(addr) as int;
    proof {
        lemma_extent_monotone(1, 1, slot);
        reveal(extent);
    }
    let storage = heap.get_slice(addr, size);
    T::drop_in_place(storage);
    proof {
        let data = T::destroyed(old(heap)@[p].subrange(o, o + size_of::<T>()));
        assert(heap@ =~~= written(old(heap)@, p, o, data));
        lemma_fill(old(heap)@, slab.head(), slab.free_list(), slot, addr, data);
        assert forall|i: int| 0 <= i < heap@.len() implies (#[trigger] heap@[i]).len() <= u32::MAX
            && heap.ptrs()[i] + heap@[i].len() <= usize::MAX by {
            assert(heap@[i].len() == old(heap)@[i].len());
        }
    }
    slab.dealloc(heap, addr, 1);
}

/// Moves `value` into the heap: takes a slot for it from the slab of its
/// type, lays it down there, and returns its address. The free runs must
/// lie in memory that the arena has passed, so that the value is not laid
/// down over one of them.
fn slab_commit<T: ArenaAllocated>(
    value: T,
    slab: &mut Slab<T>,
    heap: &mut PageAllocator,
    arena: &mut Arena,
) -> (addr: u32)
    requires
        old(heap).wf(),
        old(slab).wf(old(heap)@),
        slot_size::<T>() <= u32::MAX - 7,
        runs_behind(
            old(slab).free_list(),
            old(arena).cursor(),
            old(heap)@.len() as int,
            slot_size::<T>(),
        ),
        first_fit(old(slab).free_list(), 1, slot_size::<T>()) is None ==> has_room(
            old(arena).cursor(),
            old(heap).lens(),
            round_up8(slot_size::<T>() as int),
        ) || old(heap)@.len() < NUM_PAGES,
    ensures
        final(heap).wf(),
        final(slab).wf(final(heap)@),
        final(heap).ptrs().subrange(0, old(heap)@.len() as int) == old(heap).ptrs(),
        exists|mid: Seq<Seq<u8>>|
            {
                &&& #[trigger] allocation(
                    slot_size::<T>(),
                    1,
                    old(slab).free_list(),
                    old(heap)@,
                    old(arena).cursor(),
                    addr,
                    final(slab).free_list(),
                    mid,
                    final(arena).cursor(),
                )
                &&& final(heap)@ == written(
                    mid,
                    page_of(addr) as int,
                    offset_of(addr) as int,
                    value.stored(),
                )
            },
        returnable(final(heap)@, addr, 1, slot_size::<T>()),
        runs_behind(
            final(slab).free_list(),
            final(arena).cursor(),
            final(heap)@.len() as int,
            slot_size::<T>(),
        ),
        apart_from(final(slab).free_list(), addr, 1, slot_size::<T>()),
        behind_cursor(
            (FreeRun { addr, slots: 1 }),
            final(arena).cursor(),
            final(heap)@.len() as int,
            slot_size::<T>(),
        ),
        final(heap).contains_range(addr, size_of::<T>() as int),
        final(heap)@[page_of(addr) as int].subrange(
            offset_of(addr) as int,
            offset_of(addr) + size_of::<T>(),
        ) == value.stored(),
{
    let ghost slot = slot_size::<T>();
    let addr = slab_alloc_ptr::<T>(slab, heap, arena);
    let ghost mid = *heap;
    proof {
        lemma_extent_monotone(1, 1, slot);
        reveal(extent);
    }
    let dest = heap.get_slice(addr, record_size::<T>());
    value.write_in_place(dest);
    proof {
        let p = page_of(addr) as int;
        let o = offset_of(addr) as int;
        let n = old(heap)@.len() as int;
        assert(heap@ =~~= written(mid@, p, o, value.stored()));
        assert(heap@[p].subrange(o, o + size_of::<T>()) =~= value.stored());
        lemma_fill(mid@, slab.head(), slab.free_list(), slot, addr, value.stored());
        assert(heap.ptrs().subrange(0, n) =~= mid.ptrs().subrange(0, n));
        assert forall|i: int| 0 <= i < heap@.len() implies (#[trigger] heap@[i]).len() <= u32::MAX
            && heap.ptrs()[i] + heap@[i].len() <= usize::MAX by {
            assert(heap@[i].len() == mid@[i].len());
        }
    }
    addr
}

/// Takes the space for one `T` and returns its address: a slot of the slab
/// `slab` where the type has chosen the slab, and else bytes of the arena,
/// which leaves the slab as it is.
pub fn alloc_ptr<T: ArenaAllocated>(
    slab: &mut Slab<T>,
    heap: &mut PageAllocator,
    arena: &mut Arena,
) -> (addr: u32)
    requires
        old(heap).wf(),
        slab_backed::<T>() ==> {
            &&& old(slab).wf(old(heap)@)
            &&& slot_size::<T>() <= u32::MAX - 7
            &&& first_fit(old(slab).free_list(), 1, slot_size::<T>()) is None ==> has_room(
                old(arena).cursor(),
                old(heap).lens(),
                round_up8(slot_size::<T>() as int),
            ) || old(heap)@.len() < NUM_PAGES
        },
        !slab_backed::<T>() ==> {
            &&& size_of::<T>() <= u32::MAX - 7
            &&& has_room(
                old(arena).cursor(),
                old(heap).lens(),
                round_up8(size_of::<T>() as int),
            ) || old(heap)@.len() < NUM_PAGES
        },
    ensures
        final(heap).wf(),
        final(heap).ptrs().subrange(0, old(heap)@.len() as int) == old(heap).ptrs(),
        slab_backed::<T>() ==> {
            &&& final(slab).wf(final(heap)@)
            &&& allocation(
                slot_size::<T>(),
                1,
                old(slab).free_list(),
                old(heap)@,
                old(arena).cursor(),
                addr,
                final(slab).free_list(),
                final(heap)@,
                final(arena).cursor(),
            )
            &&& returnable(final(heap)@, addr, 1, slot_size::<T>())
            &&& runs_behind(
                old(slab).free_list(),
                old(arena).cursor(),
                old(heap)@.len() as int,
                slot_size::<T>(),
            ) ==> {
                &&& runs_behind(
                    final(slab).free_list(),
                    final(arena).cursor(),
                    final(heap)@.len() as int,
                    slot_size::<T>(),
                )
                &&& apart_from(final(slab).free_list(), addr, 1, slot_size::<T>())
                &&& behind_cursor(
                    (FreeRun { addr, slots: 1 }),
                    final(arena).cursor(),
                    final(heap)@.len() as int,
                    slot_size::<T>(),
                )
            }
        },
        !slab_backed::<T>() ==> {
            &&& final(slab).head() == old(slab).head()
            &&& final(slab).free_list() == old(slab).free_list()
            &&& bumped(
                old(arena).cursor(),
                old(heap)@,
                round_up8(size_of::<T>() as int),
                addr,
                final(arena).cursor(),
                final(heap)@,
            )
        },
{
    if <T::Home as Backing>::is_slab() {
        slab_alloc_ptr::<T>(slab, heap, arena)
    } else {
        arena_alloc_ptr::<T>(heap, arena)
    }
}

/// Moves `value` into the heap and returns its address: into a slot of the
/// slab `slab` where the type has chosen the slab, and else into bytes of
/// the arena, which leaves the slab as it is. The free runs of a slab must
/// lie in memory that the arena has passed, so that the value is not laid
/// down over one of them.
pub fn commit<T: ArenaAllocated>(
    value: T,
    slab: &mut Slab<T>,
    heap: &mut PageAllocator,
    arena: &mut Arena,
) -> (addr: u32)
    requires
        old(heap).wf(),
        slab_backed::<T>() ==> {
            &&& old(slab).wf(old(heap)@)
            &&& slot_size::<T>() <= u32::MAX - 7
            &&& runs_behind(
                old(slab).free_list(),
                old(arena).cursor(),
                old(heap)@.len() as int,
                slot_size::<T>(),
            )
            &&& first_fit(old(slab).free_list(), 1, slot_size::<T>()) is None ==> has_room(
                old(arena).cursor(),
                old(heap).lens(),
                round_up8(slot_size::<T>() as int),
            ) || old(heap)@.len() < NUM_PAGES
        },
        !slab_backed::<T>() ==> {
            &&& size_of::<T>() <= u32::MAX - 7
            &&& has_room(
                old(arena).cursor(),
                old(heap).lens(),
                round_up8(size_of::<T>() as int),
            ) || old(heap)@.len() < NUM_PAGES
        },
    ensures
        final(heap).wf(),
        final(heap).ptrs().subrange(0, old(heap)@.len() as int) == old(heap).ptrs(),
        final(heap).contains_range(addr, size_of::<T>() as int),
        final(heap)@[page_of(addr) as int].subrange(
            offset_of(addr) as int,
            offset_of(addr) + size_of::<T>(),
        ) == value.stored(),
        slab_backed::<T>() ==> {
            &&& final(slab).wf(final(heap)@)
            &&& exists|mid: Seq<Seq<u8>>|
                {
                    &&& #[trigger] allocation(
                        slot_size::<T>(),
                        1,
                        old(slab).free_list(),
                        old(heap)@,
                        old(arena).cursor(),
                        addr,
                        final(slab).free_list(),
                        mid,
                        final(arena).cursor(),
                    )
                    &&& final(heap)@ == written(
                        mid,
                        page_of(addr) as int,
                        offset_of(addr) as int,
                        value.stored(),
                    )
                }
            &&& returnable(final(heap)@, addr, 1, slot_size::<T>())
            &&& runs_behind(
                final(slab).free_list(),
                final(arena).cursor(),
                final(heap)@.len() as int,
                slot_size::<T>(),
            )
            &&& apart_from(final(slab).free_list(), addr, 1, slot_size::<T>())
            &&& behind_cursor(
                (FreeRun { addr, slots: 1 }),
                final(arena).cursor(),
                final(heap)@.len() as int,
                slot_size::<T>(),
            )
        },
        !slab_backed::<T>() ==> {
            &&& final(slab).head() == old(slab).head()
            &&& final(slab).free_list() == old(slab).free_list()
            &&& exists|mid: Seq<Seq<u8>>|
                {
                    &&& #[trigger] bumped(
                        old(arena).cursor(),
                        old(heap)@,
                        round_up8(size_of::<T>() as int),
                        addr,
                        final(arena).cursor(),
                        mid,
                    )
                    &&& final(heap)@ == written(
                        mid,
                        page_of(addr) as int,
                        offset_of(addr) as int,
                        value.stored(),
                    )
                }
        },
{
    if <T::Home as Backing>::is_slab() {
        slab_commit::<T>(value, slab, heap, arena)
    } else {
        arena_commit::<T>(value, heap, arena)
    }
}

/// Destroys the `T` at `addr` and gives its space back. The value is
/// destroyed first, and once. Where the type has chosen the slab, its slot
/// then takes the header of a free run and becomes the first that the slab
/// `slab` may hand out again, and the arena is left as it is. Else the
/// space goes to the arena, which takes it if it was the last that it
/// handed out, and the slab is left as it is.
pub fn dealloc_ptr<T: ArenaAllocated>(
    slab: &mut Slab<T>,
    heap: &mut PageAllocator,
    arena: &mut Arena,
    addr: u32,
)
    requires
        old(heap).wf(),
        slab_backed::<T>() ==> {
            &&& old(slab).wf(old(heap)@)
            &&& returnable(old(heap)@, addr, 1, slot_size::<T>())
            &&& apart_from(old(slab).free_list(), addr, 1, slot_size::<T>())
        },
        !slab_backed::<T>() ==> old(heap).contains_range(addr, size_of::<T>() as int),
    ensures
        final(heap).wf(),
        final(heap).ptrs() == old(heap).ptrs(),
        slab_backed::<T>() ==> {
            &&& final(arena).cursor() == old(arena).cursor()
            &&& final(slab).wf(final(heap)@)
            &&& final(slab).free_list() == seq![(FreeRun { addr, slots: 1 })] + old(
                slab,
            ).free_list()
            &&& final(heap)@ == with_node(
                written(
                    old(heap)@,
                    page_of(addr) as int,
                    offset_of(addr) as int,
                    T::destroyed(
                        old(heap)@[page_of(addr) as int].subrange(
                            offset_of(addr) as int,
                            offset_of(addr) + size_of::<T>(),
                        ),
                    ),
                ),
                addr,
                1,
                old(slab).head(),
            )
        },
        !slab_backed::<T>() ==> {
            &&& final(slab).head() == old(slab).head()
            &&& final(slab).free_list() == old(slab).free_list()
            &&& final(heap)@ == written(
                old(heap)@,
                page_of(addr) as int,
                offset_of(addr) as int,
                T::destroyed(
                    old(heap)@[page_of(addr) as int].subrange(
                        offset_of(addr) as int,
                        offset_of(addr) + size_of::<T>(),
                    ),
                ),
            )
            &&& final(arena).cursor() == if ends_at_cursor(
                old(arena).cursor(),
                old(heap).ptrs(),
                (old(heap).ptrs()[page_of(addr) as int] + offset_of(addr)) as usize,
                size_of::<T>() as int,
            ) {
                Some(
                    Cursor {
                        page: old(arena).cursor()->0.page,
                        offset: (old(arena).cursor()->0.offset - round_up8(
                            size_of::<T>() as int,
                        )) as u32,
                    },
                )
            } else {
                old(arena).cursor()
            }
        },
{
    if <T::Home as Backing>::is_slab() {
        slab_dealloc_ptr::<T>(slab, heap, addr)
    } else {
        arena_dealloc_ptr::<T>(heap, arena, addr)
    }
}

/// Filling a slot that shares no byte with a free run does not disturb the
/// free list.
pub proof fn lemma_fill(
    pages: Seq<Seq<u8>>,
    head: u32,
    runs: Seq<FreeRun>,
    slot: nat,
    addr: u32,
    data: Seq<u8>,
)
    requires
        is_free_list(pages, head, runs, slot),
        run_in_page(pages, (FreeRun { addr, slots: 1 }), slot),
        apart_from(runs, addr, 1, slot),
        data.len() <= slot,
        slot >= 8,
    ensures
        is_free_list(
            written(pages, page_of(addr) as int, offset_of(addr) as int, data),
            head,
            runs,
            slot,
        ),
        forall|i: int|
            0 <= i < pages.len() ==> (#[trigger] written(
                pages,
                page_of(addr) as int,
                offset_of(addr) as int,
                data,
            )[i]).len() == pages[i].len(),
        returnable(pages, addr, 1, slot) ==> returnable(
            written(pages, page_of(addr) as int, offset_of(addr) as int, data),
            addr,
            1,
            slot,
        ),
{
    let p = page_of(addr) as int;
    let o = offset_of(addr) as int;
    let after = written(pages, p, o, data);
    reveal(extent);
    assert forall|i: int| 0 <= i < runs.len() implies {
        let q = page_of((#[trigger] runs[i]).addr) as int;
        let at = offset_of(runs[i].addr) as int;
        &&& after[q].len() == pages[q].len()
        &&& after[q].subrange(at, at + 8) == pages[q].subrange(at, at + 8)
    } by {
        let q = page_of(runs[i].addr) as int;
        let at = offset_of(runs[i].addr) as int;
        assert(runs_disjoint((FreeRun { addr, slots: 1 }), runs[i], slot));
        lemma_extent_monotone(runs[i].slots, runs[i].slots, slot);
        assert(after[q].subrange(at, at + 8) =~= pages[q].subrange(at, at + 8));
    }
    lemma_free_list_frame(pages, after, head, runs, slot);
}

} // verus!
