//! The adapter that puts a slab behind the allocate-and-deallocate
//! interface of a growable container: sizes in bytes come in, counts of
//! slots go to the slab.

use crate::arena::{has_room, round_up8, Arena};
use crate::codec::NUM_PAGES;
use crate::page_store::PageAllocator;
use crate::slab::{allocation, apart_from, first_fit, returnable, runs_behind, slot_size, Slab};
use core::marker::PhantomData;
use vstd::layout::size_of;
use vstd::prelude::*;

verus! {

/// An allocator for arrays of `T` that takes its memory from a slab.
pub struct SlabAllocator<T> {
    phantom: PhantomData<T>,
}

impl<T> Clone for SlabAllocator<T> {
    fn clone(&self) -> (copy: Self) {
        SlabAllocator { phantom: PhantomData }
    }
}

/// Number of values of `T` that `size` bytes hold.
pub open spec fn count_in<T>(size: usize) -> int {
    size as int / size_of::<T>() as int
}

impl<T> SlabAllocator<T> {
    /// An adapter for slabs of `T`.
    pub fn new() -> (adapter: Self) {
        SlabAllocator { phantom: PhantomData }
    }

    /// Number of values of `T` that `size` bytes hold.
    pub fn count(&self, size: usize) -> (count: usize)
        requires
            size_of::<T>() > 0,
        ensures
            count == count_in::<T>(size),
    {
        size / core::mem::size_of::<T>()
    }

    /// Tells whether `allocate` may be asked for `size` bytes.
    pub fn can_allocate(
        &self,
        slab: &Slab<T>,
        heap: &PageAllocator,
        arena: &Arena,
        size: usize,
    ) -> (ok: bool)
        requires
            size_of::<T>() > 0,
            heap.wf(),
            slab.wf(heap@),
        ensures
            ok == {
                &&& slot_size::<T>() <= u32::MAX
                &&& slot_size::<T>() * count_in::<T>(size) <= u32::MAX - 7
                &&& first_fit(
                    slab.free_list(),
                    count_in::<T>(size) as u32,
                    slot_size::<T>(),
                ) is None ==> has_room(
                    arena.cursor(),
                    heap.lens(),
                    round_up8(slot_size::<T>() * count_in::<T>(size)),
                ) || heap@.len() < NUM_PAGES
            },
    {
        let count = self.count(size);
        proof {
            assert(slot_size::<T>() * count >= count) by (nonlinear_arith)
                requires
                    slot_size::<T>() >= 1,
                    count >= 0,
            ;
        }
        if count > (u32::MAX - 7) as usize {
            return false;
        }
        slab.can_allocate(heap, arena, count as u32)
    }

    /// Tells whether `deallocate` may be given the room at machine address
    /// `ptr` that was handed out for `size` bytes: a page of the store holds
    /// the address, the slots lie in that page, and they share no byte with
    /// a free run.
    pub fn can_deallocate(&self, slab: &Slab<T>, heap: &PageAllocator, ptr: usize, size: usize) -> (ok:
        bool)
        requires
            size_of::<T>() > 0,
            heap.wf(),
            slab.wf(heap@),
        ensures
            ok == {
                &&& count_in::<T>(size) <= u32::MAX
                &&& heap.addr_of(ptr) is Some
                &&& returnable(
                    heap@,
                    heap.addr_of(ptr)->0,
                    count_in::<T>(size) as u32,
                    slot_size::<T>(),
                )
                &&& apart_from(
                    slab.free_list(),
                    heap.addr_of(ptr)->0,
                    count_in::<T>(size) as u32,
                    slot_size::<T>(),
                )
            },
    {
        let count = self.count(size);
        if count > u32::MAX as usize {
            return false;
        }
        match heap.find_page(ptr) {
            Some(addr) => slab.can_return(heap, addr, count as u32),
            None => false,
        }
    }

    /// Hands out room for as many values of `T` as `size` bytes hold, a
    /// slot for each, and returns its address.
    pub fn allocate(
        &self,
        slab: &mut Slab<T>,
        heap: &mut PageAllocator,
        arena: &mut Arena,
        size: usize,
    ) -> (addr: u32)
        requires
            size_of::<T>() > 0,
            old(heap).wf(),
            old(slab).wf(old(heap)@),
            slot_size::<T>() <= u32::MAX,
            slot_size::<T>() * count_in::<T>(size) <= u32::MAX - 7,
            first_fit(
                old(slab).free_list(),
                count_in::<T>(size) as u32,
                slot_size::<T>(),
            ) is None ==> has_room(
                old(arena).cursor(),
                old(heap).lens(),
                round_up8(slot_size::<T>() * count_in::<T>(size)),
            ) || old(heap)@.len() < NUM_PAGES,
        ensures
            final(heap).wf(),
            final(slab).wf(final(heap)@),
            final(heap).ptrs().subrange(0, old(heap)@.len() as int) == old(heap).ptrs(),
            allocation(
                slot_size::<T>(),
                count_in::<T>(size) as u32,
                old(slab).free_list(),
                old(heap)@,
                old(arena).cursor(),
                addr,
                final(slab).free_list(),
                final(heap)@,
                final(arena).cursor(),
            ),
            count_in::<T>(size) >= 1 ==> returnable(
                final(heap)@,
                addr,
                count_in::<T>(size) as u32,
                slot_size::<T>(),
            ),
            count_in::<T>(size) >= 1 && runs_behind(
                old(slab).free_list(),
                old(arena).cursor(),
                old(heap)@.len() as int,
                slot_size::<T>(),
            ) ==> {
                &&& runs_behind(
                    final(slab).free_list(),
                    final(arena).cursor(),
                    final(heap)@.len() as int,
                    slot_size::<T>(),
                )
                &&& apart_from(
                    final(slab).free_list(),
                    addr,
                    count_in::<T>(size) as u32,
                    slot_size::<T>(),
                )
            },
    {
        let count = self.count(size);
        proof {
            assert(slot_size::<T>() * count >= count) by (nonlinear_arith)
                requires
                    slot_size::<T>() >= 1,
                    count >= 0,
            ;
        }
        slab.allocate(heap, arena, count as u32)
    }

    /// Gives back the room at machine address `ptr` that was handed out for
    /// `size` bytes: finds the packed address of `ptr`, and frees as many
    /// slots there as `size` bytes hold values of `T`.
    pub fn deallocate(&self, slab: &mut Slab<T>, heap: &mut PageAllocator, ptr: usize, size: usize)
        requires
            size_of::<T>() > 0,
            old(heap).wf(),
            old(slab).wf(old(heap)@),
            count_in::<T>(size) <= u32::MAX,
            old(heap).addr_of(ptr) is Some,
            returnable(
                old(heap)@,
                old(heap).addr_of(ptr)->0,
                count_in::<T>(size) as u32,
                slot_size::<T>(),
            ),
            apart_from(
                old(slab).free_list(),
                old(heap).addr_of(ptr)->0,
                count_in::<T>(size) as u32,
                slot_size::<T>(),
            ),
        ensures
            final(heap).wf(),
            final(slab).wf(final(heap)@),
            final(slab).free_list() == seq![
                (crate::slab::FreeRun {
                    addr: old(heap).addr_of(ptr)->0,
                    slots: count_in::<T>(size) as u32,
                }),
            ] + old(slab).free_list(),
            final(heap)@ == crate::slab::with_node(
                old(heap)@,
                old(heap).addr_of(ptr)->0,
                count_in::<T>(size) as u32,
                old(slab).head(),
            ),
            final(heap).ptrs() == old(heap).ptrs(),
    {
        let count = self.count(size);
        match heap.find_page(ptr) {
            Some(addr) => slab.dealloc(heap, addr, count as u32),
            None => {},
        }
    }
}

} // verus!
