//! The slab: a free list of runs of equal slots, kept inside the freed
//! memory itself, in front of an arena.

use crate::arena::{
    alloc_addr, alloc_cursor, alloc_lens, bumped, has_room, lemma_cursor_moves, lies_behind,
    round_up, round_up8, Arena, Cursor,
};
use crate::bytes::u32_le;
use crate::codec::{
    lemma_move_in_page, offset_of, page_of, unpack_addr, NO_ADDR, NUM_PAGES, PAGE_SIZE,
};
use crate::page_store::{
    in_range, lemma_written_elsewhere, lemma_written_word, lens_of, word_at, written,
    PageAllocator,
};
use core::marker::PhantomData;
use vstd::prelude::*;

verus! {

/// Number of bytes that the header of a free run takes: its slot count and
/// the address of the next run, a word each.
pub const NODE_SIZE: usize = 8;

/// A run of freed slots: the address of its first slot and their number.
#[derive(Clone, Copy, Debug, PartialEq, Eq, Structural)]
pub struct FreeRun {
    pub addr: u32,
    pub slots: u32,
}

/// Where a search of the free list ended: at run `at`, which lies at
/// `addr` behind the run at `prev`, and holds `slots` slots and the address
/// `next`.
struct Fit {
    at: Ghost<int>,
    addr: u32,
    prev: u32,
    slots: u32,
    next: u32,
}

/// The header that a free run keeps in its first bytes.
struct FreeNode {
    slots: u32,
    next: u32,
}

/// Number of bytes of one slot of a slab of `T`: enough for a `T`, and for
/// the header of a free run.
pub open spec fn slot_size<T>() -> nat {
    if vstd::layout::size_of::<T>() > NODE_SIZE {
        vstd::layout::size_of::<T>()
    } else {
        NODE_SIZE as nat
    }
}

/// Number of bytes that a free run of `slots` slots of `slot` bytes covers:
/// its slots, and at least its header.
#[verifier::opaque]
pub open spec fn extent(slots: u32, slot: nat) -> int {
    if slots * slot > NODE_SIZE {
        slots * slot
    } else {
        NODE_SIZE as int
    }
}

/// The run lies in one page of `pages`.
pub open spec fn run_in_page(pages: Seq<Seq<u8>>, run: FreeRun, slot: nat) -> bool {
    &&& page_of(run.addr) < pages.len()
    &&& offset_of(run.addr) + extent(run.slots, slot) <= pages[page_of(run.addr) as int].len()
}

/// The two runs share no byte.
pub open spec fn runs_disjoint(a: FreeRun, b: FreeRun, slot: nat) -> bool {
    ||| page_of(a.addr) != page_of(b.addr)
    ||| offset_of(a.addr) + extent(a.slots, slot) <= offset_of(b.addr)
    ||| offset_of(b.addr) + extent(b.slots, slot) <= offset_of(a.addr)
}

/// The pages `pages` after the header of a free run of `slots` slots, with
/// `next` behind it, is written at `addr`.
pub open spec fn with_node(pages: Seq<Seq<u8>>, addr: u32, slots: u32, next: u32) -> Seq<Seq<u8>> {
    written(
        written(pages, page_of(addr) as int, offset_of(addr) as int, u32_le(slots)),
        page_of(addr) as int,
        offset_of(addr) + 4,
        u32_le(next),
    )
}

/// The header of a free run of `slots` slots, with `next` behind it, is
/// stored at `addr` in `pages`.
pub open spec fn node_at(pages: Seq<Seq<u8>>, addr: u32, slots: u32, next: u32) -> bool {
    &&& word_at(pages, page_of(addr) as int, offset_of(addr) as int) == slots
    &&& word_at(pages, page_of(addr) as int, offset_of(addr) + 4) == next
}

/// The address that the header of run `i` of `runs` names: that of the
/// next run, or `NO_ADDR` behind the last.
#[verifier::opaque]
pub open spec fn next_of(runs: Seq<FreeRun>, i: int) -> u32 {
    if i + 1 < runs.len() {
        runs[i + 1].addr
    } else {
        NO_ADDR
    }
}

/// What `next_of` says of run `i`.
pub proof fn lemma_next_of(runs: Seq<FreeRun>, i: int)
    ensures
        next_of(runs, i) == if i + 1 < runs.len() {
            runs[i + 1].addr
        } else {
            NO_ADDR
        },
{
    reveal(next_of);
}

/// `runs`, in this order, is the list that starts at `head` in `pages`:
/// each run lies in a page and holds its header, which names the next run,
/// and no two runs share a byte.
pub open spec fn is_free_list(pages: Seq<Seq<u8>>, head: u32, runs: Seq<FreeRun>, slot: nat) -> bool {
    &&& head == if runs.len() == 0 {
        NO_ADDR
    } else {
        runs[0].addr
    }
    &&& forall|i: int|
        0 <= i < runs.len() ==> {
            &&& (#[trigger] runs[i]).addr != NO_ADDR
            &&& run_in_page(pages, runs[i], slot)
            &&& node_at(pages, runs[i].addr, runs[i].slots, next_of(runs, i))
        }
    &&& forall|i: int, j: int|
        0 <= i < j < runs.len() ==> runs_disjoint(#[trigger] runs[i], #[trigger] runs[j], slot)
}

/// Where the eight bytes at `addr` are the same in two stores, the header
/// stored there is the same.
pub proof fn lemma_node_frame(
    before: Seq<Seq<u8>>,
    after: Seq<Seq<u8>>,
    addr: u32,
    slots: u32,
    next: u32,
)
    requires
        node_at(before, addr, slots, next),
        page_of(addr) < before.len(),
        page_of(addr) < after.len(),
        offset_of(addr) + 8 <= before[page_of(addr) as int].len(),
        offset_of(addr) + 8 <= after[page_of(addr) as int].len(),
        after[page_of(addr) as int].subrange(offset_of(addr) as int, offset_of(addr) + 8)
            == before[page_of(addr) as int].subrange(offset_of(addr) as int, offset_of(addr) + 8),
    ensures
        node_at(after, addr, slots, next),
{
    let p = page_of(addr) as int;
    let o = offset_of(addr) as int;
    let a = after[p];
    let b = before[p];
    assert(a.subrange(o, o + 4) =~= a.subrange(o, o + 8).subrange(0, 4));
    assert(b.subrange(o, o + 4) =~= b.subrange(o, o + 8).subrange(0, 4));
    assert(a.subrange(o + 4, o + 8) =~= a.subrange(o, o + 8).subrange(4, 8));
    assert(b.subrange(o + 4, o + 8) =~= b.subrange(o, o + 8).subrange(4, 8));
}

/// Writing a header leaves every page as long as it was, and the header
/// can be read where it was written.
pub proof fn lemma_with_node(pages: Seq<Seq<u8>>, addr: u32, slots: u32, next: u32)
    requires
        page_of(addr) < pages.len(),
        offset_of(addr) + 8 <= pages[page_of(addr) as int].len(),
    ensures
        with_node(pages, addr, slots, next).len() == pages.len(),
        forall|i: int|
            0 <= i < pages.len() ==> (#[trigger] with_node(pages, addr, slots, next)[i]).len()
                == pages[i].len(),
        node_at(with_node(pages, addr, slots, next), addr, slots, next),
{
    let p = page_of(addr) as int;
    let o = offset_of(addr) as int;
    let mid = written(pages, p, o, u32_le(slots));
    lemma_written_word(pages, p, o, slots);
    lemma_written_word(mid, p, o + 4, next);
    lemma_written_elsewhere(mid, p, o + 4, next, p, o, o + 4);
    assert forall|i: int| 0 <= i < pages.len() implies (#[trigger] with_node(
        pages,
        addr,
        slots,
        next,
    )[i]).len() == pages[i].len() by {
        assert(mid[i].len() == pages[i].len());
    }
}

/// Writing a header changes no byte but the eight of the header.
pub proof fn lemma_with_node_elsewhere(
    pages: Seq<Seq<u8>>,
    addr: u32,
    slots: u32,
    next: u32,
    other: int,
    from: int,
    to: int,
)
    requires
        page_of(addr) < pages.len(),
        offset_of(addr) + 8 <= pages[page_of(addr) as int].len(),
        0 <= other < pages.len(),
        0 <= from <= to <= pages[other].len(),
        other != page_of(addr) || to <= offset_of(addr) || offset_of(addr) + 8 <= from,
    ensures
        with_node(pages, addr, slots, next)[other].subrange(from, to) == pages[other].subrange(
            from,
            to,
        ),
{
    let p = page_of(addr) as int;
    let o = offset_of(addr) as int;
    let mid = written(pages, p, o, u32_le(slots));
    lemma_written_word(pages, p, o, slots);
    lemma_written_elsewhere(pages, p, o, slots, other, from, to);
    lemma_written_elsewhere(mid, p, o + 4, next, other, from, to);
}

/// `count` slots can be taken from `run`: it has as many, and where it has
/// more, its last `count` slots begin where a packed address can point. A
/// run that reaches past that point, in a page longer than a standard page,
/// can only be taken whole, or from where its end can still be reached.
pub open spec fn fits(run: FreeRun, count: u32, slot: nat) -> bool {
    &&& run.slots >= count
    &&& run.slots == count || offset_of(run.addr) + slot * (run.slots - count) < PAGE_SIZE
}

/// The place in `runs` of the first run from which `count` slots can be
/// taken, if there is one.
pub open spec fn first_fit(runs: Seq<FreeRun>, count: u32, slot: nat) -> Option<int>
    decreases runs.len(),
{
    if runs.len() == 0 {
        None
    } else if fits(runs[0], count, slot) {
        Some(0int)
    } else {
        match first_fit(runs.skip(1), count, slot) {
            Some(i) => Some(i + 1),
            None => None,
        }
    }
}

/// The first fit is a run that fits, behind runs that do not; where there
/// is none, no run fits.
pub proof fn lemma_first_fit(runs: Seq<FreeRun>, count: u32, slot: nat)
    ensures
        match first_fit(runs, count, slot) {
            Some(i) => {
                &&& 0 <= i < runs.len()
                &&& fits(runs[i], count, slot)
                &&& forall|j: int| 0 <= j < i ==> !fits(#[trigger] runs[j], count, slot)
            },
            None => forall|j: int| 0 <= j < runs.len() ==> !fits(#[trigger] runs[j], count, slot),
        },
    decreases runs.len(),
{
    if runs.len() > 0 && !fits(runs[0], count, slot) {
        let rest = runs.skip(1);
        lemma_first_fit(rest, count, slot);
        match first_fit(rest, count, slot) {
            Some(i) => {
                assert forall|j: int| 0 <= j < i + 1 implies !fits(
                    #[trigger] runs[j],
                    count,
                    slot,
                ) by {
                    if j > 0 {
                        assert(runs[j] == rest[j - 1]);
                    }
                }
            },
            None => {
                assert forall|j: int| 0 <= j < runs.len() implies !fits(
                    #[trigger] runs[j],
                    count,
                    slot,
                ) by {
                    if j > 0 {
                        assert(runs[j] == rest[j - 1]);
                    }
                }
            },
        }
    }
}

/// A run that fits, behind runs that do not, is the first fit.
pub proof fn lemma_first_fit_at(runs: Seq<FreeRun>, count: u32, slot: nat, i: int)
    requires
        0 <= i < runs.len(),
        fits(runs[i], count, slot),
        forall|j: int| 0 <= j < i ==> !fits(#[trigger] runs[j], count, slot),
    ensures
        first_fit(runs, count, slot) == Some(i),
{
    lemma_first_fit(runs, count, slot);
}

/// Where no run fits, there is no first fit.
pub proof fn lemma_no_fit(runs: Seq<FreeRun>, count: u32, slot: nat)
    requires
        forall|j: int| 0 <= j < runs.len() ==> !fits(#[trigger] runs[j], count, slot),
    ensures
        first_fit(runs, count, slot) is None,
{
    lemma_first_fit(runs, count, slot);
}

/// The address of the `count` slots taken from `run`: the last of the
/// run where it is longer, the run itself where it is just as long.
pub open spec fn taken_addr(run: FreeRun, count: u32, slot: nat) -> u32 {
    if run.slots > count {
        (run.addr + slot * (run.slots - count)) as u32
    } else {
        run.addr
    }
}

/// The free runs after `count` slots are taken from run `i`: the run is
/// shorter by them, or gone where it had no more.
pub open spec fn runs_after_take(runs: Seq<FreeRun>, i: int, count: u32) -> Seq<FreeRun> {
    if runs[i].slots > count {
        runs.update(i, (FreeRun { addr: runs[i].addr, slots: (runs[i].slots - count) as u32 }))
    } else {
        runs.remove(i)
    }
}

/// The pages after `count` slots are taken from run `i`: the run's header
/// holds its new length, or the header before it names the run behind it.
pub open spec fn pages_after_take(pages: Seq<Seq<u8>>, runs: Seq<FreeRun>, i: int, count: u32) -> Seq<
    Seq<u8>,
> {
    if runs[i].slots > count {
        written(
            pages,
            page_of(runs[i].addr) as int,
            offset_of(runs[i].addr) as int,
            u32_le((runs[i].slots - count) as u32),
        )
    } else if i == 0 {
        pages
    } else {
        written(
            pages,
            page_of(runs[i - 1].addr) as int,
            offset_of(runs[i - 1].addr) + 4,
            u32_le(next_of(runs, i)),
        )
    }
}

/// What an allocation of `count` slots of `slot` bytes does to the free
/// runs `runs`, the pages `pages` and the cursor `cursor` of the arena: the
/// slots come from the first run that is long enough, or from the arena
/// where none is.
pub open spec fn allocation(
    slot: nat,
    count: u32,
    runs: Seq<FreeRun>,
    pages: Seq<Seq<u8>>,
    cursor: Option<Cursor>,
    addr: u32,
    runs_after: Seq<FreeRun>,
    pages_after: Seq<Seq<u8>>,
    cursor_after: Option<Cursor>,
) -> bool {
    match first_fit(runs, count, slot) {
        Some(i) => {
            &&& addr == taken_addr(runs[i], count, slot)
            &&& runs_after == runs_after_take(runs, i, count)
            &&& pages_after == pages_after_take(pages, runs, i, count)
            &&& cursor_after == cursor
        },
        None => {
            &&& runs_after == runs
            &&& bumped(cursor, pages, round_up8(slot * count), addr, cursor_after, pages_after)
        },
    }
}

/// Slots that were handed out can be given back: they lie in one page.
pub open spec fn returnable(pages: Seq<Seq<u8>>, addr: u32, count: u32, slot: nat) -> bool {
    &&& addr != NO_ADDR
    &&& run_in_page(pages, (FreeRun { addr, slots: count }), slot)
}

/// The `count` slots at `addr` share no byte with any of `runs`.
pub open spec fn apart_from(runs: Seq<FreeRun>, addr: u32, count: u32, slot: nat) -> bool {
    forall|k: int|
        0 <= k < runs.len() ==> runs_disjoint(
            (FreeRun { addr, slots: count }),
            #[trigger] runs[k],
            slot,
        )
}

/// A shorter run covers no more bytes.
pub proof fn lemma_extent_monotone(less: u32, more: u32, slot: nat)
    requires
        less <= more,
    ensures
        NODE_SIZE <= extent(less, slot) <= extent(more, slot),
        less * slot <= extent(less, slot),
{
    reveal(extent);
    assert(less * slot <= more * slot) by (nonlinear_arith)
        requires
            less <= more,
            slot >= 0,
    ;
}

/// Making a run of a free list shorter leaves a free list.
pub proof fn lemma_take_part(
    pages: Seq<Seq<u8>>,
    head: u32,
    runs: Seq<FreeRun>,
    slot: nat,
    i: int,
    count: u32,
)
    requires
        is_free_list(pages, head, runs, slot),
        0 <= i < runs.len(),
        runs[i].slots > count,
    ensures
        is_free_list(
            pages_after_take(pages, runs, i, count),
            head,
            runs_after_take(runs, i, count),
            slot,
        ),
{
    let after = pages_after_take(pages, runs, i, count);
    let left = runs_after_take(runs, i, count);
    let run = runs[i];
    let p = page_of(run.addr) as int;
    let o = offset_of(run.addr) as int;
    let rest = (run.slots - count) as u32;
    lemma_extent_monotone(rest, run.slots, slot);
    lemma_extent_monotone(run.slots, run.slots, slot);
    lemma_written_word(pages, p, o, rest);
    assert forall|k: int| 0 <= k < left.len() implies {
        &&& (#[trigger] left[k]).addr != NO_ADDR
        &&& run_in_page(after, left[k], slot)
        &&& node_at(after, left[k].addr, left[k].slots, next_of(left, k))
    } by {
        assert(left[k].addr == runs[k].addr);
        assert(next_of(left, k) == next_of(runs, k)) by {
            lemma_next_of(left, k);
            lemma_next_of(runs, k);
        }
        if k == i {
            lemma_written_elsewhere(pages, p, o, rest, p, o + 4, o + 8);
        } else {
            let r = runs[k];
            assert(left[k] == r);
            if k < i {
                assert(runs_disjoint(runs[k], runs[i], slot));
            } else {
                assert(runs_disjoint(runs[i], runs[k], slot));
            }
            lemma_extent_monotone(r.slots, r.slots, slot);
            let q = page_of(r.addr) as int;
            let at = offset_of(r.addr) as int;
            lemma_written_elsewhere(pages, p, o, rest, q, at, at + 8);
            lemma_node_frame(pages, after, r.addr, r.slots, next_of(runs, k));
        }
    }
    assert forall|a: int, b: int| 0 <= a < b < left.len() implies runs_disjoint(
        #[trigger] left[a],
        #[trigger] left[b],
        slot,
    ) by {
        assert(runs_disjoint(runs[a], runs[b], slot));
    }
}

/// Taking the first run out of a free list leaves a free list, which
/// starts at the run behind it.
pub proof fn lemma_take_first(pages: Seq<Seq<u8>>, head: u32, runs: Seq<FreeRun>, slot: nat)
    requires
        is_free_list(pages, head, runs, slot),
        0 < runs.len(),
    ensures
        is_free_list(pages, next_of(runs, 0), runs.remove(0), slot),
{
    let left = runs.remove(0);
    lemma_next_of(runs, 0);
    assert forall|k: int| 0 <= k < left.len() implies {
        &&& (#[trigger] left[k]).addr != NO_ADDR
        &&& run_in_page(pages, left[k], slot)
        &&& node_at(pages, left[k].addr, left[k].slots, next_of(left, k))
    } by {
        assert(left[k] == runs[k + 1]);
        assert(next_of(left, k) == next_of(runs, k + 1)) by {
            lemma_next_of(left, k);
            lemma_next_of(runs, k + 1);
        }
    }
    assert forall|a: int, b: int| 0 <= a < b < left.len() implies runs_disjoint(
        #[trigger] left[a],
        #[trigger] left[b],
        slot,
    ) by {
        assert(runs_disjoint(runs[a + 1], runs[b + 1], slot));
    }
}

/// Taking a run out of the middle or the end of a free list, by letting the
/// run before it name the run behind it, leaves a free list.
pub proof fn lemma_take_inner(
    pages: Seq<Seq<u8>>,
    head: u32,
    runs: Seq<FreeRun>,
    slot: nat,
    i: int,
)
    requires
        is_free_list(pages, head, runs, slot),
        0 < i < runs.len(),
    ensures
        is_free_list(
            written(
                pages,
                page_of(runs[i - 1].addr) as int,
                offset_of(runs[i - 1].addr) + 4,
                u32_le(next_of(runs, i)),
            ),
            head,
            runs.remove(i),
            slot,
        ),
{
    let next = next_of(runs, i);
    let before = runs[i - 1];
    let bp = page_of(before.addr) as int;
    let bo = offset_of(before.addr) as int;
    let after = written(pages, bp, bo + 4, u32_le(next));
    let left = runs.remove(i);
    lemma_extent_monotone(before.slots, before.slots, slot);
    lemma_written_word(pages, bp, bo + 4, next);
    assert forall|k: int| 0 <= k < left.len() implies {
        &&& (#[trigger] left[k]).addr != NO_ADDR
        &&& run_in_page(after, left[k], slot)
        &&& node_at(after, left[k].addr, left[k].slots, next_of(left, k))
    } by {
        let src = if k < i {
            k
        } else {
            k + 1
        };
        let r = runs[src];
        assert(left[k] == r);
        let q = page_of(r.addr) as int;
        let at = offset_of(r.addr) as int;
        lemma_extent_monotone(r.slots, r.slots, slot);
        if k == i - 1 {
            assert(next_of(left, k) == next) by {
                lemma_next_of(left, k);
                lemma_next_of(runs, i);
            }
            lemma_written_elsewhere(pages, bp, bo + 4, next, bp, bo, bo + 4);
        } else {
            assert(next_of(left, k) == next_of(runs, src)) by {
                lemma_next_of(left, k);
                lemma_next_of(runs, src);
            }
            if src < i - 1 {
                assert(runs_disjoint(runs[src], runs[i - 1], slot));
            } else {
                assert(runs_disjoint(runs[i - 1], runs[src], slot));
            }
            lemma_written_elsewhere(pages, bp, bo + 4, next, q, at, at + 8);
            lemma_node_frame(pages, after, r.addr, r.slots, next_of(runs, src));
        }
    }
    assert forall|a: int, b: int| 0 <= a < b < left.len() implies runs_disjoint(
        #[trigger] left[a],
        #[trigger] left[b],
        slot,
    ) by {
        let sa = if a < i {
            a
        } else {
            a + 1
        };
        let sb = if b < i {
            b
        } else {
            b + 1
        };
        assert(runs_disjoint(runs[sa], runs[sb], slot));
    }
}

/// Slots that were given back last are the first to be handed out again:
/// where a request asks for just as many, it gets them, the list is as it
/// was before they were given back, and no byte of the store is touched.
pub proof fn lemma_reuse(pages: Seq<Seq<u8>>, runs: Seq<FreeRun>, addr: u32, count: u32, slot: nat)
    ensures
        first_fit(seq![(FreeRun { addr, slots: count })] + runs, count, slot) == Some(0int),
        taken_addr((seq![(FreeRun { addr, slots: count })] + runs)[0], count, slot) == addr,
        runs_after_take(seq![(FreeRun { addr, slots: count })] + runs, 0, count) == runs,
        pages_after_take(pages, seq![(FreeRun { addr, slots: count })] + runs, 0, count) == pages,
{
    let list = seq![(FreeRun { addr, slots: count })] + runs;
    assert(list[0].slots == count);
    assert(list.remove(0) =~= runs);
}

/// The run lies in memory that an arena with the cursor `cursor` has
/// passed, in a store of `pages` pages: in another page than the cursor, or
/// before it.
pub open spec fn behind_cursor(run: FreeRun, cursor: Option<Cursor>, pages: int, slot: nat) -> bool {
    lies_behind(
        cursor,
        pages,
        page_of(run.addr) as int,
        offset_of(run.addr) + extent(run.slots, slot),
    )
}

/// Every run of `runs` lies in memory that the arena has passed.
pub open spec fn runs_behind(
    runs: Seq<FreeRun>,
    cursor: Option<Cursor>,
    pages: int,
    slot: nat,
) -> bool {
    forall|i: int| 0 <= i < runs.len() ==> behind_cursor(#[trigger] runs[i], cursor, pages, slot)
}

/// The slots that are taken from a run of a free list lie in the run,
/// behind what stays of it, and share no byte with any run that is still
/// free: they can be given back later.
pub proof fn lemma_taken(
    pages: Seq<Seq<u8>>,
    head: u32,
    runs: Seq<FreeRun>,
    slot: nat,
    i: int,
    count: u32,
)
    requires
        is_free_list(pages, head, runs, slot),
        0 <= i < runs.len(),
        fits(runs[i], count, slot),
        count >= 1,
        slot >= NODE_SIZE,
    ensures
        ({
            let taken = FreeRun { addr: taken_addr(runs[i], count, slot), slots: count };
            let left = runs_after_take(runs, i, count);
            &&& taken.addr != NO_ADDR
            &&& run_in_page(pages, taken, slot)
            &&& page_of(taken.addr) == page_of(runs[i].addr)
            &&& offset_of(taken.addr) == offset_of(runs[i].addr) + slot * (runs[i].slots - count)
            &&& extent(count, slot) == slot * count
            &&& forall|k: int| 0 <= k < left.len() ==> runs_disjoint(taken, #[trigger] left[k], slot)
        }),
{
    let run = runs[i];
    let taken = FreeRun { addr: taken_addr(run, count, slot), slots: count };
    let left = runs_after_take(runs, i, count);
    let rest = (run.slots - count) as u32;
    let o = offset_of(run.addr) as int;
    reveal(extent);
    assert(slot * count >= 8) by (nonlinear_arith)
        requires
            slot >= 8,
            count >= 1,
    ;
    assert(slot * run.slots == slot * rest + slot * count) by (nonlinear_arith)
        requires
            run.slots == rest + count,
    ;
    assert(slot * rest >= 0) by (nonlinear_arith)
        requires
            slot >= 0,
            rest >= 0,
    ;
    if rest > 0 {
        assert(slot * rest >= 8) by (nonlinear_arith)
            requires
                slot >= 8,
                rest >= 1,
        ;
        lemma_move_in_page(run.addr, (slot * rest) as u32);
    }
    assert(run.slots * slot == slot * run.slots && rest * slot == slot * rest && count * slot
        == slot * count) by (nonlinear_arith);
    assert(run_in_page(pages, run, slot));
    assert(extent(run.slots, slot) == slot * run.slots);
    assert(rest > 0 ==> extent(rest, slot) == slot * rest);
    assert(page_of(taken.addr) == page_of(run.addr));
    assert(offset_of(taken.addr) == o + slot * rest);
    assert forall|k: int| 0 <= k < left.len() implies runs_disjoint(
        taken,
        #[trigger] left[k],
        slot,
    ) by {
        if run.slots > count {
            if k == i {
                assert(left[k].slots == rest);
            } else {
                assert(left[k] == runs[k]);
                if k < i {
                    assert(runs_disjoint(runs[k], runs[i], slot));
                } else {
                    assert(runs_disjoint(runs[i], runs[k], slot));
                }
            }
        } else {
            let src = if k < i {
                k
            } else {
                k + 1
            };
            assert(left[k] == runs[src]);
            if src < i {
                assert(runs_disjoint(runs[src], runs[i], slot));
            } else {
                assert(runs_disjoint(runs[i], runs[src], slot));
            }
        }
    }
}

/// Taking slots from a run leaves every page as long as it was.
pub proof fn lemma_after_take_lens(
    pages: Seq<Seq<u8>>,
    head: u32,
    runs: Seq<FreeRun>,
    slot: nat,
    i: int,
    count: u32,
)
    requires
        is_free_list(pages, head, runs, slot),
        0 <= i < runs.len(),
        runs[i].slots >= count,
    ensures
        pages_after_take(pages, runs, i, count).len() == pages.len(),
        forall|k: int|
            0 <= k < pages.len() ==> (#[trigger] pages_after_take(pages, runs, i, count)[k]).len()
                == pages[k].len(),
{
    lemma_extent_monotone(runs[i].slots, runs[i].slots, slot);
    if runs[i].slots > count {
        lemma_written_word(
            pages,
            page_of(runs[i].addr) as int,
            offset_of(runs[i].addr) as int,
            (runs[i].slots - count) as u32,
        );
    } else if i > 0 {
        lemma_extent_monotone(runs[i - 1].slots, runs[i - 1].slots, slot);
        assert(run_in_page(pages, runs[i - 1], slot));
        lemma_written_word(
            pages,
            page_of(runs[i - 1].addr) as int,
            offset_of(runs[i - 1].addr) + 4,
            next_of(runs, i),
        );
    }
}

/// Runs that lay behind the cursor still do after slots are taken from one
/// of them.
pub proof fn lemma_left_behind(
    runs: Seq<FreeRun>,
    cursor: Option<Cursor>,
    pages: int,
    slot: nat,
    i: int,
    count: u32,
)
    requires
        0 <= i < runs.len(),
        runs[i].slots >= count,
        runs_behind(runs, cursor, pages, slot),
    ensures
        runs_behind(runs_after_take(runs, i, count), cursor, pages, slot),
{
    let left = runs_after_take(runs, i, count);
    assert forall|k: int| 0 <= k < left.len() implies behind_cursor(
        #[trigger] left[k],
        cursor,
        pages,
        slot,
    ) by {
        if runs[i].slots > count {
            assert(behind_cursor(runs[k], cursor, pages, slot));
            lemma_extent_monotone(left[k].slots, runs[k].slots, slot);
        } else {
            let src = if k < i {
                k
            } else {
                k + 1
            };
            assert(left[k] == runs[src]);
            assert(behind_cursor(runs[src], cursor, pages, slot));
        }
    }
}

/// Slots that come from the arena can be given back to the slab later: they
/// lie in one page, behind the cursor as it then stands. And where the free
/// runs lay behind the cursor, they still do, and share no byte with the new
/// slots.
pub proof fn lemma_from_arena(
    runs: Seq<FreeRun>,
    cursor: Option<Cursor>,
    lens: Seq<int>,
    after: Seq<int>,
    slot: nat,
    count: u32,
)
    requires
        count >= 1,
        slot >= NODE_SIZE,
        slot * count <= u32::MAX - 7,
        lens.len() <= NUM_PAGES,
        lens.len() < NUM_PAGES || has_room(cursor, lens, round_up8(slot * count)),
        forall|i: int| 0 <= i < lens.len() ==> lens[i] <= u32::MAX,
        after == alloc_lens(cursor, lens, round_up8(slot * count)),
        cursor matches Some(at) ==> at.offset % 8 == 0,
    ensures
        ({
            let size = round_up8(slot * count);
            let got = FreeRun { addr: alloc_addr(cursor, lens, size), slots: count };
            let moved = Some(alloc_cursor(cursor, lens, size));
            &&& got.addr != NO_ADDR
            &&& extent(count, slot) == slot * count
            &&& page_of(got.addr) < after.len()
            &&& offset_of(got.addr) + extent(count, slot) <= after[page_of(got.addr) as int]
            &&& behind_cursor(got, moved, after.len() as int, slot)
            &&& runs_behind(runs, cursor, lens.len() as int, slot) ==> {
                &&& runs_behind(runs, moved, after.len() as int, slot)
                &&& forall|k: int|
                    0 <= k < runs.len() ==> runs_disjoint(got, #[trigger] runs[k], slot)
            }
        }),
{
    reveal(extent);
    let size = round_up8(slot * count);
    let got = FreeRun { addr: alloc_addr(cursor, lens, size), slots: count };
    let moved = Some(alloc_cursor(cursor, lens, size));
    assert(slot * count >= 8) by (nonlinear_arith)
        requires
            slot >= 8,
            count >= 1,
    ;
    assert(count * slot == slot * count) by (nonlinear_arith);
    lemma_cursor_moves(cursor, lens, size);
    crate::arena::lemma_aligned(cursor, lens, size);
    if runs_behind(runs, cursor, lens.len() as int, slot) {
        assert forall|k: int| 0 <= k < runs.len() implies behind_cursor(
            #[trigger] runs[k],
            moved,
            after.len() as int,
            slot,
        ) && runs_disjoint(got, runs[k], slot) by {
            assert(behind_cursor(runs[k], cursor, lens.len() as int, slot));
        }
    }
}

/// A free list is not disturbed by what happens outside its runs: where
/// every page is as long as before, or newly added, and the bytes of each
/// run's header are what they were, the list is still the list.
pub proof fn lemma_free_list_frame(
    before: Seq<Seq<u8>>,
    after: Seq<Seq<u8>>,
    head: u32,
    runs: Seq<FreeRun>,
    slot: nat,
)
    requires
        is_free_list(before, head, runs, slot),
        before.len() <= after.len(),
        forall|i: int|
            0 <= i < runs.len() ==> {
                let p = page_of((#[trigger] runs[i]).addr) as int;
                let o = offset_of(runs[i].addr) as int;
                &&& after[p].len() == before[p].len()
                &&& after[p].subrange(o, o + 8) == before[p].subrange(o, o + 8)
            },
    ensures
        is_free_list(after, head, runs, slot),
{
    assert forall|i: int| 0 <= i < runs.len() implies {
        &&& (#[trigger] runs[i]).addr != NO_ADDR
        &&& run_in_page(after, runs[i], slot)
        &&& node_at(after, runs[i].addr, runs[i].slots, next_of(runs, i))
    } by {
        lemma_extent_monotone(runs[i].slots, runs[i].slots, slot);
        lemma_node_frame(before, after, runs[i].addr, runs[i].slots, next_of(runs, i));
    }
}

/// A free-list allocator for records of type `T`. It owns no memory: it
/// threads the runs that were given back to it through the store, and asks
/// an arena where none of them is long enough.
pub struct Slab<T> {
    free_head: u32,
    free: Ghost<Seq<FreeRun>>,
    phantom: PhantomData<T>,
}

impl<T> Default for Slab<T> {
    fn default() -> (slab: Self)
        ensures
            slab.head() == NO_ADDR,
            slab.free_list() == Seq::<FreeRun>::empty(),
    {
        Slab::new()
    }
}

impl<T> Slab<T> {
    /// The address of the first free run, or `NO_ADDR`.
    pub closed spec fn head(&self) -> u32 {
        self.free_head
    }

    /// The free runs, the one freed last first.
    pub closed spec fn free_list(&self) -> Seq<FreeRun> {
        self.free@
    }

    /// The free list of this slab is in `pages`.
    pub open spec fn wf(&self, pages: Seq<Seq<u8>>) -> bool {
        is_free_list(pages, self.head(), self.free_list(), slot_size::<T>())
    }

    /// A slab without free runs.
    pub fn new() -> (slab: Self)
        ensures
            slab.head() == NO_ADDR,
            slab.free_list() == Seq::<FreeRun>::empty(),
            forall|pages: Seq<Seq<u8>>| slab.wf(pages),
    {
        Slab { free_head: NO_ADDR, free: Ghost(Seq::empty()), phantom: PhantomData }
    }

    /// Number of bytes of one slot.
    pub fn slot_bytes() -> (size: usize)
        ensures
            size == slot_size::<T>(),
    {
        let size = core::mem::size_of::<T>();
        if size > NODE_SIZE {
            size
        } else {
            NODE_SIZE
        }
    }

    /// Reads the header of the free run at `addr`.
    fn load_node(heap: &PageAllocator, addr: u32) -> (node: FreeNode)
        requires
            page_of(addr) < heap@.len(),
            offset_of(addr) + 8 <= heap@[page_of(addr) as int].len(),
        ensures
            node_at(heap@, addr, node.slots, node.next),
    {
        let (page, offset) = unpack_addr(addr);
        let slots = heap.load_u32(page, offset as usize);
        let next = heap.load_u32(page, offset as usize + 4);
        FreeNode { slots, next }
    }

    /// Gives the `count` slots at `addr` back to the slab. Their first
    /// bytes take the header of a free run, which becomes the first of the
    /// list. The slots must lie in a page and be in use: a run that shares a
    /// byte with a free one would tie the list into a knot.
    pub fn dealloc(&mut self, heap: &mut PageAllocator, addr: u32, count: u32)
        requires
            old(heap).wf(),
            old(self).wf(old(heap)@),
            returnable(old(heap)@, addr, count, slot_size::<T>()),
            apart_from(old(self).free_list(), addr, count, slot_size::<T>()),
        ensures
            final(heap).wf(),
            final(self).wf(final(heap)@),
            final(self).free_list() == seq![(FreeRun { addr, slots: count })] + old(
                self,
            ).free_list(),
            final(heap)@ == with_node(old(heap)@, addr, count, old(self).head()),
            final(heap).ptrs() == old(heap).ptrs(),
    {
        let (page, offset) = unpack_addr(addr);
        proof {
            lemma_extent_monotone(count, count, slot_size::<T>());
            lemma_written_word(old(heap)@, page as int, offset as int, count);
        }
        heap.store_u32(page, offset as usize, count);
        heap.store_u32(page, offset as usize + 4, self.free_head);
        let ghost run = FreeRun { addr, slots: count };
        let ghost runs = seq![run] + self.free@;
        proof {
            let slot = slot_size::<T>();
            let before = old(heap)@;
            let after = heap@;
            let head = old(self).head();
            lemma_with_node(before, addr, count, head);
            lemma_next_of(runs, 0);
            assert forall|i: int| 0 <= i < runs.len() implies {
                &&& (#[trigger] runs[i]).addr != NO_ADDR
                &&& run_in_page(after, runs[i], slot)
                &&& node_at(after, runs[i].addr, runs[i].slots, next_of(runs, i))
            } by {
                if i > 0 {
                    let r = old(self).free_list()[i - 1];
                    assert(runs[i] == r);
                    assert(runs_disjoint(run, r, slot));
                    lemma_extent_monotone(r.slots, r.slots, slot);
                    assert(next_of(runs, i) == next_of(old(self).free_list(), i - 1)) by {
                        lemma_next_of(runs, i);
                        lemma_next_of(old(self).free_list(), i - 1);
                    }
                    let p = page_of(r.addr) as int;
                    let o = offset_of(r.addr) as int;
                    lemma_with_node_elsewhere(before, addr, count, head, p, o, o + 8);
                    lemma_node_frame(before, after, r.addr, r.slots, next_of(runs, i));
                }
            }
            assert forall|i: int, j: int| 0 <= i < j < runs.len() implies runs_disjoint(
                #[trigger] runs[i],
                #[trigger] runs[j],
                slot,
            ) by {
                if i > 0 {
                    assert(runs[i] == old(self).free_list()[i - 1]);
                }
                assert(runs[j] == old(self).free_list()[j - 1]);
            }
        }
        self.free_head = addr;
        self.free = Ghost(runs);
    }

    /// Hands out `count` slots in a row and returns the address of the
    /// first. The free list is searched from its head for the first run of
    /// at least `count` slots. A longer run gives up its last `count` slots
    /// and stays in the list; a run of just `count` slots leaves the list.
    /// Where no run is long enough, the arena hands out `count` slots.
    pub fn allocate(&mut self, heap: &mut PageAllocator, arena: &mut Arena, count: u32) -> (addr:
        u32)
        requires
            old(heap).wf(),
            old(self).wf(old(heap)@),
            slot_size::<T>() <= u32::MAX,
            slot_size::<T>() * count <= u32::MAX - 7,
            first_fit(old(self).free_list(), count, slot_size::<T>()) is None ==> has_room(
                old(arena).cursor(),
                old(heap).lens(),
                round_up8(slot_size::<T>() * count),
            ) || old(heap)@.len() < NUM_PAGES,
        ensures
            final(heap).wf(),
            final(self).wf(final(heap)@),
            final(heap).ptrs().subrange(0, old(heap)@.len() as int) == old(heap).ptrs(),
            allocation(
                slot_size::<T>(),
                count,
                old(self).free_list(),
                old(heap)@,
                old(arena).cursor(),
                addr,
                final(self).free_list(),
                final(heap)@,
                final(arena).cursor(),
            ),
            count >= 1 ==> returnable(final(heap)@, addr, count, slot_size::<T>()),
            count >= 1 && runs_behind(
                old(self).free_list(),
                old(arena).cursor(),
                old(heap)@.len() as int,
                slot_size::<T>(),
            ) ==> {
                &&& runs_behind(
                    final(self).free_list(),
                    final(arena).cursor(),
                    final(heap)@.len() as int,
                    slot_size::<T>(),
                )
                &&& apart_from(final(self).free_list(), addr, count, slot_size::<T>())
                &&& behind_cursor(
                    (FreeRun { addr, slots: count }),
                    final(arena).cursor(),
                    final(heap)@.len() as int,
                    slot_size::<T>(),
                )
            },
    {
        let size = Self::slot_bytes() as u32;
        let ghost slot = slot_size::<T>();
        let ghost runs = self.free@;
        let ghost pages = heap@;
        let _ = arena.position();
        match self.find_fit(heap, count) {
            Some(fit) => self.take(
                heap,
                Ghost(arena.cursor()),
                Ghost(heap@.len() as int),
                fit,
                count,
            ),
            None => {
                proof {
                    assert(size * count == slot * count) by (nonlinear_arith)
                        requires
                            size == slot,
                    ;
                }
                let addr = arena.allocate(heap, size * count);
                proof {
                    assert forall|k: int| 0 <= k < runs.len() implies {
                        let p = page_of((#[trigger] runs[k]).addr) as int;
                        let o = offset_of(runs[k].addr) as int;
                        &&& heap@[p].len() == pages[p].len()
                        &&& heap@[p].subrange(o, o + 8) == pages[p].subrange(o, o + 8)
                    } by {
                        let p = page_of(runs[k].addr) as int;
                        assert(heap@.subrange(0, pages.len() as int)[p] == heap@[p]);
                    }
                    lemma_free_list_frame(pages, heap@, self.free_head, runs, slot);
                    if count >= 1 {
                        lemma_from_arena(
                            runs,
                            old(arena).cursor(),
                            old(heap).lens(),
                            heap.lens(),
                            slot,
                            count,
                        );
                        assert(heap@[page_of(addr) as int].len() == heap.lens()[page_of(
                            addr,
                        ) as int]);
                    }
                }
                addr
            },
        }
    }

    /// Searches the free list for the first run from which `count` slots
    /// can be taken.
    fn find_fit(&self, heap: &PageAllocator, count: u32) -> (found: Option<Fit>)
        requires
            heap.wf(),
            self.wf(heap@),
            slot_size::<T>() <= u32::MAX,
        ensures
            match found {
                Some(fit) => {
                    &&& first_fit(self.free_list(), count, slot_size::<T>()) == Some(fit.at@)
                    &&& 0 <= fit.at@ < self.free_list().len()
                    &&& fits(self.free_list()[fit.at@], count, slot_size::<T>())
                    &&& fit.addr == self.free_list()[fit.at@].addr
                    &&& fit.slots == self.free_list()[fit.at@].slots
                    &&& fit.next == next_of(self.free_list(), fit.at@)
                    &&& fit.prev == if 0 < fit.at@ {
                        self.free_list()[fit.at@ - 1].addr
                    } else {
                        NO_ADDR
                    }
                },
                None => first_fit(self.free_list(), count, slot_size::<T>()) is None,
            },
    {
        let size = Self::slot_bytes() as u64;
        let ghost slot = slot_size::<T>();
        let ghost runs = self.free@;
        let mut addr = self.free_head;
        let mut prev = NO_ADDR;
        let ghost mut i: int = 0;
        while addr != NO_ADDR
            invariant
                heap.wf(),
                runs == self.free_list(),
                slot == slot_size::<T>(),
                size == slot,
                size <= u32::MAX,
                is_free_list(heap@, self.free_head, runs, slot),
                0 <= i <= runs.len(),
                addr == if i < runs.len() {
                    runs[i].addr
                } else {
                    NO_ADDR
                },
                prev == if 0 < i {
                    runs[i - 1].addr
                } else {
                    NO_ADDR
                },
                forall|j: int| 0 <= j < i ==> !fits(#[trigger] runs[j], count, slot),
            decreases runs.len() - i,
        {
            proof {
                lemma_extent_monotone(runs[i].slots, runs[i].slots, slot);
                lemma_next_of(runs, i);
            }
            let node = Self::load_node(heap, addr);
            assert(node_at(heap@, runs[i].addr, runs[i].slots, next_of(runs, i)));
            if node.slots >= count {
                let rest = (node.slots - count) as u64;
                let (_, offset) = unpack_addr(addr);
                assert(size * rest <= 0xffff_ffff * 0xffff_ffff) by (nonlinear_arith)
                    requires
                        size <= 0xffff_ffff,
                        rest <= 0xffff_ffff,
                ;
                assert(size * rest == slot * (runs[i].slots - count)) by (nonlinear_arith)
                    requires
                        size == slot,
                        rest == runs[i].slots - count,
                ;
                if rest == 0 || offset as u64 + size * rest < 65536 {
                    proof {
                        lemma_first_fit_at(runs, count, slot, i);
                    }
                    return Some(
                        Fit { at: Ghost(i), addr, prev, slots: node.slots, next: node.next },
                    );
                }
            }
            prev = addr;
            addr = node.next;
            proof {
                i = i + 1;
            }
        }
        proof {
            lemma_no_fit(runs, count, slot);
        }
        None
    }

    /// Takes `count` slots from the run that `find_fit` found.
    #[verifier::rlimit(50)]
    fn take(
        &mut self,
        heap: &mut PageAllocator,
        cursor: Ghost<Option<Cursor>>,
        pages: Ghost<int>,
        fit: Fit,
        count: u32,
    ) -> (addr: u32)
        requires
            old(heap).wf(),
            old(self).wf(old(heap)@),
            slot_size::<T>() <= u32::MAX,
            0 <= fit.at@ < old(self).free_list().len(),
            fits(old(self).free_list()[fit.at@], count, slot_size::<T>()),
            fit.addr == old(self).free_list()[fit.at@].addr,
            fit.slots == old(self).free_list()[fit.at@].slots,
            fit.next == next_of(old(self).free_list(), fit.at@),
            fit.prev == if 0 < fit.at@ {
                old(self).free_list()[fit.at@ - 1].addr
            } else {
                NO_ADDR
            },
        ensures
            final(heap).wf(),
            final(self).wf(final(heap)@),
            final(heap).ptrs() == old(heap).ptrs(),
            final(heap)@.len() == old(heap)@.len(),
            addr == taken_addr(old(self).free_list()[fit.at@], count, slot_size::<T>()),
            final(self).free_list() == runs_after_take(old(self).free_list(), fit.at@, count),
            final(heap)@ == pages_after_take(old(heap)@, old(self).free_list(), fit.at@, count),
            count >= 1 ==> returnable(final(heap)@, addr, count, slot_size::<T>()),
            count >= 1 ==> apart_from(final(self).free_list(), addr, count, slot_size::<T>()),
            runs_behind(old(self).free_list(), cursor@, pages@, slot_size::<T>()) ==> runs_behind(
                final(self).free_list(),
                cursor@,
                pages@,
                slot_size::<T>(),
            ),
            count >= 1 && runs_behind(old(self).free_list(), cursor@, pages@, slot_size::<T>())
                ==> behind_cursor(
                (FreeRun { addr, slots: count }),
                cursor@,
                pages@,
                slot_size::<T>(),
            ),
    {
        let size = Self::slot_bytes() as u32;
        let ghost slot = slot_size::<T>();
        let ghost runs = self.free@;
        let ghost before = heap@;
        let ghost i = fit.at@;
        proof {
            lemma_extent_monotone(runs[i].slots, runs[i].slots, slot);
            if count >= 1 {
                lemma_taken(before, self.free_head, runs, slot, i, count);
                if runs_behind(runs, cursor@, pages@, slot) {
                    assert(behind_cursor(runs[i], cursor@, pages@, slot));
                    assert(slot * (runs[i].slots - count) + slot * count == slot * runs[i].slots)
                        by (nonlinear_arith);
                    assert(runs[i].slots * slot == slot * runs[i].slots) by (nonlinear_arith);
                    reveal(extent);
                }
            }
            if runs_behind(runs, cursor@, pages@, slot) {
                lemma_left_behind(runs, cursor@, pages@, slot, i, count);
            }
            lemma_after_take_lens(before, self.free_head, runs, slot, i, count);
        }
        let (page, offset) = unpack_addr(fit.addr);
        if count < fit.slots {
            let rest = fit.slots - count;
            proof {
                lemma_extent_monotone(rest, fit.slots, slot);
                lemma_take_part(before, self.free_head, runs, slot, i, count);
                assert(size * rest == slot * (runs[i].slots - count)) by (nonlinear_arith)
                    requires
                        size == slot,
                        rest == runs[i].slots - count,
                ;
                assert(rest * slot == size * rest) by (nonlinear_arith)
                    requires
                        size == slot,
                ;
                lemma_move_in_page(fit.addr, (size * rest) as u32);
            }
            heap.store_u32(page, offset as usize, rest);
            self.free = Ghost(runs_after_take(runs, i, count));
            fit.addr + size * rest
        } else {
            if fit.prev == NO_ADDR {
                proof {
                    lemma_take_first(before, self.free_head, runs, slot);
                    lemma_next_of(runs, 0);
                }
                self.free_head = fit.next;
            } else {
                let (earlier, at) = unpack_addr(fit.prev);
                proof {
                    lemma_extent_monotone(runs[i - 1].slots, runs[i - 1].slots, slot);
                    lemma_take_inner(before, self.free_head, runs, slot, i);
                }
                heap.store_u32(earlier, at as usize + 4, fit.next);
            }
            self.free = Ghost(runs_after_take(runs, i, count));
            fit.addr
        }
    }

    /// Tells whether `allocate` may be asked for `count` slots: their size
    /// is one that the arena can count, and a free run fits, or the slots
    /// fit behind the cursor of the arena, or the store can take one more
    /// page.
    pub fn can_allocate(&self, heap: &PageAllocator, arena: &Arena, count: u32) -> (ok: bool)
        requires
            heap.wf(),
            self.wf(heap@),
        ensures
            ok == {
                &&& slot_size::<T>() <= u32::MAX
                &&& slot_size::<T>() * count <= u32::MAX - 7
                &&& first_fit(self.free_list(), count, slot_size::<T>()) is None ==> has_room(
                    arena.cursor(),
                    heap.lens(),
                    round_up8(slot_size::<T>() * count),
                ) || heap@.len() < NUM_PAGES
            },
    {
        let slot = Self::slot_bytes();
        if slot > u32::MAX as usize {
            return false;
        }
        assert(slot * count <= 0xffff_ffff * 0xffff_ffff) by (nonlinear_arith)
            requires
                slot <= 0xffff_ffff,
                count <= 0xffff_ffff,
        ;
        let size = slot as u64 * count as u64;
        if size > (u32::MAX - 7) as u64 {
            return false;
        }
        match self.find_fit(heap, count) {
            Some(_) => true,
            None => arena.has_room_for(heap, round_up(size as u32)) || heap.page_count()
                < NUM_PAGES as usize,
        }
    }

    /// Number of bytes that a free run of `slots` slots covers.
    fn extent_of(slots: u32) -> (bytes: u128)
        ensures
            bytes == extent(slots, slot_size::<T>()),
            bytes <= 0xffff_ffff * 0xffff_ffff_ffff_ffff,
    {
        reveal(extent);
        let slot = Self::slot_bytes();
        assert(slots * slot <= 0xffff_ffff * 0xffff_ffff_ffff_ffff) by (nonlinear_arith)
            requires
                slots <= 0xffff_ffff,
                slot <= 0xffff_ffff_ffff_ffff,
        ;
        let bytes = slots as u128 * slot as u128;
        if bytes > NODE_SIZE as u128 {
            bytes
        } else {
            NODE_SIZE as u128
        }
    }

    /// Tells whether `dealloc` may be given the `count` slots at `addr`:
    /// they lie in one page of the store, and share no byte with a free
    /// run.
    pub fn can_return(&self, heap: &PageAllocator, addr: u32, count: u32) -> (ok: bool)
        requires
            heap.wf(),
            self.wf(heap@),
        ensures
            ok == {
                &&& returnable(heap@, addr, count, slot_size::<T>())
                &&& apart_from(self.free_list(), addr, count, slot_size::<T>())
            },
    {
        let (page, offset) = unpack_addr(addr);
        if addr == NO_ADDR || page as usize >= heap.page_count() {
            return false;
        }
        let end = offset as u128 + Self::extent_of(count);
        if end > heap.page_len(page) as u128 {
            return false;
        }
        let ghost runs = self.free@;
        let ghost slot = slot_size::<T>();
        let ghost given = FreeRun { addr, slots: count };
        let mut at = self.free_head;
        let ghost mut i: int = 0;
        while at != NO_ADDR
            invariant
                heap.wf(),
                runs == self.free_list(),
                slot == slot_size::<T>(),
                given == (FreeRun { addr, slots: count }),
                page == page_of(addr),
                offset == offset_of(addr),
                end == offset + extent(count, slot),
                is_free_list(heap@, self.free_head, runs, slot),
                0 <= i <= runs.len(),
                at == if i < runs.len() {
                    runs[i].addr
                } else {
                    NO_ADDR
                },
                forall|j: int| 0 <= j < i ==> runs_disjoint(given, #[trigger] runs[j], slot),
            decreases runs.len() - i,
        {
            proof {
                lemma_extent_monotone(runs[i].slots, runs[i].slots, slot);
                lemma_next_of(runs, i);
            }
            let node = Self::load_node(heap, at);
            assert(node_at(heap@, runs[i].addr, runs[i].slots, next_of(runs, i)));
            let (other, start) = unpack_addr(at);
            if other == page && start as u128 + Self::extent_of(node.slots) > offset as u128
                && end > start as u128 {
                assert(!runs_disjoint(given, runs[i], slot));
                return false;
            }
            at = node.next;
            proof {
                i = i + 1;
            }
        }
        true
    }

    /// The free runs as the store holds them, from the head of the list on.
    pub fn debug_free_list(&self, heap: &PageAllocator) -> (found: Vec<FreeRun>)
        requires
            self.wf(heap@),
        ensures
            found@ == self.free_list(),
    {
        let ghost runs = self.free@;
        let mut found: Vec<FreeRun> = Vec::new();
        let mut addr = self.free_head;
        while addr != NO_ADDR
            invariant
                is_free_list(heap@, self.free_head, runs, slot_size::<T>()),
                0 <= found@.len() <= runs.len(),
                found@ == runs.take(found@.len() as int),
                addr == if found@.len() < runs.len() {
                    runs[found@.len() as int].addr
                } else {
                    NO_ADDR
                },
            decreases runs.len() - found@.len(),
        {
            let ghost i = found@.len() as int;
            proof {
                lemma_extent_monotone(runs[i].slots, runs[i].slots, slot_size::<T>());
                lemma_next_of(runs, i);
            }
            let node = Self::load_node(heap, addr);
            found.push(FreeRun { addr, slots: node.slots });
            assert(found@ =~= runs.take(i + 1));
            addr = node.next;
        }
        assert(runs.take(runs.len() as int) =~= runs);
        found
    }
}

} // verus!
