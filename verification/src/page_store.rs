//! The page store: an append-only list of pages of bytes, and the one place
//! that resolves a packed address to the memory behind it.

use crate::bytes::{u32_from_le, u32_from_le_bytes, u32_le, u32_to_le_bytes};
use crate::codec::{offset_of, pack, pack_addr, page_of, unpack_addr, NUM_PAGES, PAGE_SIZE};
use crate::persist::{
    awaited, decodable, encode, encode_pages, lacking, lemma_decodable_count,
    lemma_encode_pages_step, lemma_truncated, storable,
};
use vstd::prelude::*;

verus! {

/// `bytes` with `data` written over it from position `at` on.
pub open spec fn splice(bytes: Seq<u8>, at: int, data: Seq<u8>) -> Seq<u8>
    recommends
        0 <= at,
        at + data.len() <= bytes.len(),
{
    bytes.subrange(0, at) + data + bytes.subrange(at + data.len(), bytes.len() as int)
}

/// The pages `pages` after `data` is written into page `page` from offset
/// `at` on.
pub open spec fn written(pages: Seq<Seq<u8>>, page: int, at: int, data: Seq<u8>) -> Seq<Seq<u8>>
    recommends
        0 <= page < pages.len(),
        0 <= at,
        at + data.len() <= pages[page].len(),
{
    pages.update(page, splice(pages[page], at, data))
}

/// The 32-bit word stored in page `page` at offset `at`.
pub open spec fn word_at(pages: Seq<Seq<u8>>, page: int, at: int) -> u32
    recommends
        0 <= page < pages.len(),
        0 <= at,
        at + 4 <= pages[page].len(),
{
    u32_from_le(pages[page].subrange(at, at + 4))
}

/// The length of each of `pages`.
pub open spec fn lens_of(pages: Seq<Seq<u8>>) -> Seq<int> {
    Seq::new(pages.len(), |i: int| pages[i].len() as int)
}

/// The `len` bytes from `addr` on lie in one of `pages`.
pub open spec fn in_range(pages: Seq<Seq<u8>>, addr: u32, len: int) -> bool {
    &&& 0 <= len
    &&& page_of(addr) < pages.len()
    &&& offset_of(addr) + len <= pages[page_of(addr) as int].len()
}

/// Writing a word leaves every page as long as it was, and the word can be
/// read where it was written.
pub proof fn lemma_written_word(pages: Seq<Seq<u8>>, page: int, at: int, word: u32)
    requires
        0 <= page < pages.len(),
        0 <= at,
        at + 4 <= pages[page].len(),
    ensures
        written(pages, page, at, u32_le(word)).len() == pages.len(),
        forall|i: int|
            0 <= i < pages.len() ==> (#[trigger] written(pages, page, at, u32_le(word))[i]).len()
                == pages[i].len(),
        word_at(written(pages, page, at, u32_le(word)), page, at) == word,
{
    let after = written(pages, page, at, u32_le(word));
    assert(after[page].subrange(at, at + 4) =~= u32_le(word));
    crate::bytes::lemma_u32_le_decode(word);
}

/// Writing a word changes no byte but the four of the word.
pub proof fn lemma_written_elsewhere(
    pages: Seq<Seq<u8>>,
    page: int,
    at: int,
    word: u32,
    other: int,
    from: int,
    to: int,
)
    requires
        0 <= page < pages.len(),
        0 <= at,
        at + 4 <= pages[page].len(),
        0 <= other < pages.len(),
        0 <= from <= to <= pages[other].len(),
        other != page || to <= at || at + 4 <= from,
    ensures
        written(pages, page, at, u32_le(word))[other].subrange(from, to) == pages[other].subrange(
            from,
            to,
        ),
{
    let after = written(pages, page, at, u32_le(word));
    assert(after[other].subrange(from, to) =~= pages[other].subrange(from, to));
}

/// Why a stream of bytes could not be read as a page store.
#[derive(Clone, Copy, Debug, PartialEq, Eq, Structural)]
pub enum ReadError {
    /// The stream ends before the pages that it announces.
    UnexpectedEof,
    /// The stream announces more pages than a packed address can number.
    TooManyPages,
}

/// One page: its bytes, and the machine address at which they lie.
struct Page {
    ptr: usize,
    bytes: Vec<u8>,
}

/// An append-only list of pages. A page, once added, keeps its index, its
/// length and its place in memory for as long as the store lives.
pub struct PageAllocator {
    pages: Vec<Page>,
}

/// The address at which the bytes of `bytes` lie in memory.
///
/// Stands for `Vec::as_ptr`. Nothing is claimed of the address itself; only
/// that the buffer ends inside the address space, which holds of every
/// allocation.
#[verifier::external_body]
fn buffer_address(bytes: &Vec<u8>) -> (ptr: usize)
    ensures
        ptr + bytes@.len() <= usize::MAX,
{
    bytes.as_ptr() as usize
}

/// Appends the four bytes of `word`, lowest first.
fn push_u32(dest: &mut Vec<u8>, word: u32)
    ensures
        final(dest)@ == old(dest)@ + u32_le(word),
{
    let b = u32_to_le_bytes(word);
    dest.push(b[0]);
    dest.push(b[1]);
    dest.push(b[2]);
    dest.push(b[3]);
    assert(dest@ =~= old(dest)@ + u32_le(word));
}

/// Reads the four bytes of `source` from `at` on as a word, lowest first.
fn word_from(source: &[u8], at: usize) -> (word: u32)
    requires
        at + 4 <= source@.len(),
    ensures
        word == u32_from_le(source@.subrange(at as int, at + 4)),
{
    let b = [source[at], source[at + 1], source[at + 2], source[at + 3]];
    assert(b@ =~= source@.subrange(at as int, at + 4));
    u32_from_le_bytes(b)
}

/// Tells how many bytes to read next behind `source`, the start of a
/// persisted page store as far as it has come in. The answer is 0 just
/// where `PageAllocator::read` has what it needs to decide: the store is
/// there as a whole, or the stream announces more pages than a store can
/// hold.
pub fn bytes_awaited(source: &[u8]) -> (more: usize)
    ensures
        more == awaited(source@),
        more == 0 <==> decodable(source@) || (source@.len() >= 4 && u32_from_le(source@)
            > NUM_PAGES),
{
    if source.len() < 4 {
        proof {
            if decodable(source@) {
                let pages = choose|pages: Seq<Seq<u8>>|
                    storable(pages) && #[trigger] encode(pages).is_prefix_of(source@);
                lemma_decodable_count(source@, pages);
            }
        }
        return 4 - source.len();
    }
    let count = word_from(source, 0);
    assert(source@.subrange(0, 4) =~= seq![source@[0], source@[1], source@[2], source@[3]]);
    assert(count == u32_from_le(source@));
    if count > NUM_PAGES {
        return 0;
    }
    let ghost mut done: Seq<Seq<u8>> = Seq::empty();
    let mut pos: usize = 4;
    let mut i: u32 = 0;
    assert(source@.subrange(4, 4) =~= encode_pages(done));
    while i < count
        invariant
            count == u32_from_le(source@),
            count <= NUM_PAGES,
            i <= count,
            4 <= pos <= source@.len(),
            done.len() == i,
            forall|j: int| 0 <= j < i ==> (#[trigger] done[j]).len() <= u32::MAX,
            source@.subrange(4, pos as int) == encode_pages(done),
            awaited(source@) == lacking(source@, pos as int, (count - i) as nat),
        decreases count - i,
    {
        if source.len() - pos < 4 {
            proof {
                lemma_truncated(source@, done, pos as int);
            }
            return 4 - (source.len() - pos);
        }
        let len = word_from(source, pos) as usize;
        if source.len() - pos - 4 < len {
            proof {
                lemma_truncated(source@, done, pos as int);
            }
            return len - (source.len() - pos - 4);
        }
        proof {
            let bytes = source@.subrange(pos + 4, pos + 4 + len);
            let ghost before = done;
            done = done.push(bytes);
            assert(done.drop_last() =~= before);
            assert(source@.subrange(4, pos + 4 + len) =~= source@.subrange(4, pos as int)
                + source@.subrange(pos as int, pos + 4) + bytes);
            crate::bytes::lemma_u32_le_encode(source@.subrange(pos as int, pos + 4));
        }
        pos = pos + 4 + len;
        i += 1;
    }
    proof {
        assert(encode(done) =~= source@.subrange(0, 4) + source@.subrange(4, pos as int));
        crate::bytes::lemma_u32_le_encode(source@.subrange(0, 4));
        assert(encode(done).is_prefix_of(source@));
        assert(storable(done));
    }
    0
}

impl View for PageAllocator {
    type V = Seq<Seq<u8>>;

    /// The contents of the pages, in the order in which they were added.
    closed spec fn view(&self) -> Seq<Seq<u8>> {
        Seq::new(self.pages@.len(), |i: int| self.pages@[i].bytes@)
    }
}

impl PageAllocator {
    /// The machine address of the first byte of each page.
    pub closed spec fn ptrs(&self) -> Seq<usize> {
        Seq::new(self.pages@.len(), |i: int| self.pages@[i].ptr)
    }

    /// What every page store satisfies: its pages can be numbered by a packed
    /// address, each length fits a 32-bit length prefix, and no page runs
    /// past the end of the address space.
    pub open spec fn wf(&self) -> bool {
        &&& self@.len() <= NUM_PAGES
        &&& self.ptrs().len() == self@.len()
        &&& forall|i: int|
            0 <= i < self@.len() ==> {
                &&& (#[trigger] self@[i]).len() <= u32::MAX
                &&& self.ptrs()[i] + self@[i].len() <= usize::MAX
            }
    }

    /// The length of each page.
    pub open spec fn lens(&self) -> Seq<int> {
        lens_of(self@)
    }

    /// `addr` names a byte of a page of this store.
    pub open spec fn contains(&self, addr: u32) -> bool {
        &&& page_of(addr) < self@.len()
        &&& offset_of(addr) < self@[page_of(addr) as int].len()
    }

    /// The `len` bytes from `addr` on lie in one page of this store.
    pub open spec fn contains_range(&self, addr: u32, len: int) -> bool {
        in_range(self@, addr, len)
    }

    /// A store without pages.
    pub fn new() -> (heap: Self)
        ensures
            heap.wf(),
            heap@.len() == 0,
    {
        PageAllocator { pages: Vec::new() }
    }

    /// Number of pages in the store.
    pub fn page_count(&self) -> (n: usize)
        ensures
            n == self@.len(),
    {
        self.pages.len()
    }

    /// Tells whether the store can take one more page, of at least
    /// `min_size` bytes: the page can still be numbered, and its length
    /// fits a 32-bit length prefix.
    pub fn can_add_page(&self, min_size: usize) -> (ok: bool)
        ensures
            ok == (self@.len() < NUM_PAGES && min_size <= u32::MAX),
    {
        self.pages.len() < NUM_PAGES as usize && min_size <= u32::MAX as usize
    }

    /// Appends a page of `max(min_size, PAGE_SIZE)` bytes and returns its
    /// index. The pages already there are not touched.
    pub fn alloc_page(&mut self, min_size: usize, zeroed: bool) -> (index: u32)
        requires
            old(self).wf(),
            old(self)@.len() < NUM_PAGES,
            min_size <= u32::MAX,
        ensures
            final(self).wf(),
            index == old(self)@.len(),
            final(self)@.len() == old(self)@.len() + 1,
            final(self)@.subrange(0, index as int) == old(self)@,
            final(self).ptrs().subrange(0, index as int) == old(self).ptrs(),
            final(self)@[index as int].len() == if min_size > PAGE_SIZE {
                min_size
            } else {
                PAGE_SIZE
            },
            zeroed ==> forall|k: int|
                0 <= k < final(self)@[index as int].len() ==> final(self)@[index as int][k]
                    == 0u8,
    {
        let len = if min_size > PAGE_SIZE {
            min_size
        } else {
            PAGE_SIZE
        };
        let bytes = vec![0u8; len];
        let ptr = buffer_address(&bytes);
        let index = self.pages.len() as u32;
        self.pages.push(Page { ptr, bytes });
        assert(final(self)@.subrange(0, index as int) =~= old(self)@);
        assert(final(self).ptrs().subrange(0, index as int) =~= old(self).ptrs());
        assert forall|i: int| 0 <= i < self@.len() implies (#[trigger] self@[i]).len() <= u32::MAX
            && self.ptrs()[i] + self@[i].len() <= usize::MAX by {
            if i < index {
                assert(self@[i] == old(self)@[i]);
                assert(self.ptrs()[i] == old(self).ptrs()[i]);
            }
        }
        index
    }

    /// Appends a page of `max(min_size, PAGE_SIZE)` bytes, all of them zero
    /// if `zeroed` is set, and returns its index, wherever the store can
    /// take one more page of that size. Where it cannot, the store stays as
    /// it is and there is no index.
    pub fn try_alloc_page(&mut self, min_size: usize, zeroed: bool) -> (added: Option<u32>)
        requires
            old(self).wf(),
        ensures
            final(self).wf(),
            added is Some <==> old(self)@.len() < NUM_PAGES && min_size <= u32::MAX,
            match added {
                Some(index) => {
                    &&& index == old(self)@.len()
                    &&& final(self)@.len() == old(self)@.len() + 1
                    &&& final(self)@.subrange(0, index as int) == old(self)@
                    &&& final(self).ptrs().subrange(0, index as int) == old(self).ptrs()
                    &&& final(self)@[index as int].len() >= min_size
                    &&& final(self)@[index as int].len() >= PAGE_SIZE
                    &&& final(self)@[index as int].len() == if min_size > PAGE_SIZE {
                        min_size
                    } else {
                        PAGE_SIZE
                    }
                    &&& zeroed ==> forall|k: int|
                        0 <= k < final(self)@[index as int].len() ==> final(self)@[index as int][k]
                            == 0u8
                },
                None => final(self)@ == old(self)@ && final(self).ptrs() == old(self).ptrs(),
            },
    {
        if self.can_add_page(min_size) {
            Some(self.alloc_page(min_size, zeroed))
        } else {
            None
        }
    }

    /// Appends a page of `max(size, PAGE_SIZE)` bytes and returns the packed
    /// address of its first byte.
    pub fn allocate(&mut self, size: usize) -> (addr: u32)
        requires
            old(self).wf(),
            old(self)@.len() < NUM_PAGES,
            size <= u32::MAX,
        ensures
            final(self).wf(),
            addr == pack(old(self)@.len() as u32, 0),
            final(self)@.len() == old(self)@.len() + 1,
            final(self)@.subrange(0, old(self)@.len() as int) == old(self)@,
            final(self).ptrs().subrange(0, old(self)@.len() as int) == old(self).ptrs(),
            final(self)@.last().len() == if size > PAGE_SIZE { size } else { PAGE_SIZE },
    {
        let page_index = self.alloc_page(size, false);
        pack_addr(page_index, 0)
    }

    /// Appends a page of `max(size, PAGE_SIZE)` bytes, every one of them
    /// zero, and returns the packed address of its first byte.
    pub fn allocate_zeroed(&mut self, size: usize) -> (addr: u32)
        requires
            old(self).wf(),
            old(self)@.len() < NUM_PAGES,
            size <= u32::MAX,
        ensures
            final(self).wf(),
            addr == pack(old(self)@.len() as u32, 0),
            final(self)@.len() == old(self)@.len() + 1,
            final(self)@.subrange(0, old(self)@.len() as int) == old(self)@,
            final(self).ptrs().subrange(0, old(self)@.len() as int) == old(self).ptrs(),
            final(self)@.last().len() == if size > PAGE_SIZE { size } else { PAGE_SIZE },
            forall|k: int| 0 <= k < final(self)@.last().len() ==> final(self)@.last()[k] == 0u8,
    {
        let page_index = self.alloc_page(size, true);
        pack_addr(page_index, 0)
    }

    /// Gives back what `allocate` handed out. A page lives as long as the
    /// store does, so nothing happens.
    pub fn deallocate(&self, addr: u32, size: usize) {
    }

    /// Resolves a packed address to the machine address of the byte it names.
    pub fn get(&self, addr: u32) -> (ptr: usize)
        requires
            self.wf(),
            self.contains(addr),
        ensures
            ptr == self.ptrs()[page_of(addr) as int] + offset_of(addr),
    {
        let (page_index, offset) = unpack_addr(addr);
        assert(self@[page_index as int].len() == self.pages@[page_index as int].bytes@.len());
        self.pages[page_index as usize].ptr + offset as usize
    }

    /// The `len` bytes from `addr` on, for reading and writing.
    pub fn get_slice(&mut self, addr: u32, len: usize) -> (slice: &mut [u8])
        requires
            old(self).contains_range(addr, len as int),
        ensures
            slice@ == old(self)@[page_of(addr) as int].subrange(
                offset_of(addr) as int,
                offset_of(addr) + len,
            ),
            final(self)@ =~~= old(self)@.update(
                page_of(addr) as int,
                old(self)@[page_of(addr) as int].subrange(0, offset_of(addr) as int) + final(slice)@
                    + old(self)@[page_of(addr) as int].subrange(
                    offset_of(addr) + len,
                    old(self)@[page_of(addr) as int].len() as int,
                ),
            ),
            final(self).ptrs() =~= old(self).ptrs(),
    {
        let (page_index, offset) = unpack_addr(addr);
        assert(self@[page_index as int] == self.pages@[page_index as int].bytes@);
        let bytes = self.pages[page_index as usize].bytes.as_mut_slice();
        let (_, tail) = bytes.split_at_mut(offset as usize);
        let (slice, _) = tail.split_at_mut(len);
        slice
    }

    /// The `len` bytes from `addr` on, for reading.
    pub fn slice(&self, addr: u32, len: usize) -> (slice: &[u8])
        requires
            self.contains_range(addr, len as int),
        ensures
            slice@ == self@[page_of(addr) as int].subrange(
                offset_of(addr) as int,
                offset_of(addr) + len,
            ),
    {
        let (page_index, offset) = unpack_addr(addr);
        assert(self@[page_index as int] == self.pages@[page_index as int].bytes@);
        let bytes = self.pages[page_index as usize].bytes.as_slice();
        let _ = bytes.len();
        vstd::slice::slice_subrange(bytes, offset as usize, offset as usize + len)
    }

    /// The whole of page `index`, for reading.
    pub fn page(&self, index: u32) -> (page: &[u8])
        requires
            index < self@.len(),
        ensures
            page@ == self@[index as int],
    {
        self.pages[index as usize].bytes.as_slice()
    }

    /// The machine address of the first byte of page `index`.
    pub fn page_ptr(&self, index: u32) -> (ptr: usize)
        requires
            index < self@.len(),
        ensures
            ptr == self.ptrs()[index as int],
    {
        self.pages[index as usize].ptr
    }

    /// Number of bytes in page `index`.
    pub fn page_len(&self, index: u32) -> (len: usize)
        requires
            index < self@.len(),
        ensures
            len == self@[index as int].len(),
    {
        self.pages[index as usize].bytes.len()
    }

    /// Page `i` holds the byte at machine address `ptr`.
    pub open spec fn page_holds(&self, i: int, ptr: usize) -> bool {
        self.ptrs()[i] <= ptr < self.ptrs()[i] + self@[i].len()
    }

    /// Page `i` is the first page that holds the byte at machine address
    /// `ptr`.
    pub open spec fn first_holds(&self, i: int, ptr: usize) -> bool {
        &&& 0 <= i < self@.len()
        &&& self.page_holds(i, ptr)
        &&& forall|j: int| 0 <= j < i ==> !self.page_holds(j, ptr)
    }

    /// The packed address of the byte at machine address `ptr`: that of the
    /// first page that holds it, if any does.
    pub open spec fn addr_of(&self, ptr: usize) -> Option<u32> {
        if exists|i: int| self.first_holds(i, ptr) {
            let i = choose|i: int| self.first_holds(i, ptr);
            Some(pack(i as u32, (ptr - self.ptrs()[i]) as u32))
        } else {
            None
        }
    }

    /// Pages `i` and `j` share no byte of memory.
    pub open spec fn apart(&self, i: int, j: int) -> bool {
        ||| self@[i].len() == 0
        ||| self@[j].len() == 0
        ||| self.ptrs()[i] + self@[i].len() <= self.ptrs()[j]
        ||| self.ptrs()[j] + self@[j].len() <= self.ptrs()[i]
    }

    /// No two pages of the store share a byte of memory.
    pub open spec fn lie_apart(&self) -> bool {
        forall|i: int, j: int| 0 <= i < j < self@.len() ==> self.apart(i, j)
    }

    /// Tells whether no two pages of the store share a byte of memory, by
    /// holding each page against those before it. The store takes the place
    /// of each page from the buffer that holds it and has no other word for
    /// it, so this is looked at and not taken for granted.
    pub fn lies_apart(&self) -> (apart: bool)
        requires
            self.wf(),
        ensures
            apart == self.lie_apart(),
    {
        let n = self.pages.len();
        let mut j: usize = 0;
        while j < n
            invariant
                self.wf(),
                n == self.pages@.len(),
                self@.len() == n,
                j <= n,
                forall|a: int, b: int| 0 <= a < b < j ==> self.apart(a, b),
            decreases n - j,
        {
            let mut i: usize = 0;
            while i < j
                invariant
                    self.wf(),
                    n == self.pages@.len(),
                    self@.len() == n,
                    i <= j < n,
                    forall|a: int| 0 <= a < i ==> self.apart(a, j as int),
                decreases j - i,
            {
                let first = &self.pages[i];
                let second = &self.pages[j];
                assert(self@[i as int] == first.bytes@ && self.ptrs()[i as int] == first.ptr);
                assert(self@[j as int] == second.bytes@ && self.ptrs()[j as int] == second.ptr);
                if first.bytes.len() != 0 && second.bytes.len() != 0 && first.ptr
                    + first.bytes.len() > second.ptr && second.ptr + second.bytes.len()
                    > first.ptr {
                    assert(!self.apart(i as int, j as int));
                    return false;
                }
                i += 1;
            }
            j += 1;
        }
        true
    }

    /// Finds the packed address of the byte at machine address `ptr`, by
    /// going through the pages in their order.
    pub fn find_page(&self, ptr: usize) -> (found: Option<u32>)
        requires
            self.wf(),
        ensures
            found == self.addr_of(ptr),
            found is Some <==> exists|i: int| 0 <= i < self@.len() && self.page_holds(i, ptr),
    {
        let mut i: usize = 0;
        while i < self.pages.len()
            invariant
                self.wf(),
                i <= self.pages@.len(),
                self@.len() == self.pages@.len(),
                forall|j: int| 0 <= j < i ==> !self.page_holds(j, ptr),
            decreases self.pages@.len() - i,
        {
            let page = &self.pages[i];
            assert(self@[i as int] == page.bytes@);
            assert(self.ptrs()[i as int] == page.ptr);
            if ptr >= page.ptr && ptr - page.ptr < page.bytes.len() {
                proof {
                    assert(self.first_holds(i as int, ptr));
                    let k = choose|k: int| self.first_holds(k, ptr);
                    assert(k == i) by {
                        if k < i {
                            assert(!self.page_holds(k, ptr));
                        }
                        if i < k {
                            assert(!self.page_holds(i as int, ptr));
                        }
                    }
                }
                return Some(pack_addr(i as u32, (ptr - page.ptr) as u32));
            }
            i += 1;
        }
        proof {
            assert forall|k: int| !self.first_holds(k, ptr) by {
                if self.first_holds(k, ptr) {
                    assert(!self.page_holds(k, ptr));
                }
            }
        }
        None
    }

    /// Where no two pages share a byte of memory, a packed address that is
    /// resolved and then looked up again comes back: `find_page` undoes
    /// `get`.
    pub proof fn lemma_found_again(&self, addr: u32)
        requires
            self.wf(),
            self.lie_apart(),
            self.contains(addr),
        ensures
            self.addr_of((self.ptrs()[page_of(addr) as int] + offset_of(addr)) as usize) == Some(
                addr,
            ),
    {
        let page = page_of(addr) as int;
        let ptr = (self.ptrs()[page] + offset_of(addr)) as usize;
        crate::codec::lemma_pack_unpack(addr);
        assert(self@[page].len() <= u32::MAX);
        assert(self.page_holds(page, ptr));
        assert forall|j: int| 0 <= j < page implies !self.page_holds(j, ptr) by {
            assert(self@[j].len() <= u32::MAX);
            assert(self.apart(j, page));
        }
        assert(self.first_holds(page, ptr));
        let k = choose|k: int| self.first_holds(k, ptr);
        if k < page {
            assert(!self.page_holds(k, ptr));
        }
        if page < k {
            assert(!self.page_holds(page, ptr));
        }
    }

    /// Reads the 32-bit word stored in page `page` at offset `at`.
    pub fn load_u32(&self, page: u32, at: usize) -> (word: u32)
        requires
            page < self@.len(),
            at + 4 <= self@[page as int].len(),
        ensures
            word == word_at(self@, page as int, at as int),
    {
        let bytes = &self.pages[page as usize].bytes;
        assert(self@[page as int] == bytes@);
        let _ = bytes.len();
        let b = [bytes[at], bytes[at + 1], bytes[at + 2], bytes[at + 3]];
        assert(b@ =~= bytes@.subrange(at as int, at + 4));
        u32_from_le_bytes(b)
    }

    /// Stores the 32-bit word `word` in page `page` at offset `at`.
    pub fn store_u32(&mut self, page: u32, at: usize, word: u32)
        requires
            old(self).wf(),
            page < old(self)@.len(),
            at + 4 <= old(self)@[page as int].len(),
        ensures
            final(self).wf(),
            final(self)@ == written(old(self)@, page as int, at as int, u32_le(word)),
            final(self).ptrs() == old(self).ptrs(),
    {
        let b = u32_to_le_bytes(word);
        assert(self@[page as int] == self.pages@[page as int].bytes@);
        let _ = self.pages[page as usize].bytes.len();
        self.pages[page as usize].bytes[at] = b[0];
        self.pages[page as usize].bytes[at + 1] = b[1];
        self.pages[page as usize].bytes[at + 2] = b[2];
        self.pages[page as usize].bytes[at + 3] = b[3];
        assert(self@ =~~= written(old(self)@, page as int, at as int, u32_le(word)));
        assert(self.ptrs() =~= old(self).ptrs());
    }

    /// Appends the persisted form of the store to `dest`.
    pub fn write(&self, dest: &mut Vec<u8>)
        requires
            self.wf(),
        ensures
            final(dest)@ == old(dest)@ + encode(self@),
    {
        let count = self.pages.len();
        push_u32(dest, count as u32);
        let mut i: usize = 0;
        while i < count
            invariant
                self.wf(),
                count == self.pages@.len(),
                self@.len() == count,
                i <= count,
                dest@ == old(dest)@ + u32_le(count as u32) + encode_pages(self@.take(i as int)),
            decreases count - i,
        {
            let bytes = &self.pages[i].bytes;
            assert(self@[i as int] == bytes@);
            push_u32(dest, bytes.len() as u32);
            let ghost before = dest@;
            dest.extend_from_slice(bytes.as_slice());
            proof {
                assert(dest@ =~= before + bytes@);
                lemma_encode_pages_step(self@, i as int);
                assert(dest@ =~= old(dest)@ + u32_le(count as u32) + encode_pages(
                    self@.take(i + 1),
                ));
            }
            i += 1;
        }
        proof {
            assert(self@.take(count as int) =~= self@);
            assert(dest@ =~= old(dest)@ + encode(self@));
        }
    }

    /// Rebuilds a store from the persisted form at the start of `source`.
    /// The pages come back in their order, each with its length and its
    /// bytes, so that a packed address means after the reading what it meant
    /// before the writing. What follows the persisted form is not looked at.
    pub fn read(source: &[u8]) -> (loaded: Result<PageAllocator, ReadError>)
        ensures
            loaded is Ok <==> decodable(source@),
            match loaded {
                Ok(heap) => {
                    &&& heap.wf()
                    &&& encode(heap@).is_prefix_of(source@)
                    &&& forall|pages: Seq<Seq<u8>>|
                        storable(pages) && #[trigger] encode(pages).is_prefix_of(source@)
                            ==> heap@ == pages
                },
                Err(ReadError::TooManyPages) => source@.len() >= 4 && u32_from_le(source@)
                    > NUM_PAGES,
                Err(ReadError::UnexpectedEof) => source@.len() < 4 || u32_from_le(source@)
                    <= NUM_PAGES,
            },
    {
        if source.len() < 4 {
            proof {
                if decodable(source@) {
                    let pages = choose|pages: Seq<Seq<u8>>|
                        storable(pages) && #[trigger] encode(pages).is_prefix_of(source@);
                    lemma_decodable_count(source@, pages);
                }
            }
            return Err(ReadError::UnexpectedEof);
        }
        let count = word_from(source, 0);
        assert(source@.subrange(0, 4) =~= seq![source@[0], source@[1], source@[2], source@[3]]);
        assert(count == u32_from_le(source@));
        if count > NUM_PAGES {
            proof {
                if decodable(source@) {
                    let pages = choose|pages: Seq<Seq<u8>>|
                        storable(pages) && #[trigger] encode(pages).is_prefix_of(source@);
                    lemma_decodable_count(source@, pages);
                }
            }
            return Err(ReadError::TooManyPages);
        }
        let mut heap = PageAllocator { pages: Vec::new() };
        let mut pos: usize = 4;
        let mut i: u32 = 0;
        assert(source@.subrange(4, 4) =~= encode_pages(heap@));
        while i < count
            invariant
                count == u32_from_le(source@),
                count <= NUM_PAGES,
                i <= count,
                4 <= pos <= source@.len(),
                heap@.len() == i,
                heap.pages@.len() == i,
                heap.ptrs().len() == i,
                forall|j: int|
                    0 <= j < i ==> (#[trigger] heap@[j]).len() <= u32::MAX && heap.ptrs()[j]
                        + heap@[j].len() <= usize::MAX,
                source@.subrange(4, pos as int) == encode_pages(heap@),
            decreases count - i,
        {
            if source.len() - pos < 4 {
                proof {
                    lemma_truncated(source@, heap@, pos as int);
                }
                return Err(ReadError::UnexpectedEof);
            }
            let len = word_from(source, pos) as usize;
            if source.len() - pos - 4 < len {
                proof {
                    lemma_truncated(source@, heap@, pos as int);
                }
                return Err(ReadError::UnexpectedEof);
            }
            let bytes = vstd::slice::slice_to_vec(
                vstd::slice::slice_subrange(source, pos + 4, pos + 4 + len),
            );
            let ptr = buffer_address(&bytes);
            let ghost before = heap;
            heap.pages.push(Page { ptr, bytes });
            proof {
                assert(heap@.drop_last() =~= before@);
                assert(heap@.last() == bytes@);
                assert(source@.subrange(4, pos + 4 + len) =~= source@.subrange(4, pos as int)
                    + source@.subrange(pos as int, pos + 4) + bytes@);
                assert forall|j: int| 0 <= j < i + 1 implies (#[trigger] heap@[j]).len()
                    <= u32::MAX && heap.ptrs()[j] + heap@[j].len() <= usize::MAX by {
                    if j < i {
                        assert(heap@[j] == before@[j]);
                        assert(heap.ptrs()[j] == before.ptrs()[j]);
                    }
                }
                crate::bytes::lemma_u32_le_encode(source@.subrange(pos as int, pos + 4));
            }
            pos = pos + 4 + len;
            i += 1;
        }
        proof {
            assert(encode(heap@) =~= source@.subrange(0, 4) + source@.subrange(4, pos as int));
            crate::bytes::lemma_u32_le_encode(source@.subrange(0, 4));
            assert(encode(heap@).is_prefix_of(source@));
            assert(storable(heap@));
            assert forall|pages: Seq<Seq<u8>>|
                storable(pages) && #[trigger] encode(pages).is_prefix_of(source@) implies heap@
                == pages by {
                crate::persist::lemma_encode_unique(heap@, pages, source@);
            }
        }
        Ok(heap)
    }

    /// The whole of page `index`, for reading and writing.
    pub fn get_page(&mut self, index: u32) -> (page: &mut [u8])
        requires
            index < old(self)@.len(),
        ensures
            page@ == old(self)@[index as int],
            final(self)@ == old(self)@.update(index as int, final(page)@),
            final(self).ptrs() == old(self).ptrs(),
    {
        let p = &mut self.pages[index as usize];
        p.bytes.as_mut_slice()
    }
}

} // verus!
