//! Packed addresses: a page index and a byte offset in one `u32`.

use vstd::prelude::*;

verus! {

/// Number of bytes in a standard page.
pub const PAGE_SIZE: usize = 65536;

/// Largest value a packed address can take.
pub const PTR_MAX: u32 = 0xffff_ffff;

/// Number of pages that a packed address can tell apart.
pub const NUM_PAGES: u32 = PTR_MAX / 65536 + 1;

/// Number of bits of a packed address that hold the page index.
pub const PAGE_INDEX_SIZE: u32 = 16;

/// Position of the lowest bit of the page index.
pub const PAGE_INDEX_SHIFT: u32 = 32 - PAGE_INDEX_SIZE;

/// The bits of a packed address that hold the page index.
pub const PAGE_INDEX_MASK: u32 = 0xffff_0000;

/// The bits of a packed address that hold the offset.
pub const PAGE_OFFSET_MASK: u32 = 0x0000_ffff;

/// The address that stands for "no address yet".
pub const NO_ADDR: u32 = 1;

/// Page index held in `addr`.
pub open spec fn page_of(addr: u32) -> u32 {
    addr / 65536
}

/// Byte offset held in `addr`.
pub open spec fn offset_of(addr: u32) -> u32 {
    addr % 65536
}

/// The packed address of `offset` in page `page`. Bits of either argument
/// that do not fit their field are dropped.
pub open spec fn pack(page: u32, offset: u32) -> u32 {
    ((page % 65536) * 65536 + offset % 65536) as u32
}

/// The constants describe one layout: the page size is a power of two, the
/// index field is just wide enough to number every page, and the two masks
/// split the 32 bits between index and offset.
pub proof fn lemma_layout()
    ensures
        NUM_PAGES == 65536,
        NUM_PAGES as int * PAGE_SIZE as int == PTR_MAX as int + 1,
        vstd::arithmetic::power2::pow2(PAGE_INDEX_SIZE as nat) == NUM_PAGES as int,
        vstd::arithmetic::power2::pow2(PAGE_INDEX_SHIFT as nat) == PAGE_SIZE as int,
        PAGE_INDEX_MASK == PTR_MAX - (PAGE_SIZE - 1),
        PAGE_OFFSET_MASK == PAGE_SIZE - 1,
        PAGE_INDEX_MASK | PAGE_OFFSET_MASK == PTR_MAX,
        PAGE_INDEX_MASK & PAGE_OFFSET_MASK == 0,
{
    vstd::arithmetic::power2::lemma2_to64();
    assert(0xffff_0000u32 | 0x0000_ffffu32 == 0xffff_ffffu32) by (bit_vector);
    assert(0xffff_0000u32 & 0x0000_ffffu32 == 0u32) by (bit_vector);
}

/// Splits a packed address into its page index and its offset.
pub fn unpack_addr(addr: u32) -> (parts: (u32, u32))
    ensures
        parts.0 == page_of(addr),
        parts.1 == offset_of(addr),
{
    let page_index = (addr & PAGE_INDEX_MASK) >> PAGE_INDEX_SHIFT;
    let offset = addr & PAGE_OFFSET_MASK;
    assert((addr & 0xffff_0000u32) >> 16u32 == addr / 65536) by (bit_vector);
    assert(addr & 0x0000_ffffu32 == addr % 65536) by (bit_vector);
    (page_index, offset)
}

/// Packs a page index and an offset into one address. No bound is checked:
/// what does not fit a field is masked away.
pub fn pack_addr(page: u32, offset: u32) -> (addr: u32)
    ensures
        addr == pack(page, offset),
{
    assert((page << 16u32) | (offset & 0x0000_ffffu32) == ((page % 65536) * 65536 + offset
        % 65536) as u32) by (bit_vector);
    (page << PAGE_INDEX_SHIFT) | (offset & PAGE_OFFSET_MASK)
}

/// Unpacking what was packed gives back the page index and the offset, as
/// long as each fits its field.
pub proof fn lemma_unpack_pack(page: u32, offset: u32)
    requires
        page < NUM_PAGES,
        offset < PAGE_SIZE,
    ensures
        page_of(pack(page, offset)) == page,
        offset_of(pack(page, offset)) == offset,
        pack(page, offset) == page * 65536 + offset,
{
    let addr = pack(page, offset);
    assert(addr / 65536 == page && addr % 65536 == offset && addr == page * 65536 + offset)
        by (bit_vector)
        requires
            page < 65536,
            offset < 65536,
            addr == ((page % 65536) * 65536 + offset % 65536) as u32,
    ;
}

/// Packing the two parts of an address gives back the address.
pub proof fn lemma_pack_unpack(addr: u32)
    ensures
        pack(page_of(addr), offset_of(addr)) == addr,
        page_of(addr) < NUM_PAGES,
        offset_of(addr) < PAGE_SIZE,
{
    assert(((addr / 65536 % 65536) * 65536 + addr % 65536 % 65536) as u32 == addr && addr / 65536
        < 65536 && addr % 65536 < 65536) by (bit_vector);
}

/// An address that moves on by less than what is left of its page stays in
/// the page: its page index is the same, and its offset is larger by what
/// it moved.
pub proof fn lemma_move_in_page(addr: u32, by: u32)
    requires
        offset_of(addr) + by < PAGE_SIZE,
    ensures
        addr + by <= PTR_MAX,
        page_of((addr + by) as u32) == page_of(addr),
        offset_of((addr + by) as u32) == offset_of(addr) + by,
{
    assert(addr + by <= 0xffff_ffffu32 && (addr + by) as u32 / 65536 == addr / 65536 && (addr
        + by) as u32 % 65536 == addr % 65536 + by) by (bit_vector)
        requires
            addr % 65536 + by < 65536,
    ;
}

} // verus!
