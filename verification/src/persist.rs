//! The persisted form of a page store: the number of pages, then each page
//! as its length and its bytes, every number a little-endian 32-bit word.

use crate::bytes::{lemma_u32_le_decode, u32_from_le, u32_le};
use crate::codec::NUM_PAGES;
use vstd::prelude::*;

verus! {

/// The persisted form of one page.
pub open spec fn encode_page(bytes: Seq<u8>) -> Seq<u8> {
    u32_le(bytes.len() as u32) + bytes
}

/// The persisted forms of `pages`, one after the other.
pub open spec fn encode_pages(pages: Seq<Seq<u8>>) -> Seq<u8>
    decreases pages.len(),
{
    if pages.len() == 0 {
        Seq::empty()
    } else {
        encode_pages(pages.drop_last()) + encode_page(pages.last())
    }
}

/// The persisted form of a page store that holds `pages`.
pub open spec fn encode(pages: Seq<Seq<u8>>) -> Seq<u8> {
    u32_le(pages.len() as u32) + encode_pages(pages)
}

/// Pages that a store can hold and a stream can carry: no more than can be
/// numbered, none longer than a length prefix can say.
pub open spec fn storable(pages: Seq<Seq<u8>>) -> bool {
    &&& pages.len() <= NUM_PAGES
    &&& forall|i: int| 0 <= i < pages.len() ==> (#[trigger] pages[i]).len() <= u32::MAX
}

/// `stream` starts with the persisted form of some page store.
pub open spec fn decodable(stream: Seq<u8>) -> bool {
    exists|pages: Seq<Seq<u8>>| storable(pages) && #[trigger] encode(pages).is_prefix_of(stream)
}

/// Number of bytes that `stream` lacks up to the end of the next length or
/// body that is cut short, where `left` pages are persisted from `pos` on;
/// 0 where all of them are there.
pub open spec fn lacking(stream: Seq<u8>, pos: int, left: nat) -> int
    decreases left,
{
    if left == 0 {
        0
    } else if stream.len() - pos < 4 {
        4 - (stream.len() - pos)
    } else {
        let len = u32_from_le(stream.subrange(pos, pos + 4));
        if stream.len() - pos - 4 < len {
            len - (stream.len() - pos - 4)
        } else {
            lacking(stream, pos + 4 + len, (left - 1) as nat)
        }
    }
}

/// Number of bytes to read next behind `stream`, the start of a persisted
/// page store as far as it has come in: what the number of pages, the
/// length of a page or the bytes of a page still lack. It is 0 where the
/// store is there as a whole, and where the stream announces more pages
/// than a store can hold, so that nothing more is worth reading.
pub open spec fn awaited(stream: Seq<u8>) -> int {
    if stream.len() < 4 {
        4 - stream.len()
    } else if u32_from_le(stream) > NUM_PAGES {
        0
    } else {
        lacking(stream, 4, u32_from_le(stream) as nat)
    }
}

/// The persisted form of the first `k + 1` pages is that of the first `k`,
/// followed by that of page `k`.
pub proof fn lemma_encode_pages_step(pages: Seq<Seq<u8>>, k: int)
    requires
        0 <= k < pages.len(),
    ensures
        encode_pages(pages.take(k + 1)) == encode_pages(pages.take(k)) + encode_page(pages[k]),
{
    assert(pages.take(k + 1).drop_last() =~= pages.take(k));
}

/// The persisted form of the first `k` pages starts that of all of them.
pub proof fn lemma_encode_pages_prefix(pages: Seq<Seq<u8>>, k: int)
    requires
        0 <= k <= pages.len(),
    ensures
        encode_pages(pages.take(k)).is_prefix_of(encode_pages(pages)),
    decreases pages.len() - k,
{
    if k == pages.len() {
        assert(pages.take(k) =~= pages);
    } else {
        lemma_encode_pages_step(pages, k);
        lemma_encode_pages_prefix(pages, k + 1);
    }
}

/// Where two lists of pages have persisted forms that start the same
/// stream, the shorter list is the start of the longer.
pub proof fn lemma_encode_pages_unique(a: Seq<Seq<u8>>, b: Seq<Seq<u8>>, stream: Seq<u8>)
    requires
        a.len() <= b.len(),
        forall|i: int| 0 <= i < a.len() ==> (#[trigger] a[i]).len() <= u32::MAX,
        forall|i: int| 0 <= i < b.len() ==> (#[trigger] b[i]).len() <= u32::MAX,
        encode_pages(a).is_prefix_of(stream),
        encode_pages(b).is_prefix_of(stream),
    ensures
        a == b.take(a.len() as int),
    decreases a.len(),
{
    if a.len() == 0 {
        assert(a =~= b.take(0));
    } else {
        let k = a.len() - 1;
        let a0 = a.drop_last();
        assert(a0 =~= a.take(k));
        lemma_encode_pages_prefix(a, k);
        lemma_encode_pages_unique(a0, b, stream);
        assert(a0 == b.take(k));
        lemma_encode_pages_step(b, k);
        lemma_encode_pages_prefix(b, k + 1);
        let m = encode_pages(a0).len() as int;
        let ea = encode_pages(a);
        let eb = encode_pages(b.take(k + 1));
        assert(ea == encode_pages(a0) + encode_page(a.last()));
        assert(eb == encode_pages(a0) + encode_page(b[k]));
        assert(eb.is_prefix_of(stream));
        let la = a.last().len() as u32;
        let lb = b[k].len() as u32;
        assert(u32_le(la) =~= stream.subrange(m, m + 4)) by {
            assert forall|j: int| 0 <= j < 4 implies u32_le(la)[j] == stream[m + j] by {
                assert(ea[m + j] == stream[m + j]);
                assert(ea[m + j] == encode_page(a.last())[j]);
            }
        }
        assert(u32_le(lb) =~= stream.subrange(m, m + 4)) by {
            assert forall|j: int| 0 <= j < 4 implies u32_le(lb)[j] == stream[m + j] by {
                assert(eb[m + j] == stream[m + j]);
                assert(eb[m + j] == encode_page(b[k])[j]);
            }
        }
        lemma_u32_le_decode(la);
        lemma_u32_le_decode(lb);
        assert(a.last().len() == b[k].len());
        assert(a.last() =~= b[k]) by {
            assert forall|j: int| 0 <= j < a.last().len() implies a.last()[j] == b[k][j] by {
                assert(ea[m + 4 + j] == stream[m + 4 + j]);
                assert(eb[m + 4 + j] == stream[m + 4 + j]);
                assert(ea[m + 4 + j] == encode_page(a.last())[4 + j]);
                assert(eb[m + 4 + j] == encode_page(b[k])[4 + j]);
            }
        }
        assert(a =~= b.take(a.len() as int));
    }
}

/// A stream starts with the persisted form of at most one page store.
pub proof fn lemma_encode_unique(a: Seq<Seq<u8>>, b: Seq<Seq<u8>>, stream: Seq<u8>)
    requires
        storable(a),
        storable(b),
        encode(a).is_prefix_of(stream),
        encode(b).is_prefix_of(stream),
    ensures
        a == b,
{
    let na = a.len() as u32;
    let nb = b.len() as u32;
    assert(u32_le(na) =~= stream.subrange(0, 4)) by {
        assert forall|j: int| 0 <= j < 4 implies u32_le(na)[j] == stream[j] by {
            assert(encode(a)[j] == stream[j]);
        }
    }
    assert(u32_le(nb) =~= stream.subrange(0, 4)) by {
        assert forall|j: int| 0 <= j < 4 implies u32_le(nb)[j] == stream[j] by {
            assert(encode(b)[j] == stream[j]);
        }
    }
    lemma_u32_le_decode(na);
    lemma_u32_le_decode(nb);
    assert(a.len() == b.len());
    let rest = stream.skip(4);
    assert(encode_pages(a).is_prefix_of(rest)) by {
        assert(encode_pages(a) =~= rest.subrange(0, encode_pages(a).len() as int)) by {
            assert forall|j: int| 0 <= j < encode_pages(a).len() implies encode_pages(a)[j]
                == rest[j] by {
                assert(encode(a)[4 + j] == stream[4 + j]);
            }
        }
    }
    assert(encode_pages(b).is_prefix_of(rest)) by {
        assert(encode_pages(b) =~= rest.subrange(0, encode_pages(b).len() as int)) by {
            assert forall|j: int| 0 <= j < encode_pages(b).len() implies encode_pages(b)[j]
                == rest[j] by {
                assert(encode(b)[4 + j] == stream[4 + j]);
            }
        }
    }
    lemma_encode_pages_unique(a, b, rest);
    assert(b.take(a.len() as int) =~= b);
}

/// A decodable stream starts with the number of pages of the store it
/// holds, and that number is one a store can have.
pub proof fn lemma_decodable_count(stream: Seq<u8>, pages: Seq<Seq<u8>>)
    requires
        storable(pages),
        encode(pages).is_prefix_of(stream),
    ensures
        stream.len() >= 4,
        u32_from_le(stream) == pages.len(),
        encode_pages(pages).is_prefix_of(stream.skip(4)),
{
    let n = pages.len() as u32;
    lemma_u32_le_decode(n);
    assert forall|j: int| 0 <= j < 4 implies u32_le(n)[j] == stream[j] by {
        assert(encode(pages)[j] == stream[j]);
    }
    let rest = stream.skip(4);
    assert(encode_pages(pages) =~= rest.subrange(0, encode_pages(pages).len() as int)) by {
        assert forall|j: int| 0 <= j < encode_pages(pages).len() implies encode_pages(pages)[j]
            == rest[j] by {
            assert(encode(pages)[4 + j] == stream[4 + j]);
        }
    }
}

/// A stream that ends before the pages it announces does not hold a page
/// store: after the first pages `done`, which end at `pos`, either the next
/// length is cut short or the bytes it announces are.
pub proof fn lemma_truncated(stream: Seq<u8>, done: Seq<Seq<u8>>, pos: int)
    requires
        4 <= pos <= stream.len(),
        done.len() < u32_from_le(stream),
        forall|i: int| 0 <= i < done.len() ==> (#[trigger] done[i]).len() <= u32::MAX,
        stream.subrange(4, pos) == encode_pages(done),
        stream.len() - pos < 4 || stream.len() - pos - 4 < u32_from_le(stream.subrange(pos, pos + 4)),
    ensures
        !decodable(stream),
{
    if decodable(stream) {
        let pages = choose|pages: Seq<Seq<u8>>|
            storable(pages) && #[trigger] encode(pages).is_prefix_of(stream);
        lemma_decodable_count(stream, pages);
        let rest = stream.skip(4);
        let k = done.len() as int;
        assert(encode_pages(done).is_prefix_of(rest)) by {
            assert(encode_pages(done) =~= rest.subrange(0, pos - 4));
        }
        lemma_encode_pages_unique(done, pages, rest);
        lemma_encode_pages_step(pages, k);
        lemma_encode_pages_prefix(pages, k + 1);
        let upto = encode_pages(pages.take(k + 1));
        assert(upto == encode_pages(done) + encode_page(pages[k]));
        assert(upto.is_prefix_of(rest));
        assert(stream.len() - pos >= 4 + pages[k].len());
        let len = pages[k].len() as u32;
        lemma_u32_le_decode(len);
        assert(u32_le(len) =~= stream.subrange(pos, pos + 4)) by {
            assert forall|j: int| 0 <= j < 4 implies u32_le(len)[j] == stream[pos + j] by {
                assert(upto[pos - 4 + j] == rest[pos - 4 + j]);
                assert(upto[pos - 4 + j] == encode_page(pages[k])[j]);
            }
        }
    }
}

/// What was written can be read back: a stream that starts with the
/// persisted form of `pages` is decodable, and `pages` is the only page
/// store whose persisted form starts it.
pub proof fn lemma_round_trip(pages: Seq<Seq<u8>>, tail: Seq<u8>)
    requires
        storable(pages),
    ensures
        decodable(encode(pages) + tail),
        forall|other: Seq<Seq<u8>>|
            storable(other) && #[trigger] encode(other).is_prefix_of(encode(pages) + tail)
                ==> other == pages,
{
    let stream = encode(pages) + tail;
    assert(encode(pages).is_prefix_of(stream)) by {
        assert(encode(pages) =~= stream.subrange(0, encode(pages).len() as int));
    }
    assert forall|other: Seq<Seq<u8>>|
        storable(other) && #[trigger] encode(other).is_prefix_of(stream) implies other
        == pages by {
        lemma_encode_unique(other, pages, stream);
    }
}

} // verus!
