use vstd::prelude::*;

verus! {

/// Size in bytes of every page buffer the cache manages.
pub const PAGE_SIZE: usize = 4096;

/// Offset of the page-type tag, the first field of every page header.
pub const TYPE_TAG_OFFSET: usize = 0;
/// Offset of the low byte of the header's key count.
pub const KEY_COUNT_LO_OFFSET: usize = 1;
/// Offset of the high byte of the header's key count.
pub const KEY_COUNT_HI_OFFSET: usize = 2;
/// Bytes of the header that this layer itself interprets; everything past
/// this offset is owned by the B-tree algorithm layer and opaque here.
pub const HEADER_SIZE: usize = 3;

/// Structural role a page plays.  A page's stored tag must match the type
/// requested by whoever binds it; a mismatch is always a hard error.
#[derive(Clone, Copy, PartialEq, Eq, Structural, Debug)]
pub enum PageType {
    /// Engine superblock.
    Superblock,
    /// B-tree internal node.
    Internal,
    /// B-tree leaf node.
    Leaf,
    /// Free-list page.
    FreeList,
}

/// Access mode a pin grants.  Many shared-read pins may coexist on one page;
/// a write pin is exclusive, and only it permits mutation through a header
/// view.
#[derive(Clone, Copy, PartialEq, Eq, Structural, Debug)]
pub enum AccessMode {
    /// Shared read access.
    Read,
    /// Exclusive write access.
    Write,
}

/// The on-page tag byte encoding a page type.  Tag `0` is reserved for
/// unformatted bytes so that a zeroed page never decodes to a valid type.
pub open spec fn type_tag(t: PageType) -> u8 {
    match t {
        PageType::Superblock => 1,
        PageType::Internal => 2,
        PageType::Leaf => 3,
        PageType::FreeList => 4,
    }
}

/// Decoding of an on-page tag byte; `None` for any byte that is not a
/// valid tag.
pub open spec fn type_from_tag(tag: u8) -> Option<PageType> {
    if tag == 1 {
        Some(PageType::Superblock)
    } else if tag == 2 {
        Some(PageType::Internal)
    } else if tag == 3 {
        Some(PageType::Leaf)
    } else if tag == 4 {
        Some(PageType::FreeList)
    } else {
        None
    }
}

/// The page type a buffer's leading tag byte claims, if any.
pub open spec fn stored_type(b: Seq<u8>) -> Option<PageType> {
    type_from_tag(b[TYPE_TAG_OFFSET as int])
}

/// The header's key count, read little-endian from its two bytes.
pub open spec fn stored_key_count(b: Seq<u8>) -> u16 {
    (b[KEY_COUNT_LO_OFFSET as int] + 256 * b[KEY_COUNT_HI_OFFSET as int]) as u16
}

/// A buffer with its header key count replaced by `n`, all other bytes kept.
pub open spec fn with_key_count(b: Seq<u8>, n: u16) -> Seq<u8> {
    b.update(KEY_COUNT_LO_OFFSET as int, (n % 256) as u8).update(
        KEY_COUNT_HI_OFFSET as int,
        (n / 256) as u8,
    )
}

/// A freshly formatted page: the type tag at the start, every other byte
/// zero.
pub open spec fn fresh_page(t: PageType) -> Seq<u8> {
    Seq::new(PAGE_SIZE as nat, |i: int| if i == TYPE_TAG_OFFSET { type_tag(t) } else { 0u8 })
}

/// Encodes a page type as its on-page tag byte.
pub fn encode_type(t: PageType) -> (tag: u8)
    ensures
        tag == type_tag(t),
{
    match t {
        PageType::Superblock => 1,
        PageType::Internal => 2,
        PageType::Leaf => 3,
        PageType::FreeList => 4,
    }
}

/// Decodes an on-page tag byte back to a page type, if it is a valid tag.
pub fn decode_type(tag: u8) -> (r: Option<PageType>)
    ensures
        r == type_from_tag(tag),
{
    if tag == 1 {
        Some(PageType::Superblock)
    } else if tag == 2 {
        Some(PageType::Internal)
    } else if tag == 3 {
        Some(PageType::Leaf)
    } else if tag == 4 {
        Some(PageType::FreeList)
    } else {
        None
    }
}

/// Tag encoding is injective and never collides with the unformatted byte.
pub proof fn lemma_type_tag_round_trip(t: PageType)
    ensures
        type_from_tag(type_tag(t)) == Some(t),
        type_tag(t) != 0,
{
}

/// Writing a key count into a header stores exactly that count, leaves the
/// type tag and everything outside the two count bytes untouched.
pub proof fn lemma_with_key_count(b: Seq<u8>, n: u16)
    requires
        b.len() >= HEADER_SIZE,
    ensures
        with_key_count(b, n).len() == b.len(),
        stored_key_count(with_key_count(b, n)) == n,
        stored_type(with_key_count(b, n)) == stored_type(b),
        forall|i: int|
            0 <= i < b.len() && i != KEY_COUNT_LO_OFFSET && i != KEY_COUNT_HI_OFFSET
                ==> with_key_count(b, n)[i] == b[i],
{
    assert(n % 256 + 256 * (n / 256) == n) by (nonlinear_arith);
}

} // verus!
