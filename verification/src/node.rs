use crate::cache::{
    acquire_post, dirty_model, load_model, page_wf, pin_model, ref_count_of, unpin_model,
    write_model, Cache, PageModel,
};
use crate::errors::CacheError;
use crate::page::{
    lemma_with_key_count, stored_key_count, stored_type, with_key_count, AccessMode, PageType,
    HEADER_SIZE, KEY_COUNT_HI_OFFSET, KEY_COUNT_LO_OFFSET, PAGE_SIZE,
};
use vstd::prelude::*;

verus! {

/// Caller-owned identifier of a logical B-tree node: a disk address plus
/// the page type expected at that address.  It owns no page memory; only a
/// successful [`bind`] connects it to a resident page.
#[derive(Clone, Copy, PartialEq, Eq, Structural, Debug)]
pub struct NodeHandle {
    /// Disk address of the node's page; zero is the reserved unbound
    /// sentinel and is never dereferenced.
    pub addr: u64,
    /// Structural type the node's page must be stored with.
    pub ptype: PageType,
}

impl NodeHandle {
    /// A handle for the node stored at `addr` as a page of type `ptype`.
    pub fn new(addr: u64, ptype: PageType) -> (h: Self)
        ensures
            h.addr == addr,
            h.ptype == ptype,
    {
        NodeHandle { addr, ptype }
    }
}

/// The live pairing of a node handle with an acquired page: one pin on the
/// resident page, together with the typed header view over the page's
/// leading bytes.  Only a successful [`bind`] constructs a value of this
/// type, and [`unbind`] consumes it, so the header view cannot be used
/// outside the window between the two.  The view aliases the page buffer
/// itself: reads and writes go to the cache's bytes, never to a copy.
pub struct BoundNode {
    addr: u64,
    ptype: PageType,
    mode: AccessMode,
}

impl BoundNode {
    /// The bound disk address.
    pub closed spec fn addr(&self) -> u64 {
        self.addr
    }

    /// The page type the binding was checked against.
    pub closed spec fn ptype(&self) -> PageType {
        self.ptype
    }

    /// The access mode the pin was granted with.
    pub closed spec fn mode(&self) -> AccessMode {
        self.mode
    }

    /// The bound disk address.
    pub fn address(&self) -> (a: u64)
        ensures
            a == self.addr(),
    {
        self.addr
    }

    /// The page type the binding was checked against.
    pub fn page_type(&self) -> (t: PageType)
        ensures
            t == self.ptype(),
    {
        self.ptype
    }

    /// The access mode the pin was granted with.
    pub fn access_mode(&self) -> (m: AccessMode)
        ensures
            m == self.mode(),
    {
        self.mode
    }
}

/// The outcome of a bind, stripped of the bound node, for stating the
/// cache transition it performed.
pub open spec fn bind_outcome(r: Result<BoundNode, CacheError>) -> Result<(), CacheError> {
    match r {
        Ok(_) => Ok(()),
        Err(e) => Err(e),
    }
}

/// The resident map after a key count is written through a bound header
/// view: the page's two count bytes change and the page becomes dirty.
pub open spec fn set_key_count_model(m: Map<u64, PageModel>, a: u64, n: u16) -> Map<
    u64,
    PageModel,
> {
    m.insert(a, PageModel { bytes: with_key_count(m[a].bytes, n), dirty: true, ..m[a] })
}

/// Connects a node handle to a live page: acquires the handle's address
/// from the cache with the handle's page type, pinning the page, and
/// returns the bound node carrying the header view.  The zero address is
/// rejected at entry with `InvalidAddress` before anything is dereferenced;
/// every cache failure is propagated and leaves the handle unbound.
pub fn bind<C: Cache>(node: &NodeHandle, cache: &mut C, mode: AccessMode) -> (r: Result<
    BoundNode,
    CacheError,
>)
    requires
        old(cache).inv(),
    ensures
        final(cache).inv(),
        final(cache).capacity() == old(cache).capacity(),
        acquire_post(
            old(cache).resident(),
            old(cache).store(),
            old(cache).capacity(),
            final(cache).resident(),
            final(cache).store(),
            node.addr,
            node.ptype,
            mode,
            bind_outcome(r),
        ),
        r matches Ok(b) ==> {
            &&& b.addr() == node.addr
            &&& b.ptype() == node.ptype
            &&& b.mode() == mode
            &&& final(cache).resident().dom().contains(node.addr)
            &&& final(cache).resident()[node.addr].ptype == node.ptype
            &&& final(cache).resident()[node.addr].pins >= 1
            &&& final(cache).resident()[node.addr].mode == mode
        },
{
    let ghost m0 = cache.resident();
    if node.addr == 0 {
        proof {
            cache.lemma_inv();
        }
        return Err(CacheError::InvalidAddress);
    }
    match cache.acquire(node.addr, node.ptype, mode) {
        Ok(()) => {
            proof {
                if m0.dom().contains(node.addr) {
                    // A write grant on a resident page is only compatible
                    // when the page was unpinned, so the granted mode is
                    // the requested one.
                    assert(cache.resident() == pin_model(m0, node.addr, mode));
                    if m0[node.addr].pins != 0 {
                        assert(m0[node.addr].mode is Read && mode is Read);
                    }
                }
            }
            Ok(BoundNode { addr: node.addr, ptype: node.ptype, mode })
        },
        Err(e) => Err(e),
    }
}

/// Releases a binding: drops the pin the bind acquired and consumes the
/// bound node, so its header view can never be used again.  Infallible
/// from the caller's perspective; releasing an unpinned page is a caller
/// bug excluded by precondition.
pub fn unbind<C: Cache>(node: BoundNode, cache: &mut C)
    requires
        old(cache).inv(),
        old(cache).resident().dom().contains(node.addr()),
        old(cache).resident()[node.addr()].pins >= 1,
    ensures
        final(cache).inv(),
        final(cache).capacity() == old(cache).capacity(),
        final(cache).resident() == unpin_model(old(cache).resident(), node.addr()),
        final(cache).store() == old(cache).store(),
{
    let addr = node.address();
    cache.release(addr);
}

impl BoundNode {
    /// Reads the key count field of the header view, little-endian from
    /// the page's own bytes.
    pub fn key_count<C: Cache>(&self, cache: &C) -> (n: u16)
        requires
            cache.inv(),
            cache.resident().dom().contains(self.addr()),
        ensures
            n == stored_key_count(cache.resident()[self.addr()].bytes),
    {
        proof {
            cache.lemma_inv();
        }
        let lo = cache.read_byte(self.addr, KEY_COUNT_LO_OFFSET);
        let hi = cache.read_byte(self.addr, KEY_COUNT_HI_OFFSET);
        lo as u16 + (hi as u16) * 256
    }

    /// Writes the key count field through the header view.  The write goes
    /// straight to the page's bytes and marks the page dirty; it requires
    /// the exclusive write pin the binding was granted.
    pub fn set_key_count<C: Cache>(&self, cache: &mut C, n: u16)
        requires
            old(cache).inv(),
            old(cache).resident().dom().contains(self.addr()),
            old(cache).resident()[self.addr()].pins >= 1,
            old(cache).resident()[self.addr()].mode is Write,
        ensures
            final(cache).inv(),
            final(cache).capacity() == old(cache).capacity(),
            final(cache).store() == old(cache).store(),
            final(cache).resident() == set_key_count_model(
                old(cache).resident(),
                self.addr(),
                n,
            ),
    {
        let ghost m0 = cache.resident();
        let lo = (n % 256) as u8;
        let hi = (n / 256) as u8;
        cache.write_byte(self.addr, KEY_COUNT_LO_OFFSET, lo);
        cache.write_byte(self.addr, KEY_COUNT_HI_OFFSET, hi);
        proof {
            let a = self.addr();
            let m1 = write_model(m0, a, KEY_COUNT_LO_OFFSET as int, lo);
            let m2 = write_model(m1, a, KEY_COUNT_HI_OFFSET as int, hi);
            assert(m2 =~= set_key_count_model(m0, a, n)) by {
                assert(m1[a].bytes == m0[a].bytes.update(KEY_COUNT_LO_OFFSET as int, lo));
                assert(m2[a].bytes == with_key_count(m0[a].bytes, n));
            }
        }
    }

    /// Reads one byte of the bound page's buffer, header or payload; the
    /// layout past the header is owned by the B-tree algorithm layer.
    pub fn read_byte<C: Cache>(&self, cache: &C, i: usize) -> (v: u8)
        requires
            cache.inv(),
            cache.resident().dom().contains(self.addr()),
            i < PAGE_SIZE,
        ensures
            v == cache.resident()[self.addr()].bytes[i as int],
    {
        cache.read_byte(self.addr, i)
    }

    /// Writes one byte of the bound page's buffer through the view and
    /// marks the page dirty.  The type tag byte is never writable here;
    /// only loading and formatting set it.
    pub fn write_byte<C: Cache>(&self, cache: &mut C, i: usize, v: u8)
        requires
            old(cache).inv(),
            old(cache).resident().dom().contains(self.addr()),
            old(cache).resident()[self.addr()].pins >= 1,
            old(cache).resident()[self.addr()].mode is Write,
            1 <= i < PAGE_SIZE,
        ensures
            final(cache).inv(),
            final(cache).capacity() == old(cache).capacity(),
            final(cache).store() == old(cache).store(),
            final(cache).resident() == write_model(
                old(cache).resident(),
                self.addr(),
                i as int,
                v,
            ),
    {
        cache.write_byte(self.addr, i, v)
    }
}

/// Law: binding a resident page and immediately unbinding it leaves the
/// cache's reference count for that address exactly where it was.
pub proof fn lemma_bind_unbind_ref_count_resident(
    m: Map<u64, PageModel>,
    a: u64,
    mode: AccessMode,
)
    requires
        m.dom().contains(a),
    ensures
        ref_count_of(unpin_model(pin_model(m, a, mode), a), a) == ref_count_of(m, a),
{
}

/// Law: binding an absent page (loading it with its first pin) and
/// immediately unbinding it leaves the reference count unchanged as well —
/// zero before the pair, zero after it.
pub proof fn lemma_bind_unbind_ref_count_loaded(
    m: Map<u64, PageModel>,
    a: u64,
    t: PageType,
    bytes: Seq<u8>,
    mode: AccessMode,
)
    requires
        !m.dom().contains(a),
    ensures
        ref_count_of(unpin_model(load_model(m, a, t, bytes, mode), a), a) == ref_count_of(m, a),
        ref_count_of(m, a) == 0,
{
}

/// Law: the cache never holds more resident pages than its configured
/// capacity.
pub proof fn lemma_resident_within_capacity<C: Cache>(cache: &C)
    requires
        cache.inv(),
    ensures
        cache.resident().dom().finite(),
        cache.resident().dom().len() <= cache.capacity(),
{
    cache.lemma_inv();
}

/// Law: a successful acquire never evicts a pinned page — every page that
/// was pinned before the call is still resident after it, untouched unless
/// it is the acquired address itself.
pub proof fn lemma_no_pinned_eviction(
    m0: Map<u64, PageModel>,
    s0: Map<u64, Seq<u8>>,
    cap: nat,
    m1: Map<u64, PageModel>,
    s1: Map<u64, Seq<u8>>,
    addr: u64,
    ptype: PageType,
    mode: AccessMode,
    b: u64,
)
    requires
        acquire_post(m0, s0, cap, m1, s1, addr, ptype, mode, Ok(())),
        m0.dom().contains(b),
        m0[b].pins > 0,
    ensures
        m1.dom().contains(b),
        b != addr ==> m1[b] == m0[b],
{
}

/// Law: marking a page dirty is idempotent on the cache model.
pub proof fn lemma_mark_dirty_idempotent(m: Map<u64, PageModel>, a: u64)
    requires
        m.dom().contains(a),
    ensures
        dirty_model(dirty_model(m, a), a) == dirty_model(m, a),
{
    assert(dirty_model(dirty_model(m, a), a) =~= dirty_model(m, a));
}

/// Law: a value written through a bound header view survives unbinding,
/// eviction with write-back (or an explicit flush), and a fresh bind of
/// the same address: the page reloaded from storage stores exactly the
/// written key count, under the same page type.
pub proof fn lemma_header_write_round_trip(
    m: Map<u64, PageModel>,
    s: Map<u64, Seq<u8>>,
    a: u64,
    n: u16,
    mode2: AccessMode,
)
    requires
        m.dom().contains(a),
        page_wf(m[a]),
    ensures
        ({
            // Write through the view, flush the page (explicitly or as the
            // write-back an eviction performs), evict it, then reload it.
            let written = set_key_count_model(m, a, n);
            let flushed = s.insert(a, written[a].bytes);
            let evicted = written.remove(a);
            let reloaded = load_model(evicted, a, m[a].ptype, flushed[a], mode2);
            &&& stored_key_count(reloaded[a].bytes) == n
            &&& stored_type(reloaded[a].bytes) == Some(m[a].ptype)
        }),
{
    assert(PAGE_SIZE >= HEADER_SIZE);
    lemma_with_key_count(m[a].bytes, n);
}

} // verus!
