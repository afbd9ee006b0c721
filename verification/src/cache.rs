use crate::errors::CacheError;
use crate::page::{stored_type, AccessMode, PageType, PAGE_SIZE};
use vstd::prelude::*;

verus! {

/// Mathematical model of one resident page: its stored type, the full
/// buffer contents, the number of live pins, the dirty flag, and the access
/// mode the current pins were granted with (meaningful while pinned).
pub struct PageModel {
    /// Structural type the page was loaded or formatted with.
    pub ptype: PageType,
    /// The page buffer, always `PAGE_SIZE` bytes.
    pub bytes: Seq<u8>,
    /// Number of live pins; the page may be evicted only at zero.
    pub pins: nat,
    /// Whether the buffer was written since it was last flushed or loaded.
    pub dirty: bool,
    /// Mode of the pins currently granted.
    pub mode: AccessMode,
}

/// Well-formedness of a resident page: full-size buffer, a tag byte that
/// decodes to the stored type, and write pins exclusive.
pub open spec fn page_wf(p: PageModel) -> bool {
    &&& p.bytes.len() == PAGE_SIZE
    &&& stored_type(p.bytes) == Some(p.ptype)
    &&& (p.mode is Write ==> p.pins <= 1)
}

/// A fresh grant on an already-resident page is compatible when the page is
/// unpinned, or when both the held and the requested mode are shared reads
/// (and the pin count can still grow).
pub open spec fn grant_compatible(m: Map<u64, PageModel>, a: u64, mode: AccessMode) -> bool {
    ||| m[a].pins == 0
    ||| (m[a].mode is Read && mode is Read && m[a].pins < u64::MAX)
}

/// The resident map after granting one more pin on `a`; a grant on an
/// unpinned page also installs the newly requested mode.
pub open spec fn pin_model(m: Map<u64, PageModel>, a: u64, mode: AccessMode) -> Map<
    u64,
    PageModel,
> {
    m.insert(
        a,
        PageModel {
            pins: m[a].pins + 1,
            mode: if m[a].pins == 0 {
                mode
            } else {
                m[a].mode
            },
            ..m[a]
        },
    )
}

/// The resident map after releasing one pin on `a`.  The page stays
/// resident (lazy reclamation); at zero pins it becomes evictable.
pub open spec fn unpin_model(m: Map<u64, PageModel>, a: u64) -> Map<u64, PageModel> {
    m.insert(a, PageModel { pins: (m[a].pins - 1) as nat, ..m[a] })
}

/// The resident map after marking `a` dirty.
pub open spec fn dirty_model(m: Map<u64, PageModel>, a: u64) -> Map<u64, PageModel> {
    m.insert(a, PageModel { dirty: true, ..m[a] })
}

/// The resident map after clearing the dirty flag of `a`.
pub open spec fn clean_model(m: Map<u64, PageModel>, a: u64) -> Map<u64, PageModel> {
    m.insert(a, PageModel { dirty: false, ..m[a] })
}

/// The resident map after writing byte `v` at offset `i` of `a`'s buffer
/// through a header view; any such write marks the page dirty.
pub open spec fn write_model(m: Map<u64, PageModel>, a: u64, i: int, v: u8) -> Map<
    u64,
    PageModel,
> {
    m.insert(a, PageModel { bytes: m[a].bytes.update(i, v), dirty: true, ..m[a] })
}

/// A page freshly loaded from storage bytes: clean, pinned once, granted
/// `mode`.
pub open spec fn loaded_page(t: PageType, bytes: Seq<u8>, mode: AccessMode) -> PageModel {
    PageModel { ptype: t, bytes, pins: 1, dirty: false, mode }
}

/// The resident map after loading `a` from storage.
pub open spec fn load_model(
    m: Map<u64, PageModel>,
    a: u64,
    t: PageType,
    bytes: Seq<u8>,
    mode: AccessMode,
) -> Map<u64, PageModel> {
    m.insert(a, loaded_page(t, bytes, mode))
}

/// The reference count the cache reports for an address: the pin count when
/// resident, zero otherwise.
pub open spec fn ref_count_of(m: Map<u64, PageModel>, a: u64) -> nat {
    if m.dom().contains(a) {
        m[a].pins
    } else {
        0
    }
}

/// Relation between resident maps across one load of `a`: every other
/// surviving page is untouched, and any page that left the map was
/// unpinned — a pinned page is never evicted.
pub open spec fn evict_step(
    m0: Map<u64, PageModel>,
    m1: Map<u64, PageModel>,
    a: u64,
) -> bool {
    &&& forall|b: u64|
        b != a && m1.dom().contains(b) ==> m0.dom().contains(b) && m1[b] == m0[b]
    &&& forall|b: u64| b != a && m0.dom().contains(b) && !m1.dom().contains(b) ==> m0[b].pins == 0
}

/// Relation between store maps across at most one eviction flush: the store
/// is unchanged, or exactly one unpinned resident page's bytes were written
/// back to its own address.
pub open spec fn flush_extension(
    m: Map<u64, PageModel>,
    s0: Map<u64, Seq<u8>>,
    s1: Map<u64, Seq<u8>>,
) -> bool {
    ||| s1 == s0
    ||| exists|b: u64|
        m.dom().contains(b) && m[b].pins == 0 && s1 == s0.insert(b, m[b].bytes)
}

/// Full contract of one `acquire` call, relating the resident and store
/// maps before (`m0`, `s0`) and after (`m1`, `s1`) to the outcome `r`.
pub open spec fn acquire_post(
    m0: Map<u64, PageModel>,
    s0: Map<u64, Seq<u8>>,
    cap: nat,
    m1: Map<u64, PageModel>,
    s1: Map<u64, Seq<u8>>,
    addr: u64,
    ptype: PageType,
    mode: AccessMode,
    r: Result<(), CacheError>,
) -> bool {
    // Errors other than an I/O failure leave the cache untouched; an I/O
    // failure may at most have flushed one eviction victim.
    &&& (r matches Err(e) && e != CacheError::IoError ==> m1 == m0 && s1 == s0)
    &&& (r == Err::<(), CacheError>(CacheError::IoError) ==> m1 == m0 && flush_extension(
        m0,
        s0,
        s1,
    ))
    // Address zero is the reserved unbound sentinel: always rejected.
    &&& (addr == 0 ==> r == Err::<(), CacheError>(CacheError::InvalidAddress))
    // Resident hit: no I/O, the outcome is decided exactly.
    &&& (m0.dom().contains(addr) && m0[addr].ptype != ptype ==> r == Err::<
        (),
        CacheError,
    >(CacheError::TypeMismatch))
    &&& (m0.dom().contains(addr) && m0[addr].ptype == ptype && !grant_compatible(m0, addr, mode)
        ==> r == Err::<(), CacheError>(CacheError::CapacityExhausted))
    &&& (m0.dom().contains(addr) && m0[addr].ptype == ptype && grant_compatible(m0, addr, mode)
        ==> r is Ok)
    &&& (m0.dom().contains(addr) && r is Ok ==> {
        &&& m0[addr].ptype == ptype
        &&& grant_compatible(m0, addr, mode)
        &&& m1 == pin_model(m0, addr, mode)
        &&& s1 == s0
    })
    // Miss on a never-allocated address.
    &&& (addr != 0 && !m0.dom().contains(addr) && !s0.dom().contains(addr) ==> r == Err::<
        (),
        CacheError,
    >(CacheError::InvalidAddress))
    // Miss on an allocated address whose stored tag disagrees.
    &&& (!m0.dom().contains(addr) && s0.dom().contains(addr) && stored_type(s0[addr])
        != Some(ptype) ==> r == Err::<(), CacheError>(CacheError::TypeMismatch))
    // Successful load: the page now holds exactly the stored bytes, pinned
    // once and clean; at most one unpinned victim was evicted, flushed
    // first if dirty.
    &&& (!m0.dom().contains(addr) && r is Ok ==> {
        &&& s0.dom().contains(addr)
        &&& stored_type(s0[addr]) == Some(ptype)
        &&& m1.dom().contains(addr)
        &&& m1[addr] == loaded_page(ptype, s0[addr], mode)
        &&& evict_step(m0, m1, addr)
        &&& flush_extension(m0, s0, s1)
        &&& s1.dom().contains(addr)
        &&& s1[addr] == s0[addr]
    })
    // Saturation: only when every resident page is pinned and the pool is
    // full may a load be refused for capacity.
    &&& (!m0.dom().contains(addr) && r == Err::<(), CacheError>(CacheError::CapacityExhausted)
        ==> {
        &&& forall|b: u64| m0.dom().contains(b) ==> m0[b].pins > 0
        &&& m0.dom().len() >= cap
    })
}

/// Capability contract of a page cache: a bounded pool of fixed-size pages
/// keyed by disk address, with pinning so that a resident page is never
/// evicted while referenced.  The binding layer depends only on this
/// contract, never on a concrete pool, so an in-memory double and a real
/// buffered-I/O pool are interchangeable.
pub trait Cache: Sized {
    /// Internal invariant every operation requires and preserves.
    spec fn inv(&self) -> bool;

    /// Number of page slots the pool was configured with.
    spec fn capacity(&self) -> nat;

    /// The resident pages, keyed by disk address.
    spec fn resident(&self) -> Map<u64, PageModel>;

    /// Contents of the backing storage, keyed by disk address.
    spec fn store(&self) -> Map<u64, Seq<u8>>;

    /// The invariant bounds residency by the configured capacity and keeps
    /// every page well formed, backed by storage, and at a non-zero
    /// address.
    proof fn lemma_inv(&self)
        requires
            self.inv(),
        ensures
            self.resident().dom().finite(),
            self.resident().dom().len() <= self.capacity(),
            forall|a: u64|
                self.resident().dom().contains(a) ==> a != 0 && page_wf(self.resident()[a])
                    && self.store().dom().contains(a),
            forall|a: u64|
                self.store().dom().contains(a) ==> a != 0 && self.store()[a].len() == PAGE_SIZE,
    ;

    /// Resolves `addr` to a resident page, pinning it with `mode`.  A hit
    /// increments the pin count with no I/O; a miss loads the page from
    /// storage into a free or evictable slot, flushing a dirty victim
    /// first.  Fails fast on the zero or a never-allocated address, on a
    /// stored-type mismatch, and — this pool being non-blocking — with
    /// `CapacityExhausted` where a blocking pool would suspend.
    fn acquire(&mut self, addr: u64, ptype: PageType, mode: AccessMode) -> (r: Result<
        (),
        CacheError,
    >)
        requires
            old(self).inv(),
        ensures
            final(self).inv(),
            final(self).capacity() == old(self).capacity(),
            acquire_post(
                old(self).resident(),
                old(self).store(),
                old(self).capacity(),
                final(self).resident(),
                final(self).store(),
                addr,
                ptype,
                mode,
                r,
            ),
    ;

    /// Drops one pin on a resident page.  The page stays resident; at zero
    /// pins it becomes eligible for eviction.  Releasing a page that is not
    /// pinned is a caller bug, excluded by precondition.
    fn release(&mut self, addr: u64)
        requires
            old(self).inv(),
            old(self).resident().dom().contains(addr),
            old(self).resident()[addr].pins >= 1,
        ensures
            final(self).inv(),
            final(self).capacity() == old(self).capacity(),
            final(self).resident() == unpin_model(old(self).resident(), addr),
            final(self).store() == old(self).store(),
    ;

    /// Records that the caller mutated the page's bytes.  Idempotent: the
    /// model transition sets the dirty flag regardless of its prior value.
    fn mark_dirty(&mut self, addr: u64)
        requires
            old(self).inv(),
            old(self).resident().dom().contains(addr),
            old(self).resident()[addr].pins >= 1,
        ensures
            final(self).inv(),
            final(self).capacity() == old(self).capacity(),
            final(self).resident() == dirty_model(old(self).resident(), addr),
            final(self).store() == old(self).store(),
    ;

    /// Reads one byte of a resident page's buffer.
    fn read_byte(&self, addr: u64, i: usize) -> (v: u8)
        requires
            self.inv(),
            self.resident().dom().contains(addr),
            i < PAGE_SIZE,
        ensures
            v == self.resident()[addr].bytes[i as int],
    ;

    /// Writes one byte of a resident page's buffer and marks the page
    /// dirty.  Requires an exclusive write pin, and never touches the type
    /// tag byte, which only loading and formatting may set.
    fn write_byte(&mut self, addr: u64, i: usize, v: u8)
        requires
            old(self).inv(),
            old(self).resident().dom().contains(addr),
            old(self).resident()[addr].pins >= 1,
            old(self).resident()[addr].mode is Write,
            1 <= i < PAGE_SIZE,
        ensures
            final(self).inv(),
            final(self).capacity() == old(self).capacity(),
            final(self).resident() == write_model(old(self).resident(), addr, i as int, v),
            final(self).store() == old(self).store(),
    ;

    /// Forces one resident page to durable storage and clears its dirty
    /// flag.  On an I/O failure nothing is recorded as flushed.
    fn flush(&mut self, addr: u64) -> (r: Result<(), CacheError>)
        requires
            old(self).inv(),
            old(self).resident().dom().contains(addr),
        ensures
            final(self).inv(),
            final(self).capacity() == old(self).capacity(),
            r matches Err(e) ==> e == CacheError::IoError && *final(self) == *old(self),
            r is Ok ==> final(self).resident() == clean_model(old(self).resident(), addr)
                && final(self).store() == old(self).store().insert(
                addr,
                old(self).resident()[addr].bytes,
            ),
    ;

    /// Forces every dirty resident page to durable storage.  On success the
    /// whole pool is clean and the store holds every resident page's bytes;
    /// addresses not touched keep their stored bytes.
    fn flush_all(&mut self) -> (r: Result<(), CacheError>)
        requires
            old(self).inv(),
        ensures
            final(self).inv(),
            final(self).capacity() == old(self).capacity(),
            r matches Err(e) ==> e == CacheError::IoError,
            r is Err ==> final(self).resident() == old(self).resident(),
            r is Ok ==> {
                &&& final(self).resident().dom() == old(self).resident().dom()
                &&& forall|a: u64|
                    old(self).resident().dom().contains(a) ==> final(self).resident()[a]
                        == (PageModel { dirty: false, ..old(self).resident()[a] })
                &&& forall|a: u64|
                    old(self).resident().dom().contains(a) ==> final(self).store().dom().contains(
                        a,
                    ) && final(self).store()[a] == old(self).resident()[a].bytes
            },
            forall|a: u64|
                old(self).store().dom().contains(a) ==> final(self).store().dom().contains(a)
                    && (!old(self).resident().dom().contains(a) ==> final(self).store()[a] == old(
                    self,
                ).store()[a]),
            forall|a: u64|
                final(self).store().dom().contains(a) ==> old(self).store().dom().contains(a),
    ;

    /// Reports the reference count held on an address: its pin count while
    /// resident, zero otherwise.
    fn ref_count(&self, addr: u64) -> (n: u64)
        requires
            self.inv(),
        ensures
            n as nat == ref_count_of(self.resident(), addr),
    ;

    /// The type-check capability: the stored type of a resident page, or
    /// `None` while the address is not resident.
    fn resident_type(&self, addr: u64) -> (r: Option<PageType>)
        requires
            self.inv(),
        ensures
            r == if self.resident().dom().contains(addr) {
                Some(self.resident()[addr].ptype)
            } else {
                None::<PageType>
            },
    ;
}

} // verus!
