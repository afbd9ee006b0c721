use crate::cache::{
    clean_model, dirty_model, grant_compatible, page_wf, pin_model, unpin_model, write_model,
    Cache, PageModel,
};
use crate::errors::CacheError;
use crate::page::{
    decode_type, encode_type, fresh_page, stored_type, type_tag, AccessMode, PageType, PAGE_SIZE,
};
use vstd::map::*;
use vstd::prelude::*;
use vstd::set_lib::lemma_len_subset;

verus! {

/// One pool slot.  Address zero marks a free slot; a free slot is never
/// pinned or dirty and its buffer is kept allocated for reuse.
pub(crate) struct Slot {
    pub(crate) addr: u64,
    pub(crate) ptype: PageType,
    pub(crate) buf: Vec<u8>,
    pub(crate) pins: u64,
    pub(crate) dirty: bool,
    pub(crate) mode: AccessMode,
}

/// One allocated page of the in-memory backing storage.
pub(crate) struct StoreEntry {
    pub(crate) addr: u64,
    pub(crate) bytes: Vec<u8>,
}

/// A minimal in-memory page pool over an in-memory backing store, the test
/// double of the cache capability contract.  Slots are allocated once at
/// construction and reused across many logical addresses; eviction picks
/// any unpinned slot and flushes it first when dirty.
pub struct MemCache {
    slots: Vec<Slot>,
    entries: Vec<StoreEntry>,
}

/// The model a slot denotes.
pub(crate) open spec fn slot_model(s: Slot) -> PageModel {
    PageModel {
        ptype: s.ptype,
        bytes: s.buf@,
        pins: s.pins as nat,
        dirty: s.dirty,
        mode: s.mode,
    }
}

/// Some slot holds address `a`.
pub(crate) open spec fn has_slot(ss: Seq<Slot>, a: u64) -> bool {
    exists|i: int| 0 <= i < ss.len() && ss[i].addr == a
}

/// The index of the slot holding address `a` (unique under `slots_uniq`).
pub(crate) open spec fn slot_index(ss: Seq<Slot>, a: u64) -> int {
    choose|i: int| 0 <= i < ss.len() && ss[i].addr == a
}

/// Non-free slot addresses are pairwise distinct: at any instant an address
/// maps to at most one resident page.
pub(crate) open spec fn slots_uniq(ss: Seq<Slot>) -> bool {
    forall|i: int, j: int|
        0 <= i < j < ss.len() && ss[i].addr != 0 ==> ss[i].addr != ss[j].addr
}

/// The resident map a slot vector denotes.
pub(crate) open spec fn resident_of(ss: Seq<Slot>) -> Map<u64, PageModel> {
    Map::new(|a: u64| a != 0 && has_slot(ss, a), |a: u64| slot_model(ss[slot_index(ss, a)]))
}

/// Some store entry holds address `a`.
pub(crate) open spec fn has_entry(es: Seq<StoreEntry>, a: u64) -> bool {
    exists|i: int| 0 <= i < es.len() && es[i].addr == a
}

/// The index of the store entry holding address `a`.
pub(crate) open spec fn entry_index(es: Seq<StoreEntry>, a: u64) -> int {
    choose|i: int| 0 <= i < es.len() && es[i].addr == a
}

/// Store entry addresses are pairwise distinct.
pub(crate) open spec fn entries_uniq(es: Seq<StoreEntry>) -> bool {
    forall|i: int, j: int| 0 <= i < j < es.len() ==> es[i].addr != es[j].addr
}

/// The store map an entry vector denotes.
pub(crate) open spec fn store_of(es: Seq<StoreEntry>) -> Map<u64, Seq<u8>> {
    Map::new(|a: u64| has_entry(es, a), |a: u64| es[entry_index(es, a)].bytes@)
}

/// Well-formedness of the backing store: non-zero unique addresses, full
/// pages.
pub(crate) open spec fn entries_wf(es: Seq<StoreEntry>) -> bool {
    &&& entries_uniq(es)
    &&& forall|i: int|
        0 <= i < es.len() ==> (#[trigger] es[i]).addr != 0 && es[i].bytes@.len() == PAGE_SIZE
}

/// Well-formedness of one slot against the store.
pub(crate) open spec fn slot_wf(s: Slot, es: Seq<StoreEntry>) -> bool {
    &&& s.buf@.len() == PAGE_SIZE
    &&& (s.addr == 0 ==> s.pins == 0 && !s.dirty)
    &&& (s.addr != 0 ==> {
        &&& stored_type(s.buf@) == Some(s.ptype)
        &&& (s.mode is Write ==> s.pins <= 1)
        &&& has_entry(es, s.addr)
        &&& (!s.dirty ==> store_of(es)[s.addr] == s.buf@)
    })
}

/// Well-formedness of the whole pool.
pub(crate) open spec fn slots_wf(ss: Seq<Slot>, es: Seq<StoreEntry>) -> bool {
    &&& slots_uniq(ss)
    &&& forall|i: int| 0 <= i < ss.len() ==> slot_wf(#[trigger] ss[i], es)
}

/// The slot at a non-free index is what the resident map holds for its
/// address, and `slot_index` finds exactly that index.
pub(crate) proof fn lemma_slot_at(ss: Seq<Slot>, i: int)
    requires
        slots_uniq(ss),
        0 <= i < ss.len(),
        ss[i].addr != 0,
    ensures
        has_slot(ss, ss[i].addr),
        slot_index(ss, ss[i].addr) == i,
        resident_of(ss).dom().contains(ss[i].addr),
        resident_of(ss)[ss[i].addr] == slot_model(ss[i]),
{
    let a = ss[i].addr;
    assert(has_slot(ss, a));
    let j = slot_index(ss, a);
    assert(0 <= j < ss.len() && ss[j].addr == a);
    if i < j {
        assert(ss[i].addr != ss[j].addr);
    } else if j < i {
        assert(ss[j].addr != ss[i].addr);
    }
}

/// The store entry at an index is what the store map holds for its address.
pub(crate) proof fn lemma_entry_at(es: Seq<StoreEntry>, i: int)
    requires
        entries_uniq(es),
        0 <= i < es.len(),
    ensures
        has_entry(es, es[i].addr),
        entry_index(es, es[i].addr) == i,
        store_of(es).dom().contains(es[i].addr),
        store_of(es)[es[i].addr] == es[i].bytes@,
{
    let a = es[i].addr;
    assert(has_entry(es, a));
    let j = entry_index(es, a);
    assert(0 <= j < es.len() && es[j].addr == a);
    if i < j {
        assert(es[i].addr != es[j].addr);
    } else if j < i {
        assert(es[j].addr != es[i].addr);
    }
}

/// Replacing the slot at `i` (with a slot whose address collides with no
/// other slot) removes the old address from the resident map and inserts
/// the new one.
pub(crate) proof fn lemma_resident_update(ss: Seq<Slot>, i: int, s2: Slot)
    requires
        slots_uniq(ss),
        0 <= i < ss.len(),
        s2.addr != 0,
        forall|j: int| 0 <= j < ss.len() && j != i ==> ss[j].addr != s2.addr,
    ensures
        slots_uniq(ss.update(i, s2)),
        resident_of(ss.update(i, s2)) == (if ss[i].addr != 0 {
            resident_of(ss).remove(ss[i].addr)
        } else {
            resident_of(ss)
        }).insert(s2.addr, slot_model(s2)),
{
    let ss2 = ss.update(i, s2);
    let a0 = ss[i].addr;
    let rhs = (if a0 != 0 {
        resident_of(ss).remove(a0)
    } else {
        resident_of(ss)
    }).insert(s2.addr, slot_model(s2));
    assert(slots_uniq(ss2)) by {
        assert forall|p: int, q: int|
            0 <= p < q < ss2.len() && ss2[p].addr != 0 implies ss2[p].addr != ss2[q].addr by {
            if p != i && q != i {
                assert(ss2[p] == ss[p] && ss2[q] == ss[q]);
            }
        }
    }
    assert_maps_equal!(resident_of(ss2), rhs, a => {
        if a == s2.addr {
            lemma_slot_at(ss2, i);
        } else if a != 0 {
            if a == a0 {
                // The old address left the pool: no other slot held it.
                assert(!has_slot(ss2, a)) by {
                    assert forall|k: int| 0 <= k < ss2.len() implies ss2[k].addr != a by {
                        if k != i {
                            lemma_slot_at(ss, i);
                            if k < i {
                                assert(ss[k].addr != ss[i].addr);
                            } else {
                                assert(ss[i].addr != ss[k].addr);
                            }
                            assert(ss2[k] == ss[k]);
                        }
                    }
                }
            } else {
                // Untouched addresses keep their slot and their model.
                if has_slot(ss, a) {
                    let k = slot_index(ss, a);
                    assert(0 <= k < ss.len() && ss[k].addr == a);
                    assert(k != i);
                    assert(ss2[k] == ss[k]);
                    lemma_slot_at(ss, k);
                    lemma_slot_at(ss2, k);
                }
                if has_slot(ss2, a) {
                    let k = choose|k: int| 0 <= k < ss2.len() && ss2[k].addr == a;
                    assert(k != i);
                    assert(ss[k] == ss2[k]);
                    lemma_slot_at(ss, k);
                    lemma_slot_at(ss2, k);
                }
            }
        }
    });
}

/// Overwriting the bytes of the entry at `i` (address kept) updates exactly
/// that address in the store map.
pub(crate) proof fn lemma_store_update(es: Seq<StoreEntry>, i: int, e2: StoreEntry)
    requires
        entries_uniq(es),
        0 <= i < es.len(),
        e2.addr == es[i].addr,
    ensures
        entries_uniq(es.update(i, e2)),
        store_of(es.update(i, e2)) == store_of(es).insert(e2.addr, e2.bytes@),
{
    let es2 = es.update(i, e2);
    assert(entries_uniq(es2)) by {
        assert forall|p: int, q: int| 0 <= p < q < es2.len() implies es2[p].addr != es2[q].addr by {
            if p != i && q != i {
                assert(es2[p] == es[p] && es2[q] == es[q]);
            } else if p == i {
                assert(es2[q] == es[q]);
                assert(es[p].addr != es[q].addr);
            } else {
                assert(es2[p] == es[p]);
                assert(es[p].addr != es[q].addr);
            }
        }
    }
    assert_maps_equal!(store_of(es2), store_of(es).insert(e2.addr, e2.bytes@), a => {
        if a == e2.addr {
            lemma_entry_at(es2, i);
        } else {
            if has_entry(es, a) {
                let k = entry_index(es, a);
                assert(0 <= k < es.len() && es[k].addr == a);
                assert(k != i);
                assert(es2[k] == es[k]);
                lemma_entry_at(es, k);
                lemma_entry_at(es2, k);
            }
            if has_entry(es2, a) {
                let k = choose|k: int| 0 <= k < es2.len() && es2[k].addr == a;
                assert(k != i);
                assert(es[k] == es2[k]);
                lemma_entry_at(es, k);
                lemma_entry_at(es2, k);
            }
        }
    });
}

/// Appending an entry for a fresh address inserts exactly that address into
/// the store map.
pub(crate) proof fn lemma_store_push(es: Seq<StoreEntry>, e: StoreEntry)
    requires
        entries_uniq(es),
        forall|j: int| 0 <= j < es.len() ==> es[j].addr != e.addr,
    ensures
        entries_uniq(es.push(e)),
        store_of(es.push(e)) == store_of(es).insert(e.addr, e.bytes@),
{
    let es2 = es.push(e);
    assert(entries_uniq(es2)) by {
        assert forall|p: int, q: int| 0 <= p < q < es2.len() implies es2[p].addr != es2[q].addr by {
            if q < es.len() {
                assert(es2[p] == es[p] && es2[q] == es[q]);
            } else {
                assert(es2[p] == es[p] && es2[q] == e);
            }
        }
    }
    assert_maps_equal!(store_of(es2), store_of(es).insert(e.addr, e.bytes@), a => {
        if a == e.addr {
            lemma_entry_at(es2, es.len() as int);
        } else {
            if has_entry(es, a) {
                let k = entry_index(es, a);
                assert(0 <= k < es.len() && es[k].addr == a);
                assert(es2[k] == es[k]);
                lemma_entry_at(es, k);
                lemma_entry_at(es2, k);
            }
            if has_entry(es2, a) {
                let k = choose|k: int| 0 <= k < es2.len() && es2[k].addr == a;
                assert(k < es.len());
                assert(es[k] == es2[k]);
                lemma_entry_at(es, k);
                lemma_entry_at(es2, k);
            }
        }
    });
}

/// Residency is bounded by the slot count.
pub(crate) proof fn lemma_resident_card(ss: Seq<Slot>)
    requires
        slots_uniq(ss),
    ensures
        resident_of(ss).dom().finite(),
        resident_of(ss).dom().len() <= ss.len(),
{
    broadcast use vstd::seq_lib::seq_to_set_is_finite;

    let addrs = ss.map_values(|s: Slot| s.addr);
    addrs.lemma_cardinality_of_set();
    assert(resident_of(ss).dom().subset_of(addrs.to_set())) by {
        assert forall|a: u64| resident_of(ss).dom().contains(a) implies addrs.to_set().contains(
            a,
        ) by {
            let i = choose|i: int| 0 <= i < ss.len() && ss[i].addr == a;
            assert(addrs[i] == a);
            assert(addrs.contains(a));
        }
    }
    lemma_len_subset(resident_of(ss).dom(), addrs.to_set());
}

/// When every slot holds a page, the resident map is at least as large as
/// the pool.
pub(crate) proof fn lemma_resident_full(ss: Seq<Slot>)
    requires
        slots_uniq(ss),
        forall|i: int| 0 <= i < ss.len() ==> (#[trigger] ss[i]).addr != 0,
    ensures
        resident_of(ss).dom().finite(),
        resident_of(ss).dom().len() >= ss.len(),
{
    broadcast use vstd::seq_lib::seq_to_set_is_finite;

    let addrs = ss.map_values(|s: Slot| s.addr);
    assert(addrs.no_duplicates()) by {
        assert forall|p: int, q: int|
            0 <= p < addrs.len() && 0 <= q < addrs.len() && p != q implies addrs[p] != addrs[q] by {
            if p < q {
                assert(ss[p].addr != ss[q].addr);
            } else {
                assert(ss[q].addr != ss[p].addr);
            }
        }
    }
    addrs.unique_seq_to_set();
    lemma_resident_card(ss);
    assert(addrs.to_set().subset_of(resident_of(ss).dom())) by {
        assert forall|a: u64| addrs.to_set().contains(a) implies resident_of(ss).dom().contains(
            a,
        ) by {
            let i = choose|i: int| 0 <= i < addrs.len() && addrs[i] == a;
            assert(ss[i].addr == a);
            lemma_slot_at(ss, i);
        }
    }
    lemma_len_subset(addrs.to_set(), resident_of(ss).dom());
}

/// A full-size buffer holding the fresh-page image of type `t`.
fn fresh_page_buf(t: PageType) -> (v: Vec<u8>)
    ensures
        v@ == fresh_page(t),
{
    let mut v: Vec<u8> = Vec::new();
    v.push(encode_type(t));
    let mut i: usize = 1;
    while i < PAGE_SIZE
        invariant
            1 <= i <= PAGE_SIZE,
            v@.len() == i,
            v@[0] == type_tag(t),
            forall|k: int| 1 <= k < i ==> v@[k] == 0,
        decreases PAGE_SIZE - i,
    {
        v.push(0);
        i += 1;
    }
    proof {
        assert(v@ =~= fresh_page(t));
    }
    v
}

/// A byte-for-byte copy of a page buffer.
fn copy_bytes(src: &Vec<u8>) -> (v: Vec<u8>)
    ensures
        v@ == src@,
{
    let mut v: Vec<u8> = Vec::new();
    let n = src.len();
    let mut i: usize = 0;
    while i < n
        invariant
            0 <= i <= n,
            n == src@.len(),
            v@ =~= src@.take(i as int),
        decreases n - i,
    {
        v.push(src[i]);
        i += 1;
    }
    proof {
        assert(v@ =~= src@);
    }
    v
}

impl MemCache {
    /// A pool of `capacity` free slots over an empty backing store.
    pub fn new(capacity: usize) -> (c: Self)
        ensures
            c.inv(),
            c.capacity() == capacity,
            c.resident() == Map::<u64, PageModel>::empty(),
            c.store() == Map::<u64, Seq<u8>>::empty(),
    {
        let mut slots: Vec<Slot> = Vec::new();
        let mut i: usize = 0;
        while i < capacity
            invariant
                0 <= i <= capacity,
                slots@.len() == i,
                forall|k: int|
                    0 <= k < i ==> (#[trigger] slots@[k]).addr == 0 && slots@[k].pins == 0
                        && !slots@[k].dirty && slots@[k].buf@.len() == PAGE_SIZE,
            decreases capacity - i,
        {
            let buf = fresh_page_buf(PageType::FreeList);
            let mut free = Slot {
                addr: 0,
                ptype: PageType::FreeList,
                buf,
                pins: 0,
                dirty: false,
                mode: AccessMode::Read,
            };
            free.buf[0] = 0;
            slots.push(free);
            i += 1;
        }
        let c = MemCache { slots, entries: Vec::new() };
        proof {
            assert_maps_equal!(resident_of(c.slots@), Map::<u64, PageModel>::empty(), a => {});
            assert_maps_equal!(store_of(c.entries@), Map::<u64, Seq<u8>>::empty(), a => {});
        }
        c
    }

    /// Allocates and formats address `addr` in the backing storage as a
    /// fresh page of type `t`.  This stands for the storage layer's
    /// allocator, the external collaborator that decides which addresses
    /// exist on disk.
    pub fn install(&mut self, addr: u64, t: PageType)
        requires
            old(self).inv(),
            addr != 0,
            !old(self).store().dom().contains(addr),
        ensures
            final(self).inv(),
            final(self).capacity() == old(self).capacity(),
            final(self).resident() == old(self).resident(),
            final(self).store() == old(self).store().insert(addr, fresh_page(t)),
    {
        let bytes = fresh_page_buf(t);
        let entry = StoreEntry { addr, bytes };
        proof {
            assert forall|j: int| 0 <= j < self.entries@.len() implies self.entries@[j].addr
                != addr by {
                lemma_entry_at(self.entries@, j);
            }
            lemma_store_push(self.entries@, entry);
            crate::page::lemma_type_tag_round_trip(t);
            assert(stored_type(fresh_page(t)) == Some(t));
        }
        self.entries.push(entry);
        proof {
            assert forall|i: int| 0 <= i < self.slots@.len() implies slot_wf(
                #[trigger] self.slots@[i],
                self.entries@,
            ) by {
                if self.slots@[i].addr != 0 {
                    let k = choose|k: int|
                        0 <= k < old(self).entries@.len() && old(self).entries@[k].addr
                            == self.slots@[i].addr;
                    assert(self.entries@[k].addr == self.slots@[i].addr);
                    assert(store_of(old(self).entries@).dom().contains(self.slots@[i].addr));
                    assert(self.slots@[i].addr != addr);
                    assert(store_of(self.entries@)[self.slots@[i].addr] == store_of(
                        old(self).entries@,
                    )[self.slots@[i].addr]);
                }
            }
        }
    }
}

impl Cache for MemCache {
    closed spec fn inv(&self) -> bool {
        &&& slots_wf(self.slots@, self.entries@)
        &&& entries_wf(self.entries@)
    }

    closed spec fn capacity(&self) -> nat {
        self.slots@.len()
    }

    closed spec fn resident(&self) -> Map<u64, PageModel> {
        resident_of(self.slots@)
    }

    closed spec fn store(&self) -> Map<u64, Seq<u8>> {
        store_of(self.entries@)
    }

    proof fn lemma_inv(&self) {
        lemma_resident_card(self.slots@);
        assert forall|a: u64| self.resident().dom().contains(a) implies a != 0 && page_wf(
            self.resident()[a],
        ) && self.store().dom().contains(a) by {
            let i = slot_index(self.slots@, a);
            assert(0 <= i < self.slots@.len() && self.slots@[i].addr == a);
            assert(slot_wf(self.slots@[i], self.entries@));
            let k = choose|k: int|
                0 <= k < self.entries@.len() && self.entries@[k].addr == a;
            lemma_entry_at(self.entries@, k);
        }
        assert forall|a: u64| self.store().dom().contains(a) implies a != 0 && self.store()[a].len()
            == PAGE_SIZE by {
            let k = entry_index(self.entries@, a);
            assert(0 <= k < self.entries@.len() && self.entries@[k].addr == a);
        }
    }

    fn acquire(&mut self, addr: u64, ptype: PageType, mode: AccessMode) -> (r: Result<
        (),
        CacheError,
    >)
        ensures
            // This in-memory pool owes success beyond the trait contract:
            // a miss on an allocated, type-matching address is admitted
            // whenever some slot is unpinned.
            ({
                &&& addr != 0
                &&& !old(self).resident().dom().contains(addr)
                &&& old(self).store().dom().contains(addr)
                &&& stored_type(old(self).store()[addr]) == Some(ptype)
                &&& (old(self).resident().dom().len() < old(self).capacity() || exists|b: u64|
                    #[trigger] old(self).resident().dom().contains(b) && old(
                        self,
                    ).resident()[b].pins == 0)
            }) ==> r is Ok,
            // The in-memory store cannot fail an I/O.
            r != Err::<(), CacheError>(CacheError::IoError),
    {
        if addr == 0 {
            return Err(CacheError::InvalidAddress);
        }
        let ghost ss0 = self.slots@;
        let ghost es0 = self.entries@;
        match self.find_slot(addr) {
            Some(i) => {
                proof {
                    lemma_slot_at(ss0, i as int);
                }
                if !types_equal(self.slots[i].ptype, ptype) {
                    return Err(CacheError::TypeMismatch);
                }
                let pins = self.slots[i].pins;
                let shared_ok = matches!(self.slots[i].mode, AccessMode::Read) && matches!(
                    mode,
                    AccessMode::Read,
                ) && pins < u64::MAX;
                if !(pins == 0 || shared_ok) {
                    proof {
                        assert(!grant_compatible(resident_of(ss0), addr, mode));
                    }
                    return Err(CacheError::CapacityExhausted);
                }
                self.slots[i].pins = pins + 1;
                if pins == 0 {
                    self.slots[i].mode = mode;
                }
                proof {
                    let s2 = self.slots@[i as int];
                    assert(self.slots@ =~= ss0.update(i as int, s2));
                    assert forall|j: int| 0 <= j < ss0.len() && j != i as int
                        implies ss0[j].addr != addr by {
                        if j < i as int {
                            assert(ss0[j].addr != ss0[i as int].addr || ss0[j].addr == 0);
                            assert(ss0[j].addr != addr);
                        } else {
                            assert(ss0[i as int].addr != ss0[j].addr);
                        }
                    }
                    lemma_resident_update(ss0, i as int, s2);
                    let m0 = resident_of(ss0);
                    assert(m0.remove(addr).insert(addr, slot_model(s2)) =~= pin_model(
                        m0,
                        addr,
                        mode,
                    ));
                    assert forall|k: int| 0 <= k < self.slots@.len() implies slot_wf(
                        #[trigger] self.slots@[k],
                        self.entries@,
                    ) by {
                        assert(slot_wf(ss0[k], es0));
                    }
                }
                Ok(())
            },
            None => {
                proof {
                    assert(!resident_of(ss0).dom().contains(addr));
                }
                let je = match self.find_entry(addr) {
                    None => {
                        proof {
                            assert(!store_of(es0).dom().contains(addr));
                        }
                        return Err(CacheError::InvalidAddress);
                    },
                    Some(je) => je,
                };
                proof {
                    lemma_entry_at(es0, je as int);
                }
                let tag = self.entries[je].bytes[0];
                let tag_ok = match decode_type(tag) {
                    Some(t2) => types_equal(t2, ptype),
                    None => false,
                };
                if !tag_ok {
                    proof {
                        assert(stored_type(store_of(es0)[addr]) != Some(ptype));
                    }
                    return Err(CacheError::TypeMismatch);
                }
                let vi = match self.find_victim() {
                    None => {
                        proof {
                            let m0 = resident_of(ss0);
                            assert forall|b: u64| m0.dom().contains(b) implies m0[b].pins > 0 by {
                                let k = slot_index(ss0, b);
                                assert(0 <= k < ss0.len() && ss0[k].addr == b);
                                assert(ss0[k].pins > 0);
                            }
                            assert forall|k: int| 0 <= k < ss0.len() implies (#[trigger] ss0[k]).addr
                                != 0 by {
                                assert(slot_wf(ss0[k], es0));
                                assert(ss0[k].pins > 0);
                            }
                            lemma_resident_full(ss0);
                        }
                        return Err(CacheError::CapacityExhausted);
                    },
                    Some(vi) => vi,
                };
                let vaddr = self.slots[vi].addr;
                if vaddr != 0 && self.slots[vi].dirty {
                    // Flush the dirty victim to its storage address before
                    // reusing its slot.
                    let ve = match self.find_entry(vaddr) {
                        None => {
                            proof {
                                assert(slot_wf(ss0[vi as int], es0));
                                let k = choose|k: int|
                                    0 <= k < es0.len() && es0[k].addr == vaddr;
                                assert(false);
                            }
                            return Err(CacheError::IoError);
                        },
                        Some(ve) => ve,
                    };
                    let flushed = copy_bytes(&self.slots[vi].buf);
                    let e2 = StoreEntry { addr: vaddr, bytes: flushed };
                    proof {
                        lemma_store_update(es0, ve as int, e2);
                        lemma_slot_at(ss0, vi as int);
                    }
                    self.entries[ve] = e2;
                    proof {
                        assert(self.entries@ =~= es0.update(ve as int, e2));
                        assert(store_of(self.entries@) == store_of(es0).insert(
                            vaddr,
                            resident_of(ss0)[vaddr].bytes,
                        ));
                        assert forall|k: int| 0 <= k < self.entries@.len() implies (
                        #[trigger] self.entries@[k]).addr != 0 && self.entries@[k].bytes@.len()
                            == PAGE_SIZE by {
                            if k != ve as int {
                                assert(self.entries@[k] == es0[k]);
                            }
                        }
                    }
                }
                let ghost es1 = self.entries@;
                proof {
                    // The loaded entry is unchanged by any victim flush.
                    assert(es1[je as int].addr == addr);
                    assert(es1[je as int].bytes@ == es0[je as int].bytes@);
                }
                let loaded = copy_bytes(&self.entries[je].bytes);
                let s2 = Slot { addr, ptype, buf: loaded, pins: 1, dirty: false, mode };
                proof {
                    assert forall|j: int| 0 <= j < ss0.len() && j != vi as int
                        implies ss0[j].addr != addr by {}
                    lemma_resident_update(ss0, vi as int, s2);
                    if vaddr != 0 {
                        lemma_slot_at(ss0, vi as int);
                    }
                }
                self.slots[vi] = s2;
                proof {
                    assert(self.slots@ =~= ss0.update(vi as int, self.slots@[vi as int]));
                    assert forall|k: int| 0 <= k < self.slots@.len() implies slot_wf(
                        #[trigger] self.slots@[k],
                        self.entries@,
                    ) by {
                        if k != vi as int {
                            assert(slot_wf(ss0[k], es0));
                            if ss0[k].addr != 0 {
                                let q = choose|q: int|
                                    0 <= q < es0.len() && es0[q].addr == ss0[k].addr;
                                assert(self.entries@[q].addr == ss0[k].addr);
                                if k < vi as int {
                                    assert(ss0[k].addr != ss0[vi as int].addr);
                                } else {
                                    assert(ss0[vi as int].addr != ss0[k].addr || vaddr == 0);
                                }
                                assert(store_of(self.entries@)[ss0[k].addr] == store_of(es0)[
                                    ss0[k].addr
                                ]);
                            }
                        } else {
                            assert(stored_type(s2.buf@) == Some(ptype));
                            assert(self.entries@[je as int].addr == addr);
                            assert(entries_uniq(self.entries@));
                            lemma_entry_at(self.entries@, je as int);
                            assert(store_of(self.entries@)[addr] == s2.buf@);
                        }
                    }
                }
                Ok(())
            },
        }
    }

    fn release(&mut self, addr: u64) {
        let ghost ss0 = self.slots@;
        let ghost es0 = self.entries@;
        let i = match self.find_slot(addr) {
            None => {
                proof {
                    let k = slot_index(ss0, addr);
                    assert(0 <= k < ss0.len() && ss0[k].addr == addr);
                    assert(false);
                }
                return;
            },
            Some(i) => i,
        };
        proof {
            lemma_slot_at(ss0, i as int);
        }
        let pins = self.slots[i].pins;
        self.slots[i].pins = pins - 1;
        proof {
            let s2 = self.slots@[i as int];
            assert(self.slots@ =~= ss0.update(i as int, s2));
            assert forall|j: int| 0 <= j < ss0.len() && j != i as int implies ss0[j].addr
                != addr by {
                if j < i as int {
                    assert(ss0[j].addr != ss0[i as int].addr || ss0[j].addr == 0);
                } else {
                    assert(ss0[i as int].addr != ss0[j].addr);
                }
            }
            lemma_resident_update(ss0, i as int, s2);
            let m0 = resident_of(ss0);
            assert(m0.remove(addr).insert(addr, slot_model(s2)) =~= unpin_model(m0, addr));
            assert forall|k: int| 0 <= k < self.slots@.len() implies slot_wf(
                #[trigger] self.slots@[k],
                self.entries@,
            ) by {
                assert(slot_wf(ss0[k], es0));
            }
        }
    }

    fn mark_dirty(&mut self, addr: u64) {
        let ghost ss0 = self.slots@;
        let ghost es0 = self.entries@;
        let i = match self.find_slot(addr) {
            None => {
                proof {
                    let k = slot_index(ss0, addr);
                    assert(0 <= k < ss0.len() && ss0[k].addr == addr);
                    assert(false);
                }
                return;
            },
            Some(i) => i,
        };
        proof {
            lemma_slot_at(ss0, i as int);
        }
        self.slots[i].dirty = true;
        proof {
            let s2 = self.slots@[i as int];
            assert(self.slots@ =~= ss0.update(i as int, s2));
            assert forall|j: int| 0 <= j < ss0.len() && j != i as int implies ss0[j].addr
                != addr by {
                if j < i as int {
                    assert(ss0[j].addr != ss0[i as int].addr || ss0[j].addr == 0);
                } else {
                    assert(ss0[i as int].addr != ss0[j].addr);
                }
            }
            lemma_resident_update(ss0, i as int, s2);
            let m0 = resident_of(ss0);
            assert(m0.remove(addr).insert(addr, slot_model(s2)) =~= dirty_model(m0, addr));
            assert forall|k: int| 0 <= k < self.slots@.len() implies slot_wf(
                #[trigger] self.slots@[k],
                self.entries@,
            ) by {
                assert(slot_wf(ss0[k], es0));
            }
        }
    }

    fn read_byte(&self, addr: u64, i: usize) -> (v: u8) {
        let ghost ss0 = self.slots@;
        let si = match self.find_slot(addr) {
            None => {
                proof {
                    let k = slot_index(ss0, addr);
                    assert(0 <= k < ss0.len() && ss0[k].addr == addr);
                    assert(false);
                }
                return 0;
            },
            Some(si) => si,
        };
        proof {
            lemma_slot_at(ss0, si as int);
            assert(slot_wf(ss0[si as int], self.entries@));
        }
        self.slots[si].buf[i]
    }

    fn write_byte(&mut self, addr: u64, i: usize, v: u8) {
        let ghost ss0 = self.slots@;
        let ghost es0 = self.entries@;
        let si = match self.find_slot(addr) {
            None => {
                proof {
                    let k = slot_index(ss0, addr);
                    assert(0 <= k < ss0.len() && ss0[k].addr == addr);
                    assert(false);
                }
                return;
            },
            Some(si) => si,
        };
        proof {
            lemma_slot_at(ss0, si as int);
            assert(slot_wf(ss0[si as int], es0));
        }
        self.slots[si].buf[i] = v;
        self.slots[si].dirty = true;
        proof {
            let s2 = self.slots@[si as int];
            assert(self.slots@ =~= ss0.update(si as int, s2));
            assert forall|j: int| 0 <= j < ss0.len() && j != si as int implies ss0[j].addr
                != addr by {
                if j < si as int {
                    assert(ss0[j].addr != ss0[si as int].addr || ss0[j].addr == 0);
                } else {
                    assert(ss0[si as int].addr != ss0[j].addr);
                }
            }
            lemma_resident_update(ss0, si as int, s2);
            let m0 = resident_of(ss0);
            assert(s2.buf@ =~= ss0[si as int].buf@.update(i as int, v));
            assert(m0.remove(addr).insert(addr, slot_model(s2)) =~= write_model(
                m0,
                addr,
                i as int,
                v,
            ));
            assert forall|k: int| 0 <= k < self.slots@.len() implies slot_wf(
                #[trigger] self.slots@[k],
                self.entries@,
            ) by {
                if k != si as int {
                    assert(slot_wf(ss0[k], es0));
                } else {
                    assert(slot_wf(ss0[k], es0));
                    assert(s2.buf@[0] == ss0[k].buf@[0]);
                }
            }
        }
    }

    fn flush(&mut self, addr: u64) -> (r: Result<(), CacheError>)
        ensures
            // The in-memory store cannot fail an I/O.
            r is Ok,
    {
        let ghost ss0 = self.slots@;
        let ghost es0 = self.entries@;
        let si = match self.find_slot(addr) {
            None => {
                proof {
                    let k = slot_index(ss0, addr);
                    assert(0 <= k < ss0.len() && ss0[k].addr == addr);
                    assert(false);
                }
                return Err(CacheError::IoError);
            },
            Some(si) => si,
        };
        proof {
            lemma_slot_at(ss0, si as int);
            assert(slot_wf(ss0[si as int], es0));
        }
        let ve = match self.find_entry(addr) {
            None => {
                proof {
                    let k = choose|k: int| 0 <= k < es0.len() && es0[k].addr == addr;
                    assert(false);
                }
                return Err(CacheError::IoError);
            },
            Some(ve) => ve,
        };
        let flushed = copy_bytes(&self.slots[si].buf);
        let e2 = StoreEntry { addr, bytes: flushed };
        proof {
            lemma_store_update(es0, ve as int, e2);
        }
        self.entries[ve] = e2;
        self.slots[si].dirty = false;
        proof {
            assert(self.entries@ =~= es0.update(ve as int, e2));
            let s2 = self.slots@[si as int];
            assert(self.slots@ =~= ss0.update(si as int, s2));
            assert forall|j: int| 0 <= j < ss0.len() && j != si as int implies ss0[j].addr
                != addr by {
                if j < si as int {
                    assert(ss0[j].addr != ss0[si as int].addr || ss0[j].addr == 0);
                } else {
                    assert(ss0[si as int].addr != ss0[j].addr);
                }
            }
            lemma_resident_update(ss0, si as int, s2);
            let m0 = resident_of(ss0);
            assert(m0.remove(addr).insert(addr, slot_model(s2)) =~= clean_model(m0, addr));
            assert forall|k: int| 0 <= k < self.entries@.len() implies (
            #[trigger] self.entries@[k]).addr != 0 && self.entries@[k].bytes@.len() == PAGE_SIZE by {
                if k != ve as int {
                    assert(self.entries@[k] == es0[k]);
                }
            }
            assert forall|k: int| 0 <= k < self.slots@.len() implies slot_wf(
                #[trigger] self.slots@[k],
                self.entries@,
            ) by {
                assert(slot_wf(ss0[k], es0));
                if k == si as int {
                    assert(store_of(self.entries@)[addr] == e2.bytes@);
                } else if ss0[k].addr != 0 {
                    let q = choose|q: int| 0 <= q < es0.len() && es0[q].addr == ss0[k].addr;
                    assert(self.entries@[q].addr == ss0[k].addr);
                    if k < si as int {
                        assert(ss0[k].addr != ss0[si as int].addr);
                    } else {
                        assert(ss0[si as int].addr != ss0[k].addr);
                    }
                    assert(store_of(self.entries@)[ss0[k].addr] == store_of(es0)[ss0[k].addr]);
                }
            }
        }
        Ok(())
    }

    fn flush_all(&mut self) -> (r: Result<(), CacheError>)
        ensures
            // The in-memory store cannot fail an I/O.
            r is Ok,
    {
        let ghost m0 = self.resident();
        let ghost s0 = self.store();
        let n = self.slots.len();
        let mut i: usize = 0;
        while i < n
            invariant
                self.inv(),
                n == self.slots@.len(),
                0 <= i <= n,
                self.capacity() == n,
                s0 == old(self).store(),
                m0 == old(self).resident(),
                self.resident().dom() == m0.dom(),
                forall|a: u64|
                    m0.dom().contains(a) ==> self.resident()[a] == m0[a] || self.resident()[a]
                        == (PageModel { dirty: false, ..m0[a] }),
                forall|k: int|
                    0 <= k < i ==> !(#[trigger] self.slots@[k]).dirty,
                self.store().dom() == s0.dom(),
                forall|a: u64|
                    s0.dom().contains(a) && !m0.dom().contains(a) ==> self.store()[a] == s0[a],
            decreases n - i,
        {
            let ghost ssb = self.slots@;
            let ghost esb = self.entries@;
            let a = self.slots[i].addr;
            if a != 0 && self.slots[i].dirty {
                proof {
                    lemma_slot_at(ssb, i as int);
                    assert(slot_wf(ssb[i as int], esb));
                }
                let ve = match self.find_entry(a) {
                    None => {
                        proof {
                            let k = choose|k: int| 0 <= k < esb.len() && esb[k].addr == a;
                            assert(false);
                        }
                        return Err(CacheError::IoError);
                    },
                    Some(ve) => ve,
                };
                let flushed = copy_bytes(&self.slots[i].buf);
                let e2 = StoreEntry { addr: a, bytes: flushed };
                proof {
                    lemma_store_update(esb, ve as int, e2);
                }
                self.entries[ve] = e2;
                self.slots[i].dirty = false;
                proof {
                    assert(self.entries@ =~= esb.update(ve as int, e2));
                    let s2 = self.slots@[i as int];
                    assert(self.slots@ =~= ssb.update(i as int, s2));
                    assert forall|j: int| 0 <= j < ssb.len() && j != i as int implies ssb[j].addr
                        != a by {
                        if j < i as int {
                            assert(ssb[j].addr != ssb[i as int].addr || ssb[j].addr == 0);
                        } else {
                            assert(ssb[i as int].addr != ssb[j].addr);
                        }
                    }
                    lemma_resident_update(ssb, i as int, s2);
                    let mb = resident_of(ssb);
                    assert(mb.remove(a).insert(a, slot_model(s2)) =~= clean_model(mb, a));
                    assert forall|k: int| 0 <= k < self.entries@.len() implies (
                    #[trigger] self.entries@[k]).addr != 0 && self.entries@[k].bytes@.len()
                        == PAGE_SIZE by {
                        if k != ve as int {
                            assert(self.entries@[k] == esb[k]);
                        }
                    }
                    assert forall|k: int| 0 <= k < self.slots@.len() implies slot_wf(
                        #[trigger] self.slots@[k],
                        self.entries@,
                    ) by {
                        assert(slot_wf(ssb[k], esb));
                        if k == i as int {
                            assert(store_of(self.entries@)[a] == e2.bytes@);
                        } else if ssb[k].addr != 0 {
                            let q = choose|q: int|
                                0 <= q < esb.len() && esb[q].addr == ssb[k].addr;
                            assert(self.entries@[q].addr == ssb[k].addr);
                            assert(ssb[k].addr != a);
                            assert(store_of(self.entries@)[ssb[k].addr] == store_of(esb)[
                                ssb[k].addr
                            ]);
                        }
                    }
                    assert(self.resident().dom() =~= m0.dom());
                    assert(self.store().dom() =~= s0.dom()) by {
                        assert(store_of(esb).dom().contains(a));
                    }
                    assert forall|b: u64|
                        s0.dom().contains(b) && !m0.dom().contains(b) implies self.store()[b]
                        == s0[b] by {
                        assert(resident_of(ssb).dom().contains(a));
                        assert(b != a);
                    }
                }
            }
            i += 1;
        }
        proof {
            assert forall|a: u64| m0.dom().contains(a) implies self.resident()[a] == (PageModel {
                dirty: false,
                ..m0[a]
            }) && self.store().dom().contains(a) && self.store()[a] == m0[a].bytes by {
                let k = slot_index(self.slots@, a);
                assert(0 <= k < self.slots@.len() && self.slots@[k].addr == a);
                lemma_slot_at(self.slots@, k);
                assert(!self.slots@[k].dirty);
                assert(slot_wf(self.slots@[k], self.entries@));
            }
        }
        Ok(())
    }

    fn ref_count(&self, addr: u64) -> (n: u64) {
        match self.find_slot(addr) {
            None => {
                proof {
                    if self.resident().dom().contains(addr) {
                        let k = slot_index(self.slots@, addr);
                        assert(0 <= k < self.slots@.len() && self.slots@[k].addr == addr);
                        assert(false);
                    }
                }
                0
            },
            Some(i) => {
                proof {
                    if addr != 0 {
                        lemma_slot_at(self.slots@, i as int);
                    }
                }
                if addr == 0 {
                    0
                } else {
                    self.slots[i].pins
                }
            },
        }
    }

    fn resident_type(&self, addr: u64) -> (r: Option<PageType>) {
        match self.find_slot(addr) {
            None => {
                proof {
                    if self.resident().dom().contains(addr) {
                        let k = slot_index(self.slots@, addr);
                        assert(0 <= k < self.slots@.len() && self.slots@[k].addr == addr);
                        assert(false);
                    }
                }
                None
            },
            Some(i) => {
                proof {
                    if addr != 0 {
                        lemma_slot_at(self.slots@, i as int);
                    }
                }
                if addr == 0 {
                    None
                } else {
                    Some(self.slots[i].ptype)
                }
            },
        }
    }
}

/// Structural equality on page types.
fn types_equal(a: PageType, b: PageType) -> (r: bool)
    ensures
        r == (a == b),
{
    a == b
}

impl MemCache {
    /// Index of the slot holding `addr`.
    fn find_slot(&self, addr: u64) -> (r: Option<usize>)
        ensures
            match r {
                Some(i) => i < self.slots@.len() && self.slots@[i as int].addr == addr,
                None => forall|k: int| 0 <= k < self.slots@.len() ==> self.slots@[k].addr != addr,
            },
    {
        let n = self.slots.len();
        let mut i: usize = 0;
        while i < n
            invariant
                0 <= i <= n,
                n == self.slots@.len(),
                forall|k: int| 0 <= k < i ==> self.slots@[k].addr != addr,
            decreases n - i,
        {
            if self.slots[i].addr == addr {
                return Some(i);
            }
            i += 1;
        }
        None
    }

    /// Index of the store entry holding `addr`.
    fn find_entry(&self, addr: u64) -> (r: Option<usize>)
        ensures
            match r {
                Some(i) => i < self.entries@.len() && self.entries@[i as int].addr == addr,
                None => forall|k: int|
                    0 <= k < self.entries@.len() ==> self.entries@[k].addr != addr,
            },
    {
        let n = self.entries.len();
        let mut i: usize = 0;
        while i < n
            invariant
                0 <= i <= n,
                n == self.entries@.len(),
                forall|k: int| 0 <= k < i ==> self.entries@[k].addr != addr,
            decreases n - i,
        {
            if self.entries[i].addr == addr {
                return Some(i);
            }
            i += 1;
        }
        None
    }

    /// Index of some unpinned (free or evictable) slot.
    fn find_victim(&self) -> (r: Option<usize>)
        ensures
            match r {
                Some(i) => i < self.slots@.len() && self.slots@[i as int].pins == 0,
                None => forall|k: int| 0 <= k < self.slots@.len() ==> self.slots@[k].pins > 0,
            },
    {
        let n = self.slots.len();
        let mut i: usize = 0;
        while i < n
            invariant
                0 <= i <= n,
                n == self.slots@.len(),
                forall|k: int| 0 <= k < i ==> self.slots@[k].pins > 0,
            decreases n - i,
        {
            if self.slots[i].pins == 0 {
                return Some(i);
            }
            i += 1;
        }
        None
    }
}

} // verus!
