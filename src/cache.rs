//! The paged buffer cache: a fixed set of page-sized slots, LRU eviction of
//! unlocked pages, and read/write locks granted in FIFO order per page.
use vstd::prelude::*;
use std::collections::{HashMap, VecDeque};
use std::sync::mpsc::{Receiver, Sender};
use lru_cache::LruCache;
use crate::Result;
use crate::page::{PAGE_SIZE, PageId};
use crate::lru::{
    lru_entries, lru_capacity, keys_unique, has_key, key_pos, lru_new, lru_contains,
    lru_insert, lru_remove, lru_pop_oldest, lru_len, refreshed, lemma_remove_entry,
    lemma_drop_first_is_remove, lemma_push_entry, lemma_key_pos_push,
};
use vstd::set_lib::{set_int_range, lemma_int_range, lemma_len_subset};
use crate::channel::{release_channel, clone_sender, send_on, drain_queued};

verus! {

broadcast use vstd::std_specs::hash::group_hash_axioms;

/// Many read locks, or a single write lock, can be held against a page.
#[derive(Debug, PartialEq, Eq, Clone, Copy, Structural)]
pub enum LockType {
    Read,
    Write,
}

/// A request for a lock that could not be granted yet; retried in the order
/// received.
pub struct LockRequest {
    lock_type: LockType,
    channel: Sender<PageLock>,
}

impl LockRequest {
    pub closed spec fn kind(&self) -> LockType {
        self.lock_type
    }

    pub fn new(lock_type: LockType, channel: Sender<PageLock>) -> (r: LockRequest)
        ensures
            r.kind() == lock_type,
    {
        LockRequest { lock_type, channel }
    }
}

/// A claim on a page: while it lives, the page keeps its slot. Dropping it
/// posts the page id to the cache's release channel for its lock kind.
pub struct PageLock {
    channel: Sender<PageId>,
    page_id: PageId,
    index: u64,
    lock_type: LockType,
}

impl PageLock {
    pub closed spec fn spec_page_id(&self) -> PageId {
        self.page_id
    }

    pub closed spec fn spec_index(&self) -> u64 {
        self.index
    }

    pub closed spec fn spec_lock_type(&self) -> LockType {
        self.lock_type
    }

    pub fn new(channel: Sender<PageId>, page_id: PageId, index: u64, lock_type: LockType) -> (r: PageLock)
        ensures
            r.spec_page_id() == page_id,
            r.spec_index() == index,
            r.spec_lock_type() == lock_type,
    {
        PageLock { channel, page_id, index, lock_type }
    }

    /// The locked page.
    pub fn page_id(&self) -> (r: PageId)
        ensures
            r == self.spec_page_id(),
    {
        self.page_id
    }

    /// The slot holding the page.
    pub fn index(&self) -> (r: u64)
        ensures
            r == self.spec_index(),
    {
        self.index
    }

    pub fn lock_type(&self) -> (r: LockType)
        ensures
            r == self.spec_lock_type(),
    {
        self.lock_type
    }
}

impl Drop for PageLock {
    fn drop(&mut self)
        opens_invariants none
        no_unwind
    {
        send_on(&self.channel, self.page_id);
    }
}

/// Active references per page, with the channel on which dropped locks
/// report back.
pub struct ActiveRefCount {
    active_count: HashMap<PageId, u64>,
    sender: Sender<PageId>,
    receiver: Receiver<PageId>,
}

impl ActiveRefCount {
    /// The number of active references to `key`.
    pub closed spec fn count(&self, key: PageId) -> nat {
        if self.active_count@.contains_key(key) {
            self.active_count@[key] as nat
        } else {
            0
        }
    }

    pub fn new(size: usize) -> (r: ActiveRefCount)
        ensures
            forall|k: PageId| r.count(k) == 0,
    {
        let (sender, receiver) = release_channel();
        ActiveRefCount { active_count: HashMap::with_capacity(size), sender, receiver }
    }

    pub fn active(&self, key: &PageId) -> (r: u64)
        ensures
            r == self.count(*key),
    {
        match self.active_count.get(key) {
            Some(n) => *n,
            None => 0,
        }
    }

    fn add(&mut self, key: PageId)
        requires
            old(self).count(key) < u64::MAX,
        ensures
            final(self).count(key) == old(self).count(key) + 1,
            forall|k: PageId| k != key ==> final(self).count(k) == old(self).count(k),
    {
        let n = self.active(&key);
        self.active_count.insert(key, n + 1);
    }

    fn sub(&mut self, key: PageId)
        requires
            old(self).count(key) > 0,
        ensures
            final(self).count(key) == old(self).count(key) - 1,
            forall|k: PageId| k != key ==> final(self).count(k) == old(self).count(k),
    {
        let n = self.active(&key);
        self.active_count.insert(key, n - 1);
    }
}

/// A lock of `kind` can be granted on a page with `readers` and `writers`
/// active, where `loadable` says the page is resident or a slot can be had.
pub open spec fn grantable(kind: LockType, readers: nat, writers: nat, loadable: bool) -> bool {
    &&& loadable
    &&& writers == 0
    &&& match kind {
        LockType::Read => readers < u64::MAX,
        LockType::Write => readers == 0,
    }
}

/// How many requests at the head of the queue `q` are granted, in order, until
/// the first that cannot be. After a grant the page is resident.
pub open spec fn grant_count(q: Seq<LockType>, readers: nat, writers: nat, loadable: bool) -> nat
    decreases q.len(),
{
    if q.len() > 0 && grantable(q[0], readers, writers, loadable) {
        1 + grant_count(
            q.drop_first(),
            if q[0] is Read { readers + 1 } else { readers },
            if q[0] is Write { writers + 1 } else { writers },
            true,
        )
    } else {
        0
    }
}

/// The number of requests of `kind` in `q`.
pub open spec fn kind_count(q: Seq<LockType>, kind: LockType) -> nat
    decreases q.len(),
{
    if q.len() == 0 {
        0
    } else {
        kind_count(q.drop_last(), kind) + if q.last() == kind { 1nat } else { 0nat }
    }
}

/// Maps page ids to slots of working memory; unlocked resident pages sit in
/// an LRU and are evicted least recently used first.
pub struct PageTable {
    page_count: u64,
    /// pages currently resident -> slot
    page_map: HashMap<PageId, u64>,
    /// resident pages with no active lock -> slot
    page_lru: LruCache<PageId, u64>,
    /// active readers per page
    reader_count: ActiveRefCount,
    /// active writers per page (at most one)
    writer_count: ActiveRefCount,
    /// requests not yet granted, per page, in arrival order
    pending_requests: HashMap<PageId, VecDeque<LockRequest>>,
    /// slots never used so far
    available_slots: Vec<u64>,
}

impl PageTable {
    /// The number of slots.
    pub closed spec fn capacity(&self) -> nat {
        self.page_count as nat
    }

    /// Idle resident pages with their slots, least recently used first.
    pub closed spec fn lru(&self) -> Seq<(PageId, u64)> {
        lru_entries(self.page_lru)
    }

    /// Resident pages and their slots.
    pub closed spec fn slots(&self) -> Map<PageId, u64> {
        self.page_map@
    }

    /// Slots not holding any page.
    pub closed spec fn free(&self) -> Seq<u64> {
        self.available_slots@
    }

    pub closed spec fn readers(&self, id: PageId) -> nat {
        self.reader_count.count(id)
    }

    pub closed spec fn writers(&self, id: PageId) -> nat {
        self.writer_count.count(id)
    }

    /// The kinds of the requests waiting on `id`, oldest first.
    pub closed spec fn pending(&self, id: PageId) -> Seq<LockType> {
        if self.pending_requests@.contains_key(id) {
            self.pending_requests@[id]@.map_values(|r: LockRequest| r.kind())
        } else {
            Seq::empty()
        }
    }

    pub open spec fn resident(&self, id: PageId) -> bool {
        self.slots().contains_key(id)
    }

    pub open spec fn locked(&self, id: PageId) -> bool {
        self.readers(id) > 0 || self.writers(id) > 0
    }

    pub open spec fn idle(&self, id: PageId) -> bool {
        has_key(self.lru(), id)
    }

    /// A page that is not resident could be given a slot now.
    pub open spec fn loadable(&self) -> bool {
        self.free().len() > 0 || self.lru().len() > 0
    }

    /// The invariants that hold between operations.
    pub closed spec fn wf(&self) -> bool {
        &&& self.slots_wf()
        &&& self.locks_wf()
    }

    /// Slots: each resident page holds a distinct slot below the capacity,
    /// and the unused slots are distinct from those and from each other.
    pub closed spec fn slots_wf(&self) -> bool {
        &&& self.page_count <= usize::MAX
        &&& forall|id: PageId| #[trigger] self.slots().contains_key(id) ==> self.slots()[id] < self.page_count
        &&& forall|a: PageId, b: PageId|
            #[trigger] self.slots().contains_key(a) && #[trigger] self.slots().contains_key(b) && a != b
                ==> self.slots()[a] != self.slots()[b]
        &&& forall|i: int| 0 <= i < self.free().len() ==> #[trigger] self.free()[i] < self.page_count
        &&& forall|i: int, j: int| 0 <= i < self.free().len() && 0 <= j < self.free().len() && i != j
            ==> #[trigger] self.free()[i] != #[trigger] self.free()[j]
        &&& forall|i: int, id: PageId| 0 <= i < self.free().len() && #[trigger] self.slots().contains_key(id)
            ==> #[trigger] self.free()[i] != self.slots()[id]
    }

    /// Locks and the LRU: a page is resident iff idle or locked; idle pages
    /// carry their slot and no lock; at most one writer, never beside readers.
    pub closed spec fn locks_wf(&self) -> bool {
        &&& lru_capacity(self.page_lru) == self.page_count
        &&& keys_unique(self.lru())
        &&& forall|i: int| 0 <= i < self.lru().len() ==> {
            let (k, s) = #[trigger] self.lru()[i];
            &&& self.slots().contains_key(k)
            &&& self.slots()[k] == s
            &&& !self.locked(k)
        }
        &&& forall|id: PageId| #[trigger] self.slots().contains_key(id) ==> (self.idle(id) || self.locked(id))
        &&& forall|id: PageId| #[trigger] self.locked(id) ==> self.slots().contains_key(id)
        &&& forall|id: PageId| #[trigger] self.writers(id) <= 1 && (self.writers(id) > 0 ==> self.readers(id) == 0)
    }

    proof fn lemma_slot_below_capacity(t: PageTable, id: PageId)
        requires
            t.wf(),
            t.resident(id),
        ensures
            t.slots()[id] < t.capacity(),
    {
        assert(t.slots().contains_key(id));
    }

    /// A grant's effect on slots keeps the slot invariant.
    proof fn lemma_load_slots(o: PageTable, t: PageTable, id: PageId)
        requires
            o.wf(),
            t.page_count == o.page_count,
            load_effect(o, t, id),
            o.resident(id) || o.loadable(),
        ensures
            t.slots_wf(),
    {
        if o.resident(id) {
            PageTable::lemma_slots_frame(o, t);
        } else if o.free().len() > 0 {
            let f = o.free();
            let x = f.last();
            assert(x == f[f.len() - 1]);
            assert forall|a: PageId| #[trigger] t.slots().contains_key(a) implies t.slots()[a] < t.page_count by {
                if a != id {
                    assert(o.slots().contains_key(a));
                }
            }
            assert forall|a: PageId, b: PageId|
                #[trigger] t.slots().contains_key(a) && #[trigger] t.slots().contains_key(b) && a != b
                    implies t.slots()[a] != t.slots()[b] by {
                if a != id {
                    assert(o.slots().contains_key(a));
                }
                if b != id {
                    assert(o.slots().contains_key(b));
                }
            }
            assert forall|i: int, j: int| 0 <= i < t.free().len() && 0 <= j < t.free().len() && i != j
                implies #[trigger] t.free()[i] != #[trigger] t.free()[j] by {
                assert(t.free()[i] == f[i] && t.free()[j] == f[j]);
            }
            assert forall|i: int, a: PageId| 0 <= i < t.free().len() && #[trigger] t.slots().contains_key(a)
                implies #[trigger] t.free()[i] != t.slots()[a] by {
                assert(t.free()[i] == f[i]);
                if a != id {
                    assert(o.slots().contains_key(a));
                }
            }
            assert forall|i: int| 0 <= i < t.free().len() implies #[trigger] t.free()[i] < t.page_count by {
                assert(t.free()[i] == f[i]);
            }
        } else {
            let (k, x) = o.lru()[0];
            assert(o.slots().contains_key(k) && o.slots()[k] == x);
            assert(k != id);
            assert forall|a: PageId| #[trigger] t.slots().contains_key(a) implies t.slots()[a] < t.page_count by {
                if a != id {
                    assert(o.slots().contains_key(a));
                }
            }
            assert forall|a: PageId, b: PageId|
                #[trigger] t.slots().contains_key(a) && #[trigger] t.slots().contains_key(b) && a != b
                    implies t.slots()[a] != t.slots()[b] by {
                if a != id {
                    assert(o.slots().contains_key(a));
                }
                if b != id {
                    assert(o.slots().contains_key(b));
                }
            }
            assert(t.free().len() == 0);
        }
    }

    /// The lock invariant carries over to `t` from `o` when slots and unused
    /// slots are kept, pages other than `id` keep their counts and stay idle
    /// if they were, `id` itself is consistent, and every LRU entry of `t` is
    /// either `id` in its slot while unlocked, or an idle page of `o` in its
    /// slot.
    proof fn lemma_locks_carry(o: PageTable, t: PageTable, id: PageId)
        requires
            o.wf(),
            t.page_count == o.page_count,
            t.page_map@ == o.page_map@,
            t.available_slots@ == o.available_slots@,
            lru_capacity(t.page_lru) == lru_capacity(o.page_lru),
            keys_unique(t.lru()),
            forall|x: PageId| #![trigger t.readers(x)] #![trigger t.writers(x)] x != id
                ==> t.readers(x) == o.readers(x) && t.writers(x) == o.writers(x),
            forall|x: PageId| x != id && #[trigger] o.idle(x) ==> t.idle(x),
            t.writers(id) <= 1 && (t.writers(id) > 0 ==> t.readers(id) == 0),
            t.locked(id) ==> t.resident(id),
            t.resident(id) ==> t.idle(id) || t.locked(id),
            forall|i: int| 0 <= i < t.lru().len() ==> {
                let (k, s) = #[trigger] t.lru()[i];
                if k == id {
                    t.resident(id) && s == t.slots()[id] && !t.locked(id)
                } else {
                    o.idle(k) && s == o.slots()[k]
                }
            },
        ensures
            t.wf(),
    {
        PageTable::lemma_slots_frame(o, t);
        assert forall|x: PageId| x != id implies #[trigger] t.locked(x) == o.locked(x) by {
            assert(t.readers(x) == o.readers(x) && t.writers(x) == o.writers(x));
        }
        assert forall|x: PageId| #[trigger] o.idle(x) implies o.resident(x) && !o.locked(x) by {
            let i = choose|i: int| 0 <= i < o.lru().len() && o.lru()[i].0 == x;
            let (k, v) = o.lru()[i];
        }
        assert forall|i: int| 0 <= i < t.lru().len() implies {
            let (k, s) = #[trigger] t.lru()[i];
            &&& t.slots().contains_key(k)
            &&& t.slots()[k] == s
            &&& !t.locked(k)
        } by {
            let (k, s) = t.lru()[i];
            if k != id {
                assert(o.idle(k));
                assert(t.locked(k) == o.locked(k));
            }
        }
        assert forall|x: PageId| #[trigger] t.slots().contains_key(x) implies (t.idle(x) || t.locked(x)) by {
            if x != id {
                assert(o.slots().contains_key(x));
                assert(o.idle(x) || o.locked(x));
                assert(t.locked(x) == o.locked(x));
            }
        }
        assert forall|x: PageId| #[trigger] t.locked(x) implies t.slots().contains_key(x) by {
            if x != id {
                assert(t.locked(x) == o.locked(x));
                assert(o.locked(x));
            }
        }
        assert forall|x: PageId| #[trigger] t.writers(x) <= 1 && (t.writers(x) > 0 ==> t.readers(x) == 0) by {
            if x != id {
                assert(o.writers(x) <= 1 && (o.writers(x) > 0 ==> o.readers(x) == 0));
                assert(t.readers(x) == o.readers(x) && t.writers(x) == o.writers(x));
            }
        }
    }

    proof fn lemma_slots_frame(a: PageTable, b: PageTable)
        requires
            a.slots_wf(),
            a.page_count == b.page_count,
            a.page_map@ == b.page_map@,
            a.available_slots@ == b.available_slots@,
        ensures
            b.slots_wf(),
    {
        assert(a.slots() == b.slots());
        assert(a.free() == b.free());
    }
}


/// Every page other than `id` keeps its lock counts, no page other than `id`
/// gains a slot or moves, and every locked page other than `id` stays put.
pub open spec fn others_kept(a: PageTable, b: PageTable, id: PageId) -> bool {
    &&& forall|o: PageId| #![trigger b.readers(o)] #![trigger b.writers(o)] o != id
        ==> b.readers(o) == a.readers(o) && b.writers(o) == a.writers(o)
    &&& forall|o: PageId| o != id && #[trigger] b.resident(o) ==> a.resident(o) && b.slots()[o] == a.slots()[o]
    &&& forall|o: PageId| o != id && #[trigger] a.locked(o) ==> b.resident(o) && b.slots()[o] == a.slots()[o]
}

/// The effect of a grant on `id` on slots, unused slots and the LRU: a
/// resident page keeps its slot and leaves the LRU; otherwise it takes the
/// last unused slot, or else the slot of the least recently used idle page,
/// which is evicted.
pub open spec fn load_effect(a: PageTable, b: PageTable, id: PageId) -> bool {
    if a.resident(id) {
        &&& b.slots() == a.slots()
        &&& b.free() == a.free()
        &&& b.lru() == (if a.idle(id) { a.lru().remove(key_pos(a.lru(), id)) } else { a.lru() })
    } else if a.free().len() > 0 {
        &&& b.slots() == a.slots().insert(id, a.free().last())
        &&& b.free() == a.free().drop_last()
        &&& b.lru() == a.lru()
    } else {
        &&& b.slots() == a.slots().remove(a.lru()[0].0).insert(id, a.lru()[0].1)
        &&& b.lru() == a.lru().drop_first()
        &&& b.free() == a.free()
    }
}

impl PageTable {
    /// The idle pages hold distinct slots below the capacity, none of them the
    /// slot of `id`; so the LRU has room for `id`.
    proof fn lemma_lru_room(&self, id: PageId)
        requires
            self.wf(),
            self.resident(id),
            !self.idle(id),
        ensures
            self.lru().len() < self.capacity(),
    {
        let s = self.lru();
        let vals = Seq::new(s.len(), |i: int| s[i].1 as int);
        assert forall|i: int, j: int| 0 <= i < vals.len() && 0 <= j < vals.len() && i != j implies vals[i] != vals[j] by {
            let (ki, si) = s[i];
            let (kj, sj) = s[j];
            assert(self.slots().contains_key(ki) && self.slots().contains_key(kj));
        }
        assert(vals.no_duplicates());
        vals.unique_seq_to_set();
        let slot = self.slots()[id] as int;
        let room = set_int_range(0, self.capacity() as int).remove(slot);
        lemma_int_range(0, self.capacity() as int);
        assert forall|x: int| vals.to_set().contains(x) implies room.contains(x) by {
            let i = choose|i: int| 0 <= i < vals.len() && vals[i] == x;
            let (k, v) = s[i];
            assert(self.slots().contains_key(k));
            if k == id {
                assert(has_key(s, id));
            }
        }
        lemma_len_subset(vals.to_set(), room);
    }

    /// Grants a lock of `kind` on `id`, giving the page a slot if it has none:
    /// a never used slot first, else the least recently used idle page's.
    fn lock_page(&mut self, id: PageId, kind: LockType) -> (lock: PageLock)
        requires
            old(self).wf(),
            grantable(kind, old(self).readers(id), old(self).writers(id), old(self).resident(id) || old(self).loadable()),
        ensures
            final(self).wf(),
            final(self).resident(id),
            !final(self).idle(id),
            old(self).resident(id) ==> final(self).slots()[id] == old(self).slots()[id],
            !old(self).resident(id) && old(self).free().len() > 0 ==> final(self).slots()[id] == old(self).free().last()
                && final(self).free() == old(self).free().drop_last() && final(self).lru() == old(self).lru(),
            !old(self).resident(id) && old(self).free().len() == 0 ==> final(self).slots()[id] == old(self).lru()[0].1
                && !final(self).resident(old(self).lru()[0].0) && final(self).lru() == old(self).lru().drop_first(),
            load_effect(*old(self), *final(self), id),
            lock.spec_page_id() == id,
            lock.spec_index() == final(self).slots()[id],
            lock.spec_lock_type() == kind,
            final(self).readers(id) == old(self).readers(id) + if kind is Read { 1nat } else { 0nat },
            final(self).writers(id) == old(self).writers(id) + if kind is Write { 1nat } else { 0nat },
            others_kept(*old(self), *final(self), id),
            forall|o: PageId| #[trigger] final(self).pending(o) == old(self).pending(o),
            final(self).pending_requests@ == old(self).pending_requests@,
            final(self).capacity() == old(self).capacity(),
    {
        let ghost s0 = self.lru();
        assert(forall|i: int| 0 <= i < self.free().len() ==> #[trigger] self.free()[i] < self.page_count);
        let slot: u64;
        if self.page_map.contains_key(&id) {
            slot = *self.page_map.get(&id).unwrap();
            if self.idle_exec(id) {
                proof {
                    lemma_remove_entry(s0, key_pos(s0, id));
                }
                lru_remove(&mut self.page_lru, id);
            } else {
                proof {
                    assert(!has_key(s0, id));
                }
            }
        } else {
            proof {
                assert(!has_key(s0, id)) by {
                    if has_key(s0, id) {
                        let i = choose|i: int| 0 <= i < s0.len() && s0[i].0 == id;
                        assert(self.slots().contains_key(s0[i].0));
                    }
                }
            }
            match self.available_slots.pop() {
                Some(s) => {
                    slot = s;
                    assert(forall|i: int| 0 <= i < self.free().len() ==> #[trigger] self.free()[i] < self.page_count);
                },
                None => {
                    proof {
                        lemma_drop_first_is_remove(s0);
                        lemma_remove_entry(s0, 0);
                    }
                    let (old_id, s) = lru_pop_oldest(&mut self.page_lru).unwrap();
                    self.page_map.remove(&old_id);
                    slot = s;
                },
            }
            self.page_map.insert(id, slot);
        }
        let channel = match kind {
            LockType::Read => {
                self.reader_count.add(id);
                clone_sender(&self.reader_count.sender)
            },
            LockType::Write => {
                self.writer_count.add(id);
                clone_sender(&self.writer_count.sender)
            },
        };
        proof {
            let t = *self;
            let o0 = *old(self);
            assert(load_effect(o0, t, id));
            PageTable::lemma_load_slots(o0, t, id);
            assert forall|o: PageId| #[trigger] t.writers(o) <= 1 && (t.writers(o) > 0 ==> t.readers(o) == 0) by {
                assert(o0.writers(o) <= 1 && (o0.writers(o) > 0 ==> o0.readers(o) == 0));
            }
            assert forall|o: PageId| #[trigger] t.locked(o) implies t.slots().contains_key(o) by {
                if o != id {
                    assert(o0.readers(o) == t.readers(o) && o0.writers(o) == t.writers(o));
                    assert(o0.locked(o));
                    assert(o0.slots().contains_key(o));
                }
            }
            assert forall|o: PageId| #[trigger] t.slots().contains_key(o) implies (t.idle(o) || t.locked(o)) by {
                if o != id {
                    assert(o0.readers(o) == t.readers(o) && o0.writers(o) == t.writers(o));
                    assert(o0.slots().contains_key(o));
                    assert(o0.idle(o) || o0.locked(o));
                    if o0.idle(o) && !o0.locked(o) {
                        let i = choose|i: int| 0 <= i < o0.lru().len() && o0.lru()[i].0 == o;
                        assert(has_key(o0.lru(), o));
                    }
                }
            }
        }
        PageLock::new(channel, id, slot, kind)
    }

    fn idle_exec(&self, id: PageId) -> (r: bool)
        requires
            self.wf(),
        ensures
            r == self.idle(id),
    {
        proof {
            if self.idle(id) {
                let i = choose|i: int| 0 <= i < self.lru().len() && self.lru()[i].0 == id;
                let (k, v) = self.lru()[i];
            }
            if self.slots().contains_key(id) {
                assert(self.idle(id) || self.locked(id));
            }
        }
        self.page_map.contains_key(&id) && self.reader_count.active(&id) == 0 && self.writer_count.active(&id) == 0
    }
}


impl PageTable {
    /// A page table for `size` bytes of working memory: `size / PAGE_SIZE`
    /// slots, all unused; the lowest slots are handed out first.
    pub fn new(size: u64) -> (r: PageTable)
        requires
            size / PAGE_SIZE <= usize::MAX,
        ensures
            r.wf(),
            r.capacity() == size / PAGE_SIZE,
            r.free() == Seq::new((size / PAGE_SIZE) as nat, |i: int| (size / PAGE_SIZE - 1 - i) as u64),
            r.lru().len() == 0,
            forall|id: PageId| !(#[trigger] r.resident(id)) && r.readers(id) == 0 && r.writers(id) == 0
                && r.pending(id).len() == 0,
    {
        let pages = size / PAGE_SIZE;
        let mut available_slots: Vec<u64> = Vec::new();
        let mut n: u64 = pages;
        while n > 0
            invariant
                n <= pages,
                available_slots@ == Seq::new((pages - n) as nat, |i: int| (pages - 1 - i) as u64),
            decreases n,
        {
            n = n - 1;
            available_slots.push(n);
            assert(available_slots@ =~= Seq::new((pages - n) as nat, |i: int| (pages - 1 - i) as u64));
        }
        let t = PageTable {
            page_count: pages,
            page_map: HashMap::new(),
            page_lru: lru_new(pages as usize),
            reader_count: ActiveRefCount::new(pages as usize),
            writer_count: ActiveRefCount::new(pages as usize),
            pending_requests: HashMap::with_capacity(0x100),
            available_slots,
        };
        assert(t.pending_requests@ =~= Map::empty());
        t
    }

    /// Active read locks on `id`.
    pub fn active_readers(&self, id: &PageId) -> (r: u64)
        ensures
            r == self.readers(*id),
    {
        self.reader_count.active(id)
    }

    /// Active write locks on `id`.
    pub fn active_writers(&self, id: &PageId) -> (r: u64)
        ensures
            r == self.writers(*id),
    {
        self.writer_count.active(id)
    }

    /// The grant rule for a request of `kind` on `id` in the current state.
    fn can_grant_lock(&self, id: PageId, kind: LockType) -> (r: bool)
        requires
            self.wf(),
        ensures
            r == (grantable(kind, self.readers(id), self.writers(id), self.resident(id) || self.loadable())
                && queue_allows(*self, id, kind)),
    {
        let queue_ok = match kind {
            LockType::Write => true,
            LockType::Read => match self.pending_requests.get(&id) {
                None => true,
                Some(q) => q.len() == 0 || match q[0].lock_type {
                    LockType::Read => true,
                    LockType::Write => false,
                },
            },
        };
        let loadable = self.page_map.contains_key(&id) || self.available_slots.len() > 0
            || lru_len(&self.page_lru) > 0;
        let readers = self.reader_count.active(&id);
        let writers = self.writer_count.active(&id);
        queue_ok && loadable && writers == 0 && match kind {
            LockType::Read => readers < u64::MAX,
            LockType::Write => readers == 0,
        }
    }
}


/// The kinds of a queue of requests.
pub open spec fn kinds(q: Seq<LockRequest>) -> Seq<LockType> {
    q.map_values(|r: LockRequest| r.kind())
}

impl PageTable {
    /// Only the pending queues differ between `a` and `b`.
    proof fn lemma_frame_pending(a: PageTable, b: PageTable)
        requires
            a.wf(),
            a.page_count == b.page_count,
            a.page_map@ == b.page_map@,
            a.page_lru == b.page_lru,
            a.reader_count.active_count@ == b.reader_count.active_count@,
            a.writer_count.active_count@ == b.writer_count.active_count@,
            a.available_slots@ == b.available_slots@,
        ensures
            b.wf(),
            b.slots() == a.slots(),
            b.lru() == a.lru(),
            b.free() == a.free(),
            forall|o: PageId| #[trigger] b.readers(o) == a.readers(o) && b.writers(o) == a.writers(o),
            forall|o: PageId| #[trigger] b.locked(o) == a.locked(o),
            forall|o: PageId| #[trigger] b.idle(o) == a.idle(o),
    {
        assert(b.slots() == a.slots());
        assert(b.lru() == a.lru());
        assert(b.free() == a.free());
        assert forall|o: PageId| #[trigger] b.readers(o) == a.readers(o) && b.writers(o) == a.writers(o) by {}
        assert forall|o: PageId| #[trigger] b.locked(o) == a.locked(o) by {
            assert(b.readers(o) == a.readers(o) && b.writers(o) == a.writers(o));
        }
        assert forall|i: int| 0 <= i < b.lru().len() implies {
            let (k, s) = #[trigger] b.lru()[i];
            &&& b.slots().contains_key(k)
            &&& b.slots()[k] == s
            &&& !b.locked(k)
        } by {
            let (k, s) = a.lru()[i];
            assert(b.locked(k) == a.locked(k));
        }
        assert forall|id: PageId| #[trigger] b.slots().contains_key(id) implies (b.idle(id) || b.locked(id)) by {
            assert(a.slots().contains_key(id));
            assert(b.locked(id) == a.locked(id));
        }
        assert forall|id: PageId| #[trigger] b.locked(id) implies b.slots().contains_key(id) by {
            assert(b.locked(id) == a.locked(id));
        }
        assert forall|id: PageId| #[trigger] b.writers(id) <= 1 && (b.writers(id) > 0 ==> b.readers(id) == 0) by {
            assert(b.readers(id) == a.readers(id) && b.writers(id) == a.writers(id));
        }
    }

    /// `others_kept` carries over a change of the pending queues alone.
    proof fn lemma_others_kept_frame(o: PageTable, a: PageTable, b: PageTable, id: PageId)
        requires
            a.wf(),
            others_kept(o, a, id),
            b.slots() == a.slots(),
            forall|x: PageId| #[trigger] b.readers(x) == a.readers(x) && b.writers(x) == a.writers(x),
        ensures
            others_kept(o, b, id),
    {
        assert forall|x: PageId| x != id && #[trigger] o.locked(x) implies b.resident(x) && b.slots()[x] == o.slots()[x] by {
            assert(a.resident(x));
        }
        assert forall|x: PageId| x != id implies #[trigger] b.readers(x) == o.readers(x) && b.writers(x) == o.writers(x) by {
            assert(a.readers(x) == o.readers(x) && a.writers(x) == o.writers(x));
        }
        assert forall|x: PageId| x != id && #[trigger] b.resident(x) implies o.resident(x) && b.slots()[x] == o.slots()[x] by {
            assert(a.resident(x));
        }
    }

    /// Grants the requests waiting on `id` from the head of its queue, in
    /// order, until one cannot be granted; each lock goes out on its
    /// request's channel.
    fn handle_pending_requests(&mut self, id: PageId)
        requires
            old(self).wf(),
        ensures
            final(self).wf(),
            ({
                let q = old(self).pending(id);
                let g = grant_count(q, old(self).readers(id), old(self).writers(id),
                    old(self).resident(id) || old(self).loadable());
                &&& g <= q.len()
                &&& final(self).pending(id) == q.subrange(g as int, q.len() as int)
                &&& final(self).readers(id) == old(self).readers(id) + kind_count(q.subrange(0, g as int), LockType::Read)
                &&& final(self).writers(id) == old(self).writers(id) + kind_count(q.subrange(0, g as int), LockType::Write)
                &&& g > 0 ==> final(self).resident(id) && !final(self).idle(id)
                &&& old(self).resident(id) ==> final(self).resident(id) && final(self).slots()[id] == old(self).slots()[id]
                &&& g == 0 ==> final(self).slots() == old(self).slots() && final(self).lru() == old(self).lru()
                    && final(self).free() == old(self).free()
                &&& g > 0 ==> load_effect(*old(self), *final(self), id)
            }),
            others_kept(*old(self), *final(self), id),
            forall|o: PageId| o != id ==> #[trigger] final(self).pending(o) == old(self).pending(o),
            final(self).capacity() == old(self).capacity(),
    {
        let ghost q = old(self).pending(id);
        let ghost r0 = old(self).readers(id);
        let ghost w0 = old(self).writers(id);
        let ghost l0 = old(self).resident(id) || old(self).loadable();
        let ghost others = old(self).pending_requests@.remove(id);
        match self.pending_requests.remove(&id) {
            None => {
                assert(q == Seq::<LockType>::empty());
                assert(self.pending_requests@ =~= old(self).pending_requests@);
                proof {
                    PageTable::lemma_frame_pending(*old(self), *self);
                    assert(others_kept(*old(self), *old(self), id));
                    PageTable::lemma_others_kept_frame(*old(self), *old(self), *self, id);
                }
            },
            Some(mut pending) => {
                proof {
                    PageTable::lemma_frame_pending(*old(self), *self);
                    assert(others_kept(*old(self), *old(self), id));
                    PageTable::lemma_others_kept_frame(*old(self), *old(self), *self, id);
                }
                let ghost k: int = 0;
                assert(kinds(pending@) == q);
                assert(q.subrange(0, 0) =~= Seq::<LockType>::empty());
                assert(q.subrange(0, q.len() as int) =~= q);
                while pending.len() > 0
                    invariant_except_break
                        self.wf(),
                        0 <= k <= q.len(),
                        kinds(pending@) == q.subrange(k, q.len() as int),
                        grant_count(q, r0, w0, l0) == k + grant_count(q.subrange(k, q.len() as int),
                            self.readers(id), self.writers(id), self.resident(id) || self.loadable()),
                        self.readers(id) == r0 + kind_count(q.subrange(0, k), LockType::Read),
                        self.writers(id) == w0 + kind_count(q.subrange(0, k), LockType::Write),
                        k > 0 ==> self.resident(id) && !self.idle(id),
                        k > 0 ==> load_effect(*old(self), *self, id),
                        old(self).resident(id) ==> self.resident(id) && self.slots()[id] == old(self).slots()[id],
                        k == 0 ==> self.slots() == old(self).slots() && self.lru() == old(self).lru()
                            && self.free() == old(self).free(),
                        others_kept(*old(self), *self, id),
                        self.pending_requests@ == others,
                        !others.contains_key(id),
                        self.capacity() == old(self).capacity(),
                    ensures
                        self.wf(),
                        0 <= k <= q.len(),
                        kinds(pending@) == q.subrange(k, q.len() as int),
                        grant_count(q, r0, w0, l0) == k,
                        self.readers(id) == r0 + kind_count(q.subrange(0, k), LockType::Read),
                        self.writers(id) == w0 + kind_count(q.subrange(0, k), LockType::Write),
                        k > 0 ==> self.resident(id) && !self.idle(id),
                        k > 0 ==> load_effect(*old(self), *self, id),
                        old(self).resident(id) ==> self.resident(id) && self.slots()[id] == old(self).slots()[id],
                        k == 0 ==> self.slots() == old(self).slots() && self.lru() == old(self).lru()
                            && self.free() == old(self).free(),
                        others_kept(*old(self), *self, id),
                        self.pending_requests@ == others,
                        self.capacity() == old(self).capacity(),
                    decreases pending@.len(),
                {
                    let ghost before = *self;
                    let ghost rest = q.subrange(k, q.len() as int);
                    let kind = pending[0].lock_type;
                    assert(kind == rest[0]);
                    assert(!self.pending_requests@.contains_key(id));
                    assert(self.pending(id).len() == 0);
                    if !self.can_grant_lock(id, kind) {
                        break;
                    }
                    let request = pending.pop_front().unwrap();
                    let lock = self.lock_page(id, request.lock_type);
                    send_on(&request.channel, lock);
                    proof {
                        assert(rest.drop_first() =~= q.subrange(k + 1, q.len() as int));
                        assert(q.subrange(0, k + 1).drop_last() =~= q.subrange(0, k));
                        assert(q.subrange(0, k + 1).last() == kind);
                        assert(kinds(pending@) =~= q.subrange(k + 1, q.len() as int));
                        k = k + 1;
                    }
                }
                proof {
                    if pending@.len() == 0 {
                        assert(q.subrange(k, q.len() as int).len() == 0);
                    }
                }
                let ghost before_insert = *self;
                self.pending_requests.insert(id, pending);
                proof {
                    PageTable::lemma_frame_pending(before_insert, *self);
                    PageTable::lemma_others_kept_frame(*old(self), before_insert, *self, id);
                }
            },
        }
    }
}


/// What handling a release notice for a `kind` lock on `id` does (see
/// `PageTable::release`): a notice for a page without such a lock changes
/// nothing; otherwise the count drops by one, and when the page's last lock
/// goes it re-enters the LRU in its slot and its queue is granted from the
/// head as far as the grant rule allows. No page moves or gains a slot.
pub open spec fn released(a: PageTable, b: PageTable, id: PageId, kind: LockType) -> bool {
    &&& count_of(a, id, kind) == 0 ==> b.slots() == a.slots() && b.lru() == a.lru() && b.free() == a.free()
        && b.readers(id) == a.readers(id) && b.writers(id) == a.writers(id) && b.pending(id) == a.pending(id)
    &&& count_of(a, id, kind) > 0 ==> {
        &&& b.resident(id)
        &&& b.slots() == a.slots()
        &&& b.free() == a.free()
        &&& count_of(a, id, kind) > 1 ==> count_of(b, id, kind) == count_of(a, id, kind) - 1
            && b.readers(id) + b.writers(id) == a.readers(id) + a.writers(id) - 1
            && b.pending(id) == a.pending(id) && b.lru() == a.lru()
        &&& count_of(a, id, kind) == 1 ==> {
            let q = a.pending(id);
            let g = grant_count(q, 0, 0, true);
            &&& b.pending(id) == q.subrange(g as int, q.len() as int)
            &&& b.readers(id) == kind_count(q.subrange(0, g as int), LockType::Read)
            &&& b.writers(id) == kind_count(q.subrange(0, g as int), LockType::Write)
            &&& g == 0 ==> b.idle(id) && b.lru() == a.lru().push((id, a.slots()[id]))
            &&& g > 0 ==> b.lru() == a.lru()
        }
    }
    &&& others_kept(a, b, id)
    &&& forall|o: PageId| o != id ==> #[trigger] b.pending(o) == a.pending(o)
    &&& b.capacity() == a.capacity()
}

/// `states` runs from `a` to `b`, each step handling the next notice of
/// `ids` (all for `kind` locks).
pub open spec fn release_chain(a: PageTable, ids: Seq<PageId>, kind: LockType, b: PageTable, states: Seq<PageTable>) -> bool {
    &&& states.len() == ids.len() + 1
    &&& states[0] == a
    &&& states.last() == b
    &&& forall|i: int| 0 <= i < ids.len() ==> released(#[trigger] states[i], states[i + 1], ids[i], kind)
    &&& forall|i: int| 0 <= i < states.len() ==> (#[trigger] states[i]).wf()
}

/// The notices `ids`, all for `kind` locks, handled in order from `a`, end in `b`.
pub open spec fn releases_applied(a: PageTable, ids: Seq<PageId>, kind: LockType, b: PageTable) -> bool {
    exists|states: Seq<PageTable>| #[trigger] release_chain(a, ids, kind, b, states)
}

/// `b` is `a` after the release notices queued so far: first those of read
/// locks, then those of write locks, each handled by `released`.
pub open spec fn drained(a: PageTable, b: PageTable) -> bool {
    exists|m: PageTable, r: Seq<PageId>, w: Seq<PageId>|
        #[trigger] releases_applied(a, r, LockType::Read, m) && #[trigger] releases_applied(m, w, LockType::Write, b)
}

/// The queue on `id` lets a `kind` request in ahead of it: a read only when
/// nothing waits or a read waits at the head (a waiting write keeps later
/// reads out).
pub open spec fn queue_allows(t: PageTable, id: PageId, kind: LockType) -> bool {
    kind is Read ==> t.pending(id).len() == 0 || t.pending(id)[0] is Read
}

/// What queuing a `kind` request on `id` does (see `PageTable::submit`): the
/// request joins the tail of the page's queue and the queue is granted from
/// its head as far as the grant rule allows; the first grant loads the page.
pub open spec fn submitted(a: PageTable, b: PageTable, id: PageId, kind: LockType) -> bool {
    &&& ({
        let q = a.pending(id).push(kind);
        let g = grant_count(q, a.readers(id), a.writers(id), a.resident(id) || a.loadable());
        &&& g <= q.len()
        &&& b.pending(id) == q.subrange(g as int, q.len() as int)
        &&& b.readers(id) == a.readers(id) + kind_count(q.subrange(0, g as int), LockType::Read)
        &&& b.writers(id) == a.writers(id) + kind_count(q.subrange(0, g as int), LockType::Write)
        &&& g > 0 ==> b.resident(id) && !b.idle(id) && load_effect(a, b, id)
        &&& g == 0 ==> b.slots() == a.slots() && b.lru() == a.lru() && b.free() == a.free()
    })
    &&& others_kept(a, b, id)
    &&& forall|o: PageId| o != id ==> #[trigger] b.pending(o) == a.pending(o)
    &&& b.capacity() == a.capacity()
}

/// Looking `id` up (see `PageTable::contains_page`): an idle page becomes
/// the most recently used; nothing else changes.
pub open spec fn touched(a: PageTable, b: PageTable, id: PageId) -> bool {
    &&& b.slots() == a.slots()
    &&& b.free() == a.free()
    &&& b.lru() == (if a.idle(id) { refreshed(a.lru(), id) } else { a.lru() })
    &&& forall|o: PageId| #[trigger] b.idle(o) == a.idle(o)
    &&& forall|o: PageId| #[trigger] b.readers(o) == a.readers(o) && b.writers(o) == a.writers(o)
    &&& forall|o: PageId| #[trigger] b.pending(o) == a.pending(o)
    &&& b.capacity() == a.capacity()
}

/// What an immediate grant attempt of a `kind` lock on `id` does (see
/// `PageTable::page_index`), `r` being its result.
pub open spec fn indexed(a: PageTable, b: PageTable, id: PageId, kind: LockType, r: Option<PageLock>) -> bool {
    &&& r is Some <==> grantable(kind, a.readers(id), a.writers(id), a.resident(id) || a.loadable())
        && queue_allows(a, id, kind)
    &&& r is None ==> b == a
    &&& r matches Some(lock) ==> {
        &&& lock.spec_page_id() == id
        &&& lock.spec_lock_type() == kind
        &&& b.resident(id)
        &&& !b.idle(id)
        &&& lock.spec_index() == b.slots()[id]
        &&& load_effect(a, b, id)
        &&& count_of(b, id, kind) == count_of(a, id, kind) + 1
        &&& b.readers(id) + b.writers(id) == a.readers(id) + a.writers(id) + 1
    }
    &&& others_kept(a, b, id)
    &&& forall|o: PageId| #[trigger] b.pending(o) == a.pending(o)
    &&& b.capacity() == a.capacity()
}

/// The count of `kind` locks on `id` in `t`.
pub open spec fn count_of(t: PageTable, id: PageId, kind: LockType) -> nat {
    match kind {
        LockType::Read => t.readers(id),
        LockType::Write => t.writers(id),
    }
}

impl PageTable {
    /// Handles the notice that a `kind` lock on `id` was dropped. A notice for
    /// a page holding no such lock is ignored. When the page's last lock goes,
    /// it re-enters the LRU in its slot and its queue is retried.
    pub fn release(&mut self, id: PageId, kind: LockType)
        requires
            old(self).wf(),
        ensures
            final(self).wf(),
            released(*old(self), *final(self), id, kind),
    {
        let n = match kind {
            LockType::Read => self.reader_count.active(&id),
            LockType::Write => self.writer_count.active(&id),
        };
        if n == 0 {
            proof {
                assert(others_kept(*old(self), *old(self), id));
            }
            return;
        }
        proof {
            assert(old(self).locked(id));
            assert(old(self).resident(id));
            assert(!old(self).idle(id)) by {
                if old(self).idle(id) {
                    let i = choose|i: int| 0 <= i < old(self).lru().len() && old(self).lru()[i].0 == id;
                    let (k, v) = old(self).lru()[i];
                }
            }
            assert(old(self).writers(id) <= 1 && (old(self).writers(id) > 0 ==> old(self).readers(id) == 0));
        }
        match kind {
            LockType::Read => self.reader_count.sub(id),
            LockType::Write => self.writer_count.sub(id),
        }
        let ghost mid = *self;
        proof {
            assert forall|o: PageId| #[trigger] mid.writers(o) <= 1 && (mid.writers(o) > 0 ==> mid.readers(o) == 0) by {
                assert(old(self).writers(o) <= 1 && (old(self).writers(o) > 0 ==> old(self).readers(o) == 0));
            }
        }
        if self.reader_count.active(&id) == 0 && self.writer_count.active(&id) == 0 {
            let slot = *self.page_map.get(&id).unwrap();
            proof {
                assert(old(self).lru() == mid.lru());
                assert forall|i: int| 0 <= i < mid.lru().len() implies (#[trigger] mid.lru()[i]).0 != id by {
                    if mid.lru()[i].0 == id {
                        assert(has_key(old(self).lru(), id));
                    }
                }
                assert(!has_key(mid.lru(), id));
                old(self).lemma_lru_room(id);
                lemma_push_entry(mid.lru(), id, slot);
            }
            lru_insert(&mut self.page_lru, id, slot);
            proof {
                let t = *self;
                assert(t.lru() == mid.lru().push((id, slot)));
                assert(has_key(t.lru(), id));
                let o0 = *old(self);
                assert forall|x: PageId| #![trigger t.readers(x)] #![trigger t.writers(x)] x != id
                    implies t.readers(x) == o0.readers(x) && t.writers(x) == o0.writers(x) by {
                    assert(mid.readers(x) == o0.readers(x) && mid.writers(x) == o0.writers(x));
                }
                assert forall|x: PageId| x != id && #[trigger] o0.idle(x) implies t.idle(x) by {}
                assert forall|i: int| 0 <= i < t.lru().len() implies {
                    let (k, s) = #[trigger] t.lru()[i];
                    if k == id {
                        t.resident(id) && s == t.slots()[id] && !t.locked(id)
                    } else {
                        o0.idle(k) && s == o0.slots()[k]
                    }
                } by {
                    if i < mid.lru().len() {
                        let (k, v) = o0.lru()[i];
                        assert(has_key(o0.lru(), k));
                    }
                }
                PageTable::lemma_locks_carry(o0, t, id);
                assert(t.wf());
                assert(others_kept(*old(self), t, id));
            }
            let ghost before = *self;
            self.handle_pending_requests(id);
            proof {
                assert(before.resident(id) || before.loadable());
                assert(before.readers(id) == 0 && before.writers(id) == 0);
                let q = old(self).pending(id);
                let g = grant_count(q, 0, 0, true);
                if g == 0 {
                    assert(self.lru() == before.lru());
                } else {
                    assert(load_effect(before, *self, id));
                    assert(has_key(before.lru(), id));
                    lemma_key_pos_push(old(self).lru(), id, slot);
                    assert(self.lru() == old(self).lru());
                }
                PageTable::lemma_others_kept_trans(*old(self), before, *self, id);
            }
        } else {
            proof {
                assert(mid.wf()) by {
                    let t = mid;
                    let o0 = *old(self);
                    assert forall|x: PageId| x != id && #[trigger] o0.idle(x) implies t.idle(x) by {}
                    assert forall|i: int| 0 <= i < t.lru().len() implies {
                        let (k, s) = #[trigger] t.lru()[i];
                        if k == id {
                            t.resident(id) && s == t.slots()[id] && !t.locked(id)
                        } else {
                            o0.idle(k) && s == o0.slots()[k]
                        }
                    } by {
                        let (k, v) = o0.lru()[i];
                        assert(has_key(o0.lru(), k));
                        if k == id {
                            assert(o0.locked(id));
                        }
                    }
                    assert(t.locked(id));
                    PageTable::lemma_locks_carry(o0, t, id);
                }
                assert(others_kept(*old(self), mid, id));
            }
        }
    }

    proof fn lemma_others_kept_trans(a: PageTable, b: PageTable, c: PageTable, id: PageId)
        requires
            others_kept(a, b, id),
            others_kept(b, c, id),
        ensures
            others_kept(a, c, id),
    {
        assert forall|o: PageId| o != id && #[trigger] a.locked(o) implies c.resident(o) && c.slots()[o] == a.slots()[o] by {
            assert(b.readers(o) == a.readers(o) && b.writers(o) == a.writers(o));
            assert(b.locked(o));
        }
        assert forall|o: PageId| o != id implies #[trigger] c.readers(o) == a.readers(o) && c.writers(o) == a.writers(o) by {
            assert(b.readers(o) == a.readers(o) && b.writers(o) == a.writers(o));
        }
        assert forall|o: PageId| o != id && #[trigger] c.resident(o) implies a.resident(o) && c.slots()[o] == a.slots()[o] by {
            assert(b.resident(o));
        }
    }
}


impl PageTable {
    /// Queues a request for a `lock_type` lock on `page_id` and grants what
    /// the queue allows, in order; granted locks go out on `channel`.
    pub fn submit(&mut self, page_id: PageId, lock_type: LockType, channel: &Sender<PageLock>)
        requires
            old(self).wf(),
        ensures
            final(self).wf(),
            submitted(*old(self), *final(self), page_id, lock_type),
    {
        let request = LockRequest::new(lock_type, clone_sender(channel));
        let mut queue = match self.pending_requests.remove(&page_id) {
            Some(q) => q,
            None => VecDeque::new(),
        };
        let ghost q0 = queue@;
        queue.push_back(request);
        assert(kinds(queue@) =~= kinds(q0).push(lock_type));
        self.pending_requests.insert(page_id, queue);
        proof {
            PageTable::lemma_frame_pending(*old(self), *self);
            assert(others_kept(*old(self), *old(self), page_id));
            PageTable::lemma_others_kept_frame(*old(self), *old(self), *self, page_id);
            assert forall|o: PageId| o != page_id implies #[trigger] self.pending(o) == old(self).pending(o) by {
                assert(self.pending_requests@.contains_key(o) == old(self).pending_requests@.contains_key(o));
            }
            assert(self.pending(page_id) == old(self).pending(page_id).push(lock_type));
        }
        let ghost mid = *self;
        self.handle_pending_requests(page_id);
        proof {
            PageTable::lemma_others_kept_trans(*old(self), mid, *self, page_id);
        }
    }

    /// Handles the release notices `ids`, all for `kind` locks, in order.
    pub fn apply_releases(&mut self, ids: &Vec<PageId>, kind: LockType)
        requires
            old(self).wf(),
        ensures
            final(self).wf(),
            releases_applied(*old(self), ids@, kind, *final(self)),
            final(self).capacity() == old(self).capacity(),
    {
        let mut i: usize = 0;
        let ghost mut states: Seq<PageTable> = seq![*self];
        assert(ids@.subrange(0, 0) =~= Seq::<PageId>::empty());
        while i < ids.len()
            invariant
                i <= ids@.len(),
                self.wf(),
                self.capacity() == old(self).capacity(),
                release_chain(*old(self), ids@.subrange(0, i as int), kind, *self, states),
            decreases ids@.len() - i,
        {
            let ghost before = *self;
            self.release(ids[i], kind);
            proof {
                let prev = states;
                states = states.push(*self);
                let sub = ids@.subrange(0, i + 1);
                assert forall|j: int| 0 <= j < states.len() implies (#[trigger] states[j]).wf() by {
                    if j < prev.len() {
                        assert(states[j] == prev[j]);
                    }
                }
                assert forall|j: int| 0 <= j < sub.len() implies released(#[trigger] states[j], states[j + 1], sub[j], kind) by {
                    if j < i {
                        assert(states[j] == prev[j] && states[j + 1] == prev[j + 1]);
                        assert(sub[j] == ids@.subrange(0, i as int)[j]);
                    } else {
                        assert(states[j] == before);
                    }
                }
                assert(release_chain(*old(self), sub, kind, *self, states));
            }
            i += 1;
        }
        assert(ids@.subrange(0, i as int) =~= ids@);
        assert(release_chain(*old(self), ids@, kind, *self, states));
    }

    /// Applies the release notices posted by dropped locks so far: those of
    /// read locks, then those of write locks.
    fn check_messages(&mut self)
        requires
            old(self).wf(),
        ensures
            final(self).wf(),
            drained(*old(self), *final(self)),
            final(self).capacity() == old(self).capacity(),
    {
        let read_ids = drain_queued(&self.reader_count.receiver);
        self.apply_releases(&read_ids, LockType::Read);
        let ghost mid = *self;
        let write_ids = drain_queued(&self.writer_count.receiver);
        self.apply_releases(&write_ids, LockType::Write);
        assert(releases_applied(*old(self), read_ids@, LockType::Read, mid)
            && releases_applied(mid, write_ids@, LockType::Write, *self));
    }

    /// Applies pending release notices; for an idle loop.
    pub fn tick(&mut self)
        requires
            old(self).wf(),
        ensures
            final(self).wf(),
            drained(*old(self), *final(self)),
            final(self).capacity() == old(self).capacity(),
    {
        self.check_messages();
    }

    /// Applies pending release notices, then queues a request for a lock on
    /// `page_id` and grants what the queue allows (see `submit`). A lock that
    /// cannot be granted now arrives on `channel` once releases allow it.
    pub fn request_lock(&mut self, page_id: &PageId, lock_type: &LockType, channel: &mut Sender<PageLock>)
        requires
            old(self).wf(),
        ensures
            final(self).wf(),
            exists|m: PageTable| #[trigger] drained(*old(self), m) && m.wf()
                && submitted(m, *final(self), *page_id, *lock_type),
            final(self).capacity() == old(self).capacity(),
    {
        self.check_messages();
        let ghost m = *self;
        self.submit(*page_id, *lock_type, channel);
        assert(drained(*old(self), m) && m.wf() && submitted(m, *self, *page_id, *lock_type));
    }

    /// True if `id` is resident; an idle page becomes the most recently used.
    fn touch(&mut self, id: PageId) -> (r: bool)
        requires
            old(self).wf(),
        ensures
            final(self).wf(),
            r == old(self).resident(id),
            touched(*old(self), *final(self), id),
    {
        let ghost s0 = self.lru();
        proof {
            if has_key(s0, id) {
                lemma_remove_entry(s0, key_pos(s0, id));
                let p = key_pos(s0, id);
                let (k, v) = s0[p];
                assert(!has_key(s0.remove(p), id));
                lemma_push_entry(s0.remove(p), k, v);
            }
        }
        let idle = lru_contains(&mut self.page_lru, id);
        proof {
            let t = *self;
            let o0 = *old(self);
            assert forall|o: PageId| #[trigger] t.idle(o) == o0.idle(o) by {}
            assert forall|o: PageId| #[trigger] t.readers(o) == o0.readers(o) && t.writers(o) == o0.writers(o) by {}
            assert forall|i: int| 0 <= i < t.lru().len() implies {
                let (k, s) = #[trigger] t.lru()[i];
                if k == id {
                    t.resident(id) && s == t.slots()[id] && !t.locked(id)
                } else {
                    o0.idle(k) && s == o0.slots()[k]
                }
            } by {
                let j = if idle {
                    let p = key_pos(s0, id);
                    if i < t.lru().len() - 1 { if i < p { i } else { i + 1 } } else { p }
                } else {
                    i
                };
                assert(t.lru()[i] == s0[j]);
                let (k, v) = s0[j];
                assert(has_key(s0, k));
            }
            assert(o0.writers(id) <= 1 && (o0.writers(id) > 0 ==> o0.readers(id) == 0));
            if o0.locked(id) {
                assert(o0.slots().contains_key(id));
            }
            if o0.slots().contains_key(id) {
                assert(o0.idle(id) || o0.locked(id));
            }
            PageTable::lemma_locks_carry(o0, t, id);
            assert(t.wf());
            if t.slots().contains_key(id) {
                assert(t.idle(id) || t.locked(id));
            }
            if t.locked(id) {
                assert(t.slots().contains_key(id));
            }
        }
        idle || self.reader_count.active(&id) > 0 || self.writer_count.active(&id) > 0
    }

    /// Applies pending release notices, then tells whether `id` is resident
    /// (idle or locked). An idle page becomes the most recently used.
    pub fn contains_page(&mut self, id: &PageId) -> (r: bool)
        requires
            old(self).wf(),
        ensures
            final(self).wf(),
            r == final(self).resident(*id),
            exists|m: PageTable| #[trigger] drained(*old(self), m) && m.wf() && touched(m, *final(self), *id)
                && r == m.resident(*id),
            final(self).capacity() == old(self).capacity(),
    {
        self.check_messages();
        let ghost m = *self;
        let r = self.touch(*id);
        assert(drained(*old(self), m) && m.wf() && touched(m, *self, *id) && r == m.resident(*id));
        r
    }

    /// Grants a `lock_type` lock on `page_id` at once, if the grant rule
    /// allows it now, loading the page into a slot on a miss: a never used
    /// slot first, else the least recently used idle page's. `None` when the
    /// lock conflicts with held locks, a read would pass a write waiting at
    /// the head of the page's queue, or every slot is locked. Pending
    /// release notices are not applied first.
    pub fn page_index(&mut self, page_id: PageId, lock_type: LockType) -> (r: Option<PageLock>)
        requires
            old(self).wf(),
        ensures
            final(self).wf(),
            indexed(*old(self), *final(self), page_id, lock_type, r),
    {
        if self.can_grant_lock(page_id, lock_type) {
            Some(self.lock_page(page_id, lock_type))
        } else {
            proof {
                assert(others_kept(*old(self), *old(self), page_id));
            }
            None
        }
    }
}


/// Page-sized buffers for cached pages, with the table that assigns them.
pub struct WorkingMemory {
    page_data: Vec<Vec<u8>>,
    page_table: PageTable,
}

impl WorkingMemory {
    pub closed spec fn table(&self) -> PageTable {
        self.page_table
    }

    /// The bytes of slot `i`.
    pub closed spec fn slot_bytes(&self, i: int) -> Seq<u8> {
        self.page_data@[i]@
    }

    pub closed spec fn wf(&self) -> bool {
        &&& self.page_table.wf()
        &&& self.page_data@.len() == self.page_table.capacity()
        &&& forall|i: int| 0 <= i < self.page_data@.len() ==> (#[trigger] self.page_data@[i])@.len() == PAGE_SIZE
    }

    /// Working memory of `size / PAGE_SIZE` zeroed page slots.
    pub fn new(size: u64) -> (r: WorkingMemory)
        requires
            size / PAGE_SIZE <= usize::MAX,
        ensures
            r.wf(),
            r.table().capacity() == size / PAGE_SIZE,
            forall|i: int| 0 <= i < size / PAGE_SIZE ==> r.slot_bytes(i) == Seq::new(PAGE_SIZE as nat, |j: int| 0u8),
    {
        let pages = size / PAGE_SIZE;
        let mut page_data: Vec<Vec<u8>> = Vec::new();
        let mut n: u64 = 0;
        while n < pages
            invariant
                n <= pages,
                page_data@.len() == n,
                forall|i: int| 0 <= i < n ==> (#[trigger] page_data@[i])@ == Seq::new(PAGE_SIZE as nat, |j: int| 0u8),
            decreases pages - n,
        {
            let mut slot: Vec<u8> = Vec::new();
            let mut k: u64 = 0;
            while k < PAGE_SIZE
                invariant
                    k <= PAGE_SIZE,
                    slot@ == Seq::new(k as nat, |j: int| 0u8),
                decreases PAGE_SIZE - k,
            {
                slot.push(0);
                k += 1;
                assert(slot@ =~= Seq::new(k as nat, |j: int| 0u8));
            }
            page_data.push(slot);
            n += 1;
        }
        let page_table = PageTable::new(size);
        WorkingMemory { page_data, page_table }
    }

    /// Applies pending release notices, then tells whether the page is
    /// resident; an idle page becomes the most recently used.
    pub fn contains_page(&mut self, page_id: &PageId) -> (r: bool)
        requires
            old(self).wf(),
        ensures
            final(self).wf(),
            r == final(self).table().resident(*page_id),
            exists|m: PageTable| #[trigger] drained(old(self).table(), m) && m.wf()
                && touched(m, final(self).table(), *page_id) && r == m.resident(*page_id),
            forall|i: int| #[trigger] final(self).slot_bytes(i) == old(self).slot_bytes(i),
    {
        let r = self.page_table.contains_page(page_id);
        let ghost m = choose|m: PageTable| #[trigger] drained(old(self).page_table, m) && m.wf()
            && touched(m, self.page_table, *page_id) && r == m.resident(*page_id);
        assert(drained(old(self).table(), m) && m.wf() && touched(m, self.table(), *page_id) && r == m.resident(*page_id));
        r
    }

    /// Applies pending release notices, then grants a read lock on `page_id`
    /// at once if the grant rule allows it (see `PageTable::page_index`),
    /// loading it into a slot on a miss without filling the slot.
    pub fn page_index(&mut self, page_id: PageId) -> (r: Option<PageLock>)
        requires
            old(self).wf(),
        ensures
            final(self).wf(),
            exists|m: PageTable| #[trigger] drained(old(self).table(), m) && m.wf()
                && indexed(m, final(self).table(), page_id, LockType::Read, r),
            forall|i: int| #[trigger] final(self).slot_bytes(i) == old(self).slot_bytes(i),
    {
        self.page_table.tick();
        let ghost m = self.page_table;
        let r = self.page_table.page_index(page_id, LockType::Read);
        assert(drained(old(self).table(), m) && m.wf() && indexed(m, self.table(), page_id, LockType::Read, r));
        r
    }

    /// A read lock on `page_id` with the page's bytes, after applying pending
    /// release notices and looking the page up. On a hit `reader` is not
    /// called and no byte changes; on a miss the page gets a slot (evicting
    /// the least recently used idle page if no slot is unused), `reader` is
    /// called once on the slot's bytes, the returned bytes are what it left
    /// there, and no other slot changes. (A slice keeps its length; the
    /// verifier's model of `&mut [u8]` does not state that, so the contract
    /// says so as a condition.) `None` exactly when the grant
    /// rule refuses a read lock: a writer holds or waits on the page, or it
    /// is not resident and every slot is locked.
    pub fn get_page<'a, F: FnOnce(&mut [u8])>(&'a mut self, page_id: PageId, reader: F)
        -> (r: Result<Option<(PageLock, &'a [u8])>>)
        requires
            old(self).wf(),
            forall|buf: &mut [u8]| #[trigger] reader.requires((buf,)),
        ensures
            final(self).wf(),
            r is Ok,
            exists|m: PageTable, t: PageTable| #[trigger] drained(old(self).table(), m) && m.wf()
                && #[trigger] touched(m, t, page_id) && t.wf() && {
                &&& r matches Ok(None) ==> indexed(t, final(self).table(), page_id, LockType::Read, None)
                    && forall|i: int| #[trigger] final(self).slot_bytes(i) == old(self).slot_bytes(i)
                &&& r matches Ok(Some((lock, bytes))) ==> {
                    &&& indexed(t, final(self).table(), page_id, LockType::Read, Some(lock))
                    &&& bytes@ == final(self).slot_bytes(lock.spec_index() as int)
                    &&& bytes@.len() == PAGE_SIZE
                    &&& t.resident(page_id) ==> forall|i: int| #[trigger] final(self).slot_bytes(i) == old(self).slot_bytes(i)
                    &&& !t.resident(page_id) ==> forall|i: int| 0 <= i < final(self).table().capacity() && i != lock.spec_index()
                        ==> #[trigger] final(self).slot_bytes(i) == old(self).slot_bytes(i)
                    &&& !t.resident(page_id) ==> exists|buf: &mut [u8]| #[trigger] call_ensures(reader, (buf,), ())
                        && buf@ == old(self).slot_bytes(lock.spec_index() as int)
                        && (final(buf)@.len() == buf@.len() ==> bytes@ == final(buf)@)
                }
            },
    {
        let load = !self.page_table.contains_page(&page_id);
        let ghost t = self.page_table;
        let ghost m = choose|m: PageTable| #[trigger] drained(old(self).page_table, m) && m.wf()
            && touched(m, t, page_id) && !load == m.resident(page_id);
        assert(drained(old(self).table(), m) && m.wf() && touched(m, t, page_id) && t.wf());
        let r = self.page_table.page_index(page_id, LockType::Read);
        match r {
            Some(lock) => {
                proof {
                    let u = self.page_table;
                    assert(u.slots().contains_key(page_id));
                    assert(u.slots()[page_id] < u.capacity()) by {
                        PageTable::lemma_slot_below_capacity(u, page_id);
                    }
                }
                let index = lock.index() as usize;
                let ghost data0 = self.page_data@;
                assert(data0 == old(self).page_data@);
                if load {
                    let slot = &mut self.page_data[index];
                    let buf = slot.as_mut_slice();
                    reader(buf);
                    // a slice keeps its length; the verifier's model of
                    // `&mut [u8]` does not say so, and this restates it
                    slot.resize(PAGE_SIZE as usize, 0);
                    proof {
                        assert(exists|b: &mut [u8]| #[trigger] call_ensures(reader, (b,), ()) && b@ == data0[index as int]@
                            && (final(b)@.len() == b@.len() ==> self.page_data@[index as int]@ == final(b)@));
                    }
                }
                let bytes = self.page_data[index].as_slice();
                proof {
                    assert(indexed(t, self.table(), page_id, LockType::Read, Some(lock)));
                    assert(bytes@ == self.slot_bytes(lock.spec_index() as int));
                    if !load {
                        assert(t.resident(page_id));
                        assert forall|i: int| #[trigger] self.slot_bytes(i) == old(self).slot_bytes(i) by {}
                    } else {
                        assert(!t.resident(page_id));
                        assert forall|i: int| 0 <= i < self.table().capacity() && i != lock.spec_index()
                            implies #[trigger] self.slot_bytes(i) == old(self).slot_bytes(i) by {
                            assert(self.page_data@[i] == data0[i]);
                        }
                    }
                }
                Ok(Some((lock, bytes)))
            },
            None => {
                assert(indexed(t, self.table(), page_id, LockType::Read, None));
                assert forall|i: int| #[trigger] self.slot_bytes(i) == old(self).slot_bytes(i) by {}
                Ok(None)
            },
        }
    }
}

} // verus!
