use vstd::prelude::*;
use crate::record::{RecordView, ResourceRecord, records_view};

verus! {

/// A cache key: the canonical (lower-case, fully qualified) domain name and
/// the requested record type code.
#[derive(Debug)]
pub struct CacheKey {
    pub name: String,
    pub record_type: u16,
}

impl View for CacheKey {
    type V = (Seq<char>, u16);

    open spec fn view(&self) -> (Seq<char>, u16) {
        (self.name@, self.record_type)
    }
}

/// A cached answer: the records and the instant, in seconds, from which they
/// are stale.
#[derive(Debug)]
pub struct CacheEntry {
    pub valid_until: u64,
    pub records: Vec<ResourceRecord>,
}

pub ghost struct EntryView {
    pub valid_until: int,
    pub records: Seq<RecordView>,
}

impl View for CacheEntry {
    type V = EntryView;

    open spec fn view(&self) -> EntryView {
        EntryView { valid_until: self.valid_until as int, records: records_view(self.records@) }
    }
}

struct Slot {
    key: CacheKey,
    entry: CacheEntry,
}

/// The store of cached answers, one per key. Entries are replaced, never
/// merged, and never evicted.
pub struct CacheStore {
    slots: Vec<Slot>,
    answers: Ghost<Map<(Seq<char>, u16), EntryView>>,
}

impl View for CacheStore {
    type V = Map<(Seq<char>, u16), EntryView>;

    closed spec fn view(&self) -> Map<(Seq<char>, u16), EntryView> {
        self.answers@
    }
}

impl CacheStore {
    /// Each key is held by one slot, and the slots hold exactly the view.
    pub closed spec fn wf(&self) -> bool {
        &&& forall|i: int, j: int|
            0 <= i < j < self.slots@.len() ==> #[trigger] self.slots@[i].key@
                != #[trigger] self.slots@[j].key@
        &&& forall|i: int|
            0 <= i < self.slots@.len() ==> self.answers@.contains_key(#[trigger] self.slots@[i].key@)
                && self.answers@[self.slots@[i].key@] == self.slots@[i].entry@
        &&& forall|k: (Seq<char>, u16)|
            #[trigger] self.answers@.contains_key(k) ==> exists|i: int|
                0 <= i < self.slots@.len() && #[trigger] self.slots@[i].key@ == k
    }

    /// An empty store.
    pub fn new() -> (r: CacheStore)
        ensures
            r.wf(),
            r@ == Map::<(Seq<char>, u16), EntryView>::empty(),
    {
        CacheStore { slots: Vec::new(), answers: Ghost(Map::empty()) }
    }

    /// Number of keys held.
    pub fn len(&self) -> (r: usize)
        requires
            self.wf(),
        ensures
            r == self@.len(),
    {
        proof {
            self.lemma_dom_is_slot_keys();
        }
        self.slots.len()
    }

    proof fn lemma_dom_is_slot_keys(&self)
        requires
            self.wf(),
        ensures
            self@.dom() == self.slots@.map_values(|s: Slot| s.key@).to_set(),
            self@.dom().finite(),
            self@.len() == self.slots@.len(),
    {
        let keys = self.slots@.map_values(|s: Slot| s.key@);
        assert forall|k| #[trigger] self@.dom().contains(k) <==> keys.contains(k) by {
            if self@.dom().contains(k) {
                let i = choose|i: int| 0 <= i < self.slots@.len() && #[trigger] self.slots@[i].key@ == k;
                assert(keys[i] == k);
            }
            if keys.contains(k) {
                let i = choose|i: int| 0 <= i < keys.len() && keys[i] == k;
                assert(self.slots@[i].key@ == k);
            }
        }
        assert(self@.dom() =~= keys.to_set());
        assert(keys.no_duplicates()) by {
            assert forall|i: int, j: int| 0 <= i < keys.len() && 0 <= j < keys.len() && i != j
                implies keys[i] != keys[j] by {
                if i < j {
                    assert(self.slots@[i].key@ != self.slots@[j].key@);
                } else {
                    assert(self.slots@[j].key@ != self.slots@[i].key@);
                }
            }
        }
        keys.unique_seq_to_set();
    }

    /// Index of the slot that holds `key`, if any.
    fn find(&self, key: &CacheKey) -> (r: Option<usize>)
        requires
            self.wf(),
        ensures
            match r {
                Some(i) => i < self.slots@.len() && self.slots@[i as int].key@ == key@,
                None => !self@.contains_key(key@),
            },
    {
        let mut i: usize = 0;
        while i < self.slots.len()
            invariant
                self.wf(),
                i <= self.slots@.len(),
                forall|j: int| 0 <= j < i ==> #[trigger] self.slots@[j].key@ != key@,
            decreases self.slots@.len() - i,
        {
            let slot = &self.slots[i];
            if slot.key.record_type == key.record_type && slot.key.name == key.name {
                return Some(i);
            }
            i = i + 1;
        }
        None
    }

    /// The entry stored under `key`, fresh or not.
    pub fn get(&self, key: &CacheKey) -> (r: Option<&CacheEntry>)
        requires
            self.wf(),
        ensures
            match r {
                Some(e) => self@.contains_key(key@) && e@ == self@[key@],
                None => !self@.contains_key(key@),
            },
    {
        match self.find(key) {
            Some(i) => Some(&self.slots[i].entry),
            None => None,
        }
    }

    /// Stores `entry` under `key`, replacing what was there.
    pub fn put(&mut self, key: CacheKey, entry: CacheEntry)
        requires
            old(self).wf(),
        ensures
            final(self).wf(),
            final(self)@ == old(self)@.insert(key@, entry@),
    {
        let ghost kv = key@;
        let ghost ev = entry@;
        let found = self.find(&key);
        self.answers = Ghost(self.answers@.insert(kv, ev));
        match found {
            Some(i) => {
                self.slots.set(i, Slot { key, entry });
                assert forall|k: (Seq<char>, u16)| #[trigger] self.answers@.contains_key(k) implies exists|j: int|
                    0 <= j < self.slots@.len() && #[trigger] self.slots@[j].key@ == k by {
                    if k != kv {
                        let j = choose|j: int| 0 <= j < old(self).slots@.len() && #[trigger] old(self).slots@[j].key@ == k;
                        assert(self.slots@[j].key@ == k);
                    } else {
                        assert(self.slots@[i as int].key@ == k);
                    }
                }
            },
            None => {
                self.slots.push(Slot { key, entry });
                let ghost n = self.slots@.len() - 1;
                assert forall|k: (Seq<char>, u16)| #[trigger] self.answers@.contains_key(k) implies exists|j: int|
                    0 <= j < self.slots@.len() && #[trigger] self.slots@[j].key@ == k by {
                    if k != kv {
                        let j = choose|j: int| 0 <= j < old(self).slots@.len() && #[trigger] old(self).slots@[j].key@ == k;
                        assert(self.slots@[j].key@ == k);
                    } else {
                        assert(self.slots@[n].key@ == k);
                    }
                }
            },
        }
    }
}

} // verus!
