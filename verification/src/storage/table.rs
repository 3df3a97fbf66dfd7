use std::collections::VecDeque;

use vstd::hash_map::StringHashMap;
use vstd::prelude::*;

verus! {

/// A stored value: a binary-safe string or a list of them.
pub enum Value {
    String(Vec<u8>),
    List(VecDeque<Vec<u8>>),
}

/// A stored value with its expiration time, in nanoseconds since the Unix epoch.
pub struct Entry {
    pub value: Value,
    pub expires_at: Option<i128>,
}

/// The model of a stored value.
pub enum ValueView {
    String(Seq<u8>),
    List(Seq<Seq<u8>>),
}

/// The model of a stored entry.
pub struct EntryView {
    pub value: ValueView,
    pub expires_at: Option<int>,
}

impl Value {
    pub open spec fn model(&self) -> ValueView {
        match self {
            Value::String(v) => ValueView::String(v@),
            Value::List(l) => ValueView::List(l@.map_values(|v: Vec<u8>| v@)),
        }
    }
}

impl Entry {
    pub open spec fn model(&self) -> EntryView {
        EntryView {
            value: self.value.model(),
            expires_at: match self.expires_at {
                Some(t) => Some(t as int),
                None => None,
            },
        }
    }
}

impl View for Entry {
    type V = EntryView;

    open spec fn view(&self) -> EntryView {
        self.model()
    }
}

/// Whether an entry has expired at time `now`: its expiration time is not after `now`.
pub open spec fn is_expired(e: EntryView, now: int) -> bool {
    e.expires_at matches Some(t) && t <= now
}

/// The keys whose entries have expired at time `now`.
pub open spec fn expired_keys(m: Map<Seq<char>, EntryView>, now: int) -> Set<Seq<char>> {
    m.dom().filter(|k: Seq<char>| is_expired(m[k], now))
}

impl Entry {
    /// Whether this entry has expired at time `now`.
    pub fn is_expired(&self, now: i128) -> (r: bool)
        ensures
            r == is_expired(self@, now as int),
    {
        match self.expires_at {
            Some(t) => t <= now,
            None => false,
        }
    }
}

struct Slot {
    key: String,
    entry: Entry,
}

/// Entries by key. Each entry sits in a slot of `slots`; `index` maps a key to
/// its slot, and `free` lists the empty slots, which are reused first.
pub struct EntryTable {
    index: StringHashMap<usize>,
    slots: Vec<Option<Slot>>,
    free: Vec<usize>,
}

impl EntryTable {
    spec fn slot_key(&self, i: int) -> Seq<char> {
        self.slots@[i]->Some_0.key@
    }

    /// The entries by key.
    pub closed spec fn view(&self) -> Map<Seq<char>, EntryView> {
        Map::new(
            |k: Seq<char>| self.index@.contains_key(k),
            |k: Seq<char>| self.slots@[self.index@[k] as int]->Some_0.entry@,
        )
    }

    pub closed spec fn wf(&self) -> bool {
        &&& self.index@.dom().finite()
        &&& forall|k: Seq<char>| #[trigger]
            self.index@.contains_key(k) ==> {
                &&& self.index@[k] < self.slots.len()
                &&& self.slots@[self.index@[k] as int] is Some
                &&& self.slot_key(self.index@[k] as int) == k
            }
        &&& forall|i: int|
            0 <= i < self.slots.len() && #[trigger] self.slots@[i] is Some ==> {
                &&& self.index@.contains_key(self.slot_key(i))
                &&& self.index@[self.slot_key(i)] == i
            }
        &&& forall|j: int|
            0 <= j < self.free.len() ==> {
                &&& #[trigger] self.free@[j] < self.slots.len()
                &&& self.slots@[self.free@[j] as int] is None
            }
        &&& self.free@.no_duplicates()
    }

    pub proof fn lemma_finite(&self)
        requires
            self.wf(),
        ensures
            self@.dom().finite(),
    {
        assert(self@.dom() =~= self.index@.dom());
    }

    pub fn new() -> (t: Self)
        ensures
            t.wf(),
            t@ == Map::<Seq<char>, EntryView>::empty(),
    {
        let t = EntryTable { index: StringHashMap::new(), slots: Vec::new(), free: Vec::new() };
        assert(t@ =~= Map::<Seq<char>, EntryView>::empty());
        t
    }

    pub fn get(&self, key: &str) -> (r: Option<&Entry>)
        requires
            self.wf(),
        ensures
            match r {
                Some(e) => self@.contains_key(key@) && e@ == self@[key@],
                None => !self@.contains_key(key@),
            },
    {
        match self.index.get(key) {
            Some(i) => {
                let i = *i;
                match &self.slots[i] {
                    Some(slot) => Some(&slot.entry),
                    None => None,
                }
            },
            None => None,
        }
    }

    pub fn contains_key(&self, key: &str) -> (r: bool)
        requires
            self.wf(),
        ensures
            r == self@.contains_key(key@),
    {
        self.index.contains_key(key)
    }

    /// Removes the entry of `key`, if there is one, and says whether there was.
    pub fn remove(&mut self, key: &str) -> (removed: bool)
        requires
            old(self).wf(),
        ensures
            final(self).wf(),
            final(self)@ == old(self)@.remove(key@),
            removed == old(self)@.contains_key(key@),
    {
        let i = match self.index.get(key) {
            Some(i) => *i,
            None => {
                assert(self@ =~= old(self)@.remove(key@));
                return false;
            },
        };
        self.index.remove(key);
        self.slots.set(i, None);
        proof {
            assert forall|j: int| 0 <= j < self.free.len() implies self.free@[j] != i by {
                assert(old(self).slots@[old(self).free@[j] as int] is None);
            }
        }
        self.free.push(i);
        proof {
            assert forall|k: Seq<char>| #[trigger] self.index@.contains_key(k) implies {
                &&& self.index@[k] < self.slots.len()
                &&& self.slots@[self.index@[k] as int] is Some
                &&& self.slot_key(self.index@[k] as int) == k
            } by {
                assert(old(self).index@.contains_key(k));
                assert(old(self).index@[k] != i);
            }
            assert forall|j: int|
                0 <= j < self.slots.len() && #[trigger] self.slots@[j] is Some implies {
                &&& self.index@.contains_key(self.slot_key(j))
                &&& self.index@[self.slot_key(j)] == j
            } by {
                assert(j != i);
                assert(old(self).slots@[j] is Some);
                assert(old(self).slot_key(j) != key@);
            }
            assert forall|j: int| 0 <= j < self.free.len() implies {
                &&& #[trigger] self.free@[j] < self.slots.len()
                &&& self.slots@[self.free@[j] as int] is None
            } by {
                if j < old(self).free.len() {
                    assert(self.free@[j] == old(self).free@[j]);
                }
            }
            assert(self@ =~= old(self)@.remove(key@)) by {
                assert forall|k: Seq<char>| #[trigger] self.index@.contains_key(k) implies self@[k]
                    == old(self)@[k] by {
                    assert(old(self).index@[k] != i);
                }
            }
        }
        true
    }

    /// Inserts or replaces the entry of `key`.
    pub fn insert(&mut self, key: String, entry: Entry)
        requires
            old(self).wf(),
        ensures
            final(self).wf(),
            final(self)@ == old(self)@.insert(key@, entry@),
    {
        let ghost e = entry@;
        match self.index.get(key.as_str()) {
            Some(i) => {
                let i = *i;
                self.slots.set(i, Some(Slot { key, entry }));
                proof {
                    assert forall|k: Seq<char>| #[trigger] self.index@.contains_key(k) implies {
                        &&& self.index@[k] < self.slots.len()
                        &&& self.slots@[self.index@[k] as int] is Some
                        &&& self.slot_key(self.index@[k] as int) == k
                    } by {
                        if k != key@ {
                            assert(old(self).index@[k] != i);
                        }
                    }
                    assert forall|j: int|
                        0 <= j < self.slots.len() && #[trigger] self.slots@[j] is Some implies {
                        &&& self.index@.contains_key(self.slot_key(j))
                        &&& self.index@[self.slot_key(j)] == j
                    } by {
                        if j != i {
                            assert(old(self).slots@[j] is Some);
                        }
                    }
                    assert forall|j: int| 0 <= j < self.free.len() implies {
                        &&& #[trigger] self.free@[j] < self.slots.len()
                        &&& self.slots@[self.free@[j] as int] is None
                    } by {
                        assert(old(self).slots@[old(self).free@[j] as int] is None);
                    }
                    assert(self@ =~= old(self)@.insert(key@, e)) by {
                        assert forall|k: Seq<char>| #[trigger]
                            self.index@.contains_key(k) && k != key@ implies self@[k] == old(
                            self,
                        )@[k] by {
                            assert(old(self).index@[k] != i);
                        }
                    }
                }
            },
            None => {
                let ghost k0 = key@;
                let index_key = key.clone();
                let i: usize = match self.free.pop() {
                    Some(i) => {
                        proof {
                            let n = old(self).free.len() - 1;
                            assert(old(self).free@[n] == i);
                            assert forall|j: int| 0 <= j < self.free.len() implies self.free@[j]
                                != i by {
                                assert(self.free@[j] == old(self).free@[j]);
                            }
                        }
                        self.slots.set(i, Some(Slot { key, entry }));
                        i
                    },
                    None => {
                        let i = self.slots.len();
                        self.slots.push(Some(Slot { key, entry }));
                        i
                    },
                };
                self.index.insert(index_key, i);
                proof {
                    assert(self.slot_key(i as int) == k0);
                    assert forall|k: Seq<char>| #[trigger] self.index@.contains_key(k) implies {
                        &&& self.index@[k] < self.slots.len()
                        &&& self.slots@[self.index@[k] as int] is Some
                        &&& self.slot_key(self.index@[k] as int) == k
                    } by {
                        if k != k0 {
                            assert(old(self).index@.contains_key(k));
                            assert(old(self).slots@[old(self).index@[k] as int] is Some);
                        }
                    }
                    assert forall|j: int|
                        0 <= j < self.slots.len() && #[trigger] self.slots@[j] is Some implies {
                        &&& self.index@.contains_key(self.slot_key(j))
                        &&& self.index@[self.slot_key(j)] == j
                    } by {
                        if j != i {
                            assert(old(self).slots@[j] is Some);
                            assert(old(self).slot_key(j) != k0);
                        }
                    }
                    assert forall|j: int| 0 <= j < self.free.len() implies {
                        &&& #[trigger] self.free@[j] < self.slots.len()
                        &&& self.slots@[self.free@[j] as int] is None
                    } by {
                        assert(self.free@[j] == old(self).free@[j]);
                        assert(self.free@[j] != i);
                    }
                    assert forall|a: int, b: int|
                        0 <= a < self.free.len() && 0 <= b < self.free.len() && a != b implies
                        self.free@[a] != self.free@[b] by {
                        assert(self.free@[a] == old(self).free@[a]);
                        assert(self.free@[b] == old(self).free@[b]);
                    }
                    assert(self@ =~= old(self)@.insert(k0, e)) by {
                        assert forall|k: Seq<char>| #[trigger]
                            self.index@.contains_key(k) && k != k0 implies self@[k] == old(
                            self,
                        )@[k] by {
                            assert(old(self).index@[k] != i);
                        }
                    }
                }
            },
        }
    }

    /// Removes every entry that has expired at time `now`, and says how many there were.
    pub fn remove_expired(&mut self, now: i128) -> (removed: usize)
        requires
            old(self).wf(),
        ensures
            final(self).wf(),
            final(self)@ == old(self)@.remove_keys(expired_keys(old(self)@, now as int)),
            removed == expired_keys(old(self)@, now as int).len(),
    {
        let ghost o = *old(self);
        let ghost mut gone: Set<Seq<char>> = Set::empty();
        let mut count: usize = 0;
        let mut i: usize = 0;
        while i < self.slots.len()
            invariant
                self.wf(),
                i <= self.slots.len() == o.slots.len(),
                count <= i,
                o.wf(),
                forall|j: int| i <= j < self.slots.len() ==> #[trigger] self.slots@[j] == o.slots@[j],
                forall|j: int|
                    0 <= j < self.slots.len() ==> self.slots@[j] is None || #[trigger] self.slots@[j]
                        == o.slots@[j],
                self.index@ == o.index@.remove_keys(gone),
                forall|k: Seq<char>| #[trigger]
                    gone.contains(k) <==> (o.index@.contains_key(k) && o.index@[k] < i
                        && is_expired(o@[k], now as int)),
                gone.finite(),
                gone.len() == count,
            decreases o.slots.len() - i,
        {
            let expired_key: Option<String> = match &self.slots[i] {
                Some(slot) => if slot.entry.is_expired(now) {
                    Some(slot.key.clone())
                } else {
                    None
                },
                None => None,
            };
            proof {
                assert(self.slots@[i as int] == o.slots@[i as int]);
            }
            match expired_key {
                Some(k) => {
                    let ghost kv = k@;
                    proof {
                        assert(o.slots@[i as int] is Some);
                        assert(o.slot_key(i as int) == kv);
                        assert(o.index@[kv] == i);
                        assert(!gone.contains(kv));
                    }
                    let ghost before = *self;
                    self.index.remove(k.as_str());
                    self.slots.set(i, None);
                    proof {
                        assert forall|j: int| 0 <= j < self.free.len() implies self.free@[j] != i by {
                            assert(before.slots@[before.free@[j] as int] is None);
                        }
                    }
                    self.free.push(i);
                    count = count + 1;
                    proof {
                        gone = gone.insert(kv);
                        assert(self.index@ =~= o.index@.remove_keys(gone));
                        assert forall|k: Seq<char>| #[trigger] self.index@.contains_key(k) implies {
                            &&& self.index@[k] < self.slots.len()
                            &&& self.slots@[self.index@[k] as int] is Some
                            &&& self.slot_key(self.index@[k] as int) == k
                        } by {
                            assert(before.index@.contains_key(k));
                            assert(before.index@[k] != i);
                        }
                        assert forall|j: int|
                            0 <= j < self.slots.len() && #[trigger] self.slots@[j] is Some implies {
                            &&& self.index@.contains_key(self.slot_key(j))
                            &&& self.index@[self.slot_key(j)] == j
                        } by {
                            assert(j != i);
                            assert(before.slots@[j] is Some);
                            assert(before.slot_key(j) != kv);
                        }
                        assert forall|j: int| 0 <= j < self.free.len() implies {
                            &&& #[trigger] self.free@[j] < self.slots.len()
                            &&& self.slots@[self.free@[j] as int] is None
                        } by {
                            if j < before.free.len() {
                                assert(self.free@[j] == before.free@[j]);
                            }
                        }
                        assert forall|k: Seq<char>| #[trigger]
                            gone.contains(k) <==> (o.index@.contains_key(k) && o.index@[k] < i + 1
                                && is_expired(o@[k], now as int)) by {
                            if o.index@.contains_key(k) && o.index@[k] == i {
                                assert(o.slot_key(i as int) == k);
                            }
                        }
                    }
                },
                None => {
                    proof {
                        assert forall|k: Seq<char>| #[trigger]
                            gone.contains(k) <==> (o.index@.contains_key(k) && o.index@[k] < i + 1
                                && is_expired(o@[k], now as int)) by {
                            if o.index@.contains_key(k) && o.index@[k] == i {
                                assert(o.slot_key(i as int) == k);
                                assert(o@[k] == o.slots@[i as int]->Some_0.entry@);
                            }
                        }
                    }
                },
            }
            i = i + 1;
        }
        proof {
            assert(gone =~= expired_keys(o@, now as int));
            assert(self@ =~= o@.remove_keys(gone)) by {
                assert forall|k: Seq<char>| #[trigger] self.index@.contains_key(k) implies self@[k]
                    == o@[k] by {
                    assert(self.index@[k] == o.index@[k]);
                    let j = o.index@[k] as int;
                    if j >= i {
                    } else {
                        assert(self.slots@[j] is Some);
                        assert(o.slots@[j] is Some);
                    }
                }
            }
        }
        count
    }

    /// Puts `entry` in place of the entry of `key`, which must be there, and
    /// gives back the one it replaces.
    pub fn replace(&mut self, key: &str, entry: Entry) -> (previous: Entry)
        requires
            old(self).wf(),
            old(self)@.contains_key(key@),
        ensures
            final(self).wf(),
            final(self)@ == old(self)@.insert(key@, entry@),
            previous@ == old(self)@[key@],
    {
        let ghost e = entry@;
        let i = *self.index.get(key).unwrap();
        let mut taken: Option<Slot> = None;
        std::mem::swap(&mut taken, &mut self.slots[i]);
        let slot = taken.unwrap();
        let Slot { key: slot_key, entry: previous } = slot;
        self.slots.set(i, Some(Slot { key: slot_key, entry }));
        proof {
            assert forall|k: Seq<char>| #[trigger] self.index@.contains_key(k) implies {
                &&& self.index@[k] < self.slots.len()
                &&& self.slots@[self.index@[k] as int] is Some
                &&& self.slot_key(self.index@[k] as int) == k
            } by {
                if k != key@ {
                    assert(old(self).index@[k] != i);
                }
            }
            assert forall|j: int|
                0 <= j < self.slots.len() && #[trigger] self.slots@[j] is Some implies {
                &&& self.index@.contains_key(self.slot_key(j))
                &&& self.index@[self.slot_key(j)] == j
            } by {
                if j != i {
                    assert(old(self).slots@[j] is Some);
                }
            }
            assert forall|j: int| 0 <= j < self.free.len() implies {
                &&& #[trigger] self.free@[j] < self.slots.len()
                &&& self.slots@[self.free@[j] as int] is None
            } by {
                assert(old(self).slots@[old(self).free@[j] as int] is None);
            }
            assert(self@ =~= old(self)@.insert(key@, e)) by {
                assert forall|k: Seq<char>| #[trigger]
                    self.index@.contains_key(k) && k != key@ implies self@[k] == old(self)@[k] by {
                    assert(old(self).index@[k] != i);
                }
            }
        }
        previous
    }
}

} // verus!
