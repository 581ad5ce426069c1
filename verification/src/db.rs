//! The keyspace: keys with their values, each value with the time it was
//! written and the time it may live.

use crate::ascii::bytes_eq;
use vstd::prelude::*;

verus! {

/// One value of the keyspace.
pub struct DbItem {
    /// The value.
    pub value: Vec<u8>,
    /// When the value was written, in milliseconds of the server's clock.
    pub created: u64,
    /// How many milliseconds the value lives; zero for a value that does not
    /// expire.
    pub expires: u64,
}

/// Mathematical model of a value of the keyspace.
pub struct DbItemView {
    pub value: Seq<u8>,
    pub created: nat,
    pub expires: nat,
}

impl View for DbItem {
    type V = DbItemView;

    open spec fn view(&self) -> DbItemView {
        DbItemView {
            value: self.value@,
            created: self.created as nat,
            expires: self.expires as nat,
        }
    }
}

impl DbItem {
    /// A value written at `created` that lives for `expires` milliseconds,
    /// or for ever where `expires` is zero.
    pub fn new(value: Vec<u8>, created: u64, expires: u64) -> (item: DbItem)
        ensures
            item@ == (DbItemView {
                value: value@,
                created: created as nat,
                expires: expires as nat,
            }),
    {
        DbItem { value, created, expires }
    }
}

/// Mathematical model of the keyspace.
pub type DbView = Map<Seq<u8>, DbItemView>;

/// The milliseconds that have passed at `now` since the value was written.
pub open spec fn age(item: DbItemView, now: nat) -> nat {
    if now >= item.created {
        (now - item.created) as nat
    } else {
        0
    }
}

/// The value has outlived its time at `now`.
pub open spec fn expired(item: DbItemView, now: nat) -> bool {
    item.expires > 0 && age(item, now) > item.expires
}

/// What a read of `key` at `now` finds: the value, unless there is none or
/// it has expired.
pub open spec fn read(db: DbView, key: Seq<u8>, now: nat) -> Option<Seq<u8>> {
    if db.contains_key(key) && !expired(db[key], now) {
        Some(db[key].value)
    } else {
        None
    }
}

/// The keyspace after `value` was written under `key` at `now`.
pub open spec fn written(db: DbView, key: Seq<u8>, value: Seq<u8>, expires: nat, now: nat) -> DbView {
    db.insert(key, DbItemView { value, created: now, expires })
}

/// The keys with their values, leaving aside when each was written and how
/// long it lives.
pub open spec fn values_of(db: DbView) -> Map<Seq<u8>, Seq<u8>> {
    db.map_values(|item: DbItemView| item.value)
}

/// The bytes of a value that may be absent.
pub open spec fn bytes_of(value: Option<Vec<u8>>) -> Option<Seq<u8>> {
    match value {
        Some(v) => Some(v@),
        None => None,
    }
}

/// The models of keys and values that are to be loaded, in order.
pub open spec fn pair_views(entries: Seq<(Vec<u8>, DbItem)>) -> Seq<(Seq<u8>, DbItemView)> {
    Seq::new(entries.len(), |i: int| (entries[i].0@, entries[i].1@))
}

/// The keyspace that holds the given entries and no others; of two entries
/// with one key the later stays.
pub open spec fn loaded(entries: Seq<(Seq<u8>, DbItemView)>) -> DbView
    decreases entries.len(),
{
    if entries.len() == 0 {
        Map::empty()
    } else {
        loaded(entries.drop_last()).insert(entries.last().0, entries.last().1)
    }
}

struct Slot {
    key: Vec<u8>,
    item: DbItem,
}

spec fn keys_unique(slots: Seq<Slot>) -> bool {
    forall|i: int, j: int| 0 <= i < j < slots.len() ==> slots[i].key@ != slots[j].key@
}

spec fn has_key(slots: Seq<Slot>, key: Seq<u8>) -> bool {
    exists|i: int| 0 <= i < slots.len() && slots[i].key@ == key
}

spec fn index_of(slots: Seq<Slot>, key: Seq<u8>) -> int {
    choose|i: int| 0 <= i < slots.len() && slots[i].key@ == key
}

spec fn model(slots: Seq<Slot>) -> DbView {
    Map::new(|key: Seq<u8>| has_key(slots, key), |key: Seq<u8>| slots[index_of(slots, key)].item@)
}

proof fn lemma_index_of(slots: Seq<Slot>, i: int)
    requires
        keys_unique(slots),
        0 <= i < slots.len(),
    ensures
        has_key(slots, slots[i].key@),
        index_of(slots, slots[i].key@) == i,
        model(slots).contains_key(slots[i].key@),
        model(slots)[slots[i].key@] == slots[i].item@,
{
    let j = index_of(slots, slots[i].key@);
    assert(0 <= j < slots.len() && slots[j].key@ == slots[i].key@);
}

proof fn lemma_update(slots: Seq<Slot>, i: int, slot: Slot)
    requires
        keys_unique(slots),
        0 <= i < slots.len(),
        slot.key@ == slots[i].key@,
    ensures
        keys_unique(slots.update(i, slot)),
        model(slots.update(i, slot)) == model(slots).insert(slot.key@, slot.item@),
{
    let after = slots.update(i, slot);
    assert(keys_unique(after)) by {
        assert forall|a: int, b: int| 0 <= a < b < after.len() implies after[a].key@
            != after[b].key@ by {
            assert(after[a].key@ == slots[a].key@);
            assert(after[b].key@ == slots[b].key@);
        }
    }
    let want = model(slots).insert(slot.key@, slot.item@);
    assert forall|key: Seq<u8>| model(after).contains_key(key) <==> want.contains_key(key) by {
        if has_key(after, key) {
            let j = index_of(after, key);
            assert(slots[j].key@ == key);
        }
        if has_key(slots, key) {
            let j = index_of(slots, key);
            assert(after[j].key@ == key);
        }
        if key == slot.key@ {
            assert(after[i].key@ == key);
        }
    }
    assert forall|key: Seq<u8>| model(after).contains_key(key) implies model(after)[key]
        == want[key] by {
        let j = index_of(after, key);
        lemma_index_of(after, j);
        assert(slots[j].key@ == key);
        lemma_index_of(slots, j);
    }
    assert(model(after) =~= want);
}

proof fn lemma_push(slots: Seq<Slot>, slot: Slot)
    requires
        keys_unique(slots),
        !has_key(slots, slot.key@),
    ensures
        keys_unique(slots.push(slot)),
        model(slots.push(slot)) == model(slots).insert(slot.key@, slot.item@),
{
    let after = slots.push(slot);
    let last = slots.len() as int;
    assert(keys_unique(after)) by {
        assert forall|a: int, b: int| 0 <= a < b < after.len() implies after[a].key@
            != after[b].key@ by {
            if b == last {
                assert(slots[a].key@ == after[a].key@);
            }
        }
    }
    let want = model(slots).insert(slot.key@, slot.item@);
    assert forall|key: Seq<u8>| model(after).contains_key(key) <==> want.contains_key(key) by {
        if has_key(after, key) {
            let j = index_of(after, key);
            if j < last {
                assert(slots[j].key@ == key);
            }
        }
        if has_key(slots, key) {
            let j = index_of(slots, key);
            assert(after[j].key@ == key);
        }
        if key == slot.key@ {
            assert(after[last].key@ == key);
        }
    }
    assert forall|key: Seq<u8>| model(after).contains_key(key) implies model(after)[key]
        == want[key] by {
        let j = index_of(after, key);
        lemma_index_of(after, j);
        if j < last {
            assert(slots[j].key@ == key);
            lemma_index_of(slots, j);
        }
    }
    assert(model(after) =~= want);
}

/// The keyspace. Each key occurs once.
pub struct Db {
    slots: Vec<Slot>,
}

impl View for Db {
    type V = DbView;

    closed spec fn view(&self) -> DbView {
        model(self.slots@)
    }
}

impl Db {
    /// No key occurs twice.
    pub closed spec fn wf(&self) -> bool {
        keys_unique(self.slots@)
    }

    /// A keyspace without keys.
    pub fn new() -> (db: Db)
        ensures
            db.wf(),
            db@ == Map::<Seq<u8>, DbItemView>::empty(),
    {
        let db = Db { slots: Vec::new() };
        assert(db@ =~= Map::<Seq<u8>, DbItemView>::empty());
        db
    }

    fn find(&self, key: &[u8]) -> (found: Option<usize>)
        ensures
            match found {
                Some(i) => i < self.slots.len() && self.slots[i as int].key@ == key@,
                None => !has_key(self.slots@, key@),
            },
    {
        let mut i: usize = 0;
        while i < self.slots.len()
            invariant
                i <= self.slots.len(),
                forall|j: int| 0 <= j < i ==> self.slots[j].key@ != key@,
            decreases self.slots.len() - i,
        {
            if bytes_eq(self.slots[i].key.as_slice(), key) {
                return Some(i);
            }
            i = i + 1;
        }
        None
    }

    /// Writes `value` under `key` at the time `now`, in place of what the
    /// key held. The value lives for `expires` milliseconds, or for ever
    /// where `expires` is zero.
    pub fn set(&mut self, key: Vec<u8>, value: Vec<u8>, expires: u64, now: u64)
        requires
            old(self).wf(),
        ensures
            final(self).wf(),
            final(self)@ == written(old(self)@, key@, value@, expires as nat, now as nat),
    {
        let found = self.find(key.as_slice());
        let slot = Slot { key, item: DbItem::new(value, now, expires) };
        match found {
            Some(i) => {
                proof {
                    lemma_update(self.slots@, i as int, slot);
                }
                self.slots.set(i, slot);
            },
            None => {
                proof {
                    lemma_push(self.slots@, slot);
                }
                self.slots.push(slot);
            },
        }
    }

    /// Reads `key` at the time `now`: the value, unless the key holds none
    /// or the value has expired.
    pub fn get(&self, key: &[u8], now: u64) -> (value: Option<Vec<u8>>)
        requires
            self.wf(),
        ensures
            bytes_of(value) == read(self@, key@, now as nat),
    {
        match self.find(key) {
            Some(i) => {
                proof {
                    lemma_index_of(self.slots@, i as int);
                }
                let item = &self.slots[i].item;
                let age: u64 = if now >= item.created {
                    now - item.created
                } else {
                    0
                };
                if item.expires > 0 && age > item.expires {
                    None
                } else {
                    Some(item.value.clone())
                }
            },
            None => None,
        }
    }

    /// The keys of the keyspace, each once, in no particular order. A key
    /// whose value has expired is a key still.
    pub fn keys(&self) -> (keys: Vec<Vec<u8>>)
        requires
            self.wf(),
        ensures
            forall|i: int, j: int| 0 <= i < j < keys.len() ==> keys[i]@ != keys[j]@,
            forall|key: Seq<u8>|
                (exists|i: int| 0 <= i < keys.len() && keys[i]@ == key) <==> self@.contains_key(
                    key,
                ),
    {
        let mut keys: Vec<Vec<u8>> = Vec::new();
        let mut i: usize = 0;
        while i < self.slots.len()
            invariant
                i <= self.slots.len(),
                keys.len() == i,
                forall|k: int| 0 <= k < i ==> (#[trigger] keys[k])@ == self.slots[k].key@,
            decreases self.slots.len() - i,
        {
            keys.push(self.slots[i].key.clone());
            i = i + 1;
        }
        proof {
            assert forall|key: Seq<u8>|
                (exists|k: int| 0 <= k < keys.len() && keys[k]@ == key)
                    <==> self@.contains_key(key) by {
                if exists|k: int| 0 <= k < keys.len() && keys[k]@ == key {
                    let k = choose|k: int| 0 <= k < keys.len() && keys[k]@ == key;
                    lemma_index_of(self.slots@, k);
                }
                if self@.contains_key(key) {
                    let j = index_of(self.slots@, key);
                    assert(keys[j]@ == key);
                }
            }
        }
        keys
    }

    /// Puts the given entries in place of everything that the keyspace
    /// holds.
    pub fn bulk_load(&mut self, entries: Vec<(Vec<u8>, DbItem)>)
        ensures
            final(self).wf(),
            final(self)@ == loaded(pair_views(entries@)),
    {
        let mut fresh = Db::new();
        let mut entries = entries;
        let ghost all = entries@;
        let ghost models = pair_views(entries@);
        let mut taken: Vec<(Vec<u8>, DbItem)> = Vec::new();
        // Entries leave the vector from its end, so they are turned round
        // first to be written in their order.
        while entries.len() > 0
            invariant
                taken@.len() + entries@.len() == all.len(),
                forall|k: int| 0 <= k < entries@.len() ==> entries@[k] == all[k],
                forall|k: int|
                    0 <= k < taken@.len() ==> taken@[k] == all[all.len() - 1 - k],
            decreases entries.len(),
        {
            let entry = entries.pop().unwrap();
            taken.push(entry);
        }
        let mut done: usize = 0;
        let ghost total = all.len();
        assert(total == taken.len());
        while taken.len() > 0
            invariant
                done + taken@.len() == total,
                total == all.len(),
                total <= usize::MAX,
                forall|k: int|
                    0 <= k < taken@.len() ==> taken@[k] == all[all.len() - 1 - k],
                fresh.wf(),
                models == pair_views(all),
                fresh@ == loaded(models.take(done as int)),
            decreases taken.len(),
        {
            let (key, item) = taken.pop().unwrap();
            proof {
                let upto = models.take(done + 1);
                assert(upto.drop_last() =~= models.take(done as int));
                assert(upto.last() == models[done as int]);
                assert(item@ == (DbItemView {
                    value: item.value@,
                    created: item.created as nat,
                    expires: item.expires as nat,
                }));
            }
            fresh.set(key, item.value, item.expires, item.created);
            done = done + 1;
        }
        proof {
            assert(models.take(done as int) =~= models);
        }
        *self = fresh;
    }
}

/// A value written at `at` to live for `expires` milliseconds is read at any
/// later time `now` up to `expires` milliseconds after the write, and at no
/// time after that. A value written with `expires` zero is read at any later
/// time.
pub proof fn lemma_expiry(
    db: DbView,
    key: Seq<u8>,
    value: Seq<u8>,
    expires: nat,
    at: nat,
    now: nat,
)
    requires
        at <= now,
    ensures
        read(written(db, key, value, expires, at), key, now) == if expires == 0 || now - at
            <= expires {
            Some(value)
        } else {
            None
        },
{
}

/// A key that a read finds nothing under stays so at every later read, as
/// long as nothing is written: no value comes back after it has expired.
pub proof fn lemma_expiry_is_final(db: DbView, key: Seq<u8>, earlier: nat, later: nat)
    requires
        earlier <= later,
        read(db, key, earlier) is None,
    ensures
        read(db, key, later) is None,
{
}

} // verus!
