use vstd::prelude::*;

use crate::ring::{hash, is_between, on_arc, ring_hash, HashPos};

verus! {

/// A stored key: 32 opaque bytes.
pub type Key = [u8; 32];

/// One stored pair: a key, its value, and the second (since the epoch) after
/// which the value has expired.
#[derive(Debug)]
pub struct KvPair {
    pub key: Key,
    pub value: String,
    pub expiration: u64,
}

/// The outcome of a read.
#[derive(Clone, Copy, Debug, PartialEq, Eq, Structural)]
pub enum GetStatus {
    Found,
    NotFound,
    Expired,
}

/// What a pair records for its key.
pub open spec fn record(p: KvPair) -> (Seq<char>, u64) {
    (p.value@, p.expiration)
}

/// The mapping that a sequence of pairs stands for; a later pair wins.
pub open spec fn store_view(entries: Seq<KvPair>) -> Map<Seq<u8>, (Seq<char>, u64)>
    decreases entries.len(),
{
    if entries.len() == 0 {
        Map::empty()
    } else {
        store_view(entries.drop_last()).insert(entries.last().key@, record(entries.last()))
    }
}

/// No key occurs twice.
pub open spec fn keys_unique(entries: Seq<KvPair>) -> bool {
    forall|i: int, j: int|
        0 <= i < entries.len() && 0 <= j < entries.len() && i != j ==> #[trigger] entries[i].key@ != #[trigger] entries[j].key@
}

/// A value stored to expire at `expiration` has expired at second `now`.
pub open spec fn expired(expiration: u64, now: u64) -> bool {
    expiration < now
}

/// The keys whose ring position lies on the arc `(lo, hi]`.
pub open spec fn keys_in_arc(lo: HashPos, hi: HashPos) -> Set<Seq<u8>> {
    Set::new(|k: Seq<u8>| on_arc(ring_hash(k), lo, hi, false, true))
}

proof fn lemma_unique_prefix(entries: Seq<KvPair>)
    requires
        keys_unique(entries),
        entries.len() > 0,
    ensures
        keys_unique(entries.drop_last()),
        forall|i: int| 0 <= i < entries.len() - 1 ==> #[trigger] entries[i].key@ != entries.last().key@,
{
    assert forall|i: int| 0 <= i < entries.len() - 1 implies #[trigger] entries[i].key@ != entries.last().key@ by {
        assert(entries[i].key@ != entries[entries.len() - 1].key@);
    }
}

/// A key that no pair holds is not in the mapping.
pub proof fn lemma_view_absent(entries: Seq<KvPair>, k: Seq<u8>)
    requires
        forall|i: int| 0 <= i < entries.len() ==> #[trigger] entries[i].key@ != k,
    ensures
        !store_view(entries).contains_key(k),
    decreases entries.len(),
{
    if entries.len() > 0 {
        assert(entries.last().key@ != k);
        lemma_view_absent(entries.drop_last(), k);
    }
}

/// Each pair's key maps to what that pair records.
pub proof fn lemma_view_has(entries: Seq<KvPair>, i: int)
    requires
        keys_unique(entries),
        0 <= i < entries.len(),
    ensures
        store_view(entries).contains_key(entries[i].key@),
        store_view(entries)[entries[i].key@] == record(entries[i]),
    decreases entries.len(),
{
    if i < entries.len() - 1 {
        lemma_unique_prefix(entries);
        lemma_view_has(entries.drop_last(), i);
    }
}

/// Replacing a pair by one with the same key rebinds that key.
pub proof fn lemma_view_update(entries: Seq<KvPair>, i: int, p: KvPair)
    requires
        keys_unique(entries),
        0 <= i < entries.len(),
        p.key@ == entries[i].key@,
    ensures
        store_view(entries.update(i, p)) == store_view(entries).insert(p.key@, record(p)),
    decreases entries.len(),
{
    let e2 = entries.update(i, p);
    lemma_unique_prefix(entries);
    if i == entries.len() - 1 {
        assert(e2.drop_last() =~= entries.drop_last());
        assert(store_view(e2) =~= store_view(entries).insert(p.key@, record(p)));
    } else {
        assert(e2.drop_last() =~= entries.drop_last().update(i, p));
        lemma_view_update(entries.drop_last(), i, p);
        assert(entries[i].key@ != entries.last().key@);
        assert(store_view(e2) =~= store_view(entries).insert(p.key@, record(p)));
    }
}

/// Removing a pair unbinds its key.
pub proof fn lemma_view_remove(entries: Seq<KvPair>, i: int)
    requires
        keys_unique(entries),
        0 <= i < entries.len(),
    ensures
        store_view(entries.remove(i)) == store_view(entries).remove(entries[i].key@),
        keys_unique(entries.remove(i)),
    decreases entries.len(),
{
    let e2 = entries.remove(i);
    let k = entries[i].key@;
    lemma_unique_prefix(entries);
    assert forall|a: int, b: int| 0 <= a < e2.len() && 0 <= b < e2.len() && a != b implies #[trigger] e2[a].key@
        != #[trigger] e2[b].key@ by {
        let a0 = if a < i { a } else { a + 1 };
        let b0 = if b < i { b } else { b + 1 };
        assert(e2[a] == entries[a0] && e2[b] == entries[b0]);
        assert(entries[a0].key@ != entries[b0].key@);
    }
    if i == entries.len() - 1 {
        assert(e2 =~= entries.drop_last());
        lemma_view_absent(entries.drop_last(), k);
        assert(store_view(e2) =~= store_view(entries).remove(k));
    } else {
        assert(e2.drop_last() =~= entries.drop_last().remove(i));
        lemma_view_remove(entries.drop_last(), i);
        assert(e2.last() == entries.last());
        assert(entries[i].key@ != entries.last().key@);
        assert(store_view(e2) =~= store_view(entries).remove(k));
    }
}

/// Distinct keys: the mapping has one key per pair.
pub proof fn lemma_view_len(entries: Seq<KvPair>)
    requires
        keys_unique(entries),
    ensures
        store_view(entries).dom().finite(),
        store_view(entries).dom().len() == entries.len(),
    decreases entries.len(),
{
    if entries.len() > 0 {
        lemma_unique_prefix(entries);
        lemma_view_len(entries.drop_last());
        lemma_view_absent(entries.drop_last(), entries.last().key@);
    }
}

/// Whether two keys are equal.
pub fn keys_equal(a: &Key, b: &Key) -> (r: bool)
    ensures
        r == (a@ == b@),
{
    let mut i: usize = 0;
    while i < 32
        invariant
            i <= 32,
            a@.len() == 32,
            b@.len() == 32,
            forall|j: int| 0 <= j < i ==> a@[j] == b@[j],
        decreases 32 - i,
    {
        if a[i] != b[i] {
            return false;
        }
        i = i + 1;
    }
    proof {
        assert(a@ =~= b@);
    }
    true
}

/// The key a client names by `name`: its bytes, padded with zeros to 32
/// bytes; none where the name is longer than 32 bytes.
pub fn pad_key(name: &[u8]) -> (r: Option<Key>)
    ensures
        name@.len() <= 32 ==> r is Some && r->0@ == name@ + Seq::new((32 - name@.len()) as nat, |i: int| 0u8),
        name@.len() > 32 ==> r is None,
{
    if name.len() > 32 {
        return None;
    }
    let mut key: Key = [0u8; 32];
    let mut i: usize = 0;
    while i < name.len()
        invariant
            i <= name@.len() <= 32,
            key@.len() == 32,
            forall|j: int| 0 <= j < i ==> key@[j] == name@[j],
            forall|j: int| i <= j < 32 ==> key@[j] == 0u8,
        decreases name@.len() - i,
    {
        key[i] = name[i];
        i = i + 1;
    }
    proof {
        assert(key@ =~= name@ + Seq::new((32 - name@.len()) as nat, |i: int| 0u8));
    }
    Some(key)
}

/// The ring position of a key.
pub fn key_position(key: &Key) -> (r: HashPos)
    ensures
        r == ring_hash(key@),
{
    hash(key.as_slice())
}

/// The in-memory key-value store of a node.
#[derive(Debug)]
pub struct KvStore {
    pub entries: Vec<KvPair>,
}

impl View for KvStore {
    type V = Map<Seq<u8>, (Seq<char>, u64)>;

    open spec fn view(&self) -> Map<Seq<u8>, (Seq<char>, u64)> {
        store_view(self.entries@)
    }
}

impl KvStore {
    /// No key is stored twice.
    pub open spec fn wf(&self) -> bool {
        keys_unique(self.entries@)
    }

    pub fn new() -> (r: KvStore)
        ensures
            r.wf(),
            r@ == Map::<Seq<u8>, (Seq<char>, u64)>::empty(),
    {
        KvStore { entries: Vec::new() }
    }

    /// The index of the pair that holds `key`, if any.
    fn find(&self, key: &Key) -> (r: Option<usize>)
        requires
            self.wf(),
        ensures
            match r {
                Some(i) => i < self.entries@.len() && self.entries@[i as int].key@ == key@,
                None => !self@.contains_key(key@),
            },
    {
        let mut i: usize = 0;
        while i < self.entries.len()
            invariant
                i <= self.entries@.len(),
                forall|j: int| 0 <= j < i ==> #[trigger] self.entries@[j].key@ != key@,
            decreases self.entries@.len() - i,
        {
            if keys_equal(&self.entries[i].key, key) {
                return Some(i);
            }
            i = i + 1;
        }
        proof {
            lemma_view_absent(self.entries@, key@);
        }
        None
    }

    /// The number of stored pairs.
    pub fn len(&self) -> (r: usize)
        requires
            self.wf(),
        ensures
            r == self@.len(),
    {
        proof {
            lemma_view_len(self.entries@);
        }
        self.entries.len()
    }

    /// Stores `value` under `key` until `expiration`, replacing what was there.
    pub fn insert(&mut self, key: Key, value: String, expiration: u64)
        requires
            old(self).wf(),
        ensures
            final(self).wf(),
            final(self)@ == old(self)@.insert(key@, (value@, expiration)),
    {
        let pair = KvPair { key, value, expiration };
        match self.find(&key) {
            Some(i) => {
                proof {
                    lemma_view_update(self.entries@, i as int, pair);
                    assert forall|a: int, b: int|
                        0 <= a < self.entries@.len() && 0 <= b < self.entries@.len() && a != b implies
                        #[trigger] self.entries@.update(i as int, pair)[a].key@
                        != #[trigger] self.entries@.update(i as int, pair)[b].key@ by {
                        assert(self.entries@[a].key@ != self.entries@[b].key@);
                    }
                }
                self.entries.set(i, pair);
            },
            None => {
                proof {
                    assert forall|j: int| 0 <= j < self.entries@.len() implies #[trigger] self.entries@[j].key@ != key@ by {
                        if self.entries@[j].key@ == key@ {
                            lemma_view_has(self.entries@, j);
                        }
                    }
                }
                self.entries.push(pair);
                proof {
                    assert(self.entries@.drop_last() =~= old(self).entries@);
                }
            },
        }
    }

    /// Removes what is stored under `key`, returning it.
    pub fn remove(&mut self, key: &Key) -> (r: Option<KvPair>)
        requires
            old(self).wf(),
        ensures
            final(self).wf(),
            final(self)@ == old(self)@.remove(key@),
            match r {
                Some(p) => old(self)@.contains_key(key@) && p.key@ == key@ && record(p) == old(self)@[key@],
                None => !old(self)@.contains_key(key@),
            },
    {
        match self.find(key) {
            Some(i) => {
                proof {
                    lemma_view_remove(self.entries@, i as int);
                    lemma_view_has(self.entries@, i as int);
                }
                let p = self.entries.remove(i);
                Some(p)
            },
            None => {
                proof {
                    assert(old(self)@.remove(key@) =~= old(self)@);
                }
                None
            },
        }
    }

    /// Reads `key` at second `now`. An expired value is evicted and returned
    /// with status `Expired`; a missing key gives an empty value and `NotFound`.
    pub fn get(&mut self, key: &Key, now: u64) -> (r: (String, GetStatus))
        requires
            old(self).wf(),
        ensures
            final(self).wf(),
            !old(self)@.contains_key(key@) ==> r.0@ == Seq::<char>::empty() && r.1 == GetStatus::NotFound
                && final(self)@ == old(self)@,
            old(self)@.contains_key(key@) && expired(old(self)@[key@].1, now) ==> r.0@ == old(self)@[key@].0
                && r.1 == GetStatus::Expired && final(self)@ == old(self)@.remove(key@),
            old(self)@.contains_key(key@) && !expired(old(self)@[key@].1, now) ==> r.0@ == old(self)@[key@].0
                && r.1 == GetStatus::Found && final(self)@ == old(self)@,
    {
        match self.find(key) {
            Some(i) => {
                proof {
                    lemma_view_has(self.entries@, i as int);
                }
                if self.entries[i].expiration < now {
                    proof {
                        lemma_view_remove(self.entries@, i as int);
                    }
                    let p = self.entries.remove(i);
                    (p.value, GetStatus::Expired)
                } else {
                    (self.entries[i].value.clone(), GetStatus::Found)
                }
            },
            None => (String::new(), GetStatus::NotFound),
        }
    }

    /// Copies of the pairs whose key's ring position lies on the arc `(lo, hi]`.
    pub fn pairs_in_arc(&self, lo: HashPos, hi: HashPos) -> (r: Vec<KvPair>)
        requires
            self.wf(),
        ensures
            keys_unique(r@),
            store_view(r@) == self@.restrict(keys_in_arc(lo, hi)),
    {
        let mut out: Vec<KvPair> = Vec::new();
        let mut i: usize = 0;
        while i < self.entries.len()
            invariant
                self.wf(),
                i <= self.entries@.len(),
                keys_unique(out@),
                forall|j: int| 0 <= j < out@.len() ==> exists|a: int| 0 <= a < i && #[trigger] out@[j].key@ == self.entries@[a].key@,
                store_view(out@) == store_view(self.entries@.subrange(0, i as int)).restrict(keys_in_arc(lo, hi)),
            decreases self.entries@.len() - i,
        {
            let p = &self.entries[i];
            let ghost before = out@;
            if is_between(key_position(&p.key), lo, hi, false, true) {
                proof {
                    assert forall|j: int| 0 <= j < before.len() implies #[trigger] before[j].key@ != p.key@ by {
                        let a = choose|a: int| 0 <= a < i && before[j].key@ == self.entries@[a].key@;
                        assert(self.entries@[a].key@ != self.entries@[i as int].key@);
                    }
                }
                out.push(KvPair { key: p.key, value: p.value.clone(), expiration: p.expiration });
                proof {
                    assert(out@.drop_last() =~= before);
                    assert forall|j: int| 0 <= j < out@.len() implies exists|a: int| 0 <= a < i + 1 && #[trigger] out@[j].key@
                        == self.entries@[a].key@ by {
                        if j == out@.len() - 1 {
                            assert(out@[j].key@ == self.entries@[i as int].key@);
                        } else {
                            assert(out@[j] == before[j]);
                        }
                    }
                }
            }
            proof {
                let pre = self.entries@.subrange(0, i as int);
                let post = self.entries@.subrange(0, i + 1);
                assert(post.drop_last() =~= pre);
                assert(store_view(out@) =~= store_view(post).restrict(keys_in_arc(lo, hi)));
            }
            i = i + 1;
        }
        proof {
            assert(self.entries@.subrange(0, self.entries@.len() as int) =~= self.entries@);
        }
        out
    }
}

} // verus!
