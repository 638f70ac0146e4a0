//! Storage of live challenges, keyed by identifier, with a second ordering
//! by age that is kept in step with it.
//!
//! The records live in a `BTreeMap`. The ordering by age is a vector of
//! keys kept ascending, searched by bisection, and not a second tree: a
//! walk of a `BTreeMap` in key order is specified by vstd over references
//! to its keys, for which it gives no laws of ordering, so that the order
//! of such a walk could not be stated here. The price is that adding and
//! taking out move the keys that follow.
use vstd::prelude::*;
use std::collections::BTreeMap;
use crate::record::{ChallengeRecord, QuestionState, precedes, is_expired, age_key};

verus! {

/// What a store operation reports when it cannot be carried out.
#[derive(Clone, Copy, Debug, PartialEq, Eq, Structural)]
pub enum StoreError {
    /// A record with this identifier is already stored.
    DuplicateId,
    /// No record with this identifier is stored.
    UnknownId,
}

/// The age index lists its keys in strictly ascending order.
spec fn ascending(ix: Seq<(u64, u32)>) -> bool {
    forall|i: int, j: int| 0 <= i < j < ix.len() ==> precedes(#[trigger] ix[i], #[trigger] ix[j])
}

/// The age index `ix` holds exactly the age keys of the records of `m`.
spec fn in_step(m: Map<u32, ChallengeRecord>, ix: Seq<(u64, u32)>) -> bool {
    &&& forall|id: u32| #[trigger] m.contains_key(id) ==> m[id].id == id
    &&& ascending(ix)
    &&& forall|i: int|
        0 <= i < ix.len() ==> m.contains_key((#[trigger] ix[i]).1) && m[ix[i].1].created_at
            == ix[i].0
    &&& forall|id: u32| #[trigger] m.contains_key(id) ==> ix.contains(age_key(m[id]))
}

/// Decides [`precedes`].
fn key_before(a: (u64, u32), b: (u64, u32)) -> (r: bool)
    ensures
        r == precedes(a, b),
{
    a.0 < b.0 || (a.0 == b.0 && a.1 < b.1)
}

/// The number of keys of `ix` that come before `key`.
fn lower_bound(ix: &Vec<(u64, u32)>, key: (u64, u32)) -> (k: usize)
    requires
        ascending(ix@),
    ensures
        k <= ix@.len(),
        forall|i: int| 0 <= i < k ==> precedes(#[trigger] ix@[i], key),
        forall|i: int| k <= i < ix@.len() ==> !precedes(#[trigger] ix@[i], key),
{
    let mut lo: usize = 0;
    let mut hi: usize = ix.len();
    while lo < hi
        invariant
            lo <= hi <= ix@.len(),
            ascending(ix@),
            forall|i: int| 0 <= i < lo ==> precedes(#[trigger] ix@[i], key),
            forall|i: int| hi <= i < ix@.len() ==> !precedes(#[trigger] ix@[i], key),
        decreases hi - lo,
    {
        let mid: usize = lo + (hi - lo) / 2;
        if key_before(ix[mid], key) {
            assert forall|i: int| 0 <= i < mid + 1 implies precedes(#[trigger] ix@[i], key) by {
                if i < mid {
                    assert(precedes(ix@[i], ix@[mid as int]));
                }
            }
            lo = mid + 1;
        } else {
            assert forall|i: int| mid <= i < ix@.len() implies !precedes(#[trigger] ix@[i], key) by {
                if mid < i {
                    assert(precedes(ix@[mid as int], ix@[i]));
                }
            }
            hi = mid;
        }
    }
    lo
}

/// Puts `key` at its place in the ascending index.
fn index_insert(ix: &mut Vec<(u64, u32)>, key: (u64, u32))
    requires
        ascending(old(ix)@),
        !old(ix)@.contains(key),
    ensures
        ascending(final(ix)@),
        forall|x: (u64, u32)|
            #[trigger] final(ix)@.contains(x) <==> (old(ix)@.contains(x) || x == key),
{
    let k: usize = lower_bound(ix, key);
    ix.insert(k, key);
    proof {
        let o = old(ix)@;
        let n = ix@;
        assert(n.len() == o.len() + 1);
        assert(n[k as int] == key);
        assert forall|i: int| 0 <= i < k implies #[trigger] n[i] == o[i] by {}
        assert forall|i: int| k < i < n.len() implies #[trigger] n[i] == o[i - 1] by {}
        assert forall|i: int| k <= i < o.len() implies precedes(key, #[trigger] o[i]) by {
            assert(o.contains(o[i]));
            assert(!precedes(o[i], key));
        }
        assert forall|i: int, j: int| 0 <= i < j < n.len() implies precedes(
            #[trigger] n[i],
            #[trigger] n[j],
        ) by {
            if j < k {
                assert(precedes(o[i], o[j]));
            } else if j == k {
                assert(precedes(o[i], key));
            } else if i == k {
                assert(precedes(key, o[j - 1]));
            } else if i < k {
                assert(precedes(o[i], key));
                assert(precedes(key, o[j - 1]));
            } else {
                assert(precedes(o[i - 1], o[j - 1]));
            }
        }
        assert forall|x: (u64, u32)| #[trigger] n.contains(x) <==> (o.contains(x) || x == key) by {
            if n.contains(x) {
                let i = choose|i: int| 0 <= i < n.len() && n[i] == x;
                if i < k {
                    assert(o[i] == x);
                } else if i > k {
                    assert(o[i - 1] == x);
                }
            }
            if o.contains(x) {
                let i = choose|i: int| 0 <= i < o.len() && o[i] == x;
                if i < k {
                    assert(n[i] == x);
                } else {
                    assert(n[i + 1] == x);
                }
            }
        }
    }
}

/// Takes `key` out of the ascending index.
fn index_remove(ix: &mut Vec<(u64, u32)>, key: (u64, u32))
    requires
        ascending(old(ix)@),
        old(ix)@.contains(key),
    ensures
        ascending(final(ix)@),
        forall|x: (u64, u32)|
            #[trigger] final(ix)@.contains(x) <==> (old(ix)@.contains(x) && x != key),
{
    let k: usize = lower_bound(ix, key);
    proof {
        let o = old(ix)@;
        let w = choose|i: int| 0 <= i < o.len() && o[i] == key;
        if w < k {
            assert(precedes(o[w], key));
        }
        if w > k {
            assert(precedes(o[k as int], o[w]));
            assert(!precedes(o[k as int], key));
        }
        assert(o[k as int] == key);
    }
    ix.remove(k);
    proof {
        let o = old(ix)@;
        let n = ix@;
        assert(n.len() == o.len() - 1);
        assert forall|i: int| 0 <= i < k implies #[trigger] n[i] == o[i] by {}
        assert forall|i: int| k <= i < n.len() implies #[trigger] n[i] == o[i + 1] by {}
        assert forall|i: int, j: int| 0 <= i < j < n.len() implies precedes(
            #[trigger] n[i],
            #[trigger] n[j],
        ) by {
            if j < k {
                assert(precedes(o[i], o[j]));
            } else if i < k {
                assert(precedes(o[i], o[j + 1]));
            } else {
                assert(precedes(o[i + 1], o[j + 1]));
            }
        }
        assert forall|x: (u64, u32)| #[trigger] n.contains(x) <==> (o.contains(x) && x != key) by {
            if n.contains(x) {
                let i = choose|i: int| 0 <= i < n.len() && n[i] == x;
                if i < k {
                    assert(o[i] == x);
                    assert(precedes(o[i], o[k as int]));
                } else {
                    assert(o[i + 1] == x);
                    assert(precedes(o[k as int], o[i + 1]));
                }
            }
            if o.contains(x) && x != key {
                let i = choose|i: int| 0 <= i < o.len() && o[i] == x;
                if i < k {
                    assert(n[i] == x);
                } else {
                    assert(n[i - 1] == x);
                }
            }
        }
    }
}

/// The age key under which the record of `id` is ordered.
pub open spec fn key_of(m: Map<u32, ChallengeRecord>, id: u32) -> (u64, u32) {
    (m[id].created_at, id)
}

/// `ids` lists records of `m` from the oldest on, each before the next.
pub open spec fn oldest_first(m: Map<u32, ChallengeRecord>, ids: Seq<u32>) -> bool {
    forall|i: int, j: int|
        0 <= i < j < ids.len() ==> precedes(key_of(m, #[trigger] ids[i]), key_of(m, #[trigger] ids[j]))
}

/// `ids` lists, oldest first, exactly the records of `m` that are past
/// their deadline at `now`.
pub open spec fn lists_expired(
    m: Map<u32, ChallengeRecord>,
    ids: Seq<u32>,
    ttl: u64,
    now: u64,
) -> bool {
    &&& oldest_first(m, ids)
    &&& forall|i: int|
        0 <= i < ids.len() ==> m.contains_key(#[trigger] ids[i]) && is_expired(
            m[ids[i]].created_at,
            now,
            ttl,
        )
    &&& forall|id: u32|
        #[trigger] m.contains_key(id) && is_expired(m[id].created_at, now, ttl) ==> ids.contains(id)
}

/// The live challenges. Its view is the map from identifier to record; the
/// ordering by age is derived from it and never seen apart from it.
pub struct ChallengeStore {
    records: BTreeMap<u32, ChallengeRecord>,
    index: Vec<(u64, u32)>,
}

impl View for ChallengeStore {
    type V = Map<u32, ChallengeRecord>;

    closed spec fn view(&self) -> Map<u32, ChallengeRecord> {
        self.records@
    }
}

impl ChallengeStore {
    #[verifier::type_invariant]
    spec fn well_formed(self) -> bool {
        in_step(self.records@, self.index@)
    }

    /// An empty store.
    pub fn new() -> (s: Self)
        ensures
            s@ == Map::<u32, ChallengeRecord>::empty(),
    {
        ChallengeStore { records: BTreeMap::new(), index: Vec::new() }
    }

    /// The record stored under `id`, if there is one.
    pub fn get(&self, id: u32) -> (r: Option<ChallengeRecord>)
        ensures
            r == (if self@.contains_key(id) {
                Some(self@[id])
            } else {
                None
            }),
            r matches Some(rec) ==> rec.id == id,
    {
        broadcast use vstd::std_specs::btree::group_btree_axioms;
        broadcast use vstd::laws_cmp::group_laws_cmp;

        proof {
            use_type_invariant(self);
        }
        match self.records.get(&id) {
            Some(rec) => Some(*rec),
            None => None,
        }
    }

    /// Stores `record` under its own identifier, unless that identifier is
    /// taken; then nothing changes.
    pub fn insert(&mut self, record: ChallengeRecord) -> (r: Result<(), StoreError>)
        ensures
            old(self)@.contains_key(record.id) ==> r == Err::<(), StoreError>(
                StoreError::DuplicateId,
            ) && final(self)@ == old(self)@,
            !old(self)@.contains_key(record.id) ==> r is Ok && final(self)@ == old(self)@.insert(
                record.id,
                record,
            ),
    {
        broadcast use vstd::std_specs::btree::group_btree_axioms;
        broadcast use vstd::laws_cmp::group_laws_cmp;

        proof {
            use_type_invariant(&*self);
        }
        if self.records.contains_key(&record.id) {
            return Err(StoreError::DuplicateId);
        }
        let mut taken = ChallengeStore::new();
        std::mem::swap(self, &mut taken);
        let ChallengeStore { mut records, mut index } = taken;
        let key = (record.created_at, record.id);
        proof {
            if index@.contains(key) {
                let i = choose|i: int| 0 <= i < index@.len() && index@[i] == key;
                assert(records@.contains_key(index@[i].1));
            }
        }
        let ghost m0 = records@;
        let ghost ix0 = index@;
        records.insert(record.id, record);
        index_insert(&mut index, key);
        proof {
            let m = records@;
            let ix = index@;
            assert forall|i: int| 0 <= i < ix.len() implies m.contains_key((#[trigger] ix[i]).1)
                && m[ix[i].1].created_at == ix[i].0 by {
                assert(ix.contains(ix[i]));
                if ix[i] != key {
                    let j = choose|j: int| 0 <= j < ix0.len() && ix0[j] == ix[i];
                    assert(m0.contains_key(ix0[j].1));
                }
            }
            assert forall|id: u32| #[trigger] m.contains_key(id) implies ix.contains(
                age_key(m[id]),
            ) by {
                if id != record.id {
                    assert(m0.contains_key(id));
                    assert(ix0.contains(age_key(m0[id])));
                }
            }
        }
        *self = ChallengeStore { records, index };
        Ok(())
    }

    /// Sets the state of the record under `id`; all else in it stays.
    pub fn update_state(&mut self, id: u32, state: QuestionState) -> (r: Result<(), StoreError>)
        ensures
            !old(self)@.contains_key(id) ==> r == Err::<(), StoreError>(StoreError::UnknownId)
                && final(self)@ == old(self)@,
            old(self)@.contains_key(id) ==> r is Ok && final(self)@ == old(self)@.insert(
                id,
                (ChallengeRecord { state, ..old(self)@[id] }),
            ),
    {
        broadcast use vstd::std_specs::btree::group_btree_axioms;
        broadcast use vstd::laws_cmp::group_laws_cmp;

        proof {
            use_type_invariant(&*self);
        }
        let found = match self.records.get(&id) {
            Some(rec) => *rec,
            None => {
                return Err(StoreError::UnknownId);
            },
        };
        let mut taken = ChallengeStore::new();
        std::mem::swap(self, &mut taken);
        let ChallengeStore { mut records, index } = taken;
        let ghost m0 = records@;
        let changed = ChallengeRecord {
            id: found.id,
            answer: found.answer,
            state,
            created_at: found.created_at,
        };
        records.insert(id, changed);
        proof {
            let m = records@;
            let ix = index@;
            assert forall|i: int| 0 <= i < ix.len() implies m.contains_key((#[trigger] ix[i]).1)
                && m[ix[i].1].created_at == ix[i].0 by {
                assert(m0.contains_key(ix[i].1));
            }
            assert forall|k: u32| #[trigger] m.contains_key(k) implies ix.contains(
                age_key(m[k]),
            ) by {
                assert(m0.contains_key(k));
                assert(ix.contains(age_key(m0[k])));
            }
        }
        *self = ChallengeStore { records, index };
        Ok(())
    }

    /// Takes the record under `id` out of the store and hands it back.
    pub fn remove(&mut self, id: u32) -> (r: Option<ChallengeRecord>)
        ensures
            r == (if old(self)@.contains_key(id) {
                Some(old(self)@[id])
            } else {
                None
            }),
            final(self)@ == old(self)@.remove(id),
    {
        broadcast use vstd::std_specs::btree::group_btree_axioms;
        broadcast use vstd::laws_cmp::group_laws_cmp;

        proof {
            use_type_invariant(&*self);
        }
        let found = match self.records.get(&id) {
            Some(rec) => *rec,
            None => {
                assert(self@ =~= old(self)@.remove(id));
                return None;
            },
        };
        let mut taken = ChallengeStore::new();
        std::mem::swap(self, &mut taken);
        let ChallengeStore { mut records, mut index } = taken;
        let ghost m0 = records@;
        let ghost ix0 = index@;
        let _ = records.remove(&id);
        let key = (found.created_at, id);
        proof {
            assert(m0.contains_key(id));
            assert(ix0.contains(age_key(m0[id])));
        }
        index_remove(&mut index, key);
        proof {
            let m = records@;
            let ix = index@;
            assert forall|i: int| 0 <= i < ix.len() implies m.contains_key((#[trigger] ix[i]).1)
                && m[ix[i].1].created_at == ix[i].0 by {
                assert(ix.contains(ix[i]));
                let j = choose|j: int| 0 <= j < ix0.len() && ix0[j] == ix[i];
                assert(m0.contains_key(ix0[j].1));
            }
            assert forall|k: u32| #[trigger] m.contains_key(k) implies ix.contains(
                age_key(m[k]),
            ) by {
                assert(m0.contains_key(k));
                assert(ix0.contains(age_key(m0[k])));
            }
        }
        *self = ChallengeStore { records, index };
        Some(found)
    }

    /// Whether a record is stored under `id`.
    pub fn contains(&self, id: u32) -> (r: bool)
        ensures
            r == self@.contains_key(id),
    {
        broadcast use vstd::std_specs::btree::group_btree_axioms;
        broadcast use vstd::laws_cmp::group_laws_cmp;

        self.records.contains_key(&id)
    }

    /// The number of records stored.
    pub fn len(&self) -> (n: usize)
        ensures
            n == self@.len(),
            self@.dom().finite(),
    {
        broadcast use vstd::std_specs::btree::group_btree_axioms;
        broadcast use vstd::laws_cmp::group_laws_cmp;

        self.records.len()
    }

    /// The identifiers of the records issued more than `ttl` before `now`,
    /// the oldest first.
    pub fn oldest_older_than(&self, ttl: u64, now: u64) -> (ids: Vec<u32>)
        ensures
            lists_expired(self@, ids@, ttl, now),
    {
        proof {
            use_type_invariant(self);
        }
        let mut ids: Vec<u32> = Vec::new();
        if now <= ttl {
            return ids;
        }
        let cutoff: u64 = now - ttl;
        let k: usize = lower_bound(&self.index, (cutoff, 0u32));
        let mut i: usize = 0;
        while i < k
            invariant
                i <= k <= self.index@.len(),
                ids@.len() == i,
                forall|j: int| 0 <= j < i ==> #[trigger] ids@[j] == self.index@[j].1,
            decreases k - i,
        {
            ids.push(self.index[i].1);
            i += 1;
        }
        proof {
            let m = self@;
            let ix = self.index@;
            assert forall|a: int, b: int| 0 <= a < b < ids@.len() implies precedes(
                key_of(m, #[trigger] ids@[a]),
                key_of(m, #[trigger] ids@[b]),
            ) by {
                assert(precedes(ix[a], ix[b]));
            }
            assert forall|j: int| 0 <= j < ids@.len() implies m.contains_key(#[trigger] ids@[j])
                && is_expired(m[ids@[j]].created_at, now, ttl) by {
                assert(precedes(ix[j], (cutoff, 0u32)));
            }
            assert forall|id: u32| #[trigger]
                m.contains_key(id) && is_expired(m[id].created_at, now, ttl) implies ids@.contains(
                id,
            ) by {
                assert(ix.contains(age_key(m[id])));
                let j = choose|j: int| 0 <= j < ix.len() && ix[j] == age_key(m[id]);
                if j >= k {
                    assert(!precedes(ix[j], (cutoff, 0u32)));
                }
                assert(ids@[j] == id);
            }
        }
        ids
    }
}

} // verus!
