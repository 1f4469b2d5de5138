//! Bounded flow cache with least-recently-used eviction.
//!
//! The cache holds at most [`FLOW_CACHE_CAPACITY`] entries. Entries are kept
//! in recency order — index 0 is the least recently touched entry, the last
//! index the most recently touched — so eviction removes index 0. Lookup is
//! by exact key; probing a key and its reverse is the caller's business.

use crate::flow::{FlowKey, FlowState};
use vstd::prelude::*;

verus! {

/// Fixed number of resident flows the cache is built for.
pub const FLOW_CACHE_CAPACITY: usize = 1024;

/// No two entries carry the same key.
pub open spec fn keys_distinct(s: Seq<(FlowKey, FlowState)>) -> bool {
    forall|i: int, j: int|
        0 <= i < j < s.len() ==> (#[trigger] s[i]).0 != (#[trigger] s[j]).0
}

/// Some entry carries key `k`.
pub open spec fn has_key(s: Seq<(FlowKey, FlowState)>, k: FlowKey) -> bool {
    exists|i: int| 0 <= i < s.len() && (#[trigger] s[i]).0 == k
}

/// The index of the entry carrying key `k`; meaningful when `has_key` holds
/// and the keys are distinct.
pub open spec fn key_index(s: Seq<(FlowKey, FlowState)>, k: FlowKey) -> int {
    choose|i: int| 0 <= i < s.len() && (#[trigger] s[i]).0 == k
}

/// The state stored under key `k`.
pub open spec fn state_of(s: Seq<(FlowKey, FlowState)>, k: FlowKey) -> FlowState {
    s[key_index(s, k)].1
}

/// With distinct keys, any index carrying `k` is the index of `k`.
pub proof fn lemma_key_index_is(s: Seq<(FlowKey, FlowState)>, k: FlowKey, i: int)
    requires
        keys_distinct(s),
        0 <= i < s.len(),
        s[i].0 == k,
    ensures
        has_key(s, k),
        key_index(s, k) == i,
        state_of(s, k) == s[i].1,
{
    assert(has_key(s, k));
    let j = key_index(s, k);
    if i != j {
        assert(s[i].0 != s[j].0);
    }
}

/// The cache after key `k` (already resident) is touched and its state set
/// to `v`: the entry moves to the most-recent end, everything else keeps its
/// relative order.
pub open spec fn touched(s: Seq<(FlowKey, FlowState)>, k: FlowKey, v: FlowState) -> Seq<
    (FlowKey, FlowState),
> {
    s.remove(key_index(s, k)).push((k, v))
}

/// The cache after a new key `k` is inserted with state `v`: appended at the
/// most-recent end; if the cache is full, the least recently touched entry
/// (index 0) makes room first.
pub open spec fn inserted(s: Seq<(FlowKey, FlowState)>, k: FlowKey, v: FlowState) -> Seq<
    (FlowKey, FlowState),
> {
    if s.len() < FLOW_CACHE_CAPACITY {
        s.push((k, v))
    } else {
        s.drop_first().push((k, v))
    }
}

/// Touching preserves distinctness, the set of resident keys and the states
/// of the untouched keys.
pub proof fn lemma_touched_facts(s: Seq<(FlowKey, FlowState)>, k: FlowKey, v: FlowState)
    requires
        keys_distinct(s),
        has_key(s, k),
    ensures
        touched(s, k, v).len() == s.len(),
        keys_distinct(touched(s, k, v)),
        has_key(touched(s, k, v), k),
        state_of(touched(s, k, v), k) == v,
        forall|k2: FlowKey| has_key(s, k2) <==> #[trigger] has_key(touched(s, k, v), k2),
        forall|k2: FlowKey|
            has_key(s, k2) && k2 != k ==> #[trigger] state_of(touched(s, k, v), k2) == state_of(
                s,
                k2,
            ),
{
    let i = key_index(s, k);
    assert(0 <= i < s.len() && s[i].0 == k);
    let t = touched(s, k, v);
    s.remove_ensures(i);
    assert(t.len() == s.len());
    assert forall|a: int, b: int| 0 <= a < b < t.len() implies (#[trigger] t[a]).0 != (
    #[trigger] t[b]).0 by {
        if b == t.len() - 1 {
            // t[b] is (k, v); t[a] comes from s at an index other than i
            if a < i {
                assert(t[a] == s[a]);
                assert(s[a].0 != s[i].0);
            } else {
                assert(t[a] == s[a + 1]);
                assert(s[a + 1].0 != s[i].0);
            }
        } else {
            let a0 = if a < i { a } else { a + 1 };
            let b0 = if b < i { b } else { b + 1 };
            assert(t[a] == s[a0] && t[b] == s[b0]);
            assert(s[a0].0 != s[b0].0);
        }
    }
    lemma_key_index_is(t, k, t.len() - 1);
    assert forall|k2: FlowKey| has_key(s, k2) implies #[trigger] has_key(t, k2) by {
        let j = choose|j: int| 0 <= j < s.len() && (#[trigger] s[j]).0 == k2;
        if j == i {
            assert(t[t.len() - 1].0 == k);
        } else if j < i {
            assert(t[j] == s[j]);
        } else {
            assert(t[j - 1] == s[j]);
        }
    }
    assert forall|k2: FlowKey| has_key(t, k2) implies #[trigger] has_key(s, k2) by {
        let j = choose|j: int| 0 <= j < t.len() && (#[trigger] t[j]).0 == k2;
        if j == t.len() - 1 {
            assert(s[i].0 == k2);
        } else if j < i {
            assert(t[j] == s[j]);
        } else {
            assert(t[j] == s[j + 1]);
        }
    }
    assert forall|k2: FlowKey| has_key(s, k2) && k2 != k implies #[trigger] state_of(t, k2)
        == state_of(s, k2) by {
        let j = key_index(s, k2);
        assert(0 <= j < s.len() && s[j].0 == k2);
        assert(j != i);
        if j < i {
            assert(t[j] == s[j]);
            lemma_key_index_is(t, k2, j);
        } else {
            assert(t[j - 1] == s[j]);
            lemma_key_index_is(t, k2, j - 1);
        }
    }
}

/// Inserting a fresh key preserves distinctness; at capacity exactly the
/// least recently touched entry leaves, and it is never the entry being
/// inserted.
pub proof fn lemma_inserted_facts(s: Seq<(FlowKey, FlowState)>, k: FlowKey, v: FlowState)
    requires
        keys_distinct(s),
        !has_key(s, k),
        s.len() <= FLOW_CACHE_CAPACITY,
    ensures
        keys_distinct(inserted(s, k, v)),
        inserted(s, k, v).len() <= FLOW_CACHE_CAPACITY,
        has_key(inserted(s, k, v), k),
        state_of(inserted(s, k, v), k) == v,
        s.len() < FLOW_CACHE_CAPACITY ==> inserted(s, k, v).len() == s.len() + 1,
        s.len() < FLOW_CACHE_CAPACITY ==> forall|k2: FlowKey|
            k2 != k ==> (#[trigger] has_key(inserted(s, k, v), k2) <==> has_key(s, k2)),
        s.len() == FLOW_CACHE_CAPACITY ==> {
            &&& inserted(s, k, v).len() == s.len()
            &&& !has_key(inserted(s, k, v), s[0].0)
            &&& s[0].0 != k
            &&& forall|k2: FlowKey|
                k2 != k && k2 != s[0].0 ==> (#[trigger] has_key(inserted(s, k, v), k2) <==> has_key(
                    s,
                    k2,
                ))
        },
        forall|k2: FlowKey|
            has_key(s, k2) && #[trigger] has_key(inserted(s, k, v), k2) ==> state_of(
                inserted(s, k, v),
                k2,
            ) == state_of(s, k2),
{
    let t = inserted(s, k, v);
    if s.len() < FLOW_CACHE_CAPACITY {
        assert forall|a: int, b: int| 0 <= a < b < t.len() implies (#[trigger] t[a]).0 != (
        #[trigger] t[b]).0 by {
            if b == t.len() - 1 {
                assert(t[a] == s[a]);
                assert(!(s[a].0 == k));
            }
        }
        lemma_key_index_is(t, k, t.len() - 1);
        assert forall|k2: FlowKey| k2 != k && has_key(t, k2) implies has_key(s, k2) by {
            let j = choose|j: int| 0 <= j < t.len() && (#[trigger] t[j]).0 == k2;
            assert(j < t.len() - 1);
            assert(t[j] == s[j]);
        }
        assert forall|k2: FlowKey| k2 != k && has_key(s, k2) implies has_key(t, k2) by {
            let j = choose|j: int| 0 <= j < s.len() && (#[trigger] s[j]).0 == k2;
            assert(t[j] == s[j]);
        }
        assert forall|k2: FlowKey| has_key(s, k2) && #[trigger] has_key(t, k2) implies state_of(
            t,
            k2,
        ) == state_of(s, k2) by {
            let j = key_index(s, k2);
            assert(0 <= j < s.len() && s[j].0 == k2);
            assert(t[j] == s[j]);
            lemma_key_index_is(t, k2, j);
        }
    } else {
        assert(s.len() == FLOW_CACHE_CAPACITY);
        assert forall|a: int, b: int| 0 <= a < b < t.len() implies (#[trigger] t[a]).0 != (
        #[trigger] t[b]).0 by {
            if b == t.len() - 1 {
                assert(t[a] == s[a + 1]);
                assert(!(s[a + 1].0 == k));
            } else {
                assert(t[a] == s[a + 1] && t[b] == s[b + 1]);
            }
        }
        lemma_key_index_is(t, k, t.len() - 1);
        // the evicted key s[0].0 is distinct from k and from every surviving key
        assert(s[0].0 != k);
        assert forall|j: int| 0 <= j < t.len() implies (#[trigger] t[j]).0 != s[0].0 by {
            if j < t.len() - 1 {
                assert(t[j] == s[j + 1]);
                assert(s[0].0 != s[j + 1].0);
            }
        }
        assert(!has_key(t, s[0].0));
        assert forall|k2: FlowKey| k2 != k && k2 != s[0].0 && has_key(t, k2) implies has_key(
            s,
            k2,
        ) by {
            let j = choose|j: int| 0 <= j < t.len() && (#[trigger] t[j]).0 == k2;
            assert(j < t.len() - 1);
            assert(t[j] == s[j + 1]);
        }
        assert forall|k2: FlowKey| k2 != k && k2 != s[0].0 && has_key(s, k2) implies has_key(
            t,
            k2,
        ) by {
            let j = choose|j: int| 0 <= j < s.len() && (#[trigger] s[j]).0 == k2;
            assert(j != 0);
            assert(t[j - 1] == s[j]);
        }
        assert forall|k2: FlowKey| has_key(s, k2) && #[trigger] has_key(t, k2) implies state_of(
            t,
            k2,
        ) == state_of(s, k2) by {
            let j = key_index(s, k2);
            assert(0 <= j < s.len() && s[j].0 == k2);
            if j == 0 {
                assert(!has_key(t, k2));
            } else {
                assert(t[j - 1] == s[j]);
                lemma_key_index_is(t, k2, j - 1);
            }
        }
    }
}

/// Fixed-capacity key-to-state map with least-recently-used eviction. Its
/// view is the sequence of entries from least to most recently touched.
pub struct FlowCache {
    entries: Vec<(FlowKey, FlowState)>,
}

impl View for FlowCache {
    type V = Seq<(FlowKey, FlowState)>;

    closed spec fn view(&self) -> Seq<(FlowKey, FlowState)> {
        self.entries@
    }
}

impl FlowCache {
    /// Distinct keys, never more entries than the capacity.
    pub open spec fn wf(&self) -> bool {
        &&& keys_distinct(self@)
        &&& self@.len() <= FLOW_CACHE_CAPACITY
    }

    pub fn new() -> (r: FlowCache)
        ensures
            r@ == Seq::<(FlowKey, FlowState)>::empty(),
            r.wf(),
    {
        FlowCache { entries: Vec::new() }
    }

    pub fn len(&self) -> (r: usize)
        ensures
            r == self@.len(),
    {
        self.entries.len()
    }

    /// The index of the entry under `key`, if the key is resident.
    fn find(&self, key: &FlowKey) -> (r: Option<usize>)
        requires
            self.wf(),
        ensures
            match r {
                Some(i) => i < self@.len() && self@[i as int].0 == *key && key_index(self@, *key)
                    == i,
                None => !has_key(self@, *key),
            },
    {
        let n = self.entries.len();
        let mut i: usize = 0;
        while i < n
            invariant
                n == self@.len(),
                i <= n,
                self.wf(),
                forall|j: int| 0 <= j < i ==> (#[trigger] self@[j]).0 != *key,
            decreases n - i,
        {
            if self.entries[i].0 == *key {
                proof {
                    lemma_key_index_is(self@, *key, i as int);
                }
                return Some(i);
            }
            i = i + 1;
        }
        None
    }

    /// Whether `key` is resident. Recency is not refreshed.
    pub fn contains(&self, key: &FlowKey) -> (r: bool)
        requires
            self.wf(),
        ensures
            r == has_key(self@, *key),
    {
        self.find(key).is_some()
    }

    /// A copy of the state under `key`, if resident. Recency is not
    /// refreshed.
    pub fn get(&self, key: &FlowKey) -> (r: Option<FlowState>)
        requires
            self.wf(),
        ensures
            match r {
                Some(st) => has_key(self@, *key) && st == state_of(self@, *key),
                None => !has_key(self@, *key),
            },
    {
        match self.find(key) {
            Some(i) => Some(self.entries[i].1),
            None => None,
        }
    }

    /// Refresh the recency of the resident `key` and store `st` under it:
    /// the entry becomes the most recently used, everything else keeps its
    /// relative order and state.
    pub fn touch_update(&mut self, key: &FlowKey, st: FlowState)
        requires
            old(self).wf(),
            has_key(old(self)@, *key),
        ensures
            final(self).wf(),
            final(self)@ == touched(old(self)@, *key, st),
    {
        proof {
            lemma_touched_facts(old(self)@, *key, st);
        }
        let i = self.find(key).unwrap();
        let _ = self.entries.remove(i);
        self.entries.push((*key, st));
    }

    /// Insert a state under a key that is not resident. Below capacity the
    /// entry is simply appended; at capacity exactly one entry — the least
    /// recently touched — is evicted first, and it is never the entry being
    /// inserted. Insertion therefore cannot fail.
    pub fn insert(&mut self, key: &FlowKey, st: FlowState)
        requires
            old(self).wf(),
            !has_key(old(self)@, *key),
        ensures
            final(self).wf(),
            final(self)@ == inserted(old(self)@, *key, st),
            has_key(final(self)@, *key),
            state_of(final(self)@, *key) == st,
            old(self)@.len() < FLOW_CACHE_CAPACITY ==> final(self)@.len() == old(self)@.len() + 1,
            old(self)@.len() == FLOW_CACHE_CAPACITY ==> {
                &&& final(self)@.len() == old(self)@.len()
                &&& !has_key(final(self)@, old(self)@[0].0)
                &&& old(self)@[0].0 != *key
                &&& forall|k2: FlowKey|
                    k2 != *key && k2 != old(self)@[0].0 ==> (#[trigger] has_key(final(self)@, k2)
                        <==> has_key(old(self)@, k2))
            },
    {
        proof {
            lemma_inserted_facts(old(self)@, *key, st);
        }
        if self.entries.len() == FLOW_CACHE_CAPACITY {
            let _ = self.entries.remove(0);
            proof {
                assert(self.entries@ == old(self)@.drop_first());
            }
        }
        self.entries.push((*key, st));
    }
}

} // verus!
