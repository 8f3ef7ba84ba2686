//! The in-memory key-value store with passive, read-time expiry.
//!
//! Keys and values are binary-safe byte strings.  Every entry carries the
//! time it was inserted and a time-to-live in milliseconds; `u32::MAX` means
//! "never expires".  Expiry is enforced lazily: an expired entry is removed
//! by the `get` that finds it, never by a background sweep.  The store is a
//! plain object; callers that share it across connections wrap it in a lock
//! and hold the lock for each whole operation.

use vstd::prelude::*;

use crate::bytes::{bytes_eq, clone_bytes};

verus! {

/// A stored value together with its insertion time and time-to-live.
pub struct Value {
    pub value: Vec<u8>,
    pub insertion_time: u64,
    pub expiry_millis: u32,
}

/// One key together with its stored value.
pub struct Entry {
    pub key: Vec<u8>,
    pub val: Value,
}

/// The mapping from key to entry, represented as a vector with unique keys.
pub struct Store {
    entries: Vec<Entry>,
}

/// Index of the first entry whose key is `k`, or `-1` when no entry has it.
pub open spec fn find_key(s: Seq<Entry>, k: Seq<u8>) -> int
    decreases s.len(),
{
    if s.len() == 0 {
        -1
    } else if s[0].key@ == k {
        0
    } else {
        let r = find_key(s.drop_first(), k);
        if r < 0 {
            -1
        } else {
            r + 1
        }
    }
}

/// Milliseconds elapsed since `inserted`, saturating at zero.
pub open spec fn since_millis(now: u64, inserted: u64) -> int {
    if now >= inserted {
        now - inserted
    } else {
        0
    }
}

/// An entry is live while the elapsed time has not passed its time-to-live;
/// at exactly the time-to-live it is still live.
pub open spec fn live_at(v: Value, now: u64) -> bool {
    since_millis(now, v.insertion_time) <= v.expiry_millis
}

/// What a lookup of `k` at time `now` returns: the stored bytes when the key
/// is present and live, absent otherwise.
pub open spec fn spec_get_result(s: Seq<Entry>, k: Seq<u8>, now: u64) -> Option<Seq<u8>> {
    let i = find_key(s, k);
    if i < 0 {
        None
    } else if live_at(s[i].val, now) {
        Some(s[i].val.value@)
    } else {
        None
    }
}

/// How a lookup of `k` at time `now` changes the entries: an expired entry is
/// removed, anything else leaves them untouched.
pub open spec fn get_post(s0: Seq<Entry>, s1: Seq<Entry>, k: Seq<u8>, now: u64) -> bool {
    let i = find_key(s0, k);
    if i < 0 {
        s1 == s0
    } else if live_at(s0[i].val, now) {
        s1 == s0
    } else {
        s1 == s0.remove(i)
    }
}

/// The time-to-live recorded for a `set`: the given milliseconds, or
/// `u32::MAX` ("never expires") when none were given.
pub open spec fn ttl_of(px: Option<u32>) -> u32 {
    match px {
        Some(t) => t,
        None => u32::MAX,
    }
}

/// How `set(k, v, px)` at time `now` changes the entries: the first entry for
/// `k` is overwritten in place, or a new entry is appended when `k` is absent.
pub open spec fn set_post(
    s0: Seq<Entry>,
    s1: Seq<Entry>,
    k: Seq<u8>,
    v: Seq<u8>,
    px: Option<u32>,
    now: u64,
) -> bool {
    let i = find_key(s0, k);
    &&& (i >= 0 ==> {
        &&& s1.len() == s0.len()
        &&& (forall|j: int| 0 <= j < s0.len() && j != i ==> s1[j] == s0[j])
        &&& s1[i].key@ == k
        &&& s1[i].val.value@ == v
        &&& s1[i].val.insertion_time == now
        &&& s1[i].val.expiry_millis == ttl_of(px)
    })
    &&& (i < 0 ==> {
        &&& s1.len() == s0.len() + 1
        &&& (forall|j: int| 0 <= j < s0.len() ==> s1[j] == s0[j])
        &&& s1[s0.len() as int].key@ == k
        &&& s1[s0.len() as int].val.value@ == v
        &&& s1[s0.len() as int].val.insertion_time == now
        &&& s1[s0.len() as int].val.expiry_millis == ttl_of(px)
    })
}

/// No two entries share a key.
pub open spec fn keys_unique(s: Seq<Entry>) -> bool {
    forall|i: int, j: int| 0 <= i < j < s.len() ==> s[i].key@ != s[j].key@
}

/// `find_key` is bounded, finds a matching key, and finds the first one.
pub proof fn lemma_find_key_props(s: Seq<Entry>, k: Seq<u8>)
    ensures
        -1 <= find_key(s, k) < s.len(),
        find_key(s, k) == -1 ==> (forall|j: int| 0 <= j < s.len() ==> s[j].key@ != k),
        find_key(s, k) >= 0 ==> s[find_key(s, k)].key@ == k,
        find_key(s, k) >= 0 ==> (forall|j: int| 0 <= j < find_key(s, k) ==> s[j].key@ != k),
    decreases s.len(),
{
    if s.len() == 0 {
    } else if s[0].key@ == k {
    } else {
        lemma_find_key_props(s.drop_first(), k);
        assert(forall|j: int| 0 <= j < s.drop_first().len() ==> s.drop_first()[j] == s[j + 1]);
        if find_key(s.drop_first(), k) == -1 {
            assert forall|j: int| 0 <= j < s.len() implies s[j].key@ != k by {
                if j > 0 {
                    assert(s.drop_first()[j - 1] == s[j]);
                }
            }
        } else {
            assert forall|j: int| 0 <= j < find_key(s, k) implies s[j].key@ != k by {
                if j > 0 {
                    assert(s.drop_first()[j - 1] == s[j]);
                }
            }
        }
    }
}

/// When `s[i]` is the first entry keyed `k`, `find_key` returns `i`.
pub proof fn lemma_find_key_at(s: Seq<Entry>, k: Seq<u8>, i: int)
    requires
        0 <= i < s.len(),
        s[i].key@ == k,
        forall|j: int| 0 <= j < i ==> s[j].key@ != k,
    ensures
        find_key(s, k) == i,
    decreases s.len(),
{
    if i == 0 {
    } else {
        assert(s[0].key@ != k);
        assert(s.drop_first()[i - 1] == s[i]);
        assert(forall|j: int| 0 <= j < i - 1 ==> s.drop_first()[j] == s[j + 1]);
        lemma_find_key_at(s.drop_first(), k, i - 1);
    }
}

impl Store {
    /// The entries as the mathematical model of the store.
    pub closed spec fn view(&self) -> Seq<Entry> {
        self.entries@
    }

    /// An empty store.
    pub fn new() -> (s: Store)
        ensures
            s@ == Seq::<Entry>::empty(),
            keys_unique(s@),
    {
        Store { entries: Vec::new() }
    }

    /// Index of the entry for `key`, when there is one.
    fn find(&self, key: &Vec<u8>) -> (r: Option<usize>)
        ensures
            match r {
                Some(i) => find_key(self@, key@) == i as int && i < self@.len(),
                None => find_key(self@, key@) == -1,
            },
    {
        let mut i: usize = 0;
        while i < self.entries.len()
            invariant
                i <= self.entries@.len(),
                forall|j: int| 0 <= j < i ==> self.entries@[j].key@ != key@,
            decreases self.entries.len() - i,
        {
            if bytes_eq(&self.entries[i].key, key) {
                proof {
                    lemma_find_key_at(self.entries@, key@, i as int);
                }
                return Some(i);
            }
            i += 1;
        }
        proof {
            lemma_find_key_props(self.entries@, key@);
        }
        None
    }

    /// Inserts or overwrites `key` with `value`, inserted at `now`, expiring
    /// after `px` milliseconds (or never, when `px` is absent).
    pub fn set(&mut self, key: Vec<u8>, value: Vec<u8>, px: Option<u32>, now: u64)
        ensures
            set_post(old(self)@, final(self)@, key@, value@, px, now),
            keys_unique(old(self)@) ==> keys_unique(final(self)@),
    {
        let ttl: u32 = match px {
            Some(t) => t,
            None => u32::MAX,
        };
        let found = self.find(&key);
        let entry = Entry { key, val: Value { value, insertion_time: now, expiry_millis: ttl } };
        match found {
            Some(i) => {
                proof {
                    lemma_find_key_props(self.entries@, entry.key@);
                }
                self.entries[i] = entry;
            },
            None => {
                proof {
                    lemma_find_key_props(self.entries@, entry.key@);
                }
                self.entries.push(entry);
            },
        }
    }

    /// Looks `key` up at time `now`.  Returns the stored bytes when the key
    /// is present and live; removes the entry and returns absent when it has
    /// expired; returns absent when the key was never set.
    pub fn get(&mut self, key: &Vec<u8>, now: u64) -> (r: Option<Vec<u8>>)
        ensures
            get_post(old(self)@, final(self)@, key@, now),
            match r {
                Some(v) => spec_get_result(old(self)@, key@, now) == Some(v@),
                None => spec_get_result(old(self)@, key@, now) is None,
            },
            keys_unique(old(self)@) ==> keys_unique(final(self)@),
    {
        match self.find(key) {
            None => None,
            Some(i) => {
                let inserted = self.entries[i].val.insertion_time;
                let since: u64 = if now >= inserted {
                    now - inserted
                } else {
                    0
                };
                if since > self.entries[i].val.expiry_millis as u64 {
                    let ghost s0 = self.entries@;
                    self.entries.remove(i);
                    proof {
                        assert forall|p: int, q: int|
                            0 <= p < q < self.entries@.len() && keys_unique(s0) implies self.entries@[p].key@
                            != self.entries@[q].key@ by {
                            let p0 = if p < i { p } else { p + 1 };
                            let q0 = if q < i { q } else { q + 1 };
                            assert(self.entries@[p] == s0[p0]);
                            assert(self.entries@[q] == s0[q0]);
                        }
                    }
                    None
                } else {
                    Some(clone_bytes(&self.entries[i].val.value))
                }
            },
        }
    }
}

/// Setting a key with no expiry and looking it up at the same instant returns
/// exactly the value just stored, and the lookup leaves the store unchanged.
pub proof fn lemma_set_then_get(s0: Seq<Entry>, s1: Seq<Entry>, k: Seq<u8>, v: Seq<u8>, now: u64)
    requires
        set_post(s0, s1, k, v, None, now),
    ensures
        spec_get_result(s1, k, now) == Some(v),
        get_post(s1, s1, k, now),
{
    lemma_find_key_props(s0, k);
    let i0 = find_key(s0, k);
    if i0 >= 0 {
        lemma_find_key_at(s1, k, i0);
    } else {
        lemma_find_key_at(s1, k, s0.len() as int);
    }
}

/// Setting a key with expiry `t` pins what a later lookup returns: the value
/// while the elapsed time is below `t` (and still at exactly `t`, the
/// boundary this store commits to), absent once the elapsed time exceeds `t`.
pub proof fn lemma_set_ttl_then_get(
    s0: Seq<Entry>,
    s1: Seq<Entry>,
    k: Seq<u8>,
    v: Seq<u8>,
    t: u32,
    now: u64,
    later: u64,
)
    requires
        set_post(s0, s1, k, v, Some(t), now),
        now <= later,
    ensures
        later - now <= t ==> spec_get_result(s1, k, later) == Some(v),
        later - now > t ==> spec_get_result(s1, k, later) is None,
{
    lemma_find_key_props(s0, k);
    let i0 = find_key(s0, k);
    if i0 >= 0 {
        lemma_find_key_at(s1, k, i0);
    } else {
        lemma_find_key_at(s1, k, s0.len() as int);
    }
}

/// Looking up a key that was never set returns absent — never an error, and
/// never a change to the store.
pub proof fn lemma_get_missing(s: Seq<Entry>, k: Seq<u8>, now: u64)
    requires
        forall|i: int| 0 <= i < s.len() ==> s[i].key@ != k,
    ensures
        spec_get_result(s, k, now) is None,
        get_post(s, s, k, now),
{
    lemma_find_key_props(s, k);
    if find_key(s, k) >= 0 {
        assert(s[find_key(s, k)].key@ == k);
    }
}

} // verus!
