//! A store of pending evidence: entries keyed by content hash, each stamped with
//! the time at which it was created.

use crate::assoc::{distinct_keys, keyed, lemma_keyed_at, lemma_keyed_empty, lemma_keyed_len, lemma_keyed_push, lemma_keyed_remove};
use crate::identity::{digest_eq, Digest256};
use vstd::prelude::*;

verus! {

/// A value together with its arrival time, in milliseconds on a monotonic clock.
#[verifier::ext_equal]
pub struct Stamped<V> {
    pub value: V,
    pub arrival: u64,
}

/// Whether an entry that arrived at `arrival` is older than `max_age` at `now`.
/// An entry stamped later than `now` has no age.
pub open spec fn expired(arrival: u64, now: u64, max_age: u64) -> bool {
    now - arrival > max_age
}

/// The entries of `entries` that are not older than `max_age` at `now`.
pub open spec fn unexpired<T>(
    entries: Map<Digest256, Stamped<T>>,
    now: u64,
    max_age: u64,
) -> Map<Digest256, Stamped<T>> {
    entries.restrict(
        Set::new(
            |hash: Digest256|
                entries.contains_key(hash) && !expired(entries[hash].arrival, now, max_age),
        ),
    )
}

/// Whether an entry that arrived at `arrival` is older than `max_age` at `now`.
pub fn is_expired(arrival: u64, now: u64, max_age: u64) -> (stale: bool)
    ensures
        stale == expired(arrival, now, max_age),
{
    now > arrival && now - arrival > max_age
}

/// Entries keyed by content hash, at most one per hash.
pub struct PendingStore<V> {
    entries: Vec<(Digest256, Stamped<V>)>,
}

impl<V> View for PendingStore<V> {
    type V = Map<Digest256, Stamped<V>>;

    closed spec fn view(&self) -> Map<Digest256, Stamped<V>> {
        keyed(self.entries@)
    }
}

impl<V> PendingStore<V> {
    #[verifier::type_invariant]
    spec fn well_formed(self) -> bool {
        distinct_keys(self.entries@)
    }

    /// The empty store.
    pub fn new() -> (store: PendingStore<V>)
        ensures
            store@ == Map::<Digest256, Stamped<V>>::empty(),
    {
        proof {
            lemma_keyed_empty::<Digest256, Stamped<V>>();
        }
        PendingStore { entries: Vec::new() }
    }

    /// How many entries the store holds.
    pub fn len(&self) -> (count: usize)
        ensures
            self@.dom().finite(),
            count == self@.dom().len(),
    {
        proof {
            use_type_invariant(self);
            lemma_keyed_len(self.entries@);
        }
        self.entries.len()
    }

    /// Whether the store holds nothing.
    pub fn is_empty(&self) -> (empty: bool)
        ensures
            empty == (self@ == Map::<Digest256, Stamped<V>>::empty()),
    {
        proof {
            use_type_invariant(self);
            lemma_keyed_len(self.entries@);
            if self.entries@.len() == 0 {
                assert(self@ =~= Map::<Digest256, Stamped<V>>::empty());
            } else {
                lemma_keyed_at(self.entries@, 0);
            }
        }
        self.entries.len() == 0
    }

    /// Where the entry for `hash` stands, if there is one.
    fn position(&self, hash: &Digest256) -> (pos: Option<usize>)
        ensures
            match pos {
                Some(i) => i < self.entries.len() && self.entries@[i as int].0 == *hash,
                None => !self@.contains_key(*hash),
            },
    {
        let mut i: usize = 0;
        while i < self.entries.len()
            invariant
                i <= self.entries.len(),
                forall|j: int| 0 <= j < i ==> (#[trigger] self.entries@[j]).0 != *hash,
            decreases self.entries.len() - i,
        {
            if digest_eq(&self.entries[i].0, hash) {
                return Some(i);
            }
            i += 1;
        }
        None
    }

    /// Whether there is an entry for `hash`.
    pub fn contains_key(&self, hash: &Digest256) -> (found: bool)
        ensures
            found == self@.contains_key(*hash),
    {
        proof {
            use_type_invariant(self);
        }
        match self.position(hash) {
            Some(i) => {
                proof {
                    lemma_keyed_at(self.entries@, i as int);
                }
                true
            },
            None => false,
        }
    }

    /// The entry for `hash`, if there is one.
    pub fn get(&self, hash: &Digest256) -> (entry: Option<&Stamped<V>>)
        ensures
            match entry {
                Some(e) => self@.contains_key(*hash) && *e == self@[*hash],
                None => !self@.contains_key(*hash),
            },
    {
        proof {
            use_type_invariant(self);
        }
        match self.position(hash) {
            Some(i) => {
                proof {
                    lemma_keyed_at(self.entries@, i as int);
                }
                Some(&self.entries[i].1)
            },
            None => None,
        }
    }

    /// Takes the entry for `hash` out of the store and returns it, if there is
    /// one.
    pub fn remove(&mut self, hash: &Digest256) -> (entry: Option<Stamped<V>>)
        ensures
            final(self)@ == old(self)@.remove(*hash),
            entry == if old(self)@.contains_key(*hash) {
                Some(old(self)@[*hash])
            } else {
                None
            },
    {
        proof {
            use_type_invariant(&*self);
        }
        match self.position(hash) {
            Some(i) => {
                let mut entries: Vec<(Digest256, Stamped<V>)> = Vec::new();
                proof {
                    lemma_keyed_empty::<Digest256, Stamped<V>>();
                    lemma_keyed_at(self.entries@, i as int);
                    lemma_keyed_remove(self.entries@, i as int);
                }
                std::mem::swap(&mut entries, &mut self.entries);
                let taken = entries.remove(i);
                self.entries = entries;
                Some(taken.1)
            },
            None => {
                assert(self@.remove(*hash) =~= self@);
                None
            },
        }
    }

    /// Stores `value` under `hash` with the arrival time `arrival`, in place of
    /// any entry that was there.
    pub fn insert(&mut self, hash: Digest256, value: V, arrival: u64)
        ensures
            final(self)@ == old(self)@.insert(hash, Stamped { value, arrival }),
    {
        let _ = self.remove(&hash);
        proof {
            use_type_invariant(&*self);
            lemma_keyed_empty::<Digest256, Stamped<V>>();
            lemma_keyed_push(self.entries@, hash, Stamped { value, arrival });
            assert(old(self)@.remove(hash).insert(hash, Stamped { value, arrival }) =~= old(
                self,
            )@.insert(hash, Stamped { value, arrival }));
        }
        let mut entries: Vec<(Digest256, Stamped<V>)> = Vec::new();
        std::mem::swap(&mut entries, &mut self.entries);
        entries.push((hash, Stamped { value, arrival }));
        self.entries = entries;
    }

    /// Drops every entry that is older than `max_age` at `now`.
    pub fn remove_expired(&mut self, now: u64, max_age: u64)
        ensures
            final(self)@ == unexpired(old(self)@, now, max_age),
    {
        proof {
            use_type_invariant(&*self);
            lemma_keyed_empty::<Digest256, Stamped<V>>();
        }
        let mut rest: Vec<(Digest256, Stamped<V>)> = Vec::new();
        std::mem::swap(&mut rest, &mut self.entries);
        let mut kept: Vec<(Digest256, Stamped<V>)> = Vec::new();
        let ghost all = keyed(rest@);
        while rest.len() > 0
            invariant
                distinct_keys(rest@),
                distinct_keys(kept@),
                forall|hash: Digest256| #[trigger]
                    keyed(rest@).contains_key(hash) ==> all.contains_key(hash) && all[hash]
                        == keyed(rest@)[hash],
                forall|hash: Digest256| #[trigger]
                    keyed(kept@).contains_key(hash) <==> all.contains_key(hash) && !expired(
                        all[hash].arrival,
                        now,
                        max_age,
                    ) && !keyed(rest@).contains_key(hash),
                forall|hash: Digest256| #[trigger]
                    keyed(kept@).contains_key(hash) ==> keyed(kept@)[hash] == all[hash],
            decreases rest.len(),
        {
            let ghost before = rest@;
            let ghost kept_before = kept@;
            let last = rest.pop();
            proof {
                assert(rest@ =~= before.remove(before.len() - 1));
                lemma_keyed_remove(before, before.len() - 1);
                lemma_keyed_at(before, before.len() - 1);
            }
            match last {
                Some(entry) => {
                    if !is_expired(entry.1.arrival, now, max_age) {
                        proof {
                            lemma_keyed_push(kept_before, entry.0, entry.1);
                        }
                        kept.push(entry);
                    }
                },
                None => {},
            }
        }
        proof {
            lemma_keyed_len(rest@);
            assert(keyed(kept@) =~= unexpired(all, now, max_age));
        }
        self.entries = kept;
    }
}

} // verus!
