//! Global deduplication backed by a hash set of what was emitted: items (or
//! keys) need equality and a deterministic hash.
use std::collections::{HashSet, VecDeque};
use std::hash::Hash;
use vstd::prelude::*;
use vstd::pervasive::strictly_cloned;
use vstd::std_specs::hash::obeys_key_model;

use crate::model::{
    clone_is_exact, identity, is_pure_key_fn, is_pure_predicate, keep_first, keep_first_after,
    key_fn, lemma_key_of, pred_rel, same,
};

verus! {

broadcast use vstd::std_specs::hash::group_hash_axioms;

/// Whether `f` relates some item of `seen` to `item`; every item of the set is
/// tried, since the predicate need not agree with the set's own comparison.
fn any_related<T: Eq + Hash + Clone, F: Fn(&T, &T) -> bool>(
    seen: &HashSet<T>,
    item: &T,
    f: &F,
) -> (r: bool)
    requires
        is_pure_predicate(*f),
        obeys_key_model::<T>(),
    ensures
        r == exists|a: T| seen@.contains(a) && #[trigger] pred_rel(*f)(a, *item),
{
    for a in it: seen.iter()
        invariant
            is_pure_predicate(*f),
            forall|a: T| #[trigger]
                seen@.contains(a) ==> exists|j: int| 0 <= j < it.seq().len() && *it.seq()[j] == a,
            forall|j: int| 0 <= j < it.index() ==> !pred_rel(*f)(*#[trigger] it.seq()[j], *item),
    {
        if f(a, item) {
            assert(pred_rel(*f)(*a, *item));
            assert(seen@.contains(*a)) by {
                assert(it.seq().unref()[it.index()] == *a);
                assert(it.seq().unref().contains(*a));
            }
            return true;
        }
    }
    false
}

/// Removes repeated equal items, keeping the first of each; what was emitted
/// is tracked in a hash set.
pub struct DedupHash<T> {
    source: VecDeque<T>,
    seen: HashSet<T>,
}

impl<T: Eq + Hash + Clone> DedupHash<T> {
    /// The items not yet taken from the source.
    pub closed spec fn remaining(&self) -> Seq<T> {
        self.source@
    }

    /// The items emitted so far.
    pub closed spec fn seen(&self) -> Set<T> {
        self.seen@
    }

    /// The items this adapter still yields, in order.
    pub open spec fn output(&self) -> Seq<T> {
        keep_first_after(self.seen(), self.remaining(), identity(), same())
    }

    /// Drains the adapter, returning everything it still yields.
    pub fn collect_vec(self) -> (r: Vec<T>)
        requires
            obeys_key_model::<T>(),
            clone_is_exact::<T>(),
        ensures
            r@ == self.output(),
    {
        let mut it = self;
        let mut out: Vec<T> = Vec::new();
        loop
            invariant
                obeys_key_model::<T>(),
                clone_is_exact::<T>(),
                out@ + it.output() == self.output(),
            decreases it.output().len(),
        {
            match it.next() {
                Some(x) => {
                    out.push(x);
                },
                None => {
                    assert(out@ + it.output() == out@);
                    return out;
                },
            }
        }
    }

    /// Yields the next item, or `None` once the output is exhausted.
    pub fn next(&mut self) -> (r: Option<T>)
        requires
            obeys_key_model::<T>(),
            clone_is_exact::<T>(),
        ensures
            match r {
                Some(x) => old(self).output() == seq![x] + final(self).output(),
                None => old(self).output().len() == 0 && final(self).output().len() == 0,
            },
    {
        loop
            invariant
                obeys_key_model::<T>(),
                clone_is_exact::<T>(),
                self.output() == old(self).output(),
                self.seen@ == old(self).seen@,
            decreases self.source@.len(),
        {
            let ghost rest = self.source@;
            match self.source.pop_front() {
                None => {
                    return None;
                },
                Some(item) => {
                    assert(rest.drop_first() == self.source@);
                    let found = self.seen.contains(&item);
                    if found {
                        assert(same::<T>()(item, item));
                    } else {
                        let copy = item.clone();
                        assert(strictly_cloned(item, copy));
                        self.seen.insert(copy);
                        return Some(item);
                    }
                },
            }
        }
    }
}

/// Removes repeated items that the given predicate relates to an item emitted
/// before them, keeping the first. The emitted items are kept in a hash set, but
/// each item is checked against all of them with the predicate.
pub struct DedupHashBy<T, F> {
    source: VecDeque<T>,
    seen: HashSet<T>,
    equivalence: F,
}

impl<T: Eq + Hash + Clone, F: Fn(&T, &T) -> bool> DedupHashBy<T, F> {
    /// The items not yet taken from the source.
    pub closed spec fn remaining(&self) -> Seq<T> {
        self.source@
    }

    /// The items emitted so far.
    pub closed spec fn seen(&self) -> Set<T> {
        self.seen@
    }

    /// The predicate items are compared with.
    pub closed spec fn equivalence(&self) -> F {
        self.equivalence
    }

    /// The items this adapter still yields, in order.
    pub open spec fn output(&self) -> Seq<T> {
        keep_first_after(self.seen(), self.remaining(), identity(), pred_rel(self.equivalence()))
    }

    /// Drains the adapter, returning everything it still yields.
    pub fn collect_vec(self) -> (r: Vec<T>)
        requires
            is_pure_predicate(self.equivalence()),
            obeys_key_model::<T>(),
            clone_is_exact::<T>(),
        ensures
            r@ == self.output(),
    {
        let mut it = self;
        let mut out: Vec<T> = Vec::new();
        loop
            invariant
                is_pure_predicate(it.equivalence()),
                obeys_key_model::<T>(),
                clone_is_exact::<T>(),
                out@ + it.output() == self.output(),
            decreases it.output().len(),
        {
            match it.next() {
                Some(x) => {
                    out.push(x);
                },
                None => {
                    assert(out@ + it.output() == out@);
                    return out;
                },
            }
        }
    }

    /// Yields the next item, or `None` once the output is exhausted.
    pub fn next(&mut self) -> (r: Option<T>)
        requires
            is_pure_predicate(old(self).equivalence()),
            obeys_key_model::<T>(),
            clone_is_exact::<T>(),
        ensures
            final(self).equivalence() == old(self).equivalence(),
            match r {
                Some(x) => old(self).output() == seq![x] + final(self).output(),
                None => old(self).output().len() == 0 && final(self).output().len() == 0,
            },
    {
        loop
            invariant
                is_pure_predicate(self.equivalence),
                obeys_key_model::<T>(),
                clone_is_exact::<T>(),
                self.equivalence == old(self).equivalence,
                self.output() == old(self).output(),
                self.seen@ == old(self).seen@,
            decreases self.source@.len(),
        {
            let ghost rest = self.source@;
            match self.source.pop_front() {
                None => {
                    return None;
                },
                Some(item) => {
                    assert(rest.drop_first() == self.source@);
                    if !any_related(&self.seen, &item, &self.equivalence) {
                        let copy = item.clone();
                        assert(strictly_cloned(item, copy));
                        self.seen.insert(copy);
                        return Some(item);
                    }
                },
            }
        }
    }
}

/// Removes repeated items whose key under the given function equals the key
/// of an item emitted before them, keeping the first; the emitted keys are
/// tracked in a hash set.
pub struct DedupHashByKey<T, F, K> {
    source: VecDeque<T>,
    seen: HashSet<K>,
    function: F,
}

impl<T, F: Fn(&T) -> K, K: Eq + Hash> DedupHashByKey<T, F, K> {
    /// The items not yet taken from the source.
    pub closed spec fn remaining(&self) -> Seq<T> {
        self.source@
    }

    /// The keys of the items emitted so far.
    pub closed spec fn seen(&self) -> Set<K> {
        self.seen@
    }

    /// The function that gives each item its key.
    pub closed spec fn function(&self) -> F {
        self.function
    }

    /// The items this adapter still yields, in order.
    pub open spec fn output(&self) -> Seq<T> {
        keep_first_after(self.seen(), self.remaining(), key_fn(self.function()), same())
    }

    /// Drains the adapter, returning everything it still yields.
    pub fn collect_vec(self) -> (r: Vec<T>)
        requires
            is_pure_key_fn(self.function()),
            obeys_key_model::<K>(),
        ensures
            r@ == self.output(),
    {
        let mut it = self;
        let mut out: Vec<T> = Vec::new();
        loop
            invariant
                is_pure_key_fn(it.function()),
                obeys_key_model::<K>(),
                out@ + it.output() == self.output(),
            decreases it.output().len(),
        {
            match it.next() {
                Some(x) => {
                    out.push(x);
                },
                None => {
                    assert(out@ + it.output() == out@);
                    return out;
                },
            }
        }
    }

    /// Yields the next item, or `None` once the output is exhausted.
    pub fn next(&mut self) -> (r: Option<T>)
        requires
            is_pure_key_fn(old(self).function()),
            obeys_key_model::<K>(),
        ensures
            final(self).function() == old(self).function(),
            match r {
                Some(x) => old(self).output() == seq![x] + final(self).output(),
                None => old(self).output().len() == 0 && final(self).output().len() == 0,
            },
    {
        loop
            invariant
                is_pure_key_fn(self.function),
                obeys_key_model::<K>(),
                self.function == old(self).function,
                self.output() == old(self).output(),
                self.seen@ == old(self).seen@,
            decreases self.source@.len(),
        {
            let ghost rest = self.source@;
            match self.source.pop_front() {
                None => {
                    return None;
                },
                Some(item) => {
                    assert(rest.drop_first() == self.source@);
                    let key = (self.function)(&item);
                    proof {
                        lemma_key_of(self.function, item, key);
                    }
                    let found = self.seen.contains(&key);
                    if found {
                        assert(same::<K>()(key, key));
                    } else {
                        self.seen.insert(key);
                        return Some(item);
                    }
                },
            }
        }
    }
}

/// Provides `dedup_hash` on a source of items.
pub trait DedupHashAdapter<T>: Sized {
    /// Takes the source over, keeping only the first of all equal items,
    /// tracked in a hash set.
    fn dedup_hash(self) -> DedupHash<T>;
}

impl<T: Eq + Hash + Clone> DedupHashAdapter<T> for VecDeque<T> {
    fn dedup_hash(self) -> (r: DedupHash<T>)
        ensures
            r.remaining() == self@,
            r.seen() == Set::<T>::empty(),
            r.output() == keep_first(self@, identity(), same::<T>()),
    {
        DedupHash { source: self, seen: HashSet::new() }
    }
}

/// Provides `dedup_hash_by` on a source of items.
pub trait DedupHashByAdapter<T, F>: Sized {
    /// Takes the source over, keeping an item only when `equivalence` relates
    /// no item emitted before it to it.
    fn dedup_hash_by(self, equivalence: F) -> DedupHashBy<T, F>;
}

impl<T: Eq + Hash + Clone, F: Fn(&T, &T) -> bool> DedupHashByAdapter<T, F> for VecDeque<T> {
    fn dedup_hash_by(self, equivalence: F) -> (r: DedupHashBy<T, F>)
        ensures
            r.remaining() == self@,
            r.seen() == Set::<T>::empty(),
            r.equivalence() == equivalence,
            r.output() == keep_first(self@, identity(), pred_rel(equivalence)),
    {
        DedupHashBy { source: self, seen: HashSet::new(), equivalence }
    }
}

/// Provides `dedup_hash_by_key` on a source of items.
pub trait DedupHashByKeyAdapter<T, F, K>: Sized {
    /// Takes the source over, keeping an item only when its key under
    /// `function` equals the key of no item emitted before it, the keys being
    /// tracked in a hash set.
    fn dedup_hash_by_key(self, function: F) -> DedupHashByKey<T, F, K>;
}

impl<T, F: Fn(&T) -> K, K: Eq + Hash> DedupHashByKeyAdapter<T, F, K> for VecDeque<T> {
    fn dedup_hash_by_key(self, function: F) -> (r: DedupHashByKey<T, F, K>)
        ensures
            r.remaining() == self@,
            r.seen() == Set::<K>::empty(),
            r.function() == function,
            r.output() == keep_first(self@, key_fn(function), same::<K>()),
    {
        DedupHashByKey { source: self, seen: HashSet::new(), function }
    }
}

} // verus!
