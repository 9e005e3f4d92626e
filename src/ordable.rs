//! Global deduplication backed by an ordered set of what was emitted: items
//! (or keys) need a total order.
use std::collections::{BTreeSet, VecDeque};
use vstd::laws_cmp::obeys_cmp;
use vstd::prelude::*;
use vstd::pervasive::strictly_cloned;

use crate::model::{
    clone_is_exact, identity, is_pure_key_fn, is_pure_predicate, keep_first, keep_first_after,
    key_fn, lemma_key_of, pred_rel, same,
};

verus! {

broadcast use vstd::std_specs::btree::group_btree_axioms;

/// Whether `f` relates some item of `seen` to `item`; every item of the set is
/// tried, since the predicate need not agree with the set's own comparison.
fn any_related<T: Ord + Clone, F: Fn(&T, &T) -> bool>(
    seen: &BTreeSet<T>,
    item: &T,
    f: &F,
) -> (r: bool)
    requires
        is_pure_predicate(*f),
        obeys_cmp::<T>(),
    ensures
        r == exists|a: T| seen@.contains(a) && #[trigger] pred_rel(*f)(a, *item),
{
    for a in it: seen.iter()
        invariant
            is_pure_predicate(*f),
            forall|a: T| #[trigger]
                seen@.contains(a) ==> exists|j: int| 0 <= j < it.seq().len() && *it.seq()[j] == a,
            forall|j: int| 0 <= j < it.index() ==> !pred_rel(*f)(*#[trigger] it.seq()[j], *item),
    {
        if f(a, item) {
            assert(pred_rel(*f)(*a, *item));
            assert(seen@.contains(*a)) by {
                assert(it.seq().unref()[it.index()] == *a);
                assert(it.seq().unref().contains(*a));
            }
            return true;
        }
    }
    false
}

/// Removes repeated equal items, keeping the first of each; what was emitted
/// is tracked in an ordered set.
pub struct DedupOrd<T> {
    source: VecDeque<T>,
    seen: BTreeSet<T>,
}

impl<T: Ord + Clone> DedupOrd<T> {
    /// The items not yet taken from the source.
    pub closed spec fn remaining(&self) -> Seq<T> {
        self.source@
    }

    /// The items emitted so far.
    pub closed spec fn seen(&self) -> Set<T> {
        self.seen@
    }

    /// The items this adapter still yields, in order.
    pub open spec fn output(&self) -> Seq<T> {
        keep_first_after(self.seen(), self.remaining(), identity(), same())
    }

    /// Drains the adapter, returning everything it still yields.
    pub fn collect_vec(self) -> (r: Vec<T>)
        requires
            obeys_cmp::<T>(),
            clone_is_exact::<T>(),
        ensures
            r@ == self.output(),
    {
        let mut it = self;
        let mut out: Vec<T> = Vec::new();
        loop
            invariant
                obeys_cmp::<T>(),
                clone_is_exact::<T>(),
                out@ + it.output() == self.output(),
            decreases it.output().len(),
        {
            match it.next() {
                Some(x) => {
                    out.push(x);
                },
                None => {
                    assert(out@ + it.output() == out@);
                    return out;
                },
            }
        }
    }

    /// Yields the next item, or `None` once the output is exhausted.
    pub fn next(&mut self) -> (r: Option<T>)
        requires
            obeys_cmp::<T>(),
            clone_is_exact::<T>(),
        ensures
            match r {
                Some(x) => old(self).output() == seq![x] + final(self).output(),
                None => old(self).output().len() == 0 && final(self).output().len() == 0,
            },
    {
        loop
            invariant
                obeys_cmp::<T>(),
                clone_is_exact::<T>(),
                self.output() == old(self).output(),
                self.seen@ == old(self).seen@,
            decreases self.source@.len(),
        {
            let ghost rest = self.source@;
            match self.source.pop_front() {
                None => {
                    return None;
                },
                Some(item) => {
                    assert(rest.drop_first() == self.source@);
                    let found = self.seen.contains(&item);
                    if found {
                        assert(same::<T>()(item, item));
                    } else {
                        let copy = item.clone();
                        assert(strictly_cloned(item, copy));
                        self.seen.insert(copy);
                        return Some(item);
                    }
                },
            }
        }
    }
}

/// Removes repeated items that the given predicate relates to an item emitted
/// before them, keeping the first. The emitted items are kept in an ordered set, but
/// each item is checked against all of them with the predicate.
pub struct DedupOrdBy<T, F> {
    source: VecDeque<T>,
    seen: BTreeSet<T>,
    equivalence: F,
}

impl<T: Ord + Clone, F: Fn(&T, &T) -> bool> DedupOrdBy<T, F> {
    /// The items not yet taken from the source.
    pub closed spec fn remaining(&self) -> Seq<T> {
        self.source@
    }

    /// The items emitted so far.
    pub closed spec fn seen(&self) -> Set<T> {
        self.seen@
    }

    /// The predicate items are compared with.
    pub closed spec fn equivalence(&self) -> F {
        self.equivalence
    }

    /// The items this adapter still yields, in order.
    pub open spec fn output(&self) -> Seq<T> {
        keep_first_after(self.seen(), self.remaining(), identity(), pred_rel(self.equivalence()))
    }

    /// Drains the adapter, returning everything it still yields.
    pub fn collect_vec(self) -> (r: Vec<T>)
        requires
            is_pure_predicate(self.equivalence()),
            obeys_cmp::<T>(),
            clone_is_exact::<T>(),
        ensures
            r@ == self.output(),
    {
        let mut it = self;
        let mut out: Vec<T> = Vec::new();
        loop
            invariant
                is_pure_predicate(it.equivalence()),
                obeys_cmp::<T>(),
                clone_is_exact::<T>(),
                out@ + it.output() == self.output(),
            decreases it.output().len(),
        {
            match it.next() {
                Some(x) => {
                    out.push(x);
                },
                None => {
                    assert(out@ + it.output() == out@);
                    return out;
                },
            }
        }
    }

    /// Yields the next item, or `None` once the output is exhausted.
    pub fn next(&mut self) -> (r: Option<T>)
        requires
            is_pure_predicate(old(self).equivalence()),
            obeys_cmp::<T>(),
            clone_is_exact::<T>(),
        ensures
            final(self).equivalence() == old(self).equivalence(),
            match r {
                Some(x) => old(self).output() == seq![x] + final(self).output(),
                None => old(self).output().len() == 0 && final(self).output().len() == 0,
            },
    {
        loop
            invariant
                is_pure_predicate(self.equivalence),
                obeys_cmp::<T>(),
                clone_is_exact::<T>(),
                self.equivalence == old(self).equivalence,
                self.output() == old(self).output(),
                self.seen@ == old(self).seen@,
            decreases self.source@.len(),
        {
            let ghost rest = self.source@;
            match self.source.pop_front() {
                None => {
                    return None;
                },
                Some(item) => {
                    assert(rest.drop_first() == self.source@);
                    if !any_related(&self.seen, &item, &self.equivalence) {
                        let copy = item.clone();
                        assert(strictly_cloned(item, copy));
                        self.seen.insert(copy);
                        return Some(item);
                    }
                },
            }
        }
    }
}

/// Removes repeated items whose key under the given function equals the key
/// of an item emitted before them, keeping the first; the emitted keys are
/// tracked in an ordered set.
pub struct DedupOrdByKey<T, F, K> {
    source: VecDeque<T>,
    seen: BTreeSet<K>,
    function: F,
}

impl<T, F: Fn(&T) -> K, K: Ord> DedupOrdByKey<T, F, K> {
    /// The items not yet taken from the source.
    pub closed spec fn remaining(&self) -> Seq<T> {
        self.source@
    }

    /// The keys of the items emitted so far.
    pub closed spec fn seen(&self) -> Set<K> {
        self.seen@
    }

    /// The function that gives each item its key.
    pub closed spec fn function(&self) -> F {
        self.function
    }

    /// The items this adapter still yields, in order.
    pub open spec fn output(&self) -> Seq<T> {
        keep_first_after(self.seen(), self.remaining(), key_fn(self.function()), same())
    }

    /// Drains the adapter, returning everything it still yields.
    pub fn collect_vec(self) -> (r: Vec<T>)
        requires
            is_pure_key_fn(self.function()),
            obeys_cmp::<K>(),
        ensures
            r@ == self.output(),
    {
        let mut it = self;
        let mut out: Vec<T> = Vec::new();
        loop
            invariant
                is_pure_key_fn(it.function()),
                obeys_cmp::<K>(),
                out@ + it.output() == self.output(),
            decreases it.output().len(),
        {
            match it.next() {
                Some(x) => {
                    out.push(x);
                },
                None => {
                    assert(out@ + it.output() == out@);
                    return out;
                },
            }
        }
    }

    /// Yields the next item, or `None` once the output is exhausted.
    pub fn next(&mut self) -> (r: Option<T>)
        requires
            is_pure_key_fn(old(self).function()),
            obeys_cmp::<K>(),
        ensures
            final(self).function() == old(self).function(),
            match r {
                Some(x) => old(self).output() == seq![x] + final(self).output(),
                None => old(self).output().len() == 0 && final(self).output().len() == 0,
            },
    {
        loop
            invariant
                is_pure_key_fn(self.function),
                obeys_cmp::<K>(),
                self.function == old(self).function,
                self.output() == old(self).output(),
                self.seen@ == old(self).seen@,
            decreases self.source@.len(),
        {
            let ghost rest = self.source@;
            match self.source.pop_front() {
                None => {
                    return None;
                },
                Some(item) => {
                    assert(rest.drop_first() == self.source@);
                    let key = (self.function)(&item);
                    proof {
                        lemma_key_of(self.function, item, key);
                    }
                    let found = self.seen.contains(&key);
                    if found {
                        assert(same::<K>()(key, key));
                    } else {
                        self.seen.insert(key);
                        return Some(item);
                    }
                },
            }
        }
    }
}

/// Provides `dedup_ord` on a source of items.
pub trait DedupOrdAdapter<T>: Sized {
    /// Takes the source over, keeping only the first of all equal items,
    /// tracked in an ordered set.
    fn dedup_ord(self) -> DedupOrd<T>;
}

impl<T: Ord + Clone> DedupOrdAdapter<T> for VecDeque<T> {
    fn dedup_ord(self) -> (r: DedupOrd<T>)
        ensures
            r.remaining() == self@,
            r.seen() == Set::<T>::empty(),
            r.output() == keep_first(self@, identity(), same::<T>()),
    {
        DedupOrd { source: self, seen: BTreeSet::new() }
    }
}

/// Provides `dedup_ord_by` on a source of items.
pub trait DedupOrdByAdapter<T, F>: Sized {
    /// Takes the source over, keeping an item only when `equivalence` relates
    /// no item emitted before it to it.
    fn dedup_ord_by(self, equivalence: F) -> DedupOrdBy<T, F>;
}

impl<T: Ord + Clone, F: Fn(&T, &T) -> bool> DedupOrdByAdapter<T, F> for VecDeque<T> {
    fn dedup_ord_by(self, equivalence: F) -> (r: DedupOrdBy<T, F>)
        ensures
            r.remaining() == self@,
            r.seen() == Set::<T>::empty(),
            r.equivalence() == equivalence,
            r.output() == keep_first(self@, identity(), pred_rel(equivalence)),
    {
        DedupOrdBy { source: self, seen: BTreeSet::new(), equivalence }
    }
}

/// Provides `dedup_ord_by_key` on a source of items.
pub trait DedupOrdByKeyAdapter<T, F, K>: Sized {
    /// Takes the source over, keeping an item only when its key under
    /// `function` equals the key of no item emitted before it, the keys being
    /// tracked in an ordered set.
    fn dedup_ord_by_key(self, function: F) -> DedupOrdByKey<T, F, K>;
}

impl<T, F: Fn(&T) -> K, K: Ord> DedupOrdByKeyAdapter<T, F, K> for VecDeque<T> {
    fn dedup_ord_by_key(self, function: F) -> (r: DedupOrdByKey<T, F, K>)
        ensures
            r.remaining() == self@,
            r.seen() == Set::<K>::empty(),
            r.function() == function,
            r.output() == keep_first(self@, key_fn(function), same::<K>()),
    {
        DedupOrdByKey { source: self, seen: BTreeSet::new(), function }
    }
}

} // verus!
