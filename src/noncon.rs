//! Global deduplication over an append-only list of what was emitted, scanned
//! in full for every item: needs nothing of the items but the comparison.
use std::collections::VecDeque;
use vstd::prelude::*;
use vstd::pervasive::strictly_cloned;
use vstd::std_specs::cmp::PartialEqSpec;

use crate::model::{
    clone_is_exact, eq_rel, identity, is_pure_key_fn, is_pure_predicate, keep_first,
    keep_first_after, key_fn, lemma_key_of, pred_rel,
};

verus! {

/// Whether some item of `seen` equals `item`.
fn any_equal<T: PartialEq>(seen: &Vec<T>, item: &T) -> (r: bool)
    requires
        T::obeys_eq_spec(),
    ensures
        r == exists|a: T| seen@.to_set().contains(a) && #[trigger] eq_rel::<T>()(a, *item),
{
    let mut i: usize = 0;
    while i < seen.len()
        invariant
            T::obeys_eq_spec(),
            i <= seen.len(),
            forall|j: int| 0 <= j < i ==> !seen@[j].eq_spec(item),
        decreases seen.len() - i,
    {
        if seen[i].eq(item) {
            assert(seen@.to_set().contains(seen@[i as int]));
            assert(eq_rel::<T>()(seen@[i as int], *item));
            return true;
        }
        i = i + 1;
    }
    proof {
        assert forall|a: T| seen@.to_set().contains(a) implies !#[trigger] eq_rel::<T>()(
            a,
            *item,
        ) by {
            assert(seen@.contains(a));
        }
    }
    false
}

/// Whether `f` relates some item of `seen` to `item`.
fn any_related<T, F: Fn(&T, &T) -> bool>(seen: &Vec<T>, item: &T, f: &F) -> (r: bool)
    requires
        is_pure_predicate(*f),
    ensures
        r == exists|a: T| seen@.to_set().contains(a) && #[trigger] pred_rel(*f)(a, *item),
{
    let mut i: usize = 0;
    while i < seen.len()
        invariant
            is_pure_predicate(*f),
            i <= seen.len(),
            forall|j: int| 0 <= j < i ==> !#[trigger] pred_rel(*f)(seen@[j], *item),
        decreases seen.len() - i,
    {
        if f(&seen[i], item) {
            assert(seen@.to_set().contains(seen@[i as int]));
            assert(pred_rel(*f)(seen@[i as int], *item));
            return true;
        }
        i = i + 1;
    }
    proof {
        assert forall|a: T| seen@.to_set().contains(a) implies !#[trigger] pred_rel(*f)(
            a,
            *item,
        ) by {
            assert(seen@.contains(a));
        }
    }
    false
}

/// Removes repeated equal items, keeping the first of each.
pub struct DedupNonCon<T> {
    source: VecDeque<T>,
    seen: Vec<T>,
}

impl<T: PartialEq + Clone> DedupNonCon<T> {
    /// The items not yet taken from the source.
    pub closed spec fn remaining(&self) -> Seq<T> {
        self.source@
    }

    /// The items emitted so far.
    pub closed spec fn seen(&self) -> Set<T> {
        self.seen@.to_set()
    }

    /// The items this adapter still yields, in order.
    pub open spec fn output(&self) -> Seq<T> {
        keep_first_after(self.seen(), self.remaining(), identity(), eq_rel::<T>())
    }

    /// Drains the adapter, returning everything it still yields.
    pub fn collect_vec(self) -> (r: Vec<T>)
        requires
            T::obeys_eq_spec(),
            clone_is_exact::<T>(),
        ensures
            r@ == self.output(),
    {
        let mut it = self;
        let mut out: Vec<T> = Vec::new();
        loop
            invariant
                T::obeys_eq_spec(),
                clone_is_exact::<T>(),
                out@ + it.output() == self.output(),
            decreases it.output().len(),
        {
            match it.next() {
                Some(x) => {
                    out.push(x);
                },
                None => {
                    assert(out@ + it.output() == out@);
                    return out;
                },
            }
        }
    }

    /// Yields the next item, or `None` once the output is exhausted.
    pub fn next(&mut self) -> (r: Option<T>)
        requires
            T::obeys_eq_spec(),
            clone_is_exact::<T>(),
        ensures
            match r {
                Some(x) => old(self).output() == seq![x] + final(self).output(),
                None => old(self).output().len() == 0 && final(self).output().len() == 0,
            },
    {
        loop
            invariant
                T::obeys_eq_spec(),
                clone_is_exact::<T>(),
                self.output() == old(self).output(),
                self.seen@ == old(self).seen@,
            decreases self.source@.len(),
        {
            let ghost rest = self.source@;
            match self.source.pop_front() {
                None => {
                    return None;
                },
                Some(item) => {
                    assert(rest.drop_first() == self.source@);
                    if !any_equal(&self.seen, &item) {
                        let copy = item.clone();
                        assert(strictly_cloned(item, copy));
                        self.seen.push(copy);
                        proof {
                            old(self).seen@.lemma_push_to_set_commute(item);
                        }
                        return Some(item);
                    }
                },
            }
        }
    }
}

/// Removes repeated items that the given predicate relates to an item emitted
/// before them, keeping the first.
pub struct DedupNonConBy<T, F> {
    source: VecDeque<T>,
    seen: Vec<T>,
    equivalence: F,
}

impl<T: Clone, F: Fn(&T, &T) -> bool> DedupNonConBy<T, F> {
    /// The items not yet taken from the source.
    pub closed spec fn remaining(&self) -> Seq<T> {
        self.source@
    }

    /// The items emitted so far.
    pub closed spec fn seen(&self) -> Set<T> {
        self.seen@.to_set()
    }

    /// The predicate items are compared with.
    pub closed spec fn equivalence(&self) -> F {
        self.equivalence
    }

    /// The items this adapter still yields, in order.
    pub open spec fn output(&self) -> Seq<T> {
        keep_first_after(self.seen(), self.remaining(), identity(), pred_rel(self.equivalence()))
    }

    /// Drains the adapter, returning everything it still yields.
    pub fn collect_vec(self) -> (r: Vec<T>)
        requires
            is_pure_predicate(self.equivalence()),
            clone_is_exact::<T>(),
        ensures
            r@ == self.output(),
    {
        let mut it = self;
        let mut out: Vec<T> = Vec::new();
        loop
            invariant
                is_pure_predicate(it.equivalence()),
                clone_is_exact::<T>(),
                out@ + it.output() == self.output(),
            decreases it.output().len(),
        {
            match it.next() {
                Some(x) => {
                    out.push(x);
                },
                None => {
                    assert(out@ + it.output() == out@);
                    return out;
                },
            }
        }
    }

    /// Yields the next item, or `None` once the output is exhausted.
    pub fn next(&mut self) -> (r: Option<T>)
        requires
            is_pure_predicate(old(self).equivalence()),
            clone_is_exact::<T>(),
        ensures
            final(self).equivalence() == old(self).equivalence(),
            match r {
                Some(x) => old(self).output() == seq![x] + final(self).output(),
                None => old(self).output().len() == 0 && final(self).output().len() == 0,
            },
    {
        loop
            invariant
                is_pure_predicate(self.equivalence),
                clone_is_exact::<T>(),
                self.equivalence == old(self).equivalence,
                self.output() == old(self).output(),
                self.seen@ == old(self).seen@,
            decreases self.source@.len(),
        {
            let ghost rest = self.source@;
            match self.source.pop_front() {
                None => {
                    return None;
                },
                Some(item) => {
                    assert(rest.drop_first() == self.source@);
                    if !any_related(&self.seen, &item, &self.equivalence) {
                        let copy = item.clone();
                        assert(strictly_cloned(item, copy));
                        self.seen.push(copy);
                        proof {
                            old(self).seen@.lemma_push_to_set_commute(item);
                        }
                        return Some(item);
                    }
                },
            }
        }
    }
}

/// Removes repeated items whose key under the given function equals the key
/// of an item emitted before them, keeping the first.
pub struct DedupNonConByKey<T, F, K> {
    source: VecDeque<T>,
    seen: Vec<K>,
    function: F,
}

impl<T, F: Fn(&T) -> K, K: PartialEq> DedupNonConByKey<T, F, K> {
    /// The items not yet taken from the source.
    pub closed spec fn remaining(&self) -> Seq<T> {
        self.source@
    }

    /// The keys of the items emitted so far.
    pub closed spec fn seen(&self) -> Set<K> {
        self.seen@.to_set()
    }

    /// The function that gives each item its key.
    pub closed spec fn function(&self) -> F {
        self.function
    }

    /// The items this adapter still yields, in order.
    pub open spec fn output(&self) -> Seq<T> {
        keep_first_after(self.seen(), self.remaining(), key_fn(self.function()), eq_rel::<K>())
    }

    /// Drains the adapter, returning everything it still yields.
    pub fn collect_vec(self) -> (r: Vec<T>)
        requires
            is_pure_key_fn(self.function()),
            K::obeys_eq_spec(),
        ensures
            r@ == self.output(),
    {
        let mut it = self;
        let mut out: Vec<T> = Vec::new();
        loop
            invariant
                is_pure_key_fn(it.function()),
                K::obeys_eq_spec(),
                out@ + it.output() == self.output(),
            decreases it.output().len(),
        {
            match it.next() {
                Some(x) => {
                    out.push(x);
                },
                None => {
                    assert(out@ + it.output() == out@);
                    return out;
                },
            }
        }
    }

    /// Yields the next item, or `None` once the output is exhausted.
    pub fn next(&mut self) -> (r: Option<T>)
        requires
            is_pure_key_fn(old(self).function()),
            K::obeys_eq_spec(),
        ensures
            final(self).function() == old(self).function(),
            match r {
                Some(x) => old(self).output() == seq![x] + final(self).output(),
                None => old(self).output().len() == 0 && final(self).output().len() == 0,
            },
    {
        loop
            invariant
                is_pure_key_fn(self.function),
                K::obeys_eq_spec(),
                self.function == old(self).function,
                self.output() == old(self).output(),
                self.seen@ == old(self).seen@,
            decreases self.source@.len(),
        {
            let ghost rest = self.source@;
            match self.source.pop_front() {
                None => {
                    return None;
                },
                Some(item) => {
                    assert(rest.drop_first() == self.source@);
                    let key = (self.function)(&item);
                    proof {
                        lemma_key_of(self.function, item, key);
                    }
                    if !any_equal(&self.seen, &key) {
                        self.seen.push(key);
                        proof {
                            old(self).seen@.lemma_push_to_set_commute(key);
                        }
                        return Some(item);
                    }
                },
            }
        }
    }
}

/// Provides `dedup_non_con` on a source of items.
pub trait DedupNonConAdapter<T>: Sized {
    /// Takes the source over, keeping only the first of all equal items,
    /// tracked in a list.
    fn dedup_non_con(self) -> DedupNonCon<T>;
}

impl<T: PartialEq + Clone> DedupNonConAdapter<T> for VecDeque<T> {
    fn dedup_non_con(self) -> (r: DedupNonCon<T>)
        ensures
            r.remaining() == self@,
            r.seen() == Set::<T>::empty(),
            r.output() == keep_first(self@, identity(), eq_rel::<T>()),
    {
        let r = DedupNonCon { source: self, seen: Vec::new() };
        assert(r.seen@.to_set() == Set::<T>::empty());
        r
    }
}

/// Provides `dedup_non_con_by` on a source of items.
pub trait DedupNonConByAdapter<T, F>: Sized {
    /// Takes the source over, keeping an item only when `equivalence` relates
    /// no item emitted before it to it, tracked in a list.
    fn dedup_non_con_by(self, equivalence: F) -> DedupNonConBy<T, F>;
}

impl<T: Clone, F: Fn(&T, &T) -> bool> DedupNonConByAdapter<T, F> for VecDeque<T> {
    fn dedup_non_con_by(self, equivalence: F) -> (r: DedupNonConBy<T, F>)
        ensures
            r.remaining() == self@,
            r.seen() == Set::<T>::empty(),
            r.equivalence() == equivalence,
            r.output() == keep_first(self@, identity(), pred_rel(equivalence)),
    {
        let r = DedupNonConBy { source: self, seen: Vec::new(), equivalence };
        assert(r.seen@.to_set() == Set::<T>::empty());
        r
    }
}

/// Provides `dedup_non_con_by_key` on a source of items.
pub trait DedupNonConByKeyAdapter<T, F, K>: Sized {
    /// Takes the source over, keeping an item only when its key under
    /// `function` equals the key of no item emitted before it, tracked in a list.
    fn dedup_non_con_by_key(self, function: F) -> DedupNonConByKey<T, F, K>;
}

impl<T, F: Fn(&T) -> K, K: PartialEq> DedupNonConByKeyAdapter<T, F, K> for VecDeque<T> {
    fn dedup_non_con_by_key(self, function: F) -> (r: DedupNonConByKey<T, F, K>)
        ensures
            r.remaining() == self@,
            r.seen() == Set::<K>::empty(),
            r.function() == function,
            r.output() == keep_first(self@, key_fn(function), eq_rel::<K>()),
    {
        let r = DedupNonConByKey { source: self, seen: Vec::new(), function };
        assert(r.seen@.to_set() == Set::<K>::empty());
        r
    }
}

} // verus!
