//! Consecutive deduplication: runs of adjacent equivalent items collapse into
//! the last item of the run.
use std::collections::VecDeque;
use std::marker::PhantomData;
use vstd::prelude::*;
use vstd::std_specs::cmp::PartialEqSpec;

use crate::model::{
    eq_rel, is_pure_key_fn, is_pure_predicate, keep_last, key_eq_rel, lemma_key_of, pred_rel,
};

verus! {

/// Removes consecutive equal items, keeping the last of each run.
#[derive(Debug, Clone)]
pub struct Dedup<T> {
    source: VecDeque<T>,
    current: Option<T>,
}

impl<T: PartialEq> Dedup<T> {
    /// The items not yet handed out or discarded, the pending one first.
    pub closed spec fn remaining(&self) -> Seq<T> {
        match self.current {
            Some(c) => seq![c] + self.source@,
            None => Seq::empty(),
        }
    }

    /// Once no item is pending, the source is drained.
    pub closed spec fn wf(&self) -> bool {
        self.current is None ==> self.source@.len() == 0
    }

    /// The items this adapter still yields, in order.
    pub open spec fn output(&self) -> Seq<T> {
        keep_last(self.remaining(), eq_rel::<T>())
    }

    /// Drains the adapter, returning everything it still yields.
    pub fn collect_vec(self) -> (r: Vec<T>)
        requires
            self.wf(),
            T::obeys_eq_spec(),
        ensures
            r@ == self.output(),
    {
        let mut it = self;
        let mut out: Vec<T> = Vec::new();
        loop
            invariant
                it.wf(),
                T::obeys_eq_spec(),
                out@ + it.output() == self.output(),
            decreases it.output().len(),
        {
            match it.next() {
                Some(x) => {
                    out.push(x);
                },
                None => {
                    assert(out@ + it.output() == out@);
                    return out;
                },
            }
        }
    }

    /// Yields the next item, or `None` once the output is exhausted.
    pub fn next(&mut self) -> (r: Option<T>)
        requires
            old(self).wf(),
            T::obeys_eq_spec(),
        ensures
            final(self).wf(),
            match r {
                Some(x) => old(self).output() == seq![x] + final(self).output(),
                None => old(self).output().len() == 0 && final(self).output().len() == 0,
            },
    {
        let cur = self.current.take();
        let mut acc = match cur {
            Some(c) => c,
            None => return None,
        };
        loop
            invariant
                T::obeys_eq_spec(),
                self.current is None,
                keep_last(seq![acc] + self.source@, eq_rel::<T>()) == old(self).output(),
            decreases self.source@.len(),
        {
            let ghost rest = self.source@;
            match self.source.pop_front() {
                None => {
                    return Some(acc);
                },
                Some(next) => {
                    let ghost s = seq![acc] + rest;
                    assert(s.drop_first() == rest);
                    assert(seq![next] + self.source@ == rest);
                    let same = acc.eq(&next);
                    if same {
                        acc = next;
                    } else {
                        self.current = Some(next);
                        return Some(acc);
                    }
                },
            }
        }
    }
}

/// Removes consecutive items that the given predicate deems equivalent,
/// keeping the last of each run.
#[derive(Debug, Clone)]
pub struct DedupBy<T, F> {
    source: VecDeque<T>,
    current: Option<T>,
    equivalence: F,
}

impl<T, F: Fn(&T, &T) -> bool> DedupBy<T, F> {
    /// The items not yet handed out or discarded, the pending one first.
    pub closed spec fn remaining(&self) -> Seq<T> {
        match self.current {
            Some(c) => seq![c] + self.source@,
            None => Seq::empty(),
        }
    }

    /// The predicate items are compared with.
    pub closed spec fn equivalence(&self) -> F {
        self.equivalence
    }

    /// Once no item is pending, the source is drained.
    pub closed spec fn wf(&self) -> bool {
        self.current is None ==> self.source@.len() == 0
    }

    /// The items this adapter still yields, in order.
    pub open spec fn output(&self) -> Seq<T> {
        keep_last(self.remaining(), pred_rel(self.equivalence()))
    }

    /// Drains the adapter, returning everything it still yields.
    pub fn collect_vec(self) -> (r: Vec<T>)
        requires
            self.wf(),
            is_pure_predicate(self.equivalence()),
        ensures
            r@ == self.output(),
    {
        let mut it = self;
        let mut out: Vec<T> = Vec::new();
        loop
            invariant
                it.wf(),
                is_pure_predicate(it.equivalence()),
                out@ + it.output() == self.output(),
            decreases it.output().len(),
        {
            match it.next() {
                Some(x) => {
                    out.push(x);
                },
                None => {
                    assert(out@ + it.output() == out@);
                    return out;
                },
            }
        }
    }

    /// Yields the next item, or `None` once the output is exhausted.
    pub fn next(&mut self) -> (r: Option<T>)
        requires
            old(self).wf(),
            is_pure_predicate(old(self).equivalence()),
        ensures
            final(self).wf(),
            final(self).equivalence() == old(self).equivalence(),
            match r {
                Some(x) => old(self).output() == seq![x] + final(self).output(),
                None => old(self).output().len() == 0 && final(self).output().len() == 0,
            },
    {
        let cur = self.current.take();
        let mut acc = match cur {
            Some(c) => c,
            None => return None,
        };
        loop
            invariant
                is_pure_predicate(self.equivalence),
                self.equivalence == old(self).equivalence,
                self.current is None,
                keep_last(seq![acc] + self.source@, pred_rel(self.equivalence))
                    == old(self).output(),
            decreases self.source@.len(),
        {
            let ghost rest = self.source@;
            match self.source.pop_front() {
                None => {
                    return Some(acc);
                },
                Some(next) => {
                    let ghost s = seq![acc] + rest;
                    assert(s.drop_first() == rest);
                    assert(seq![next] + self.source@ == rest);
                    let same = (self.equivalence)(&acc, &next);
                    assert(same == pred_rel(self.equivalence)(acc, next));
                    if same {
                        acc = next;
                    } else {
                        self.current = Some(next);
                        return Some(acc);
                    }
                },
            }
        }
    }
}

/// Removes consecutive items whose keys under the given function are equal,
/// keeping the last of each run.
#[derive(Debug)]
pub struct DedupByKey<T, F, K> {
    source: VecDeque<T>,
    current: Option<T>,
    function: F,
    key: PhantomData<K>,
}

impl<T, F: Fn(&T) -> K, K: PartialEq> DedupByKey<T, F, K> {
    /// The items not yet handed out or discarded, the pending one first.
    pub closed spec fn remaining(&self) -> Seq<T> {
        match self.current {
            Some(c) => seq![c] + self.source@,
            None => Seq::empty(),
        }
    }

    /// The function that gives each item its key.
    pub closed spec fn function(&self) -> F {
        self.function
    }

    /// Once no item is pending, the source is drained.
    pub closed spec fn wf(&self) -> bool {
        self.current is None ==> self.source@.len() == 0
    }

    /// The items this adapter still yields, in order.
    pub open spec fn output(&self) -> Seq<T> {
        keep_last(self.remaining(), key_eq_rel(self.function()))
    }

    /// Drains the adapter, returning everything it still yields.
    pub fn collect_vec(self) -> (r: Vec<T>)
        requires
            self.wf(),
            is_pure_key_fn(self.function()),
            K::obeys_eq_spec(),
        ensures
            r@ == self.output(),
    {
        let mut it = self;
        let mut out: Vec<T> = Vec::new();
        loop
            invariant
                it.wf(),
                is_pure_key_fn(it.function()),
                K::obeys_eq_spec(),
                out@ + it.output() == self.output(),
            decreases it.output().len(),
        {
            match it.next() {
                Some(x) => {
                    out.push(x);
                },
                None => {
                    assert(out@ + it.output() == out@);
                    return out;
                },
            }
        }
    }

    /// Yields the next item, or `None` once the output is exhausted.
    pub fn next(&mut self) -> (r: Option<T>)
        requires
            old(self).wf(),
            is_pure_key_fn(old(self).function()),
            K::obeys_eq_spec(),
        ensures
            final(self).wf(),
            final(self).function() == old(self).function(),
            match r {
                Some(x) => old(self).output() == seq![x] + final(self).output(),
                None => old(self).output().len() == 0 && final(self).output().len() == 0,
            },
    {
        let cur = self.current.take();
        let mut acc = match cur {
            Some(c) => c,
            None => return None,
        };
        loop
            invariant
                is_pure_key_fn(self.function),
                K::obeys_eq_spec(),
                self.function == old(self).function,
                self.current is None,
                keep_last(seq![acc] + self.source@, key_eq_rel(self.function))
                    == old(self).output(),
            decreases self.source@.len(),
        {
            let ghost rest = self.source@;
            match self.source.pop_front() {
                None => {
                    return Some(acc);
                },
                Some(next) => {
                    let ghost s = seq![acc] + rest;
                    assert(s.drop_first() == rest);
                    assert(seq![next] + self.source@ == rest);
                    let ka = (self.function)(&acc);
                    let kn = (self.function)(&next);
                    proof {
                        lemma_key_of(self.function, acc, ka);
                        lemma_key_of(self.function, next, kn);
                    }
                    let same = ka.eq(&kn);
                    if same {
                        acc = next;
                    } else {
                        self.current = Some(next);
                        return Some(acc);
                    }
                },
            }
        }
    }
}

/// Provides `dedup` on a source of items.
pub trait DedupAdapter<T>: Sized {
    /// Takes the source over, collapsing each run of equal items into its last one.
    fn dedup(self) -> Dedup<T>;
}

impl<T: PartialEq> DedupAdapter<T> for VecDeque<T> {
    fn dedup(self) -> (r: Dedup<T>)
        ensures
            r.wf(),
            r.remaining() == self@,
            r.output() == keep_last(self@, eq_rel::<T>()),
    {
        let mut source = self;
        let current = source.pop_front();
        proof {
            if current is Some {
                assert(seq![current->0] + source@ == self@);
            }
        }
        Dedup { source, current }
    }
}

/// Provides `dedup_by` on a source of items.
pub trait DedupByAdapter<T, F>: Sized {
    /// Takes the source over, collapsing each run of items that `equivalence`
    /// relates pairwise into its last one.
    fn dedup_by(self, equivalence: F) -> DedupBy<T, F>;
}

impl<T, F: Fn(&T, &T) -> bool> DedupByAdapter<T, F> for VecDeque<T> {
    fn dedup_by(self, equivalence: F) -> (r: DedupBy<T, F>)
        ensures
            r.wf(),
            r.remaining() == self@,
            r.equivalence() == equivalence,
            r.output() == keep_last(self@, pred_rel(equivalence)),
    {
        let mut source = self;
        let current = source.pop_front();
        proof {
            if current is Some {
                assert(seq![current->0] + source@ == self@);
            }
        }
        DedupBy { source, current, equivalence }
    }
}

/// Provides `dedup_by_key` on a source of items.
pub trait DedupByKeyAdapter<T, F, K>: Sized {
    /// Takes the source over, collapsing each run of items with equal keys
    /// under `function` into its last one.
    fn dedup_by_key(self, function: F) -> DedupByKey<T, F, K>;
}

impl<T, F: Fn(&T) -> K, K: PartialEq> DedupByKeyAdapter<T, F, K> for VecDeque<T> {
    fn dedup_by_key(self, function: F) -> (r: DedupByKey<T, F, K>)
        ensures
            r.wf(),
            r.remaining() == self@,
            r.function() == function,
            r.output() == keep_last(self@, key_eq_rel(function)),
    {
        let mut source = self;
        let current = source.pop_front();
        proof {
            if current is Some {
                assert(seq![current->0] + source@ == self@);
            }
        }
        DedupByKey { source, current, function, key: PhantomData }
    }
}

} // verus!
