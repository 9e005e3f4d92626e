//! The mathematical model shared by all adapters: what consecutive and global
//! deduplication produce from a sequence, and how a caller-supplied predicate
//! or key function is read as a relation.
use vstd::prelude::*;
use vstd::pervasive::strictly_cloned;
use vstd::std_specs::cmp::PartialEqSpec;

verus! {

/// What consecutive deduplication yields from `s` under `eq`: an item stays
/// unless the item right after it is equivalent to it, so that of each run of
/// adjacent equivalent items only the last one is kept.
pub open spec fn keep_last<T>(s: Seq<T>, eq: spec_fn(T, T) -> bool) -> Seq<T>
    decreases s.len(),
{
    if s.len() <= 1 {
        s
    } else if eq(s[0], s[1]) {
        keep_last(s.drop_first(), eq)
    } else {
        seq![s[0]] + keep_last(s.drop_first(), eq)
    }
}

/// What global deduplication yields from `s` once the keys in `seen` have been
/// emitted: an item is yielded only if no key in `seen` is related by `rel` to
/// its own key under `key`, and its key then joins `seen`. Each item is thus
/// checked against every key emitted before it.
pub open spec fn keep_first_after<T, A>(
    seen: Set<A>,
    s: Seq<T>,
    key: spec_fn(T) -> A,
    rel: spec_fn(A, A) -> bool,
) -> Seq<T>
    decreases s.len(),
{
    if s.len() == 0 {
        Seq::empty()
    } else if exists|a: A| seen.contains(a) && #[trigger] rel(a, key(s[0])) {
        keep_first_after(seen, s.drop_first(), key, rel)
    } else {
        seq![s[0]] + keep_first_after(seen.insert(key(s[0])), s.drop_first(), key, rel)
    }
}

/// What global deduplication yields from `s`: the items whose key is related
/// to the key of no item yielded before them.
pub open spec fn keep_first<T, A>(
    s: Seq<T>,
    key: spec_fn(T) -> A,
    rel: spec_fn(A, A) -> bool,
) -> Seq<T> {
    keep_first_after(Set::empty(), s, key, rel)
}

/// Every item is its own key.
pub open spec fn identity<T>() -> spec_fn(T) -> T {
    |a: T| a
}

/// Identity of values, the relation hash and ordered sets track.
pub open spec fn same<T>() -> spec_fn(T, T) -> bool {
    |a: T, b: T| a == b
}

/// Cloning a `T` gives back an identical value.
pub open spec fn clone_is_exact<T: Clone>() -> bool {
    forall|a: T, b: T| #[trigger] strictly_cloned(a, b) ==> a == b
}

/// Plain equality of items, as their `PartialEq` impl specifies it.
pub open spec fn eq_rel<T: PartialEq>() -> spec_fn(T, T) -> bool {
    |a: T, b: T| a.eq_spec(&b)
}

/// `f` may be called on any two items, and it gives one answer for each pair.
pub open spec fn is_pure_predicate<T, F: Fn(&T, &T) -> bool>(f: F) -> bool {
    &&& forall|a: T, b: T| #[trigger] f.requires((&a, &b))
    &&& forall|a: T, b: T| #[trigger] f.ensures((&a, &b), true) ==> !f.ensures((&a, &b), false)
}

/// The relation that the pure predicate `f` decides.
pub open spec fn pred_rel<T, F: Fn(&T, &T) -> bool>(f: F) -> spec_fn(T, T) -> bool {
    |a: T, b: T| f.ensures((&a, &b), true)
}

/// `f` may be called on any item, and it gives one key for each item.
pub open spec fn is_pure_key_fn<T, K, F: Fn(&T) -> K>(f: F) -> bool {
    &&& forall|a: T| #[trigger] f.requires((&a,))
    &&& forall|a: T, k1: K, k2: K|
        #[trigger] f.ensures((&a,), k1) && #[trigger] f.ensures((&a,), k2) ==> k1 == k2
}

/// The key that the pure key function `f` gives to `a`.
pub open spec fn key_of<T, K, F: Fn(&T) -> K>(f: F, a: T) -> K {
    choose|k: K| f.ensures((&a,), k)
}

/// The key function `f` as a spec function.
pub open spec fn key_fn<T, K, F: Fn(&T) -> K>(f: F) -> spec_fn(T) -> K {
    |a: T| key_of(f, a)
}

/// Two items are related when their keys under `f` are equal by `PartialEq`.
pub open spec fn key_eq_rel<T, K: PartialEq, F: Fn(&T) -> K>(f: F) -> spec_fn(T, T) -> bool {
    |a: T, b: T| key_of(f, a).eq_spec(&key_of(f, b))
}

/// A key that a call of a pure key function returned is the key it gives.
pub proof fn lemma_key_of<T, K, F: Fn(&T) -> K>(f: F, a: T, k: K)
    requires
        is_pure_key_fn(f),
        f.ensures((&a,), k),
    ensures
        key_of(f, a) == k,
{
}

} // verus!
