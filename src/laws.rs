//! Properties of the deduplication model that hold of every input: what the
//! adapters yield on an empty source, idempotence, which item of each run or
//! class survives, and that global strategies check each item against every
//! earlier output.
use vstd::prelude::*;

use crate::model::{identity, keep_first, keep_first_after, keep_last};

verus! {

/// `rel` is symmetric.
pub open spec fn symmetric<A>(rel: spec_fn(A, A) -> bool) -> bool {
    forall|a: A, b: A| #[trigger] rel(a, b) ==> rel(b, a)
}

/// `rel` is transitive.
pub open spec fn transitive<A>(rel: spec_fn(A, A) -> bool) -> bool {
    forall|a: A, b: A, c: A| #[trigger] rel(a, b) && #[trigger] rel(b, c) ==> rel(a, c)
}

/// No two neighbours in `s` are related by `eq`.
pub open spec fn no_adjacent_related<T>(s: Seq<T>, eq: spec_fn(T, T) -> bool) -> bool {
    forall|i: int, j: int| 0 <= i && j == i + 1 && j < s.len() ==> !#[trigger] eq(s[i], s[j])
}

/// Position `i` of `s` closes a maximal run of neighbours related by `eq`.
pub open spec fn ends_run<T>(s: Seq<T>, i: int, eq: spec_fn(T, T) -> bool) -> bool {
    0 <= i < s.len() && (i == s.len() - 1 || !eq(s[i], s[i + 1]))
}

/// The key of `s[i]` is related to no key in `seen` and to the key of no
/// earlier item of `s`: the item opens its class.
pub open spec fn opens_class<T, A>(
    seen: Set<A>,
    s: Seq<T>,
    i: int,
    key: spec_fn(T) -> A,
    rel: spec_fn(A, A) -> bool,
) -> bool {
    &&& 0 <= i < s.len()
    &&& forall|a: A| seen.contains(a) ==> !#[trigger] rel(a, key(s[i]))
    &&& forall|j: int| 0 <= j < i ==> !#[trigger] rel(key(s[j]), key(s[i]))
}

/// `idx` lists positions of `s` in increasing order, and `out` holds the items
/// at those positions.
pub open spec fn picks<T>(out: Seq<T>, s: Seq<T>, idx: Seq<int>) -> bool {
    &&& idx.len() == out.len()
    &&& forall|k: int|
        0 <= k < idx.len() ==> 0 <= #[trigger] idx[k] < s.len() && out[k] == s[idx[k]]
    &&& forall|k: int, l: int| 0 <= k < l < idx.len() ==> #[trigger] idx[k] < #[trigger] idx[l]
}

/// Every adapter yields nothing from an empty source.
pub proof fn law_empty_source<T, A>(
    eq: spec_fn(T, T) -> bool,
    key: spec_fn(T) -> A,
    rel: spec_fn(A, A) -> bool,
)
    ensures
        keep_last(Seq::<T>::empty(), eq) == Seq::<T>::empty(),
        keep_first(Seq::<T>::empty(), key, rel) == Seq::<T>::empty(),
{
}

/// Of the positions shifted by one.
proof fn shifted(idx: Seq<int>) -> (r: Seq<int>)
    ensures
        r.len() == idx.len(),
        forall|k: int| 0 <= k < idx.len() ==> #[trigger] r[k] == idx[k] + 1,
{
    idx.map_values(|x: int| x + 1)
}

/// Consecutive deduplication keeps exactly the last item of each maximal run
/// of related neighbours, in input order: the positions returned are those
/// items' positions in `s`, and every position that closes a run is among them.
pub proof fn law_keep_last_keeps_run_ends<T>(s: Seq<T>, eq: spec_fn(T, T) -> bool) -> (idx: Seq<
    int,
>)
    ensures
        picks(keep_last(s, eq), s, idx),
        forall|k: int| 0 <= k < idx.len() ==> ends_run(s, #[trigger] idx[k], eq),
        forall|i: int|
            ends_run(s, i, eq) ==> exists|k: int| 0 <= k < idx.len() && #[trigger] idx[k] == i,
    decreases s.len(),
{
    if s.len() == 0 {
        Seq::empty()
    } else if s.len() == 1 {
        let idx = seq![0int];
        assert(idx[0] == 0);
        idx
    } else {
        let t = s.drop_first();
        let inner = law_keep_last_keeps_run_ends(t, eq);
        let sh = shifted(inner);
        assert forall|i: int| 1 <= i < s.len() implies ends_run(s, i, eq) == ends_run(
            t,
            i - 1,
            eq,
        ) by {
            assert(s[i] == t[i - 1]);
            if i < s.len() - 1 {
                assert(s[i + 1] == t[i]);
            }
        }
        if eq(s[0], s[1]) {
            assert forall|i: int| ends_run(s, i, eq) implies exists|k: int|
                0 <= k < sh.len() && #[trigger] sh[k] == i by {
                let k = choose|k: int| 0 <= k < inner.len() && #[trigger] inner[k] == i - 1;
                assert(sh[k] == i);
            }
            assert forall|k: int| 0 <= k < sh.len() implies ends_run(s, #[trigger] sh[k], eq) by {
                assert(ends_run(t, inner[k], eq));
            }
            sh
        } else {
            let idx = seq![0int] + sh;
            let out = keep_last(s, eq);
            assert(out == seq![s[0]] + keep_last(t, eq));
            assert forall|i: int| ends_run(s, i, eq) implies exists|k: int|
                0 <= k < idx.len() && #[trigger] idx[k] == i by {
                if i == 0 {
                    assert(idx[0] == 0);
                } else {
                    let k = choose|k: int| 0 <= k < inner.len() && #[trigger] inner[k] == i - 1;
                    assert(idx[k + 1] == i);
                }
            }
            assert forall|k: int| 0 <= k < idx.len() implies ends_run(s, #[trigger] idx[k], eq) by {
                if k > 0 {
                    assert(idx[k] == inner[k - 1] + 1);
                    assert(ends_run(t, inner[k - 1], eq));
                }
            }
            assert forall|k: int| 0 <= k < idx.len() implies 0 <= #[trigger] idx[k] < s.len()
                && out[k] == s[idx[k]] by {
                if k > 0 {
                    assert(idx[k] == inner[k - 1] + 1);
                }
            }
            assert forall|k: int, l: int| 0 <= k < l < idx.len() implies #[trigger] idx[k]
                < #[trigger] idx[l] by {
                if k > 0 {
                    assert(idx[k] == inner[k - 1] + 1);
                }
                assert(idx[l] == inner[l - 1] + 1);
            }
            idx
        }
    }
}

/// Under a transitive `eq`, the first item consecutive deduplication yields is
/// the first input item or one that item is related to.
proof fn lemma_keep_last_head<T>(s: Seq<T>, eq: spec_fn(T, T) -> bool)
    requires
        transitive(eq),
        s.len() > 0,
    ensures
        keep_last(s, eq).len() > 0,
        keep_last(s, eq)[0] == s[0] || eq(s[0], keep_last(s, eq)[0]),
    decreases s.len(),
{
    if s.len() > 1 && eq(s[0], s[1]) {
        let t = s.drop_first();
        lemma_keep_last_head(t, eq);
        let h = keep_last(t, eq)[0];
        if h != t[0] {
            assert(eq(s[0], s[1]) && eq(s[1], h));
        }
    }
}

/// Under a symmetric and transitive `eq`, no two neighbours in the output of
/// consecutive deduplication are related.
proof fn lemma_keep_last_no_adjacent<T>(s: Seq<T>, eq: spec_fn(T, T) -> bool)
    requires
        symmetric(eq),
        transitive(eq),
    ensures
        no_adjacent_related(keep_last(s, eq), eq),
    decreases s.len(),
{
    if s.len() > 1 {
        let t = s.drop_first();
        lemma_keep_last_no_adjacent(t, eq);
        if !eq(s[0], s[1]) {
            lemma_keep_last_head(t, eq);
            let rest = keep_last(t, eq);
            let out = keep_last(s, eq);
            assert(out == seq![s[0]] + rest);
            let h = rest[0];
            if eq(s[0], h) {
                if h != t[0] {
                    assert(eq(h, s[1]));
                    assert(eq(s[0], h) && eq(h, s[1]));
                }
            }
            assert forall|i: int, j: int|
                0 <= i && j == i + 1 && j < out.len() implies !#[trigger] eq(out[i], out[j]) by {
                if i > 0 {
                    assert(out[i] == rest[i - 1] && out[j] == rest[j - 1]);
                }
            }
        }
    }
}

/// Consecutive deduplication leaves a sequence alone when no two neighbours
/// in it are related.
proof fn lemma_keep_last_fixed<T>(s: Seq<T>, eq: spec_fn(T, T) -> bool)
    requires
        no_adjacent_related(s, eq),
    ensures
        keep_last(s, eq) == s,
    decreases s.len(),
{
    if s.len() > 1 {
        let t = s.drop_first();
        assert(!eq(s[0], s[1]));
        assert forall|i: int, j: int| 0 <= i && j == i + 1 && j < t.len() implies !#[trigger] eq(
            t[i],
            t[j],
        ) by {
            assert(t[i] == s[i + 1] && t[j] == s[j + 1]);
            assert(!eq(s[i + 1], s[j + 1]));
        }
        lemma_keep_last_fixed(t, eq);
        assert(seq![s[0]] + t == s);
    }
}

/// Consecutive deduplication under an equivalence is idempotent: applied
/// again to its own output, it changes nothing.
pub proof fn law_keep_last_idempotent<T>(s: Seq<T>, eq: spec_fn(T, T) -> bool)
    requires
        symmetric(eq),
        transitive(eq),
    ensures
        keep_last(keep_last(s, eq), eq) == keep_last(s, eq),
{
    lemma_keep_last_no_adjacent(s, eq);
    lemma_keep_last_fixed(keep_last(s, eq), eq);
}

/// Consecutive deduplication is no global strategy: whenever its output
/// still holds two related items (duplicates that were not neighbours in the
/// input), it differs from what global deduplication by the same relation yields.
pub proof fn law_keep_last_differs_from_keep_first<T>(s: Seq<T>, eq: spec_fn(T, T) -> bool)
    requires
        exists|i: int, j: int|
            0 <= i < j < keep_last(s, eq).len() && #[trigger] eq(
                keep_last(s, eq)[i],
                keep_last(s, eq)[j],
            ),
    ensures
        keep_last(s, eq) != keep_first(s, identity(), eq),
{
    let out = keep_last(s, eq);
    let (i, j) = choose|i: int, j: int| 0 <= i < j < out.len() && #[trigger] eq(out[i], out[j]);
    law_keep_first_checks_every_earlier_item(s, identity(), eq);
    if out == keep_first(s, identity(), eq) {
        assert(identity::<T>()(out[i]) == out[i] && identity::<T>()(out[j]) == out[j]);
        assert(!eq(identity::<T>()(out[i]), identity::<T>()(out[j])));
    }
}

/// Under a symmetric and transitive `eq`, the run of related neighbours that
/// holds position `i` closes at some position `e` at or after `i`, and every
/// item from `i` to `e` is related to `s[i]`.
proof fn lemma_run_end<T>(s: Seq<T>, i: int, eq: spec_fn(T, T) -> bool) -> (e: int)
    requires
        symmetric(eq),
        transitive(eq),
        0 <= i < s.len(),
    ensures
        i <= e,
        ends_run(s, e, eq),
        forall|m: int| i < m <= e ==> #[trigger] eq(s[i], s[m]),
    decreases s.len() - i,
{
    if ends_run(s, i, eq) {
        i
    } else {
        let e = lemma_run_end(s, i + 1, eq);
        assert forall|m: int| i < m <= e implies #[trigger] eq(s[i], s[m]) by {
            if m > i + 1 {
                assert(eq(s[i], s[i + 1]) && eq(s[i + 1], s[m]));
            }
        }
        e
    }
}

/// Consecutive deduplication under an equivalence is no global strategy: on
/// an input where two equivalent items stand apart, with an item between them
/// that is not equivalent to them, it yields something else than global
/// deduplication by the same relation.
pub proof fn law_keep_last_is_not_global<T>(
    s: Seq<T>,
    eq: spec_fn(T, T) -> bool,
    i: int,
    k: int,
    j: int,
)
    requires
        symmetric(eq),
        transitive(eq),
        0 <= i < k < j < s.len(),
        eq(s[i], s[j]),
        !eq(s[i], s[k]),
    ensures
        keep_last(s, eq) != keep_first(s, identity(), eq),
{
    let e1 = lemma_run_end(s, i, eq);
    let e2 = lemma_run_end(s, j, eq);
    if e1 >= k {
        assert(eq(s[i], s[k]));
    }
    assert(eq(s[e1], s[e2])) by {
        if e1 != i {
            assert(eq(s[i], s[e1]));
            assert(eq(s[e1], s[i]));
        }
        if e2 != j {
            assert(eq(s[j], s[e2]));
            assert(eq(s[i], s[j]) && eq(s[j], s[e2]));
        }
        assert(eq(s[i], s[e2]));
    }
    let idx = law_keep_last_keeps_run_ends(s, eq);
    let out = keep_last(s, eq);
    let k1 = choose|k1: int| 0 <= k1 < idx.len() && #[trigger] idx[k1] == e1;
    let k2 = choose|k2: int| 0 <= k2 < idx.len() && #[trigger] idx[k2] == e2;
    if k2 < k1 {
        assert(idx[k2] < idx[k1]);
    }
    assert(k1 != k2);
    assert(out[k1] == s[e1] && out[k2] == s[e2]);
    assert(eq(out[k1], out[k2]));
    law_keep_last_differs_from_keep_first(s, eq);
}

/// No key in `seen` is related to the key of an item of `out`, and no item
/// of `out` has its key related from the key of an earlier one.
pub open spec fn unrelated_after<T, A>(
    seen: Set<A>,
    out: Seq<T>,
    key: spec_fn(T) -> A,
    rel: spec_fn(A, A) -> bool,
) -> bool {
    &&& forall|a: A, i: int|
        seen.contains(a) && 0 <= i < out.len() ==> !#[trigger] rel(a, key(out[i]))
    &&& forall|i: int, j: int| 0 <= i < j < out.len() ==> !#[trigger] rel(key(out[i]), key(out[j]))
}

/// What global deduplication yields after `seen` is unrelated to `seen` and
/// within itself.
proof fn lemma_keep_first_after_unrelated<T, A>(
    seen: Set<A>,
    s: Seq<T>,
    key: spec_fn(T) -> A,
    rel: spec_fn(A, A) -> bool,
)
    ensures
        unrelated_after(seen, keep_first_after(seen, s, key, rel), key, rel),
    decreases s.len(),
{
    if s.len() > 0 {
        let t = s.drop_first();
        let k0 = key(s[0]);
        if exists|a: A| seen.contains(a) && #[trigger] rel(a, key(s[0])) {
            lemma_keep_first_after_unrelated(seen, t, key, rel);
        } else {
            let seen2 = seen.insert(k0);
            lemma_keep_first_after_unrelated(seen2, t, key, rel);
            let rest = keep_first_after(seen2, t, key, rel);
            let out = keep_first_after(seen, s, key, rel);
            assert(out == seq![s[0]] + rest);
            assert forall|a: A, i: int|
                seen.contains(a) && 0 <= i < out.len() implies !#[trigger] rel(a, key(out[i])) by {
                if i > 0 {
                    assert(out[i] == rest[i - 1]);
                    assert(seen2.contains(a));
                }
            }
            assert forall|i: int, j: int| 0 <= i < j < out.len() implies !#[trigger] rel(
                key(out[i]),
                key(out[j]),
            ) by {
                assert(out[j] == rest[j - 1]);
                if i > 0 {
                    assert(out[i] == rest[i - 1]);
                } else {
                    assert(seen2.contains(k0));
                }
            }
        }
    }
}

/// Global deduplication after `seen` leaves `s` alone when `s` is unrelated
/// to `seen` and within itself.
proof fn lemma_keep_first_after_fixed<T, A>(
    seen: Set<A>,
    s: Seq<T>,
    key: spec_fn(T) -> A,
    rel: spec_fn(A, A) -> bool,
)
    requires
        unrelated_after(seen, s, key, rel),
    ensures
        keep_first_after(seen, s, key, rel) == s,
    decreases s.len(),
{
    if s.len() > 0 {
        let t = s.drop_first();
        let k0 = key(s[0]);
        assert forall|a: A| seen.contains(a) implies !#[trigger] rel(a, key(s[0])) by {
            assert(!rel(a, key(s[0])));
        }
        let seen2 = seen.insert(k0);
        assert forall|a: A, i: int| seen2.contains(a) && 0 <= i < t.len() implies !#[trigger] rel(
            a,
            key(t[i]),
        ) by {
            assert(t[i] == s[i + 1]);
            if a == k0 {
                assert(!rel(key(s[0]), key(s[i + 1])));
            } else {
                assert(!rel(a, key(s[i + 1])));
            }
        }
        assert forall|i: int, j: int| 0 <= i < j < t.len() implies !#[trigger] rel(
            key(t[i]),
            key(t[j]),
        ) by {
            assert(t[i] == s[i + 1] && t[j] == s[j + 1]);
            assert(!rel(key(s[i + 1]), key(s[j + 1])));
        }
        lemma_keep_first_after_fixed(seen2, t, key, rel);
        assert(seq![s[0]] + t == s);
    }
}

/// Global deduplication checks every item against every item it yielded
/// before, not only the latest one: no key in its output is related from the
/// key of any earlier item of the output.
pub proof fn law_keep_first_checks_every_earlier_item<T, A>(
    s: Seq<T>,
    key: spec_fn(T) -> A,
    rel: spec_fn(A, A) -> bool,
)
    ensures
        forall|i: int, j: int|
            0 <= i < j < keep_first(s, key, rel).len() ==> !#[trigger] rel(
                key(keep_first(s, key, rel)[i]),
                key(keep_first(s, key, rel)[j]),
            ),
{
    lemma_keep_first_after_unrelated(Set::empty(), s, key, rel);
}

/// Global deduplication is idempotent: applied again to its own output, with
/// the same key and relation, it changes nothing.
pub proof fn law_keep_first_idempotent<T, A>(
    s: Seq<T>,
    key: spec_fn(T) -> A,
    rel: spec_fn(A, A) -> bool,
)
    ensures
        keep_first(keep_first(s, key, rel), key, rel) == keep_first(s, key, rel),
{
    lemma_keep_first_after_unrelated(Set::empty(), s, key, rel);
    lemma_keep_first_after_fixed(Set::empty(), keep_first(s, key, rel), key, rel);
}

/// Under a transitive `rel`, global deduplication after `seen` yields exactly
/// the items of `s` that open their class, in input order.
proof fn lemma_keep_first_after_opens_classes<T, A>(
    seen: Set<A>,
    s: Seq<T>,
    key: spec_fn(T) -> A,
    rel: spec_fn(A, A) -> bool,
) -> (idx: Seq<int>)
    requires
        transitive(rel),
    ensures
        picks(keep_first_after(seen, s, key, rel), s, idx),
        forall|k: int| 0 <= k < idx.len() ==> opens_class(seen, s, #[trigger] idx[k], key, rel),
        forall|i: int|
            opens_class(seen, s, i, key, rel) ==> exists|k: int|
                0 <= k < idx.len() && #[trigger] idx[k] == i,
    decreases s.len(),
{
    if s.len() == 0 {
        Seq::empty()
    } else {
        let t = s.drop_first();
        let k0 = key(s[0]);
        let out = keep_first_after(seen, s, key, rel);
        if exists|a: A| seen.contains(a) && #[trigger] rel(a, key(s[0])) {
            let a0 = choose|a: A| seen.contains(a) && #[trigger] rel(a, key(s[0]));
            let inner = lemma_keep_first_after_opens_classes(seen, t, key, rel);
            let idx = shifted(inner);
            assert forall|i: int| 1 <= i < s.len() implies opens_class(seen, s, i, key, rel)
                == opens_class(seen, t, i - 1, key, rel) by {
                assert(s[i] == t[i - 1]);
                if opens_class(seen, t, i - 1, key, rel) {
                    if rel(k0, key(s[i])) {
                        assert(rel(a0, k0) && rel(k0, key(s[i])));
                        assert(!rel(a0, key(t[i - 1])));
                    }
                    assert forall|j: int| 0 <= j < i implies !#[trigger] rel(
                        key(s[j]),
                        key(s[i]),
                    ) by {
                        if j > 0 {
                            assert(s[j] == t[j - 1]);
                        }
                    }
                }
                if opens_class(seen, s, i, key, rel) {
                    assert forall|j: int| 0 <= j < i - 1 implies !#[trigger] rel(
                        key(t[j]),
                        key(t[i - 1]),
                    ) by {
                        assert(t[j] == s[j + 1]);
                    }
                }
            }
            assert(!opens_class(seen, s, 0, key, rel));
            assert forall|i: int| opens_class(seen, s, i, key, rel) implies exists|k: int|
                0 <= k < idx.len() && #[trigger] idx[k] == i by {
                let k = choose|k: int| 0 <= k < inner.len() && #[trigger] inner[k] == i - 1;
                assert(idx[k] == i);
            }
            assert forall|k: int| 0 <= k < idx.len() implies opens_class(
                seen,
                s,
                #[trigger] idx[k],
                key,
                rel,
            ) by {
                assert(opens_class(seen, t, inner[k], key, rel));
            }
            idx
        } else {
            let seen2 = seen.insert(k0);
            let inner = lemma_keep_first_after_opens_classes(seen2, t, key, rel);
            let sh = shifted(inner);
            let idx = seq![0int] + sh;
            assert(out == seq![s[0]] + keep_first_after(seen2, t, key, rel));
            assert forall|i: int| 1 <= i < s.len() implies opens_class(seen, s, i, key, rel)
                == opens_class(seen2, t, i - 1, key, rel) by {
                assert(s[i] == t[i - 1]);
                if opens_class(seen2, t, i - 1, key, rel) {
                    assert(!rel(k0, key(t[i - 1])));
                    assert forall|a: A| seen.contains(a) implies !#[trigger] rel(a, key(s[i])) by {
                        assert(seen2.contains(a));
                    }
                    assert forall|j: int| 0 <= j < i implies !#[trigger] rel(
                        key(s[j]),
                        key(s[i]),
                    ) by {
                        if j > 0 {
                            assert(s[j] == t[j - 1]);
                        }
                    }
                }
                if opens_class(seen, s, i, key, rel) {
                    assert(!rel(key(s[0]), key(s[i])));
                    assert forall|a: A| seen2.contains(a) implies !#[trigger] rel(
                        a,
                        key(t[i - 1]),
                    ) by {
                        if a != k0 {
                            assert(seen.contains(a));
                        }
                    }
                    assert forall|j: int| 0 <= j < i - 1 implies !#[trigger] rel(
                        key(t[j]),
                        key(t[i - 1]),
                    ) by {
                        assert(t[j] == s[j + 1]);
                    }
                }
            }
            assert(opens_class(seen, s, 0, key, rel));
            assert forall|i: int| opens_class(seen, s, i, key, rel) implies exists|k: int|
                0 <= k < idx.len() && #[trigger] idx[k] == i by {
                if i == 0 {
                    assert(idx[0] == 0);
                } else {
                    let k = choose|k: int| 0 <= k < inner.len() && #[trigger] inner[k] == i - 1;
                    assert(idx[k + 1] == i);
                }
            }
            assert forall|k: int| 0 <= k < idx.len() implies opens_class(
                seen,
                s,
                #[trigger] idx[k],
                key,
                rel,
            ) by {
                if k > 0 {
                    assert(idx[k] == inner[k - 1] + 1);
                    assert(opens_class(seen2, t, inner[k - 1], key, rel));
                }
            }
            assert forall|k: int| 0 <= k < idx.len() implies 0 <= #[trigger] idx[k] < s.len()
                && out[k] == s[idx[k]] by {
                if k > 0 {
                    assert(idx[k] == inner[k - 1] + 1);
                }
            }
            assert forall|k: int, l: int| 0 <= k < l < idx.len() implies #[trigger] idx[k]
                < #[trigger] idx[l] by {
                if k > 0 {
                    assert(idx[k] == inner[k - 1] + 1);
                }
                assert(idx[l] == inner[l - 1] + 1);
            }
            idx
        }
    }
}

/// The key of `s[i]` is related from the key of no earlier item of `s`.
pub open spec fn first_of_class<T, A>(
    s: Seq<T>,
    i: int,
    key: spec_fn(T) -> A,
    rel: spec_fn(A, A) -> bool,
) -> bool {
    &&& 0 <= i < s.len()
    &&& forall|j: int| 0 <= j < i ==> !#[trigger] rel(key(s[j]), key(s[i]))
}

/// Under an equivalence (transitivity is all it takes), global deduplication
/// yields exactly the first item of each class, in input order: the positions
/// returned are those items' positions in `s`, and every position that opens a
/// class is among them.
pub proof fn law_keep_first_keeps_first_of_each_class<T, A>(
    s: Seq<T>,
    key: spec_fn(T) -> A,
    rel: spec_fn(A, A) -> bool,
) -> (idx: Seq<int>)
    requires
        transitive(rel),
    ensures
        picks(keep_first(s, key, rel), s, idx),
        forall|k: int| 0 <= k < idx.len() ==> first_of_class(s, #[trigger] idx[k], key, rel),
        forall|i: int|
            first_of_class(s, i, key, rel) ==> exists|k: int|
                0 <= k < idx.len() && #[trigger] idx[k] == i,
{
    let idx = lemma_keep_first_after_opens_classes(Set::empty(), s, key, rel);
    assert forall|i: int| first_of_class(s, i, key, rel) implies opens_class(
        Set::empty(),
        s,
        i,
        key,
        rel,
    ) by {}
    assert forall|k: int| 0 <= k < idx.len() implies first_of_class(
        s,
        #[trigger] idx[k],
        key,
        rel,
    ) by {
        assert(opens_class(Set::empty(), s, idx[k], key, rel));
    }
    idx
}

} // verus!
