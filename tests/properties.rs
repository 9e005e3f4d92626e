use std::collections::VecDeque;

use dedup_adapters::dedup::{DedupAdapter, DedupByAdapter, DedupByKeyAdapter};
use dedup_adapters::hashable::{DedupHashAdapter, DedupHashByAdapter, DedupHashByKeyAdapter};
use dedup_adapters::noncon::{DedupNonConAdapter, DedupNonConByAdapter, DedupNonConByKeyAdapter};
use dedup_adapters::ordable::{DedupOrdAdapter, DedupOrdByAdapter, DedupOrdByKeyAdapter};

fn source<T: Clone>(items: &[T]) -> VecDeque<T> {
    items.iter().cloned().collect()
}

fn related(a: &i32, b: &i32) -> bool {
    (a - b).abs() == 1
}

#[test]
fn empty_source_yields_nothing_for_every_adapter() {
    let e: [i32; 0] = [];
    assert!(source(&e).dedup().collect_vec().is_empty());
    assert!(source(&e).dedup_by(related).collect_vec().is_empty());
    assert!(source(&e).dedup_by_key(|x: &i32| x / 10).collect_vec().is_empty());
    assert!(source(&e).dedup_hash().collect_vec().is_empty());
    assert!(source(&e).dedup_hash_by(related).collect_vec().is_empty());
    assert!(source(&e).dedup_hash_by_key(|x: &i32| x / 10).collect_vec().is_empty());
    assert!(source(&e).dedup_ord().collect_vec().is_empty());
    assert!(source(&e).dedup_ord_by(related).collect_vec().is_empty());
    assert!(source(&e).dedup_ord_by_key(|x: &i32| x / 10).collect_vec().is_empty());
    assert!(source(&e).dedup_non_con().collect_vec().is_empty());
    assert!(source(&e).dedup_non_con_by(related).collect_vec().is_empty());
    assert!(source(&e).dedup_non_con_by_key(|x: &i32| x / 10).collect_vec().is_empty());
}

#[test]
fn exhausted_adapter_stays_exhausted() {
    let mut d = source(&[7, 7]).dedup();
    assert_eq!(d.next(), Some(7));
    assert_eq!(d.next(), None);
    assert_eq!(d.next(), None);
    let mut h = source(&[7, 7]).dedup_hash();
    assert_eq!(h.next(), Some(7));
    assert_eq!(h.next(), None);
    assert_eq!(h.next(), None);
}

#[test]
fn global_strategies_are_idempotent() {
    let input = [3, 1, 4, 1, 5, 9, 2, 6, 5, 3, 5, 13, 24];
    let once = source(&input).dedup_hash().collect_vec();
    assert_eq!(once, vec![3, 1, 4, 5, 9, 2, 6, 13, 24]);
    assert_eq!(source(&once).dedup_hash().collect_vec(), once);
    let once = source(&input).dedup_ord_by_key(|x: &i32| x % 10).collect_vec();
    assert_eq!(once, vec![3, 1, 4, 5, 9, 2, 6]);
    assert_eq!(source(&once).dedup_ord_by_key(|x: &i32| x % 10).collect_vec(), once);
    let once = source(&input).dedup_non_con_by(related).collect_vec();
    assert_eq!(once, vec![3, 1, 1, 5, 9, 5, 3, 5, 13, 24]);
    assert_eq!(source(&once).dedup_non_con_by(related).collect_vec(), once);
}

#[test]
fn consecutive_is_idempotent_but_not_global() {
    let input = [10, 20, 20, 21, 30, 30, 20];
    let once = source(&input).dedup().collect_vec();
    assert_eq!(once, vec![10, 20, 21, 30, 20]);
    assert_eq!(source(&once).dedup().collect_vec(), once);
    assert_ne!(once, source(&input).dedup_hash().collect_vec());
    assert_ne!(once, source(&input).dedup_ord().collect_vec());
    assert_ne!(once, source(&input).dedup_non_con().collect_vec());
}

#[test]
fn consecutive_keeps_last_of_each_run() {
    let input = [(1u8, 'a'), (1, 'b'), (2, 'c'), (1, 'd'), (1, 'e'), (1, 'f')];
    let out = source(&input).dedup_by_key(|r: &(u8, char)| r.0).collect_vec();
    assert_eq!(out, vec![(1, 'b'), (2, 'c'), (1, 'f')]);
}

#[test]
fn global_keeps_first_of_each_class() {
    let input = [(1u8, 'a'), (1, 'b'), (2, 'c'), (1, 'd'), (3, 'e'), (2, 'f')];
    let expected = vec![(1, 'a'), (2, 'c'), (3, 'e')];
    assert_eq!(source(&input).dedup_hash_by_key(|r: &(u8, char)| r.0).collect_vec(), expected);
    assert_eq!(source(&input).dedup_ord_by_key(|r: &(u8, char)| r.0).collect_vec(), expected);
    assert_eq!(source(&input).dedup_non_con_by_key(|r: &(u8, char)| r.0).collect_vec(), expected);
}

#[test]
fn predicate_is_checked_against_every_earlier_output() {
    let input = [1, 5, 2, 6, 3];
    let expected = vec![1, 5, 3];
    assert_eq!(source(&input).dedup_hash_by(related).collect_vec(), expected);
    assert_eq!(source(&input).dedup_ord_by(related).collect_vec(), expected);
    assert_eq!(source(&input).dedup_non_con_by(related).collect_vec(), expected);
}

#[test]
fn consecutive_predicate_compares_neighbours() {
    let out = source(&[1, 2, 3, 7, 8, 1]).dedup_by(related).collect_vec();
    assert_eq!(out, vec![3, 8, 1]);
}

#[test]
fn single_item_passes_through() {
    assert_eq!(source(&[42]).dedup().collect_vec(), vec![42]);
    assert_eq!(source(&[42]).dedup_hash().collect_vec(), vec![42]);
    assert_eq!(source(&[42]).dedup_ord().collect_vec(), vec![42]);
    assert_eq!(source(&[42]).dedup_non_con().collect_vec(), vec![42]);
}
