use std::collections::VecDeque;

use dedup_adapters::ordable::{DedupOrdAdapter, DedupOrdByAdapter, DedupOrdByKeyAdapter};

#[derive(Debug, PartialEq)]
struct Test {
    id: u8,
    other: Vec<u8>,
}

#[test]
fn ordable_deduplicate_empty_iterator() {
    let og = Vec::<u8>::new();
    let dp = og.iter().collect::<VecDeque<_>>().dedup_ord().collect_vec().len();
    assert_eq!(dp, 0);
}

#[test]
fn ordable_remove_duplicate_character() {
    let og = "ssporrro podwojjonnyych litterr";
    let dp = og
        .chars()
        .collect::<VecDeque<char>>()
        .dedup_ord()
        .collect_vec()
        .into_iter()
        .collect::<String>();
    assert_eq!(&dp, "spor dwjnychlite");
}

#[test]
fn ordable_remove_duplicate_number() {
    let og: [i32; 7] = [10, 20, 20, 21, 30, 30, 20];
    let dp = og.into_iter().collect::<VecDeque<_>>().dedup_ord().collect_vec();
    let re: [i32; 4] = [10, 20, 21, 30];
    assert_eq!(dp, re);
}

#[test]
fn ordable_remove_duplicate_whitespace() {
    let og = "ttu    teżż  czasem   jakkaś litterka     dwa  rrazy";
    let dp = og
        .chars()
        .collect::<VecDeque<char>>()
        .dedup_ord_by(|a: &char, b: &char| a.is_whitespace() && b.is_whitespace())
        .collect_vec()
        .into_iter()
        .collect::<String>();
    assert_eq!(&dp, "ttu teżżczasemjakkaślitterkadwarrazy");
}

#[test]
fn ordable_deduplicate_by_equality() {
    let og = "ttu    teżż  czasem   jakkaś litterka     dwa  rrazy";
    let dp = og
        .chars()
        .collect::<VecDeque<char>>()
        .dedup_ord_by(|&a: &char, &b: &char| a == b)
        .collect_vec()
        .into_iter()
        .collect::<String>();
    assert_eq!(&dp, "tu eżczasmjkślirdwy");
}

#[test]
fn ordable_dedup_by_key() {
    let og = [
        Test {
            id: 0,
            other: vec![0, 1, 2],
        },
        Test {
            id: 0,
            other: vec![0, 1, 2, 3],
        },
    ];
    let dp = og
        .into_iter()
        .collect::<VecDeque<Test>>()
        .dedup_ord_by_key(|test: &Test| test.id)
        .collect_vec();
    assert_eq!(
        dp,
        [Test {
            id: 0,
            other: vec![0, 1, 2],
        },]
    );
}

#[test]
fn ordable_deduplicate_by_always_same() {
    let t = "abdefghijklmopqrstuvwxyz";
    let v = t
        .chars()
        .collect::<VecDeque<char>>()
        .dedup_ord_by(|_: &char, _: &char| true)
        .collect_vec()
        .into_iter()
        .collect::<String>();
    assert_eq!(&v, "a");
}

#[test]
fn ordable_deduplicate_by_key_always_same() {
    let t = "abdefghijklmopqrstuvwxyz";
    let v = t
        .chars()
        .collect::<VecDeque<char>>()
        .dedup_ord_by_key(|_: &char| 0_u8)
        .collect_vec()
        .into_iter()
        .collect::<String>();
    assert_eq!(&v, "a");
}
