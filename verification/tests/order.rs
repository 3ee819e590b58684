use ribbit::order::{compare_products, product_follows};
use ribbit::sort::{insertion_index, sort_by_product};
use ribbit::{RibbitFlags, SummaryObject};
use std::cmp::Ordering;

fn summary(product: &str) -> SummaryObject {
    SummaryObject { product: product.to_string(), seqn: 0, flags: RibbitFlags::Unknown }
}

fn numbered(product: &str, seqn: i32) -> SummaryObject {
    SummaryObject { product: product.to_string(), seqn, flags: RibbitFlags::CDNS }
}

fn products(records: &[SummaryObject]) -> Vec<&str> {
    records.iter().map(|r| r.product.as_str()).collect()
}

#[test]
fn digit_runs_compare_by_value() {
    assert_eq!(compare_products(&summary("pro2"), &summary("pro10")), Ordering::Less);
    assert_eq!(compare_products(&summary("pro10"), &summary("pro2")), Ordering::Greater);
    assert_eq!(compare_products(&summary("wow"), &summary("wow")), Ordering::Equal);
    assert_eq!(compare_products(&summary("agent"), &summary("bna")), Ordering::Less);
}

#[test]
fn follows_is_strictly_after() {
    assert!(product_follows(&summary("pro10"), &summary("pro2")));
    assert!(!product_follows(&summary("pro2"), &summary("pro10")));
    assert!(!product_follows(&summary("wow"), &summary("wow")));
}

#[test]
fn sorts_in_natural_order() {
    let records: Vec<SummaryObject> =
        ["wow", "pro10", "agent", "pro2", "bna", "pro1", "wow_classic", "d3"]
            .iter()
            .map(|p| summary(p))
            .collect();
    let sorted = sort_by_product(records);
    assert_eq!(
        products(&sorted),
        vec!["agent", "bna", "d3", "pro1", "pro2", "pro10", "wow", "wow_classic"]
    );
}

#[test]
fn sort_agrees_with_a_stable_sort_by_the_same_order() {
    let records: Vec<SummaryObject> = [
        ("rfc2086", 1),
        ("rfc822", 2),
        ("rfc1", 3),
        ("x2-y08", 4),
        ("x2-g8", 5),
        ("rfc822", 6),
        ("x8-y8", 7),
        ("x2-y7", 8),
        ("rfc1", 9),
        ("", 10),
        ("1.010", 11),
        ("1.1", 12),
        ("1.001", 13),
    ]
    .iter()
    .map(|(p, n)| numbered(p, *n))
    .collect();
    let mut expected = records.clone();
    expected.sort_by(|a, b| natord::compare(&a.product, &b.product));
    assert_eq!(sort_by_product(records), expected);
}

#[test]
fn sort_keeps_equal_products_in_arrival_order() {
    let sorted = sort_by_product(vec![numbered("b", 1), numbered("a", 2), numbered("b", 3), numbered("a", 4)]);
    let numbers: Vec<i32> = sorted.iter().map(|r| r.seqn).collect();
    assert_eq!(products(&sorted), vec!["a", "a", "b", "b"]);
    assert_eq!(numbers, vec![2, 4, 1, 3]);
}

#[test]
fn sort_of_nothing_and_of_one() {
    assert_eq!(sort_by_product(Vec::new()), Vec::<SummaryObject>::new());
    assert_eq!(sort_by_product(vec![summary("only")]), vec![summary("only")]);
}

#[test]
fn insertion_index_is_the_start_of_the_trailing_run() {
    assert_eq!(insertion_index(&Vec::new()), 0);
    assert_eq!(insertion_index(&vec![true]), 0);
    assert_eq!(insertion_index(&vec![false]), 1);
    assert_eq!(insertion_index(&vec![false, true, true]), 1);
    assert_eq!(insertion_index(&vec![true, false, true]), 2);
    assert_eq!(insertion_index(&vec![true, true, false]), 3);
    assert_eq!(insertion_index(&vec![true, true, true]), 0);
}
