//! Natural ordering of records for display: digit runs compare by value, so
//! that `pro2` comes before `pro10`.

use std::cmp::Ordering;
use vstd::prelude::*;

use crate::record::SummaryObject;

verus! {

/// How `natord::compare` orders two texts: case-sensitively, skipping white
/// space, and comparing runs of decimal digits as numbers.
pub uninterp spec fn natural_order(left: Seq<char>, right: Seq<char>) -> Ordering;

/// Calls `natord::compare`. Nothing is proved of the order itself: the
/// contract only says that the outcome is the one that `natural_order`
/// names, so that the same two texts always compare the same way.
#[verifier::external_body]
fn natural_compare(left: &str, right: &str) -> (order: Ordering)
    ensures
        order == natural_order(left@, right@),
{
    natord::compare(left, right)
}

/// Compares two summary records by the natural order of their product codes.
pub fn compare_products(left: &SummaryObject, right: &SummaryObject) -> (order: Ordering)
    ensures
        order == natural_order(left@.product, right@.product),
{
    natural_compare(left.product.as_str(), right.product.as_str())
}

/// Whether `left` comes after `right` in natural order.
pub open spec fn follows(left: Seq<char>, right: Seq<char>) -> bool {
    natural_order(left, right) == Ordering::Greater
}

/// Tells whether the product code of `left` comes after that of `right` in
/// natural order.
pub fn product_follows(left: &SummaryObject, right: &SummaryObject) -> (after: bool)
    ensures
        after == follows(left@.product, right@.product),
{
    match compare_products(left, right) {
        Ordering::Greater => true,
        _ => false,
    }
}

} // verus!
