//! Sorting summary records by product code, in natural order, for display.
//!
//! The sort is a stable insertion sort. What it returns is fixed by the
//! natural order alone, whatever properties that order has; that the result
//! is in order is shown for records among which the order is consistent.

use vstd::prelude::*;

use crate::order::{follows, product_follows};
use crate::record::{SummaryObject, SummaryView};
use crate::table::views_of;

verus! {

broadcast use vstd::seq_lib::group_to_multiset_ensures;

/// Where a run of `true` at the end of `after` begins: the length of
/// `after` where it does not end in `true`.
pub open spec fn run_start(after: Seq<bool>) -> int
    decreases after.len(),
{
    if after.len() > 0 && after.last() {
        run_start(after.drop_last())
    } else {
        after.len() as int
    }
}

/// For each of the records, whether it comes after the item.
pub open spec fn after_flags(sorted: Seq<SummaryView>, item: SummaryView) -> Seq<bool> {
    Seq::new(sorted.len(), |k: int| follows(sorted[k].product, item.product))
}

/// Where a record goes into records that are already sorted: behind the
/// last one that does not come after it.
pub open spec fn insertion_point(sorted: Seq<SummaryView>, item: SummaryView) -> int {
    run_start(after_flags(sorted, item))
}

/// The records sorted by product code: each record in turn is put into the
/// sorted records before it, at its insertion point.
pub open spec fn sorted_by_product(records: Seq<SummaryView>) -> Seq<SummaryView>
    decreases records.len(),
{
    if records.len() == 0 {
        records
    } else {
        let before = sorted_by_product(records.drop_last());
        before.insert(insertion_point(before, records.last()), records.last())
    }
}

/// Whether no record comes after a later one.
pub open spec fn in_order(records: Seq<SummaryView>) -> bool {
    forall|a: int, b: int|
        0 <= a < b < records.len() ==> !follows(
            (#[trigger] records[a]).product,
            (#[trigger] records[b]).product,
        )
}

/// Whether the natural order is consistent among the records: of two
/// records at most one comes after the other, and not coming after is
/// transitive.
pub open spec fn ordered_consistently(records: Seq<SummaryView>) -> bool {
    &&& forall|x: SummaryView, y: SummaryView|
        #![trigger records.contains(x), records.contains(y)]
        records.contains(x) && records.contains(y) && follows(x.product, y.product) ==> !follows(
            y.product,
            x.product,
        )
    &&& forall|x: SummaryView, y: SummaryView, z: SummaryView|
        #![trigger records.contains(x), records.contains(y), records.contains(z)]
        records.contains(x) && records.contains(y) && records.contains(z) && !follows(
            x.product,
            y.product,
        ) && !follows(y.product, z.product) ==> !follows(x.product, z.product)
}

/// The run that `run_start` finds lies within `after`, holds only `true`,
/// and is preceded by `false`.
pub proof fn lemma_run_start(after: Seq<bool>)
    ensures
        0 <= run_start(after) <= after.len(),
        forall|k: int| run_start(after) <= k < after.len() ==> after[k],
        run_start(after) > 0 ==> !after[run_start(after) - 1],
    decreases after.len(),
{
    if after.len() > 0 && after.last() {
        let front = after.drop_last();
        lemma_run_start(front);
        assert forall|k: int| run_start(after) <= k < after.len() implies after[k] by {
            if k < front.len() {
                assert(after[k] == front[k]);
            }
        }
        if run_start(after) > 0 {
            assert(after[run_start(after) - 1] == front[run_start(front) - 1]);
        }
    }
}

/// The insertion point lies within the records; every record from it on
/// comes after the item, and the record just before it does not.
pub proof fn lemma_insertion_point(sorted: Seq<SummaryView>, item: SummaryView)
    ensures
        0 <= insertion_point(sorted, item) <= sorted.len(),
        forall|k: int|
            insertion_point(sorted, item) <= k < sorted.len() ==> follows(
                (#[trigger] sorted[k]).product,
                item.product,
            ),
        insertion_point(sorted, item) > 0 ==> !follows(
            sorted[insertion_point(sorted, item) - 1].product,
            item.product,
        ),
{
    let after = after_flags(sorted, item);
    lemma_run_start(after);
    assert forall|k: int| insertion_point(sorted, item) <= k < sorted.len() implies follows(
        (#[trigger] sorted[k]).product,
        item.product,
    ) by {
        assert(after[k]);
    }
}

/// Sorting only rearranges: the sorted records are the given records, each
/// as often as it was given.
pub proof fn lemma_sort_permutes(records: Seq<SummaryView>)
    ensures
        sorted_by_product(records).len() == records.len(),
        sorted_by_product(records).to_multiset() == records.to_multiset(),
    decreases records.len(),
{
    if records.len() > 0 {
        let front = records.drop_last();
        let before = sorted_by_product(front);
        lemma_sort_permutes(front);
        lemma_insertion_point(before, records.last());
        assert(front.push(records.last()) =~= records);
    }
}

/// Where the natural order is consistent among the records, the sorted
/// records are in order.
pub proof fn lemma_sort_orders(records: Seq<SummaryView>)
    requires
        ordered_consistently(records),
    ensures
        in_order(sorted_by_product(records)),
    decreases records.len(),
{
    if records.len() > 0 {
        let front = records.drop_last();
        let item = records.last();
        let before = sorted_by_product(front);
        let at = insertion_point(before, item);
        let sorted = sorted_by_product(records);
        assert forall|x: SummaryView| front.contains(x) implies records.contains(x) by {
            let k = choose|k: int| 0 <= k < front.len() && front[k] == x;
            assert(records[k] == x);
        }
        assert(records.contains(item));
        lemma_sort_orders(front);
        lemma_sort_permutes(front);
        lemma_insertion_point(before, item);
        before.insert_ensures(at, item);
        assert forall|k: int| 0 <= k < before.len() implies records.contains(
            #[trigger] before[k],
        ) by {
            assert(before.contains(before[k]));
            assert(before.to_multiset().count(before[k]) > 0);
            assert(front.contains(before[k]));
        }
        assert forall|a: int, b: int| 0 <= a < b < sorted.len() implies !follows(
            (#[trigger] sorted[a]).product,
            (#[trigger] sorted[b]).product,
        ) by {
            if a == at {
                assert(sorted[b] == before[b - 1]);
                assert(follows(before[b - 1].product, item.product));
            } else if b == at {
                assert(sorted[a] == before[a]);
                assert(!follows(before[at - 1].product, item.product));
                if a < at - 1 {
                    assert(!follows(before[a].product, before[at - 1].product));
                    assert(records.contains(before[a]) && records.contains(before[at - 1]));
                }
            } else {
                let from = if a < at {
                    a
                } else {
                    a - 1
                };
                let to = if b < at {
                    b
                } else {
                    b - 1
                };
                assert(sorted[a] == before[from]);
                assert(sorted[b] == before[to]);
            }
        }
    }
}

/// Finds where a run of `true` at the end of `after` begins.
pub fn insertion_index(after: &Vec<bool>) -> (at: usize)
    ensures
        at == run_start(after@),
{
    let mut at: usize = after.len();
    assert(after@.take(at as int) =~= after@);
    while at > 0 && after[at - 1]
        invariant
            at <= after.len(),
            run_start(after@) == run_start(after@.take(at as int)),
        decreases at,
    {
        assert(after@.take(at as int).drop_last() =~= after@.take(at - 1));
        at = at - 1;
    }
    at
}

/// Tells for each of the records whether it comes after the item.
fn flags_against(sorted: &Vec<SummaryObject>, item: &SummaryObject) -> (after: Vec<bool>)
    ensures
        after@ == after_flags(views_of(sorted@), item@),
{
    let mut after: Vec<bool> = Vec::new();
    let mut k: usize = 0;
    while k < sorted.len()
        invariant
            k <= sorted.len(),
            after.len() == k,
            forall|j: int| 0 <= j < k ==> after[j] == follows(sorted[j]@.product, item@.product),
        decreases sorted.len() - k,
    {
        after.push(product_follows(&sorted[k], item));
        k = k + 1;
    }
    assert(after@ =~= after_flags(views_of(sorted@), item@));
    after
}

/// Sorts summary records by product code, in natural order. Records that
/// the order does not tell apart keep the order in which they came.
pub fn sort_by_product(records: Vec<SummaryObject>) -> (sorted: Vec<SummaryObject>)
    ensures
        views_of(sorted@) == sorted_by_product(views_of(records@)),
{
    let ghost given = views_of(records@);
    let mut sorted: Vec<SummaryObject> = Vec::new();
    assert(views_of(sorted@) =~= sorted_by_product(given.take(0)));
    for record in it: records
        invariant
            given == views_of(it.seq()),
            views_of(sorted@) == sorted_by_product(given.take(it.index())),
    {
        let ghost before = views_of(sorted@);
        let after = flags_against(&sorted, &record);
        let at = insertion_index(&after);
        proof {
            let upto = given.take(it.index() + 1);
            assert(upto.drop_last() =~= given.take(it.index()));
            assert(upto.last() == record@);
            lemma_insertion_point(before, record@);
        }
        sorted.insert(at, record);
        assert(views_of(sorted@) =~= before.insert(at as int, record@));
    }
    assert(given.take(given.len() as int) =~= given);
    sorted
}

} // verus!
