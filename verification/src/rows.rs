//! Lookups and updates over the rows of a table.

use crate::ordered::lemma_push_members;
use vstd::prelude::*;

verus! {

/// The first row that is wanted, if there is one.
pub open spec fn first_match<T>(rows: Seq<T>, wanted: spec_fn(T) -> bool) -> Option<T>
    decreases rows.len(),
{
    if rows.len() == 0 {
        None
    } else {
        match first_match(rows.drop_last(), wanted) {
            Some(row) => Some(row),
            None => if wanted(rows.last()) {
                Some(rows.last())
            } else {
                None
            },
        }
    }
}

/// A row, changed if it is wanted.
pub open spec fn changed<T>(row: T, wanted: spec_fn(T) -> bool, change: spec_fn(T) -> T) -> T {
    if wanted(row) {
        change(row)
    } else {
        row
    }
}

/// The rows, with each wanted one changed.
pub open spec fn updated<T>(
    rows: Seq<T>,
    wanted: spec_fn(T) -> bool,
    change: spec_fn(T) -> T,
) -> Seq<T> {
    rows.map_values(|row: T| changed(row, wanted, change))
}

/// How a search goes on from the first `i` rows, none of which is wanted.
pub proof fn lemma_search_step<T>(rows: Seq<T>, i: int, wanted: spec_fn(T) -> bool)
    requires
        0 <= i < rows.len(),
        first_match(rows.take(i), wanted) is None,
    ensures
        wanted(rows[i]) ==> first_match(rows, wanted) == Some(rows[i]),
        !wanted(rows[i]) ==> first_match(rows.take(i + 1), wanted) is None,
{
    let longer = rows.take(i + 1);
    assert(longer.drop_last() =~= rows.take(i));
    assert(longer.last() == rows[i]);
    if wanted(rows[i]) {
        lemma_found_stays(rows, i + 1, wanted);
    }
}

proof fn lemma_found_stays<T>(rows: Seq<T>, n: int, wanted: spec_fn(T) -> bool)
    requires
        0 <= n <= rows.len(),
        first_match(rows.take(n), wanted) is Some,
    ensures
        first_match(rows, wanted) == first_match(rows.take(n), wanted),
    decreases rows.len() - n,
{
    if n == rows.len() {
        assert(rows.take(n) =~= rows);
    } else {
        assert(rows.take(n + 1).drop_last() =~= rows.take(n));
        lemma_found_stays(rows, n + 1, wanted);
    }
}

/// A row that a search gives is wanted and in the table.
pub proof fn lemma_found<T>(rows: Seq<T>, wanted: spec_fn(T) -> bool)
    ensures
        first_match(rows, wanted) matches Some(row) ==> wanted(row) && rows.contains(row),
        first_match(rows, wanted) is None ==> forall|row: T| #[trigger]
            rows.contains(row) ==> !wanted(row),
    decreases rows.len(),
{
    if rows.len() > 0 {
        let front = rows.drop_last();
        lemma_found(front, wanted);
        assert(rows =~= front.push(rows.last()));
        lemma_push_members(front, rows.last());
    }
}

/// A search over one more row.
pub proof fn lemma_search_push<T>(rows: Seq<T>, row: T, wanted: spec_fn(T) -> bool)
    ensures
        first_match(rows.push(row), wanted) == match first_match(rows, wanted) {
            Some(found) => Some(found),
            None => if wanted(row) {
                Some(row)
            } else {
                None
            },
        },
{
    assert(rows.push(row).drop_last() =~= rows);
}

/// A search over changed rows, where no change affects what is wanted.
pub proof fn lemma_search_updated<T>(
    rows: Seq<T>,
    chosen: spec_fn(T) -> bool,
    change: spec_fn(T) -> T,
    wanted: spec_fn(T) -> bool,
)
    requires
        forall|row: T| #[trigger] wanted(change(row)) == wanted(row),
    ensures
        first_match(updated(rows, chosen, change), wanted) == match first_match(rows, wanted) {
            Some(row) => Some(changed(row, chosen, change)),
            None => None,
        },
    decreases rows.len(),
{
    if rows.len() > 0 {
        lemma_search_updated(rows.drop_last(), chosen, change, wanted);
        assert(updated(rows, chosen, change).drop_last() =~= updated(
            rows.drop_last(),
            chosen,
            change,
        ));
        assert(wanted(change(rows.last())) == wanted(rows.last()));
    }
}

} // verus!
