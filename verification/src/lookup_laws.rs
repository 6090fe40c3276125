//! Which rows the lookups find: the first with the wanted identity, and none only where there is
//! none.

use crate::cloud_coverage_store::revision_now;
use crate::coverage_lookups::{
    attempt_of, claiming, coordinator_of, head_of, publication_of, registration_of, revision_of,
};
use crate::coverage_tables::{source_with, Attempt, Coordinator, Head, Revision, Source, Tables};
use crate::rows::first_match;
use vstd::prelude::*;

verus! {

proof fn lemma_first<T>(rows: Seq<T>, wanted: spec_fn(T) -> bool)
    ensures
        match first_match(rows, wanted) {
            Some(row) => exists|k: int|
                0 <= k < rows.len() && #[trigger] rows[k] == row && wanted(row) && forall|j: int|
                    0 <= j < k ==> !wanted(#[trigger] rows[j]),
            None => forall|k: int| 0 <= k < rows.len() ==> !wanted(#[trigger] rows[k]),
        },
    decreases rows.len(),
{
    if rows.len() > 0 {
        let front = rows.drop_last();
        lemma_first(front, wanted);
        assert(forall|j: int| 0 <= j < front.len() ==> #[trigger] front[j] == rows[j]);
        assert(forall|j: int| 0 <= j < front.len() ==> #[trigger] rows[j] == front[j]);
        match first_match(front, wanted) {
            Some(row) => {
                let k = choose|k: int|
                    0 <= k < front.len() && #[trigger] front[k] == row && wanted(row) && forall|
                        j: int,
                    |
                        0 <= j < k ==> !wanted(#[trigger] front[j]);
                assert(rows[k] == row);
            },
            None => {
                assert(rows[rows.len() - 1] == rows.last());
            },
        }
    }
}

/// The head of a beneficiary is the first of that beneficiary.
pub proof fn law_heads_are_found(tables: Tables, beneficiary_id: Seq<char>)
    ensures
        match head_of(tables, beneficiary_id) {
            Some(row) => exists|k: int|
                0 <= k < tables.heads.len() && #[trigger] tables.heads[k] == row
                    && row.beneficiary_id == beneficiary_id && forall|j: int|
                    0 <= j < k ==> (#[trigger] tables.heads[j]).beneficiary_id != beneficiary_id,
            None => forall|k: int|
                0 <= k < tables.heads.len() ==> (#[trigger] tables.heads[k]).beneficiary_id
                    != beneficiary_id,
        },
{
    lemma_first(tables.heads, |row: Head| row.beneficiary_id == beneficiary_id);
}

/// The current revision of a beneficiary is the one that its head points to.
pub proof fn law_current_revisions_are_those_of_heads(tables: Tables, beneficiary_id: Seq<char>)
    ensures
        match head_of(tables, beneficiary_id) {
            Some(head) => revision_now(tables, beneficiary_id) == head.current_revision,
            None => revision_now(tables, beneficiary_id) is None,
        },
{
}

/// The revision of a publication operation is the first of that beneficiary and operation.
pub proof fn law_publications_are_found(
    tables: Tables,
    beneficiary_id: Seq<char>,
    operation_id: Seq<char>,
)
    ensures
        match publication_of(tables, beneficiary_id, operation_id) {
            Some(row) => exists|k: int|
                0 <= k < tables.revisions.len() && #[trigger] tables.revisions[k] == row
                    && row.beneficiary_id == beneficiary_id && row.operation_id == operation_id
                    && forall|j: int|
                    0 <= j < k ==> !((#[trigger] tables.revisions[j]).beneficiary_id
                        == beneficiary_id && tables.revisions[j].operation_id == operation_id),
            None => forall|k: int|
                0 <= k < tables.revisions.len() ==> !((
                #[trigger] tables.revisions[k]).beneficiary_id == beneficiary_id
                    && tables.revisions[k].operation_id == operation_id),
        },
{
    lemma_first(
        tables.revisions,
        |row: Revision| row.beneficiary_id == beneficiary_id && row.operation_id == operation_id,
    );
}

/// The revision with a number is the first of that beneficiary and number.
pub proof fn law_revisions_are_found(tables: Tables, beneficiary_id: Seq<char>, revision: i64)
    ensures
        match revision_of(tables, beneficiary_id, revision) {
            Some(row) => exists|k: int|
                0 <= k < tables.revisions.len() && #[trigger] tables.revisions[k] == row
                    && row.beneficiary_id == beneficiary_id && row.revision == revision && forall|
                    j: int,
                |
                    0 <= j < k ==> !((#[trigger] tables.revisions[j]).beneficiary_id
                        == beneficiary_id && tables.revisions[j].revision == revision),
            None => forall|k: int|
                0 <= k < tables.revisions.len() ==> !((
                #[trigger] tables.revisions[k]).beneficiary_id == beneficiary_id
                    && tables.revisions[k].revision == revision),
        },
{
    lemma_first(
        tables.revisions,
        |row: Revision| row.beneficiary_id == beneficiary_id && row.revision == revision,
    );
}

/// The coordinator of a beneficiary is the first of that beneficiary.
pub proof fn law_coordinators_are_found(tables: Tables, beneficiary_id: Seq<char>)
    ensures
        match coordinator_of(tables, beneficiary_id) {
            Some(row) => exists|k: int|
                0 <= k < tables.coordinators.len() && #[trigger] tables.coordinators[k] == row
                    && row.beneficiary_id == beneficiary_id && forall|j: int|
                    0 <= j < k ==> (#[trigger] tables.coordinators[j]).beneficiary_id
                        != beneficiary_id,
            None => forall|k: int|
                0 <= k < tables.coordinators.len() ==> (
                #[trigger] tables.coordinators[k]).beneficiary_id != beneficiary_id,
        },
{
    lemma_first(tables.coordinators, |row: Coordinator| row.beneficiary_id == beneficiary_id);
}

/// The source of a registration operation is the first of that beneficiary and operation.
pub proof fn law_registrations_are_found(
    tables: Tables,
    beneficiary_id: Seq<char>,
    operation_id: Seq<char>,
)
    ensures
        match registration_of(tables, beneficiary_id, operation_id) {
            Some(row) => exists|k: int|
                0 <= k < tables.sources.len() && #[trigger] tables.sources[k] == row
                    && row.binding.beneficiary_id == beneficiary_id
                    && row.registration_operation_id == operation_id && forall|j: int|
                    0 <= j < k ==> !((#[trigger] tables.sources[j]).binding.beneficiary_id
                        == beneficiary_id && tables.sources[j].registration_operation_id
                        == operation_id),
            None => forall|k: int|
                0 <= k < tables.sources.len() ==> !((
                #[trigger] tables.sources[k]).binding.beneficiary_id == beneficiary_id
                    && tables.sources[k].registration_operation_id == operation_id),
        },
{
    lemma_first(
        tables.sources,
        |row: Source|
            row.binding.beneficiary_id == beneficiary_id && row.registration_operation_id
                == operation_id,
    );
}

/// A source is known exactly if some row has its identity, and an allocation is claimed exactly if
/// some row has its provider and reference.
pub proof fn law_claims_are_found(
    tables: Tables,
    source_id: Seq<char>,
    provider_namespace: Seq<char>,
    reference: Seq<char>,
)
    ensures
        first_match(tables.sources, source_with(source_id)) is Some <==> exists|k: int|
            0 <= k < tables.sources.len() && (#[trigger] tables.sources[k]).binding.source_id
                == source_id,
        first_match(tables.sources, claiming(provider_namespace, reference)) is Some <==> exists|
            k: int,
        |
            0 <= k < tables.sources.len() && (
            #[trigger] tables.sources[k]).binding.provider_namespace == provider_namespace
                && tables.sources[k].binding.external_allocation_reference == reference,
{
    lemma_first(tables.sources, source_with(source_id));
    lemma_first(tables.sources, claiming(provider_namespace, reference));
}

/// An attempt is the first of its beneficiary and identity.
pub proof fn law_attempts_are_found(
    tables: Tables,
    beneficiary_id: Seq<char>,
    attempt_id: Seq<char>,
)
    ensures
        match attempt_of(tables, beneficiary_id, attempt_id) {
            Some(row) => exists|k: int|
                0 <= k < tables.attempts.len() && #[trigger] tables.attempts[k] == row
                    && row.beneficiary_id == beneficiary_id && row.attempt_id == attempt_id
                    && forall|j: int|
                    0 <= j < k ==> !((#[trigger] tables.attempts[j]).beneficiary_id
                        == beneficiary_id && tables.attempts[j].attempt_id == attempt_id),
            None => forall|k: int|
                0 <= k < tables.attempts.len() ==> !((
                #[trigger] tables.attempts[k]).beneficiary_id == beneficiary_id
                    && tables.attempts[k].attempt_id == attempt_id),
        },
{
    lemma_first(
        tables.attempts,
        |row: Attempt| row.beneficiary_id == beneficiary_id && row.attempt_id == attempt_id,
    );
}

} // verus!
