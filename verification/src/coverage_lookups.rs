//! The rows that the coverage operations look up.

use crate::coverage_tables::{
    attempt_with, coordinator_for, head_for, source_with, Attempt, AttemptRow, Coordinator,
    CoordinatorRow, CoverageTables, Head, HeadRow, Revision, RevisionRow, Source, SourceRow, Tables,
};
use crate::rows::{first_match, lemma_search_step};
use crate::text;
use vstd::prelude::*;

verus! {

/// Which revisions a publication operation of a beneficiary made.
pub open spec fn published_by(beneficiary_id: Seq<char>, operation_id: Seq<char>) -> spec_fn(
    Revision,
) -> bool {
    |row: Revision| row.beneficiary_id == beneficiary_id && row.operation_id == operation_id
}

/// Which revisions of a beneficiary have a number.
pub open spec fn numbered(beneficiary_id: Seq<char>, revision: i64) -> spec_fn(Revision) -> bool {
    |row: Revision| row.beneficiary_id == beneficiary_id && row.revision == revision
}

/// Which sources a registration operation of a beneficiary made.
pub open spec fn registered_by(beneficiary_id: Seq<char>, operation_id: Seq<char>) -> spec_fn(
    Source,
) -> bool {
    |row: Source|
        row.binding.beneficiary_id == beneficiary_id && row.registration_operation_id
            == operation_id
}

/// Which sources claim an external allocation.
pub open spec fn claiming(provider_namespace: Seq<char>, reference: Seq<char>) -> spec_fn(
    Source,
) -> bool {
    |row: Source|
        row.binding.provider_namespace == provider_namespace
            && row.binding.external_allocation_reference == reference
}

/// The head of a beneficiary.
pub open spec fn head_of(tables: Tables, beneficiary_id: Seq<char>) -> Option<Head> {
    first_match(tables.heads, head_for(beneficiary_id))
}

/// The revision that a publication operation of a beneficiary made.
pub open spec fn publication_of(
    tables: Tables,
    beneficiary_id: Seq<char>,
    operation_id: Seq<char>,
) -> Option<Revision> {
    first_match(tables.revisions, published_by(beneficiary_id, operation_id))
}

/// The revision of a beneficiary with a number.
pub open spec fn revision_of(
    tables: Tables,
    beneficiary_id: Seq<char>,
    revision: i64,
) -> Option<Revision> {
    first_match(tables.revisions, numbered(beneficiary_id, revision))
}

/// The coordinator of a beneficiary.
pub open spec fn coordinator_of(tables: Tables, beneficiary_id: Seq<char>) -> Option<Coordinator> {
    first_match(tables.coordinators, coordinator_for(beneficiary_id))
}

/// The source that a registration operation of a beneficiary made.
pub open spec fn registration_of(
    tables: Tables,
    beneficiary_id: Seq<char>,
    operation_id: Seq<char>,
) -> Option<Source> {
    first_match(tables.sources, registered_by(beneficiary_id, operation_id))
}

/// An attempt of a beneficiary.
pub open spec fn attempt_of(
    tables: Tables,
    beneficiary_id: Seq<char>,
    attempt_id: Seq<char>,
) -> Option<Attempt> {
    first_match(tables.attempts, attempt_with(beneficiary_id, attempt_id))
}

/// The head of a beneficiary.
pub fn find_head<'a>(
    tables: &'a CoverageTables,
    beneficiary_id: &str,
) -> (r: Option<&'a HeadRow>)
    ensures
        match r {
            Some(row) => head_of(tables@, beneficiary_id@) == Some(row@),
            None => head_of(tables@, beneficiary_id@) is None,
        },
{
    let rows = &tables.heads;
    let ghost wanted = head_for(beneficiary_id@);
    for i in 0..rows.len()
        invariant
            rows == &tables.heads,
            wanted == head_for(beneficiary_id@),
            first_match(tables@.heads.take(i as int), wanted) is None,
    {
        proof {
            lemma_search_step(tables@.heads, i as int, wanted);
        }
        if text::same(&rows[i].beneficiary_id, beneficiary_id) {
            return Some(&rows[i]);
        }
    }
    assert(tables@.heads.take(rows@.len() as int) =~= tables@.heads);
    None
}

/// The revision that a publication operation of a beneficiary made.
pub fn find_publication<'a>(
    tables: &'a CoverageTables,
    beneficiary_id: &str,
    operation_id: &str,
) -> (r: Option<&'a RevisionRow>)
    ensures
        match r {
            Some(row) => publication_of(tables@, beneficiary_id@, operation_id@) == Some(row@),
            None => publication_of(tables@, beneficiary_id@, operation_id@) is None,
        },
{
    let rows = &tables.revisions;
    let ghost wanted = published_by(beneficiary_id@, operation_id@);
    for i in 0..rows.len()
        invariant
            rows == &tables.revisions,
            wanted == published_by(beneficiary_id@, operation_id@),
            first_match(tables@.revisions.take(i as int), wanted) is None,
    {
        proof {
            lemma_search_step(tables@.revisions, i as int, wanted);
        }
        if text::same(&rows[i].beneficiary_id, beneficiary_id) && text::same(
            &rows[i].operation_id,
            operation_id,
        ) {
            return Some(&rows[i]);
        }
    }
    assert(tables@.revisions.take(rows@.len() as int) =~= tables@.revisions);
    None
}

/// The revision of a beneficiary with a number.
pub fn find_revision<'a>(
    tables: &'a CoverageTables,
    beneficiary_id: &str,
    revision: i64,
) -> (r: Option<&'a RevisionRow>)
    ensures
        match r {
            Some(row) => revision_of(tables@, beneficiary_id@, revision) == Some(row@),
            None => revision_of(tables@, beneficiary_id@, revision) is None,
        },
{
    let rows = &tables.revisions;
    let ghost wanted = numbered(beneficiary_id@, revision);
    for i in 0..rows.len()
        invariant
            rows == &tables.revisions,
            wanted == numbered(beneficiary_id@, revision),
            first_match(tables@.revisions.take(i as int), wanted) is None,
    {
        proof {
            lemma_search_step(tables@.revisions, i as int, wanted);
        }
        if text::same(&rows[i].beneficiary_id, beneficiary_id) && rows[i].revision == revision {
            return Some(&rows[i]);
        }
    }
    assert(tables@.revisions.take(rows@.len() as int) =~= tables@.revisions);
    None
}

/// The coordinator of a beneficiary.
pub fn find_coordinator<'a>(
    tables: &'a CoverageTables,
    beneficiary_id: &str,
) -> (r: Option<&'a CoordinatorRow>)
    ensures
        match r {
            Some(row) => coordinator_of(tables@, beneficiary_id@) == Some(row@),
            None => coordinator_of(tables@, beneficiary_id@) is None,
        },
{
    let rows = &tables.coordinators;
    let ghost wanted = coordinator_for(beneficiary_id@);
    for i in 0..rows.len()
        invariant
            rows == &tables.coordinators,
            wanted == coordinator_for(beneficiary_id@),
            first_match(tables@.coordinators.take(i as int), wanted) is None,
    {
        proof {
            lemma_search_step(tables@.coordinators, i as int, wanted);
        }
        if text::same(&rows[i].beneficiary_id, beneficiary_id) {
            return Some(&rows[i]);
        }
    }
    assert(tables@.coordinators.take(rows@.len() as int) =~= tables@.coordinators);
    None
}

/// The source that a registration operation of a beneficiary made.
pub fn find_registration<'a>(
    tables: &'a CoverageTables,
    beneficiary_id: &str,
    operation_id: &str,
) -> (r: Option<&'a SourceRow>)
    ensures
        match r {
            Some(row) => registration_of(tables@, beneficiary_id@, operation_id@) == Some(row@),
            None => registration_of(tables@, beneficiary_id@, operation_id@) is None,
        },
{
    let rows = &tables.sources;
    let ghost wanted = registered_by(beneficiary_id@, operation_id@);
    for i in 0..rows.len()
        invariant
            rows == &tables.sources,
            wanted == registered_by(beneficiary_id@, operation_id@),
            first_match(tables@.sources.take(i as int), wanted) is None,
    {
        proof {
            lemma_search_step(tables@.sources, i as int, wanted);
        }
        if text::same(&rows[i].binding.beneficiary_id, beneficiary_id) && text::same(
            &rows[i].registration_operation_id,
            operation_id,
        ) {
            return Some(&rows[i]);
        }
    }
    assert(tables@.sources.take(rows@.len() as int) =~= tables@.sources);
    None
}

/// An attempt of a beneficiary.
pub fn find_attempt<'a>(
    tables: &'a CoverageTables,
    beneficiary_id: &str,
    attempt_id: &str,
) -> (r: Option<&'a AttemptRow>)
    ensures
        match r {
            Some(row) => attempt_of(tables@, beneficiary_id@, attempt_id@) == Some(row@),
            None => attempt_of(tables@, beneficiary_id@, attempt_id@) is None,
        },
{
    let rows = &tables.attempts;
    let ghost wanted = attempt_with(beneficiary_id@, attempt_id@);
    for i in 0..rows.len()
        invariant
            rows == &tables.attempts,
            wanted == attempt_with(beneficiary_id@, attempt_id@),
            first_match(tables@.attempts.take(i as int), wanted) is None,
    {
        proof {
            lemma_search_step(tables@.attempts, i as int, wanted);
        }
        if text::same(&rows[i].beneficiary_id, beneficiary_id) && text::same(
            &rows[i].attempt_id,
            attempt_id,
        ) {
            return Some(&rows[i]);
        }
    }
    assert(tables@.attempts.take(rows@.len() as int) =~= tables@.attempts);
    None
}

/// Whether a source has an identity.
pub fn is_source_known(
    tables: &CoverageTables,
    source_id: &str,
) -> (r: bool)
    ensures
        r == (first_match(tables@.sources, source_with(source_id@)) is Some),
{
    let rows = &tables.sources;
    let ghost wanted = source_with(source_id@);
    for i in 0..rows.len()
        invariant
            rows == &tables.sources,
            wanted == source_with(source_id@),
            first_match(tables@.sources.take(i as int), wanted) is None,
    {
        proof {
            lemma_search_step(tables@.sources, i as int, wanted);
        }
        if text::same(&rows[i].binding.source_id, source_id) {
            return true;
        }
    }
    assert(tables@.sources.take(rows@.len() as int) =~= tables@.sources);
    false
}

/// Whether a source claims an external allocation.
pub fn is_allocation_claimed(
    tables: &CoverageTables,
    provider_namespace: &str,
    reference: &str,
) -> (r: bool)
    ensures
        r == (first_match(tables@.sources, claiming(provider_namespace@, reference@)) is Some),
{
    let rows = &tables.sources;
    let ghost wanted = claiming(provider_namespace@, reference@);
    for i in 0..rows.len()
        invariant
            rows == &tables.sources,
            wanted == claiming(provider_namespace@, reference@),
            first_match(tables@.sources.take(i as int), wanted) is None,
    {
        proof {
            lemma_search_step(tables@.sources, i as int, wanted);
        }
        if text::same(&rows[i].binding.provider_namespace, provider_namespace) && text::same(
            &rows[i].binding.external_allocation_reference,
            reference,
        ) {
            return true;
        }
    }
    assert(tables@.sources.take(rows@.len() as int) =~= tables@.sources);
    false
}

} // verus!
