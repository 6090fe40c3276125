//! How publications and loads are answered, said of the requests and the rows themselves.

use crate::cloud_coverage::{Coverage, InvalidCoverage, PaidFact};
use crate::cloud_coverage_store::{
    availability, loaded, publication, revision_now, stored_operation, Loaded, Operation,
    Projection, Publication, PublicationOutcome, PublicationReceipt, Request, StoreFault,
    UnavailableReason,
};
use crate::coverage_facts::{canonical, fact_id, fault};
use crate::coverage_laws::lemma_canonical_of_faultless;
use crate::coverage_lookups::{head_of, publication_of, revision_of};
use crate::coverage_tables::{applied_all, Revision, Tables, Write};
use crate::ordered::lemma_arranged_is;
use crate::store_laws::{lemma_applied_one, lemma_head_after, lemma_published};
use crate::text::{before, blank, decimal, natural};
use vstd::prelude::*;

verus! {

/// Whether nothing is wrong with a publication request by itself.
pub open spec fn is_valid_request(request: Request) -> bool {
    &&& !blank(request.beneficiary_id)
    &&& !blank(request.operation_id)
    &&& !blank(request.evidence_reference)
    &&& request.expected_revision matches Some(revision) ==> revision > 0
    &&& request.projection matches Projection::Complete { facts } ==> fault(
        Coverage { beneficiary_id: request.beneficiary_id, facts },
    ) is None
}

/// A publication request is refused for what is wrong with it alone exactly where that is wrong:
/// its beneficiary, operation or evidence is blank, the revision that it expects is not positive,
/// or its facts have a fault.
pub proof fn law_invalid_publications_are_refused(
    tables: Tables,
    request: Request,
    f: InvalidCoverage,
)
    ensures
        ({
            let answer = publication(tables, request);
            let named = !blank(request.beneficiary_id) && !blank(request.operation_id) && !blank(
                request.evidence_reference,
            );
            let expecting = named && (request.expected_revision matches Some(revision) ==> revision
                > 0);
            &&& answer == Err::<Publication, StoreFault>(StoreFault::EmptyBeneficiary) <==> blank(
                request.beneficiary_id,
            )
            &&& answer == Err::<Publication, StoreFault>(StoreFault::EmptyOperationId) <==> !blank(
                request.beneficiary_id,
            ) && blank(request.operation_id)
            &&& answer == Err::<Publication, StoreFault>(StoreFault::EmptyEvidenceReference)
                <==> !blank(request.beneficiary_id) && !blank(request.operation_id) && blank(
                request.evidence_reference,
            )
            &&& answer == Err::<Publication, StoreFault>(StoreFault::InvalidExpectedRevision)
                <==> named && !expecting
            &&& answer == Err::<Publication, StoreFault>(StoreFault::InvalidCoverage(f))
                <==> expecting && (request.projection matches Projection::Complete { facts }
                && fault(Coverage { beneficiary_id: request.beneficiary_id, facts }) == Some(f))
        }),
{
}

/// Whether the columns of a stored revision can be trusted: they count the facts, and say that the
/// revision is complete without a known reason or unavailable for one, without facts.
pub open spec fn is_trusted(row: Revision) -> bool {
    let known = row.unavailable_reason == Some("needs_reconciliation"@) || row.unavailable_reason
        == Some("conflicting_evidence"@);
    &&& row.fact_count >= 0
    &&& row.fact_count == row.facts.len() as i64
    &&& (row.status == "complete"@ && !known) || (row.status == "unavailable"@ && known
        && row.fact_count == 0)
}

/// The name under which a reason stands in a row.
pub open spec fn written_reason(reason: UnavailableReason) -> Seq<char> {
    match reason {
        UnavailableReason::NeedsReconciliation => "needs_reconciliation"@,
        UnavailableReason::ConflictingEvidence => "conflicting_evidence"@,
    }
}

/// Whether a trusted revision holds what a projection says: the same facts, each once and in
/// ascending byte order, or the same reason.
pub open spec fn holds(row: Revision, projection: Projection) -> bool {
    match projection {
        Projection::Complete { facts } => {
            &&& row.status == "complete"@
            &&& forall|fact: PaidFact| #[trigger] row.facts.contains(fact) <==> facts.contains(fact)
            &&& forall|i: int, j: int|
                0 <= i < j < row.facts.len() ==> before(
                    (#[trigger] row.facts[i]).coverage_id,
                    (#[trigger] row.facts[j]).coverage_id,
                )
        },
        Projection::Unavailable { reason } => {
            &&& row.status == "unavailable"@
            &&& row.unavailable_reason == Some(written_reason(reason))
            &&& row.facts.len() == 0
        },
    }
}

proof fn lemma_names()
    ensures
        "complete"@ != "unavailable"@,
        "needs_reconciliation"@ != "conflicting_evidence"@,
{
    reveal_strlit("complete");
    reveal_strlit("unavailable");
    reveal_strlit("needs_reconciliation");
    reveal_strlit("conflicting_evidence");
    assert("complete"@.len() != "unavailable"@.len());
    assert("needs_reconciliation"@[0] != "conflicting_evidence"@[0]);
}

proof fn lemma_holds(beneficiary_id: Seq<char>, row: Revision, facts: Seq<PaidFact>)
    requires
        fault(Coverage { beneficiary_id, facts }) is None,
        row.status == "complete"@,
    ensures
        holds(row, Projection::Complete { facts }) <==> row.facts == canonical(facts),
{
    lemma_canonical_of_faultless(facts);
    if holds(row, Projection::Complete { facts }) {
        lemma_arranged_is(row.facts, facts, fact_id());
    }
}

/// The columns of a revision are trusted if they declare no negative number of facts and say that
/// the revision is complete without a known reason, or unavailable for one and without facts. They
/// then give the reason.
pub proof fn law_columns_say_whether_a_revision_is_available(
    status: Seq<char>,
    unavailable_reason: Option<Seq<char>>,
    fact_count: i64,
)
    ensures
        ({
            let answer = availability(status, unavailable_reason, fact_count);
            let known = unavailable_reason == Some("needs_reconciliation"@) || unavailable_reason
                == Some("conflicting_evidence"@);
            let complete = status == "complete"@ && !known;
            let unavailable = status == "unavailable"@ && known && fact_count == 0;
            &&& fact_count < 0 ==> answer == Err::<Option<UnavailableReason>, StoreFault>(
                StoreFault::CorruptProjection("fact count is negative"@),
            )
            &&& fact_count >= 0 && complete ==> answer == Ok::<
                Option<UnavailableReason>,
                StoreFault,
            >(None)
            &&& fact_count >= 0 && unavailable ==> {
                &&& answer matches Ok(Some(reason))
                &&& unavailable_reason == Some(written_reason(reason))
            }
            &&& fact_count >= 0 && !complete && !unavailable ==> answer == Err::<
                Option<UnavailableReason>,
                StoreFault,
            >(StoreFault::CorruptProjection("invalid projection status or unavailable reason"@))
        }),
{
    lemma_names();
}

/// A stored revision gives back the request that it answered, if its columns can be trusted, and
/// otherwise what is wrong with them first.
pub proof fn law_stored_requests_are_read_back(row: Revision)
    ensures
        ({
            let columns = availability(row.status, row.unavailable_reason, row.fact_count);
            &&& is_trusted(row) ==> {
                &&& stored_operation(row) matches Ok(operation)
                &&& operation.revision == row.revision
                &&& operation.expected_revision == row.expected_revision
                &&& operation.evidence_reference == row.evidence_reference
                &&& operation.snapshot.facts == row.facts
                &&& columns == Ok::<Option<UnavailableReason>, StoreFault>(
                    operation.snapshot.unavailable_reason,
                )
            }
            &&& columns matches Err(f) ==> stored_operation(row) == Err::<Operation, StoreFault>(f)
            &&& columns is Ok && row.fact_count != row.facts.len() as i64 ==> stored_operation(row)
                == Err::<Operation, StoreFault>(
                StoreFault::CorruptProjection(
                    "operation revision "@ + decimal(row.revision as int) + " declares "@ + decimal(
                        row.fact_count as int,
                    ) + " facts but stores "@ + natural(row.facts.len()),
                ),
            )
        }),
{
    lemma_names();
}

/// How a valid publication request is answered.
///
/// An operation that made no revision yet adds the revision after the current one, if the current
/// one is the expected one and a number is left. An operation that made a revision is answered with
/// that revision if the request is the one that made it, and refused otherwise. A head without a
/// revision, or a revision that cannot be trusted, is reported.
pub proof fn law_valid_publications_are_answered(tables: Tables, request: Request)
    requires
        is_valid_request(request),
    ensures
        ({
            let answer = publication(tables, request);
            let b = request.beneficiary_id;
            let now = match head_of(tables, b) {
                Some(head) => head.current_revision,
                None => None,
            };
            if head_of(tables, b) is Some && now is None {
                answer == Err::<Publication, StoreFault>(
                    StoreFault::CorruptProjection("head has no current revision"@),
                )
            } else {
                match publication_of(tables, b, request.operation_id) {
                    None => {
                        &&& now != request.expected_revision ==> answer == Err::<
                            Publication,
                            StoreFault,
                        >(
                            StoreFault::RevisionConflict {
                                expected: request.expected_revision,
                                actual: now,
                            },
                        )
                        &&& now == request.expected_revision && now == Some(i64::MAX) ==> answer
                            == Err::<Publication, StoreFault>(StoreFault::RevisionOverflow)
                        &&& now == request.expected_revision && now != Some(i64::MAX) ==> {
                            &&& answer matches Ok(p)
                            &&& p.receipt.outcome == PublicationOutcome::Applied
                            &&& now is None ==> p.receipt.revision == 1
                            &&& now matches Some(n) ==> p.receipt.revision == n + 1
                        }
                    },
                    Some(row) => {
                        let same = row.expected_revision == request.expected_revision
                            && row.evidence_reference == request.evidence_reference && holds(
                            row,
                            request.projection,
                        );
                        &&& is_trusted(row) && same ==> {
                            &&& answer matches Ok(p)
                            &&& p.receipt == PublicationReceipt {
                                revision: row.revision,
                                outcome: PublicationOutcome::AlreadyApplied,
                            }
                        }
                        &&& is_trusted(row) && !same ==> answer == Err::<Publication, StoreFault>(
                            StoreFault::OperationConflict,
                        )
                        &&& !is_trusted(row) ==> (answer matches Err(e) && e is CorruptProjection)
                    },
                }
            }
        }),
{
    lemma_names();
    if let Some(row) = publication_of(tables, request.beneficiary_id, request.operation_id) {
        match request.projection {
            Projection::Complete { facts } => {
                if row.status == "complete"@ {
                    lemma_holds(request.beneficiary_id, row, facts);
                }
            },
            Projection::Unavailable { reason } => {
                if row.facts.len() == 0 {
                    assert(row.facts =~= Seq::empty());
                }
            },
        }
    }
}

/// An applied publication adds exactly one revision, which says what was requested, and points the
/// head of the beneficiary to it. It changes nothing else. One that was applied already changes
/// neither revisions nor any current revision.
pub proof fn law_publishing_adds_what_was_requested(tables: Tables, request: Request)
    requires
        publication(tables, request) is Ok,
    ensures
        ({
            let p = publication(tables, request)->Ok_0;
            let after = applied_all(tables, p.writes);
            &&& after.coordinators == tables.coordinators
            &&& after.sources == tables.sources
            &&& after.attempts == tables.attempts
            &&& forall|other: Seq<char>|
                other != request.beneficiary_id ==> #[trigger] head_of(after, other) == head_of(
                    tables,
                    other,
                )
            &&& p.receipt.outcome == PublicationOutcome::AlreadyApplied ==> {
                &&& after.revisions == tables.revisions
                &&& revision_now(after, request.beneficiary_id) == revision_now(
                    tables,
                    request.beneficiary_id,
                )
            }
            &&& p.receipt.outcome == PublicationOutcome::Applied ==> {
                let row = after.revisions.last();
                &&& after.revisions == tables.revisions.push(row)
                &&& row.beneficiary_id == request.beneficiary_id
                &&& row.revision == p.receipt.revision
                &&& row.operation_id == request.operation_id
                &&& row.expected_revision == request.expected_revision
                &&& row.evidence_reference == request.evidence_reference
                &&& holds(row, request.projection)
                &&& request.projection is Complete ==> row.unavailable_reason is None
                &&& row.fact_count == row.facts.len() as i64
                &&& head_of(after, request.beneficiary_id) matches Some(head)
                &&& head.beneficiary_id == request.beneficiary_id
                &&& head.current_revision == Some(p.receipt.revision)
            }
        }),
{
    let p = publication(tables, request)->Ok_0;
    let after = applied_all(tables, p.writes);
    if p.receipt.outcome == PublicationOutcome::Applied {
        let row = lemma_published(tables, request);
        assert(after.revisions.last() == row);
        if let Projection::Complete { facts } = request.projection {
            lemma_holds(request.beneficiary_id, row, facts);
        }
    } else {
        let insert = Write::InsertHead { beneficiary_id: request.beneficiary_id };
        if head_of(tables, request.beneficiary_id) is None {
            assert(p.writes =~= seq![insert]);
            lemma_applied_one(tables, insert);
        } else {
            assert(p.writes =~= Seq::empty());
        }
        assert forall|other: Seq<char>|
            other != request.beneficiary_id implies #[trigger] head_of(after, other) == head_of(
            tables,
            other,
        ) by {
            lemma_head_after(tables, insert, other);
        }
        lemma_head_after(tables, insert, request.beneficiary_id);
    }
}

/// Whether the rest of a stored revision is as a publication leaves it.
pub open spec fn is_well_kept(row: Revision, beneficiary_id: Seq<char>) -> bool {
    &&& row.expected_revision matches Some(expected) ==> expected > 0
    &&& !blank(row.evidence_reference)
    &&& fault(Coverage { beneficiary_id, facts: row.facts }) is None
    &&& forall|i: int, j: int|
        0 <= i < j < row.facts.len() ==> before(
            (#[trigger] row.facts[i]).coverage_id,
            (#[trigger] row.facts[j]).coverage_id,
        )
}

/// How a load is answered: with the facts of the revision that the head points to, and its number,
/// exactly if that revision can be trusted and is complete. An unavailable revision that can be
/// trusted is reported with its reason, a beneficiary without a head as missing, and anything else
/// as corrupt.
pub proof fn law_loads_are_answered(tables: Tables, beneficiary_id: Seq<char>)
    ensures
        ({
            let answer = loaded(tables, beneficiary_id);
            &&& answer == Err::<Loaded, StoreFault>(StoreFault::EmptyBeneficiary) <==> blank(
                beneficiary_id,
            )
            &&& answer == Err::<Loaded, StoreFault>(StoreFault::ProjectionMissing) <==> !blank(
                beneficiary_id,
            ) && head_of(tables, beneficiary_id) is None
            &&& !blank(beneficiary_id) && head_of(tables, beneficiary_id) is Some ==> match head_of(
                tables,
                beneficiary_id,
            )->0.current_revision {
                None => answer == Err::<Loaded, StoreFault>(
                    StoreFault::CorruptProjection("head has no current revision"@),
                ),
                Some(n) => match revision_of(tables, beneficiary_id, n) {
                    None => answer == Err::<Loaded, StoreFault>(
                        StoreFault::CorruptProjection(
                            "head points to missing revision "@ + decimal(n as int),
                        ),
                    ),
                    Some(row) => {
                        let sound = is_trusted(row) && is_well_kept(row, beneficiary_id);
                        &&& sound && row.status == "complete"@ ==> answer == Ok::<
                            Loaded,
                            StoreFault,
                        >(
                            Loaded {
                                revision: n,
                                coverage: Coverage { beneficiary_id, facts: row.facts },
                            },
                        )
                        &&& sound && row.status == "unavailable"@ ==> (answer matches Err(e)
                            && e is ProjectionUnavailable && row.unavailable_reason == Some(
                            written_reason(e->ProjectionUnavailable_0),
                        ))
                        &&& !sound ==> (answer matches Err(e) && e is CorruptProjection)
                    },
                },
            }
        }),
{
    lemma_names();
    if let Some(head) = head_of(tables, beneficiary_id) {
        if let Some(n) = head.current_revision {
            if let Some(row) = revision_of(tables, beneficiary_id, n) {
                let facts = row.facts;
                if fault(Coverage { beneficiary_id, facts }) is None {
                    lemma_canonical_of_faultless(facts);
                    if forall|i: int, j: int|
                        0 <= i < j < facts.len() ==> before(
                            (#[trigger] facts[i]).coverage_id,
                            (#[trigger] facts[j]).coverage_id,
                        ) {
                        lemma_arranged_is(facts, facts, fact_id());
                    }
                }
            }
        }
    }
}

/// A load names what is wrong first with a revision that the head points to: its columns, the
/// revision that it expected, its evidence, the number of its facts, the facts, or their order.
pub proof fn law_corrupt_revisions_are_named(
    tables: Tables,
    beneficiary_id: Seq<char>,
    n: i64,
    row: Revision,
)
    requires
        !blank(beneficiary_id),
        revision_now(tables, beneficiary_id) == Some(n),
        revision_of(tables, beneficiary_id, n) == Some(row),
    ensures
        ({
            let answer = loaded(tables, beneficiary_id);
            let columns = availability(row.status, row.unavailable_reason, row.fact_count);
            let expects = row.expected_revision matches Some(expected) ==> expected > 0;
            let counts = row.fact_count == row.facts.len() as i64;
            let coverage = Coverage { beneficiary_id, facts: row.facts };
            &&& columns matches Err(f) ==> answer == Err::<Loaded, StoreFault>(f)
            &&& columns is Ok && !expects ==> answer == Err::<Loaded, StoreFault>(
                StoreFault::CorruptProjection("expected revision is not positive"@),
            )
            &&& columns is Ok && expects && blank(row.evidence_reference) ==> answer == Err::<
                Loaded,
                StoreFault,
            >(StoreFault::CorruptProjection("evidence reference is empty"@))
            &&& columns is Ok && expects && !blank(row.evidence_reference) && !counts ==> answer
                == Err::<Loaded, StoreFault>(
                StoreFault::CorruptProjection(
                    "revision "@ + decimal(n as int) + " declares "@ + decimal(
                        row.fact_count as int,
                    ) + " facts but stores "@ + natural(row.facts.len()),
                ),
            )
            &&& columns is Ok && expects && !blank(row.evidence_reference) && counts ==> {
                &&& fault(coverage) matches Some(f) ==> answer == Err::<Loaded, StoreFault>(
                    StoreFault::CorruptProjection(f.sentence()),
                )
                &&& fault(coverage) is None && !is_well_kept(row, beneficiary_id) ==> answer
                    == Err::<Loaded, StoreFault>(
                    StoreFault::CorruptProjection("stored facts are not in canonical order"@),
                )
            }
        }),
{
    let facts = row.facts;
    if fault(Coverage { beneficiary_id, facts }) is None {
        lemma_canonical_of_faultless(facts);
    }
}

} // verus!
