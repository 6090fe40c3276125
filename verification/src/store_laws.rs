//! What holds of stored projections as a whole.

use crate::cloud_coverage::Coverage;
use crate::cloud_coverage_store::{
    availability, head_writes, loaded, new_revision, next_revision, publication, reason_name,
    reason_named, requested, revision_now, snapshot_of, stored_operation, Loaded, Operation,
    Projection, Publication, PublicationOutcome, PublicationReceipt, Request, Snapshot, StoreFault,
    UnavailableReason,
};
use crate::coverage_facts::{canonical, fact_id, fault, same_facts};
use crate::coverage_laws::{
    law_normalising_ignores_order_and_repetition, law_normalising_is_idempotent,
};
use crate::coverage_lookups::{head_of, numbered, publication_of, published_by, revision_of};
use crate::coverage_tables::{
    applied, applied_all, head_for, pointed_to, Head, Revision, Tables, Write,
};
use crate::ordered::lemma_arranged_is;
use crate::rows::{first_match, lemma_found, lemma_search_push, lemma_search_updated};
use vstd::prelude::*;

verus! {

/// The stored name of a reason stands for that reason, and no other name does.
pub proof fn law_reason_names_round_trip(reason: UnavailableReason, name: Seq<char>)
    ensures
        reason_named(reason_name(reason)) == Some(reason),
        reason_named(name) == Some(reason) ==> name == reason_name(reason),
{
    reveal_strlit("needs_reconciliation");
    reveal_strlit("conflicting_evidence");
    assert("needs_reconciliation"@[0] != "conflicting_evidence"@[0]);
}

/// Writes made one after the other.
pub proof fn lemma_applied_concat(tables: Tables, a: Seq<Write>, b: Seq<Write>)
    ensures
        applied_all(tables, a + b) == applied_all(applied_all(tables, a), b),
    decreases b.len(),
{
    if b.len() == 0 {
        assert(a + b =~= a);
    } else {
        assert((a + b).drop_last() =~= a + b.drop_last());
        lemma_applied_concat(tables, a, b.drop_last());
    }
}

/// One write.
pub proof fn lemma_applied_one(tables: Tables, write: Write)
    ensures
        applied_all(tables, seq![write]) == applied(tables, write),
{
    assert(seq![write].drop_last() =~= Seq::empty());
    reveal_with_fuel(applied_all, 2);
}

/// Two writes.
pub proof fn lemma_applied_two(tables: Tables, a: Write, b: Write)
    ensures
        applied_all(tables, seq![a, b]) == applied(applied(tables, a), b),
{
    assert(seq![a, b] =~= seq![a] + seq![b]);
    lemma_applied_concat(tables, seq![a], seq![b]);
    lemma_applied_one(tables, a);
    lemma_applied_one(applied(tables, a), b);
}

/// What one write does to the head of a beneficiary.
pub proof fn lemma_head_after(tables: Tables, write: Write, beneficiary_id: Seq<char>)
    ensures
        head_of(applied(tables, write), beneficiary_id) == match write {
            Write::InsertHead { beneficiary_id: b } => if head_of(tables, beneficiary_id) is None
                && b == beneficiary_id {
                Some(Head { beneficiary_id, current_revision: None })
            } else {
                head_of(tables, beneficiary_id)
            },
            Write::SetHead { beneficiary_id: b, revision } => match head_of(
                tables,
                beneficiary_id,
            ) {
                Some(head) => Some(
                    if b == beneficiary_id {
                        Head { current_revision: Some(revision), ..head }
                    } else {
                        head
                    },
                ),
                None => None,
            },
            _ => head_of(tables, beneficiary_id),
        },
{
    match write {
        Write::InsertHead { beneficiary_id: b } => {
            lemma_search_push(
                tables.heads,
                Head { beneficiary_id: b, current_revision: None },
                head_for(beneficiary_id),
            );
        },
        Write::SetHead { beneficiary_id: b, revision } => {
            lemma_search_updated(
                tables.heads,
                head_for(b),
                pointed_to(revision),
                head_for(beneficiary_id),
            );
            lemma_found(tables.heads, head_for(beneficiary_id));
        },
        _ => {},
    }
}

/// What one write does to the search for a revision.
pub proof fn lemma_revision_after(tables: Tables, write: Write, wanted: spec_fn(Revision) -> bool)
    ensures
        first_match(applied(tables, write).revisions, wanted) == match write {
            Write::InsertRevision(row) => match first_match(tables.revisions, wanted) {
                Some(found) => Some(found),
                None => if wanted(row) {
                    Some(row)
                } else {
                    None
                },
            },
            _ => first_match(tables.revisions, wanted),
        },
{
    if let Write::InsertRevision(row) = write {
        lemma_search_push(tables.revisions, row, wanted);
    }
}

/// Whether the count of a projection's facts is stored as a count: it is up to the largest `i64`.
pub open spec fn countable(projection: Projection) -> bool {
    projection matches Projection::Complete { facts } ==> (canonical(facts).len() as i64) >= 0
}

/// Whether two projections say the same, whatever the order and repetitions of their facts.
pub open spec fn same_projection(a: Projection, b: Projection) -> bool {
    match (a, b) {
        (
            Projection::Complete { facts: x },
            Projection::Complete { facts: y },
        ) => same_facts(x, y),
        (
            Projection::Unavailable { reason: x },
            Projection::Unavailable { reason: y },
        ) => x == y,
        _ => false,
    }
}

/// What is stored of a projection depends neither on the order of its facts nor on repetitions.
pub proof fn law_storing_ignores_order_and_repetition(
    beneficiary_id: Seq<char>,
    a: Projection,
    b: Projection,
)
    requires
        same_projection(a, b),
    ensures
        snapshot_of(beneficiary_id, a) is Ok <==> snapshot_of(beneficiary_id, b) is Ok,
        snapshot_of(beneficiary_id, a) is Ok ==> snapshot_of(beneficiary_id, a) == snapshot_of(
            beneficiary_id,
            b,
        ),
{
    if let Projection::Complete { facts: x } = a {
        if let Projection::Complete { facts: y } = b {
            law_normalising_ignores_order_and_repetition(beneficiary_id, x, y);
        }
    }
}

/// Reading back a new revision gives the request that made it.
pub proof fn lemma_new_revision_reads_back(request: Request, revision: i64, snapshot: Snapshot)
    requires
        countable(request.projection),
        snapshot_of(request.beneficiary_id, request.projection) == Ok::<Snapshot, StoreFault>(
            snapshot,
        ),
    ensures
        ({
            let row = new_revision(request, revision, snapshot);
            &&& availability(row.status, row.unavailable_reason, row.fact_count) == Ok::<
                Option<UnavailableReason>,
                StoreFault,
            >(snapshot.unavailable_reason)
            &&& stored_operation(row) == Ok::<Operation, StoreFault>(
                Operation {
                    revision,
                    expected_revision: request.expected_revision,
                    evidence_reference: request.evidence_reference,
                    snapshot,
                },
            )
        }),
{
    if let Some(reason) = snapshot.unavailable_reason {
        law_reason_names_round_trip(reason, reason_name(reason));
    }
}

/// Whether a request is applied: accepted, and no repetition.
pub open spec fn publishes(tables: Tables, request: Request) -> bool {
    publication(tables, request) matches Ok(p) && p.receipt.outcome == PublicationOutcome::Applied
}

/// What the writes of an applied publication make of the tables.
pub proof fn lemma_published(tables: Tables, request: Request) -> (row: Revision)
    requires
        publishes(tables, request),
    ensures
        ({
            let p = publication(tables, request)->Ok_0;
            let after = applied_all(tables, p.writes);
            let snapshot = snapshot_of(request.beneficiary_id, request.projection);
            &&& snapshot is Ok
            &&& row == new_revision(request, p.receipt.revision, snapshot->Ok_0)
            &&& publication_of(tables, request.beneficiary_id, request.operation_id) is None
            &&& p.receipt.revision == next_revision(request.expected_revision)
            &&& revision_now(tables, request.beneficiary_id) == request.expected_revision
            &&& after.revisions == tables.revisions.push(row)
            &&& after.coordinators == tables.coordinators
            &&& after.sources == tables.sources
            &&& after.attempts == tables.attempts
            &&& head_of(after, request.beneficiary_id) == Some(
                Head {
                    beneficiary_id: request.beneficiary_id,
                    current_revision: Some(p.receipt.revision),
                },
            )
            &&& forall|b: Seq<char>|
                b != request.beneficiary_id ==> #[trigger] head_of(after, b) == head_of(tables, b)
        }),
{
    let p = publication(tables, request)->Ok_0;
    let snapshot = snapshot_of(request.beneficiary_id, request.projection)->Ok_0;
    assert(publication_of(tables, request.beneficiary_id, request.operation_id) is None);
    let revision = p.receipt.revision;
    let row = new_revision(request, revision, snapshot);
    let opening = head_writes(tables, request.beneficiary_id);
    let insert = Write::InsertRevision(row);
    let set = Write::SetHead { beneficiary_id: request.beneficiary_id, revision };
    let opened = applied_all(tables, opening);
    lemma_applied_concat(tables, opening, seq![insert, set]);
    lemma_applied_two(opened, insert, set);
    if head_of(tables, request.beneficiary_id) is None {
        lemma_applied_one(tables, Write::InsertHead { beneficiary_id: request.beneficiary_id });
    }
    lemma_found(tables.heads, head_for(request.beneficiary_id));
    assert(opened.revisions == tables.revisions);
    assert forall|b: Seq<char>| #[trigger] head_of(opened, b) == (if b == request.beneficiary_id
        && head_of(tables, b) is None {
        Some(Head { beneficiary_id: request.beneficiary_id, current_revision: None })
    } else {
        head_of(tables, b)
    }) by {
        lemma_head_after(tables, Write::InsertHead { beneficiary_id: request.beneficiary_id }, b);
    }
    let inserted = applied(opened, insert);
    let after = applied(inserted, set);
    assert(after == applied_all(tables, p.writes));
    assert forall|b: Seq<char>| #[trigger] head_of(after, b) == (match head_of(opened, b) {
        Some(head) => Some(
            if b == request.beneficiary_id {
                Head { current_revision: Some(revision), ..head }
            } else {
                head
            },
        ),
        None => None,
    }) by {
        lemma_head_after(opened, insert, b);
        lemma_head_after(inserted, set, b);
    }
    row
}

/// An applied publication is the revision after the current one, and becomes the current one.
pub proof fn law_publishing_advances_the_head(tables: Tables, request: Request)
    requires
        publishes(tables, request),
    ensures
        ({
            let p = publication(tables, request)->Ok_0;
            &&& revision_now(tables, request.beneficiary_id) == request.expected_revision
            &&& p.receipt.revision == next_revision(request.expected_revision)
            &&& revision_now(applied_all(tables, p.writes), request.beneficiary_id) == Some(
                p.receipt.revision,
            )
        }),
{
    lemma_published(tables, request);
}

/// The revision of an applied publication stays that of its operation, and the beneficiary keeps a
/// head with a revision, whatever is written later.
proof fn lemma_operation_stays(tables: Tables, request: Request, writes: Seq<Write>) -> (row:
    Revision)
    requires
        countable(request.projection),
        publishes(tables, request),
    ensures
        ({
            let p = publication(tables, request)->Ok_0;
            let after = applied_all(applied_all(tables, p.writes), writes);
            &&& publication_of(after, request.beneficiary_id, request.operation_id) == Some(row)
            &&& head_of(after, request.beneficiary_id) is Some
            &&& revision_now(after, request.beneficiary_id) is Some
            &&& requested(request) is Ok
            &&& stored_operation(row) == Ok::<Operation, StoreFault>(
                Operation {
                    revision: p.receipt.revision,
                    expected_revision: request.expected_revision,
                    evidence_reference: request.evidence_reference,
                    snapshot: requested(request)->Ok_0,
                },
            )
        }),
    decreases writes.len(),
{
    let p = publication(tables, request)->Ok_0;
    let wanted = published_by(request.beneficiary_id, request.operation_id);
    if writes.len() == 0 {
        let row = lemma_published(tables, request);
        lemma_search_push(tables.revisions, row, wanted);
        lemma_new_revision_reads_back(
            request,
            p.receipt.revision,
            snapshot_of(request.beneficiary_id, request.projection)->Ok_0,
        );
        row
    } else {
        let row = lemma_operation_stays(tables, request, writes.drop_last());
        let before = applied_all(applied_all(tables, p.writes), writes.drop_last());
        lemma_head_after(before, writes.last(), request.beneficiary_id);
        lemma_revision_after(before, writes.last(), wanted);
        row
    }
}

/// Repeating an applied request, with its facts in any order and repeated or not, is answered with
/// its revision and writes nothing, whatever was written in between: it is accepted although the
/// head has moved on, and does not move the head back.
pub proof fn law_repeating_a_publication_changes_nothing(
    tables: Tables,
    request: Request,
    writes: Seq<Write>,
    other: Request,
)
    requires
        countable(request.projection),
        publishes(tables, request),
        other == (Request { projection: other.projection, ..request }),
        same_projection(request.projection, other.projection),
    ensures
        ({
            let p = publication(tables, request)->Ok_0;
            let after = applied_all(applied_all(tables, p.writes), writes);
            publication(after, other) == Ok::<Publication, StoreFault>(
                Publication {
                    receipt: PublicationReceipt {
                        revision: p.receipt.revision,
                        outcome: PublicationOutcome::AlreadyApplied,
                    },
                    writes: Seq::empty(),
                },
            )
        }),
{
    lemma_operation_stays(tables, request, writes);
    law_storing_ignores_order_and_repetition(
        request.beneficiary_id,
        request.projection,
        other.projection,
    );
}

/// A repeated request stays answered with its own revision, whatever is written later: later
/// publications, registrations and collections of any beneficiary.
pub proof fn law_replays_survive_later_writes(
    tables: Tables,
    request: Request,
    writes: Seq<Write>,
)
    requires
        head_of(tables, request.beneficiary_id) is Some,
        publication(tables, request) matches Ok(p) && p.receipt.outcome
            == PublicationOutcome::AlreadyApplied,
    ensures
        publication(applied_all(tables, writes), request) == publication(tables, request),
        head_of(applied_all(tables, writes), request.beneficiary_id) is Some,
    decreases writes.len(),
{
    if writes.len() > 0 {
        law_replays_survive_later_writes(tables, request, writes.drop_last());
        let before = applied_all(tables, writes.drop_last());
        lemma_head_after(before, writes.last(), request.beneficiary_id);
        lemma_revision_after(
            before,
            writes.last(),
            published_by(request.beneficiary_id, request.operation_id),
        );
    }
}

/// A request that reuses an applied operation for anything else is refused, whatever was written in
/// between.
pub proof fn law_a_changed_request_conflicts(
    tables: Tables,
    request: Request,
    writes: Seq<Write>,
    other: Request,
)
    requires
        countable(request.projection),
        publishes(tables, request),
        other.beneficiary_id == request.beneficiary_id,
        other.operation_id == request.operation_id,
        requested(other) is Ok,
        other.expected_revision != request.expected_revision || other.evidence_reference
            != request.evidence_reference || requested(other) != requested(request),
    ensures
        ({
            let p = publication(tables, request)->Ok_0;
            let after = applied_all(applied_all(tables, p.writes), writes);
            publication(after, other) == Err::<Publication, StoreFault>(
                StoreFault::OperationConflict,
            )
        }),
{
    lemma_operation_stays(tables, request, writes);
}

/// Of two publishers that expect the same revision, the second is refused and told the revision
/// that the first published.
pub proof fn law_the_second_publisher_conflicts(tables: Tables, request: Request, other: Request)
    requires
        publishes(tables, request),
        publishes(tables, other),
        other.beneficiary_id == request.beneficiary_id,
        other.operation_id != request.operation_id,
    ensures
        publication(applied_all(tables, publication(tables, request)->Ok_0.writes), other) == Err::<
            Publication,
            StoreFault,
        >(
            StoreFault::RevisionConflict {
                expected: other.expected_revision,
                actual: Some(publication(tables, request)->Ok_0.receipt.revision),
            },
        ),
{
    let row = lemma_published(tables, request);
    lemma_search_push(
        tables.revisions,
        row,
        published_by(other.beneficiary_id, other.operation_id),
    );
}

/// What a publication of complete facts stores is what loading gives back, in canonical order. What
/// it says to be unavailable cannot be loaded, for the reason that was given.
pub proof fn law_loading_gives_back_what_was_published(tables: Tables, request: Request)
    requires
        countable(request.projection),
        publishes(tables, request),
        revision_of(
            tables,
            request.beneficiary_id,
            publication(tables, request)->Ok_0.receipt.revision,
        ) is None,
    ensures
        ({
            let p = publication(tables, request)->Ok_0;
            let after = applied_all(tables, p.writes);
            loaded(after, request.beneficiary_id) == match request.projection {
                Projection::Complete { facts } => Ok::<Loaded, StoreFault>(
                    Loaded {
                        revision: p.receipt.revision,
                        coverage: Coverage {
                            beneficiary_id: request.beneficiary_id,
                            facts: canonical(facts),
                        },
                    },
                ),
                Projection::Unavailable { reason } => Err(
                    StoreFault::ProjectionUnavailable(reason),
                ),
            }
        }),
{
    let p = publication(tables, request)->Ok_0;
    let row = lemma_published(tables, request);
    lemma_search_push(tables.revisions, row, numbered(request.beneficiary_id, p.receipt.revision));
    lemma_new_revision_reads_back(
        request,
        p.receipt.revision,
        snapshot_of(request.beneficiary_id, request.projection)->Ok_0,
    );
    match request.projection {
        Projection::Complete { facts } => {
            law_normalising_is_idempotent(request.beneficiary_id, facts);
        },
        Projection::Unavailable { .. } => {
            let nothing = Coverage {
                beneficiary_id: request.beneficiary_id,
                facts: Seq::empty(),
            };
            assert(fault(nothing) is None);
            lemma_arranged_is(nothing.facts, nothing.facts, fact_id());
        },
    }
}

/// A revision is never changed or removed: the revisions after any writes begin with those before.
pub proof fn law_revisions_are_immutable(tables: Tables, writes: Seq<Write>)
    ensures
        tables.revisions.is_prefix_of(applied_all(tables, writes).revisions),
    decreases writes.len(),
{
    if writes.len() > 0 {
        law_revisions_are_immutable(tables, writes.drop_last());
    }
}

/// Publishing for one beneficiary leaves what is stored and loaded of every other as it was.
pub proof fn law_publishing_leaves_others_alone(
    tables: Tables,
    request: Request,
    other: Seq<char>,
)
    requires
        other != request.beneficiary_id,
        publication(tables, request) is Ok,
    ensures
        ({
            let p = publication(tables, request)->Ok_0;
            let after = applied_all(tables, p.writes);
            &&& loaded(after, other) == loaded(tables, other)
            &&& revision_now(after, other) == revision_now(tables, other)
            &&& forall|op: Seq<char>| #[trigger]
                publication_of(after, other, op) == publication_of(tables, other, op)
        }),
{
    let p = publication(tables, request)->Ok_0;
    let after = applied_all(tables, p.writes);
    if p.receipt.outcome == PublicationOutcome::Applied {
        let row = lemma_published(tables, request);
        assert(head_of(after, other) == head_of(tables, other));
        assert forall|op: Seq<char>| #[trigger] publication_of(after, other, op) == publication_of(
            tables,
            other,
            op,
        ) by {
            lemma_search_push(tables.revisions, row, published_by(other, op));
        }
        assert forall|n: i64| #[trigger] revision_of(after, other, n) == revision_of(
            tables,
            other,
            n,
        ) by {
            lemma_search_push(tables.revisions, row, numbered(other, n));
        }
    } else {
        if head_of(tables, request.beneficiary_id) is None {
            let insert = Write::InsertHead { beneficiary_id: request.beneficiary_id };
            lemma_applied_one(tables, insert);
            lemma_head_after(tables, insert, other);
        }
        assert(after.revisions == tables.revisions);
        assert(head_of(after, other) == head_of(tables, other));
    }
}

} // verus!
