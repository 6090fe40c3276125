//! What registrations, collections and their completions make of the tables.

use crate::cloud_coverage_reconciliation::{
    Binding, CollectionStatus, Completion, Observation, Ticket,
};
use crate::cloud_coverage_store::{publication, revision_now, PublicationOutcome, Request};
use crate::collection_rules::collection;
use crate::coverage_lookups::{attempt_of, coordinator_of, head_of, registration_of};
use crate::coverage_tables::{
    advanced_to, applied, applied_all, completed, coordinator_for, pending_attempt, pending_of,
    recorded, running, source_with, started, stopped, superseded, Attempt, Coordinator, Source,
    Tables, Write,
};
use crate::reconciliation_rules::{
    beginning, completion, completion_request, coordinator_writes, generation_now, registration,
    registration_applied, registration_request, source_set, stored_ticket, superseding_writes,
};
use crate::rows::{first_match, lemma_found, lemma_search_push, lemma_search_updated, updated};
use crate::store_laws::{
    lemma_applied_concat, lemma_applied_one, lemma_applied_two, lemma_published,
};
use vstd::prelude::*;

verus! {

/// A coordinator that has neither sources nor collections.
pub open spec fn idle(beneficiary_id: Seq<char>) -> Coordinator {
    Coordinator {
        beneficiary_id,
        source_set_generation: 0,
        collection_epoch: 0,
        current_attempt_id: None,
    }
}

/// What one write does to the coordinator of a beneficiary.
pub proof fn lemma_coordinator_after(tables: Tables, write: Write, beneficiary_id: Seq<char>)
    ensures
        coordinator_of(applied(tables, write), beneficiary_id) == match write {
            Write::InsertCoordinator { beneficiary_id: b } => match coordinator_of(
                tables,
                beneficiary_id,
            ) {
                Some(coordinator) => Some(coordinator),
                None => if b == beneficiary_id {
                    Some(idle(b))
                } else {
                    None
                },
            },
            Write::AdvanceGeneration { beneficiary_id: b, source_set_generation } =>
                match coordinator_of(tables, beneficiary_id) {
                Some(coordinator) => Some(
                    if b == beneficiary_id {
                        Coordinator {
                            source_set_generation,
                            current_attempt_id: None,
                            ..coordinator
                        }
                    } else {
                        coordinator
                    },
                ),
                None => None,
            },
            Write::StartCollection { beneficiary_id: b, collection_epoch, attempt_id } =>
                match coordinator_of(tables, beneficiary_id) {
                Some(coordinator) => Some(
                    if b == beneficiary_id {
                        Coordinator {
                            collection_epoch,
                            current_attempt_id: Some(attempt_id),
                            ..coordinator
                        }
                    } else {
                        coordinator
                    },
                ),
                None => None,
            },
            Write::ClearCurrentAttempt { beneficiary_id: b, attempt_id } => match coordinator_of(
                tables,
                beneficiary_id,
            ) {
                Some(coordinator) => Some(
                    if b == beneficiary_id && coordinator.current_attempt_id == Some(attempt_id) {
                        Coordinator { current_attempt_id: None, ..coordinator }
                    } else {
                        coordinator
                    },
                ),
                None => None,
            },
            _ => coordinator_of(tables, beneficiary_id),
        },
{
    let wanted = coordinator_for(beneficiary_id);
    lemma_found(tables.coordinators, wanted);
    match write {
        Write::InsertCoordinator { beneficiary_id: b } => {
            lemma_search_push(tables.coordinators, idle(b), wanted);
        },
        Write::AdvanceGeneration { beneficiary_id: b, source_set_generation } => {
            lemma_search_updated(
                tables.coordinators,
                coordinator_for(b),
                advanced_to(source_set_generation),
                wanted,
            );
        },
        Write::StartCollection { beneficiary_id: b, collection_epoch, attempt_id } => {
            lemma_search_updated(
                tables.coordinators,
                coordinator_for(b),
                started(collection_epoch, attempt_id),
                wanted,
            );
        },
        Write::ClearCurrentAttempt { beneficiary_id: b, attempt_id } => {
            lemma_search_updated(tables.coordinators, running(b, attempt_id), stopped(), wanted);
        },
        _ => {},
    }
}

/// A publication reads and writes heads and revisions alone.
pub proof fn lemma_publication_reads_projections(a: Tables, b: Tables, request: Request)
    requires
        a.heads == b.heads,
        a.revisions == b.revisions,
    ensures
        publication(a, request) == publication(b, request),
{
}

/// What the writes of an accepted publication leave alone.
pub proof fn lemma_publication_writes(tables: Tables, request: Request)
    requires
        publication(tables, request) is Ok,
    ensures
        ({
            let p = publication(tables, request)->Ok_0;
            let after = applied_all(tables, p.writes);
            &&& after.coordinators == tables.coordinators
            &&& after.sources == tables.sources
            &&& after.attempts == tables.attempts
            &&& p.receipt.outcome == PublicationOutcome::AlreadyApplied && head_of(
                tables,
                request.beneficiary_id,
            ) is Some ==> after == tables
        }),
{
    let p = publication(tables, request)->Ok_0;
    if p.receipt.outcome == PublicationOutcome::Applied {
        let row = lemma_published(tables, request);
    } else if head_of(tables, request.beneficiary_id) is None {
        lemma_applied_one(tables, Write::InsertHead { beneficiary_id: request.beneficiary_id });
    }
}

/// The source that a registration adds.
pub open spec fn registered_source(
    operation_id: Seq<char>,
    binding: Binding,
    generation: i64,
    revision: i64,
) -> Source {
    Source {
        binding,
        registration_operation_id: operation_id,
        registration_source_set_generation: generation,
        registration_projection_revision: Some(revision),
    }
}

/// Whether a registration is answered with a new source.
pub open spec fn registers(tables: Tables, operation_id: Seq<char>, binding: Binding) -> bool {
    &&& registration(tables, operation_id, binding) is Ok
    &&& registration_of(tables, binding.beneficiary_id, operation_id) is None
}

/// What an accepted registration of a new source makes of the tables.
pub proof fn lemma_registered(tables: Tables, operation_id: Seq<char>, binding: Binding)
    requires
        registers(tables, operation_id, binding),
    ensures
        ({
            let b = binding.beneficiary_id;
            let answer = registration(tables, operation_id, binding)->Ok_0;
            let after = applied_all(tables, answer.writes);
            let request = registration_request(tables, operation_id, binding);
            let published = publication(tables, request);
            let generation = (generation_now(tables, b) + 1) as i64;
            &&& published is Ok
            &&& generation == generation_now(tables, b) + 1
            &&& answer.receipt.source_set_generation == generation
            &&& answer.receipt.projection_revision == Some(published->Ok_0.receipt.revision)
            &&& after.heads == applied_all(tables, published->Ok_0.writes).heads
            &&& after.revisions == applied_all(tables, published->Ok_0.writes).revisions
            &&& after.sources == tables.sources.push(
                registered_source(
                    operation_id,
                    binding,
                    generation,
                    published->Ok_0.receipt.revision,
                ),
            )
            &&& after.attempts == updated(tables.attempts, pending_of(b), superseded())
            &&& coordinator_of(after, b) == Some(
                Coordinator {
                    beneficiary_id: b,
                    source_set_generation: generation,
                    collection_epoch: match coordinator_of(tables, b) {
                        Some(coordinator) => coordinator.collection_epoch,
                        None => 0,
                    },
                    current_attempt_id: None,
                },
            )
            &&& forall|other: Seq<char>|
                other != b ==> #[trigger] coordinator_of(after, other) == coordinator_of(
                    tables,
                    other,
                )
        }),
{
    let b = binding.beneficiary_id;
    let answer = registration(tables, operation_id, binding)->Ok_0;
    let request = registration_request(tables, operation_id, binding);
    let generation = (generation_now(tables, b) + 1) as i64;
    assert(registration_applied(tables, operation_id, binding, generation) is Ok);
    let published = publication(tables, request)->Ok_0;
    let revision = published.receipt.revision;
    let row = Source {
        binding,
        registration_operation_id: operation_id,
        registration_source_set_generation: generation,
        registration_projection_revision: None,
    };
    let opening = coordinator_writes(tables, b);
    let w1 = Write::InsertSource(row);
    let w2 = Write::SupersedePending { beneficiary_id: b };
    let w3 = Write::AdvanceGeneration { beneficiary_id: b, source_set_generation: generation };
    let w4 = Write::RecordRegistration {
        source_id: binding.source_id,
        projection_revision: revision,
    };
    let t0 = applied_all(tables, opening);
    let t1 = applied(t0, w1);
    let t2 = applied(t1, w2);
    let t3 = applied(t2, w3);
    let t4 = applied_all(t3, published.writes);
    let t5 = applied(t4, w4);
    assert(seq![w1, w2, w3] =~= seq![w1, w2] + seq![w3]);
    lemma_applied_concat(t0, seq![w1, w2], seq![w3]);
    lemma_applied_two(t0, w1, w2);
    lemma_applied_one(t2, w3);
    lemma_applied_concat(tables, opening, seq![w1, w2, w3]);
    lemma_applied_concat(tables, opening + seq![w1, w2, w3], published.writes);
    lemma_applied_concat(tables, opening + seq![w1, w2, w3] + published.writes, seq![w4]);
    lemma_applied_one(t4, w4);
    assert(applied_all(tables, answer.writes) == t5);
    if coordinator_of(tables, b) is None {
        lemma_applied_one(tables, Write::InsertCoordinator { beneficiary_id: b });
    }
    lemma_publication_reads_projections(t3, tables, request);
    lemma_publication_writes(t3, request);
    lemma_projections_alone(t3, tables, published.writes);
    assert(t5.attempts == updated(tables.attempts, pending_of(b), superseded()));
    lemma_recorded(tables.sources, row, revision);
    assert forall|x: Seq<char>| #[trigger] coordinator_of(t5, x) == (match coordinator_of(t0, x) {
        Some(coordinator) => Some(
            if x == b {
                Coordinator {
                    source_set_generation: generation,
                    current_attempt_id: None,
                    ..coordinator
                }
            } else {
                coordinator
            },
        ),
        None => None,
    }) by {
        lemma_coordinator_after(t2, w3, x);
    }
    assert forall|x: Seq<char>| #[trigger] coordinator_of(t0, x) == (if x == b && coordinator_of(
        tables,
        x,
    ) is None {
        Some(idle(b))
    } else {
        coordinator_of(tables, x)
    }) by {
        lemma_coordinator_after(tables, Write::InsertCoordinator { beneficiary_id: b }, x);
    }
    lemma_found(tables.coordinators, coordinator_for(b));
    assert(coordinator_of(t5, b) is Some);
}

/// What the writes of a publication make of the projections depends on the projections alone.
proof fn lemma_projections_alone(a: Tables, b: Tables, writes: Seq<Write>)
    requires
        a.heads == b.heads,
        a.revisions == b.revisions,
    ensures
        applied_all(a, writes).heads == applied_all(b, writes).heads,
        applied_all(a, writes).revisions == applied_all(b, writes).revisions,
    decreases writes.len(),
{
    if writes.len() > 0 {
        lemma_projections_alone(a, b, writes.drop_last());
    }
}

/// Noting the revision of a new source changes that source alone.
proof fn lemma_recorded(sources: Seq<Source>, row: Source, revision: i64)
    requires
        first_match(sources, source_with(row.binding.source_id)) is None,
    ensures
        updated(sources.push(row), source_with(row.binding.source_id), recorded(revision))
            == sources.push(Source { registration_projection_revision: Some(revision), ..row }),
{
    let wanted = source_with(row.binding.source_id);
    let after = updated(sources.push(row), wanted, recorded(revision));
    lemma_found(sources, wanted);
    assert forall|k: int| 0 <= k < sources.len() implies after[k] == sources[k] by {
        assert(sources.contains(sources[k]));
        assert(sources.push(row)[k] == sources[k]);
    }
    assert(after =~= sources.push(
        Source { registration_projection_revision: Some(revision), ..row },
    ));
}

/// Whether the beginning of a collection is answered with a new attempt.
pub open spec fn begins(tables: Tables, beneficiary_id: Seq<char>, attempt_id: Seq<char>) -> bool {
    &&& beginning(tables, beneficiary_id, attempt_id) is Ok
    &&& attempt_of(tables, beneficiary_id, attempt_id) is None
}

/// The attempt that a beginning adds.
pub open spec fn begun_attempt(ticket: Ticket) -> Attempt {
    Attempt {
        beneficiary_id: ticket.beneficiary_id,
        attempt_id: ticket.attempt_id,
        collection_epoch: ticket.collection_epoch,
        source_set_generation: ticket.source_set_generation,
        expected_projection_revision: ticket.expected_projection_revision,
        source_bindings: Ok(ticket.source_bindings),
        status: "pending"@,
        aggregate_evidence_reference: None,
        canonical_result: None,
        projection_revision: None,
    }
}

/// The attempts after the current one of a coordinator is superseded.
pub open spec fn without_current(attempts: Seq<Attempt>, coordinator: Coordinator) -> Seq<Attempt> {
    match coordinator.current_attempt_id {
        Some(attempt_id) => updated(
            attempts,
            pending_attempt(coordinator.beneficiary_id, attempt_id),
            superseded(),
        ),
        None => attempts,
    }
}

/// What the beginning of a new attempt makes of the tables.
pub proof fn lemma_begun(tables: Tables, beneficiary_id: Seq<char>, attempt_id: Seq<char>)
    requires
        begins(tables, beneficiary_id, attempt_id),
    ensures
        ({
            let b = beneficiary_id;
            let answer = beginning(tables, b, attempt_id)->Ok_0;
            let ticket = answer.receipt;
            let after = applied_all(tables, answer.writes);
            &&& coordinator_of(tables, b) matches Some(coordinator)
            &&& coordinator.beneficiary_id == b
            &&& ticket.collection_epoch == coordinator.collection_epoch + 1
            &&& ticket.source_set_generation == coordinator.source_set_generation
            &&& ticket.status == CollectionStatus::Pending
            &&& ticket.beneficiary_id == b
            &&& ticket.attempt_id == attempt_id
            &&& ticket.source_bindings == source_set(tables, b, None)
            &&& ticket.expected_projection_revision == revision_now(tables, b)
            &&& ticket.completed_revision is None
            &&& after.heads == tables.heads
            &&& after.revisions == tables.revisions
            &&& after.sources == tables.sources
            &&& after.attempts == without_current(tables.attempts, coordinator).push(
                begun_attempt(ticket),
            )
            &&& coordinator_of(after, b) == Some(
                Coordinator {
                    collection_epoch: ticket.collection_epoch,
                    current_attempt_id: Some(attempt_id),
                    ..coordinator
                },
            )
            &&& forall|other: Seq<char>|
                other != b ==> #[trigger] coordinator_of(after, other) == coordinator_of(
                    tables,
                    other,
                )
        }),
{
    let b = beneficiary_id;
    let answer = beginning(tables, b, attempt_id)->Ok_0;
    let ticket = answer.receipt;
    let coordinator = coordinator_of(tables, b)->0;
    lemma_found(tables.coordinators, coordinator_for(b));
    let opening = superseding_writes(coordinator, b);
    let w1 = Write::InsertAttempt(begun_attempt(ticket));
    let w2 = Write::StartCollection {
        beneficiary_id: b,
        collection_epoch: ticket.collection_epoch,
        attempt_id,
    };
    let t0 = applied_all(tables, opening);
    lemma_applied_concat(tables, opening, seq![w1, w2]);
    lemma_applied_two(t0, w1, w2);
    if let Some(previous) = coordinator.current_attempt_id {
        lemma_applied_one(
            tables,
            Write::SupersedeAttempt { beneficiary_id: b, attempt_id: previous },
        );
    }
    let t1 = applied(t0, w1);
    let after = applied(t1, w2);
    assert(after == applied_all(tables, answer.writes));
    assert forall|x: Seq<char>| #[trigger] coordinator_of(after, x) == (match coordinator_of(
        tables,
        x,
    ) {
        Some(c) => Some(
            if x == b {
                Coordinator {
                    collection_epoch: ticket.collection_epoch,
                    current_attempt_id: Some(attempt_id),
                    ..c
                }
            } else {
                c
            },
        ),
        None => None,
    }) by {
        lemma_coordinator_after(t1, w2, x);
    }
}

/// Whether the completion of a collection is answered with a publication.
pub open spec fn completes(
    tables: Tables,
    ticket: Ticket,
    aggregate_evidence_reference: Seq<char>,
    observations: Seq<Observation>,
) -> bool {
    &&& completion(tables, ticket, aggregate_evidence_reference, observations) is Ok
    &&& attempt_of(tables, ticket.beneficiary_id, ticket.attempt_id) matches Some(row)
    &&& row.status == "pending"@
}

/// What the completion of a pending attempt makes of the tables.
pub proof fn lemma_completed(
    tables: Tables,
    ticket: Ticket,
    aggregate_evidence_reference: Seq<char>,
    observations: Seq<Observation>,
)
    requires
        completes(tables, ticket, aggregate_evidence_reference, observations),
    ensures
        ({
            let b = ticket.beneficiary_id;
            let answer = completion(
                tables,
                ticket,
                aggregate_evidence_reference,
                observations,
            )->Ok_0;
            let after = applied_all(tables, answer.writes);
            let collected = collection(
                b,
                ticket.source_bindings,
                observations,
                aggregate_evidence_reference,
            );
            let request = completion_request(
                ticket,
                aggregate_evidence_reference,
                collected->Ok_0.1,
            );
            let published = publication(tables, request);
            &&& collected is Ok
            &&& published is Ok
            &&& answer.receipt == (Completion {
                attempt_id: ticket.attempt_id,
                revision: published->Ok_0.receipt.revision,
                outcome: published->Ok_0.receipt.outcome,
            })
            &&& revision_now(tables, b) == ticket.expected_projection_revision
            &&& coordinator_of(tables, b) matches Some(coordinator)
            &&& coordinator.current_attempt_id == Some(ticket.attempt_id)
            &&& coordinator.source_set_generation == ticket.source_set_generation
            &&& coordinator.collection_epoch == ticket.collection_epoch
            &&& after.heads == applied_all(tables, published->Ok_0.writes).heads
            &&& after.revisions == applied_all(tables, published->Ok_0.writes).revisions
            &&& after.sources == tables.sources
            &&& after.attempts == updated(
                tables.attempts,
                pending_attempt(b, ticket.attempt_id),
                completed(collected->Ok_0.0, published->Ok_0.receipt.revision),
            )
            &&& coordinator_of(after, b) == Some(
                Coordinator { current_attempt_id: None, ..coordinator },
            )
            &&& forall|other: Seq<char>|
                other != b ==> #[trigger] coordinator_of(after, other) == coordinator_of(
                    tables,
                    other,
                )
        }),
{
    let b = ticket.beneficiary_id;
    let row = attempt_of(tables, b, ticket.attempt_id)->0;
    let stored = stored_ticket(tables, row)->Ok_0;
    assert(stored.status == CollectionStatus::Pending);
    let answer = completion(tables, ticket, aggregate_evidence_reference, observations)->Ok_0;
    let collected = collection(
        b,
        ticket.source_bindings,
        observations,
        aggregate_evidence_reference,
    );
    assert(collected is Ok);
    let request = completion_request(ticket, aggregate_evidence_reference, collected->Ok_0.1);
    let published = publication(tables, request)->Ok_0;
    let w1 = Write::CompleteAttempt {
        beneficiary_id: b,
        attempt_id: ticket.attempt_id,
        canonical_result: collected->Ok_0.0,
        projection_revision: published.receipt.revision,
    };
    let w2 = Write::ClearCurrentAttempt { beneficiary_id: b, attempt_id: ticket.attempt_id };
    let t0 = applied_all(tables, published.writes);
    lemma_applied_concat(tables, published.writes, seq![w1, w2]);
    lemma_applied_two(t0, w1, w2);
    lemma_publication_writes(tables, request);
    let t1 = applied(t0, w1);
    let after = applied(t1, w2);
    assert(after == applied_all(tables, answer.writes));
    assert forall|x: Seq<char>| #[trigger] coordinator_of(after, x) == (match coordinator_of(
        tables,
        x,
    ) {
        Some(c) => Some(
            if x == b && c.current_attempt_id == Some(ticket.attempt_id) {
                Coordinator { current_attempt_id: None, ..c }
            } else {
                c
            },
        ),
        None => None,
    }) by {
        lemma_coordinator_after(t1, w2, x);
    }
}

} // verus!
