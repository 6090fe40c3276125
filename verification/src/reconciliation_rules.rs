//! How registrations, collections and their completions are answered.

use crate::cloud_coverage_reconciliation::{
    status_named, Binding, Collected, CollectionStatus, Completion, CorruptAttemptReason,
    Observation, ReconciliationFault, Registration, RegistrationOutcome, Ticket,
};
use crate::cloud_coverage_store::{
    publication, revision_now, Projection, PublicationOutcome, Request, StoreFault,
    UnavailableReason,
};
use crate::collection_rules::collection;
use crate::coverage_lookups::{attempt_of, claiming, coordinator_of, registration_of};
use crate::coverage_tables::{source_with, Attempt, Coordinator, Source, Tables, Write};
use crate::rows::first_match;
use crate::text::{before, blank};
use vstd::prelude::*;

verus! {

/// An accepted request: what it answers and what it writes.
pub struct Answer<T> {
    pub receipt: T,
    pub writes: Seq<Write>,
}

/// Which sources of a beneficiary were registered, up to a generation if one is given.
pub open spec fn registered_until(beneficiary_id: Seq<char>, generation: Option<i64>) -> spec_fn(
    Source,
) -> bool {
    |row: Source|
        row.binding.beneficiary_id == beneficiary_id && match generation {
            Some(last) => 1 <= row.registration_source_set_generation <= last,
            None => true,
        }
}

/// Where a source belongs in a list of bindings: behind all but those at the end that come after
/// it.
pub open spec fn place(list: Seq<Binding>, source_id: Seq<char>) -> int
    decreases list.len(),
{
    if list.len() == 0 {
        0
    } else if before(source_id, list.last().source_id) {
        place(list.drop_last(), source_id)
    } else {
        list.len() as int
    }
}

/// The bindings of the wanted sources, each put in its place.
pub open spec fn bindings_in_order(rows: Seq<Source>, wanted: spec_fn(Source) -> bool) -> Seq<
    Binding,
>
    decreases rows.len(),
{
    if rows.len() == 0 {
        Seq::empty()
    } else {
        let earlier = bindings_in_order(rows.drop_last(), wanted);
        let row = rows.last();
        if wanted(row) {
            earlier.insert(place(earlier, row.binding.source_id), row.binding)
        } else {
            earlier
        }
    }
}

/// The source set of a beneficiary as of a generation, or now.
pub open spec fn source_set(
    tables: Tables,
    beneficiary_id: Seq<char>,
    generation: Option<i64>,
) -> Seq<Binding> {
    bindings_in_order(tables.sources, registered_until(beneficiary_id, generation))
}

/// What is refused of a blank value with a name.
pub open spec fn must_not_be_empty(name: Seq<char>) -> ReconciliationFault {
    ReconciliationFault::InvalidSource(name + " must not be empty"@)
}

/// What is wrong with a binding, if anything.
pub open spec fn binding_fault(binding: Binding) -> Option<ReconciliationFault> {
    if blank(binding.beneficiary_id) {
        Some(must_not_be_empty("beneficiary_id"@))
    } else if blank(binding.source_id) {
        Some(must_not_be_empty("source_id"@))
    } else if blank(binding.provider_namespace) {
        Some(must_not_be_empty("provider_namespace"@))
    } else if blank(binding.external_allocation_reference) {
        Some(must_not_be_empty("external_allocation_reference"@))
    } else if blank(binding.ownership_evidence_reference) {
        Some(must_not_be_empty("ownership_evidence_reference"@))
    } else {
        None
    }
}

/// The source-set generation of a beneficiary: zero before the first registration.
pub open spec fn generation_now(tables: Tables, beneficiary_id: Seq<char>) -> i64 {
    match coordinator_of(tables, beneficiary_id) {
        Some(coordinator) => coordinator.source_set_generation,
        None => 0,
    }
}

/// What makes a coordinator where there is none yet.
pub open spec fn coordinator_writes(tables: Tables, beneficiary_id: Seq<char>) -> Seq<Write> {
    match coordinator_of(tables, beneficiary_id) {
        Some(_) => Seq::empty(),
        None => seq![Write::InsertCoordinator { beneficiary_id }],
    }
}

/// What a registration publishes: completeness is lost until the next collection.
pub open spec fn incomplete() -> Projection {
    Projection::Unavailable { reason: UnavailableReason::NeedsReconciliation }
}

/// What a publication says of the registration that made it.
pub open spec fn registration_outcome(outcome: PublicationOutcome) -> RegistrationOutcome {
    match outcome {
        PublicationOutcome::Applied => RegistrationOutcome::Applied,
        PublicationOutcome::AlreadyApplied => RegistrationOutcome::AlreadyApplied,
    }
}

/// How a source registration is answered.
pub open spec fn registration(tables: Tables, operation_id: Seq<char>, binding: Binding) -> Result<
    Answer<Registration>,
    ReconciliationFault,
> {
    let beneficiary_id = binding.beneficiary_id;
    let generation = generation_now(tables, beneficiary_id);
    if blank(operation_id) {
        Err(ReconciliationFault::EmptyOperationId)
    } else if binding_fault(binding) is Some {
        Err(binding_fault(binding)->0)
    } else if generation == 0 && revision_now(tables, beneficiary_id) is Some {
        Err(ReconciliationFault::BootstrapConflict)
    } else {
        match registration_of(tables, beneficiary_id, operation_id) {
            Some(row) => registration_replayed(tables, row, binding),
            None => if first_match(tables.sources, source_with(binding.source_id)) is Some
                || first_match(
                tables.sources,
                claiming(binding.provider_namespace, binding.external_allocation_reference),
            ) is Some {
                Err(ReconciliationFault::SourceBindingConflict)
            } else if generation == i64::MAX {
                Err(ReconciliationFault::GenerationOverflow)
            } else {
                registration_applied(tables, operation_id, binding, (generation + 1) as i64)
            },
        }
    }
}

/// How a registration is answered whose operation has already made the source `row`.
pub open spec fn registration_replayed(tables: Tables, row: Source, binding: Binding) -> Result<
    Answer<Registration>,
    ReconciliationFault,
> {
    if row.binding != binding {
        Err(ReconciliationFault::RegistrationConflict)
    } else if row.registration_projection_revision is None {
        Err(ReconciliationFault::CorruptRegistration)
    } else {
        Ok(
            Answer {
                receipt: Registration {
                    source_id: row.binding.source_id,
                    source_set_generation: row.registration_source_set_generation,
                    projection_revision: row.registration_projection_revision,
                    outcome: RegistrationOutcome::AlreadyApplied,
                },
                writes: coordinator_writes(tables, binding.beneficiary_id),
            },
        )
    }
}

/// The publication operation of a registration.
pub open spec fn registration_publication(operation_id: Seq<char>) -> Seq<char> {
    "source-registration:"@ + operation_id
}

/// The publication operation of a collection.
pub open spec fn collection_publication(attempt_id: Seq<char>) -> Seq<char> {
    "collection:"@ + attempt_id
}

/// What a registration asks to publish.
pub open spec fn registration_request(
    tables: Tables,
    operation_id: Seq<char>,
    binding: Binding,
) -> Request {
    Request {
        beneficiary_id: binding.beneficiary_id,
        expected_revision: revision_now(tables, binding.beneficiary_id),
        operation_id: registration_publication(operation_id),
        evidence_reference: binding.ownership_evidence_reference,
        projection: incomplete(),
    }
}

/// How a registration is answered that adds a source in a generation.
pub open spec fn registration_applied(
    tables: Tables,
    operation_id: Seq<char>,
    binding: Binding,
    generation: i64,
) -> Result<Answer<Registration>, ReconciliationFault> {
    let beneficiary_id = binding.beneficiary_id;
    match publication(tables, registration_request(tables, operation_id, binding)) {
        Err(f) => Err(ReconciliationFault::Store(f)),
        Ok(published) => Ok(
            Answer {
                receipt: Registration {
                    source_id: binding.source_id,
                    source_set_generation: generation,
                    projection_revision: Some(published.receipt.revision),
                    outcome: registration_outcome(published.receipt.outcome),
                },
                writes: coordinator_writes(tables, beneficiary_id) + seq![
                    Write::InsertSource(
                        Source {
                            binding,
                            registration_operation_id: operation_id,
                            registration_source_set_generation: generation,
                            registration_projection_revision: None,
                        },
                    ),
                    Write::SupersedePending { beneficiary_id },
                    Write::AdvanceGeneration { beneficiary_id, source_set_generation: generation },
                ] + published.writes + seq![
                    Write::RecordRegistration {
                        source_id: binding.source_id,
                        projection_revision: published.receipt.revision,
                    },
                ],
            },
        ),
    }
}

/// Whether the stored result of a completed attempt is what its own sources combine to.
pub open spec fn result_is_canonical(row: Attempt, bindings: Seq<Binding>) -> bool {
    &&& row.projection_revision is Some
    &&& row.aggregate_evidence_reference matches Some(evidence)
    &&& row.canonical_result matches Some(result)
    &&& result.aggregate_evidence_reference == evidence
    &&& collection(row.beneficiary_id, bindings, result.sources, evidence) matches Ok((again, _))
    &&& again == result
}

/// The ticket that a stored attempt stands for, or why the attempt cannot be trusted.
pub open spec fn stored_ticket(tables: Tables, row: Attempt) -> Result<
    Ticket,
    ReconciliationFault,
> {
    let registered = source_set(tables, row.beneficiary_id, Some(row.source_set_generation));
    match status_named(row.status) {
        None => Err(ReconciliationFault::CollectionConflict),
        Some(status) => match row.source_bindings {
            Err(detail) => Err(ReconciliationFault::Serialization(detail)),
            Ok(bindings) => if bindings.len() == 0 {
                Err(ReconciliationFault::CorruptAttempt(CorruptAttemptReason::BindingShape))
            } else if bindings != registered || registered.len() != row.source_set_generation {
                Err(ReconciliationFault::CorruptAttempt(CorruptAttemptReason::BindingSourceSet))
            } else if status == CollectionStatus::Completed && !result_is_canonical(row, bindings) {
                Err(ReconciliationFault::CorruptAttempt(CorruptAttemptReason::ResultCanonical))
            } else {
                Ok(
                    Ticket {
                        beneficiary_id: row.beneficiary_id,
                        attempt_id: row.attempt_id,
                        collection_epoch: row.collection_epoch,
                        source_set_generation: row.source_set_generation,
                        expected_projection_revision: row.expected_projection_revision,
                        source_bindings: bindings,
                        status,
                        completed_revision: row.projection_revision,
                    },
                )
            },
        },
    }
}

/// What supersedes the current attempt of a coordinator.
pub open spec fn superseding_writes(
    coordinator: Coordinator,
    beneficiary_id: Seq<char>,
) -> Seq<Write> {
    match coordinator.current_attempt_id {
        Some(attempt_id) => seq![Write::SupersedeAttempt { beneficiary_id, attempt_id }],
        None => Seq::empty(),
    }
}

/// How the beginning of a collection is answered.
pub open spec fn beginning(
    tables: Tables,
    beneficiary_id: Seq<char>,
    attempt_id: Seq<char>,
) -> Result<Answer<Ticket>, ReconciliationFault> {
    if blank(beneficiary_id) {
        Err(must_not_be_empty("beneficiary_id"@))
    } else if blank(attempt_id) {
        Err(ReconciliationFault::EmptyAttemptId)
    } else {
        match coordinator_of(tables, beneficiary_id) {
            None => Err(ReconciliationFault::NoSources),
            Some(coordinator) => match attempt_of(tables, beneficiary_id, attempt_id) {
                Some(row) => match stored_ticket(tables, row) {
                    Err(f) => Err(f),
                    Ok(ticket) => Ok(Answer { receipt: ticket, writes: Seq::empty() }),
                },
                None => if source_set(tables, beneficiary_id, None).len() == 0
                    || coordinator.source_set_generation == 0 {
                    Err(ReconciliationFault::NoSources)
                } else if coordinator.collection_epoch == i64::MAX {
                    Err(ReconciliationFault::EpochOverflow)
                } else {
                    Ok(beginning_applied(tables, beneficiary_id, attempt_id, coordinator))
                },
            },
        }
    }
}

/// How the beginning of a collection is answered that makes a new attempt.
pub open spec fn beginning_applied(
    tables: Tables,
    beneficiary_id: Seq<char>,
    attempt_id: Seq<char>,
    coordinator: Coordinator,
) -> Answer<Ticket> {
    let collection_epoch = (coordinator.collection_epoch + 1) as i64;
    let source_bindings = source_set(tables, beneficiary_id, None);
    let expected_projection_revision = revision_now(tables, beneficiary_id);
    Answer {
        receipt: Ticket {
            beneficiary_id,
            attempt_id,
            collection_epoch,
            source_set_generation: coordinator.source_set_generation,
            expected_projection_revision,
            source_bindings,
            status: CollectionStatus::Pending,
            completed_revision: None,
        },
        writes: superseding_writes(coordinator, beneficiary_id) + seq![
            Write::InsertAttempt(
                Attempt {
                    beneficiary_id,
                    attempt_id,
                    collection_epoch,
                    source_set_generation: coordinator.source_set_generation,
                    expected_projection_revision,
                    source_bindings: Ok(source_bindings),
                    status: "pending"@,
                    aggregate_evidence_reference: None,
                    canonical_result: None,
                    projection_revision: None,
                },
            ),
            Write::StartCollection { beneficiary_id, collection_epoch, attempt_id },
        ],
    }
}

/// Whether a ticket is of the same collection as the stored one.
pub open spec fn same_collection(ticket: Ticket, stored: Ticket) -> bool {
    &&& ticket.beneficiary_id == stored.beneficiary_id
    &&& ticket.collection_epoch == stored.collection_epoch
    &&& ticket.source_set_generation == stored.source_set_generation
    &&& ticket.expected_projection_revision == stored.expected_projection_revision
    &&& ticket.source_bindings == stored.source_bindings
}

/// How the completion of a collection is answered.
pub open spec fn completion(
    tables: Tables,
    ticket: Ticket,
    aggregate_evidence_reference: Seq<char>,
    observations: Seq<Observation>,
) -> Result<Answer<Completion>, ReconciliationFault> {
    if blank(ticket.beneficiary_id) {
        Err(must_not_be_empty("beneficiary_id"@))
    } else if blank(ticket.attempt_id) {
        Err(ReconciliationFault::EmptyAttemptId)
    } else if blank(aggregate_evidence_reference) {
        Err(must_not_be_empty("aggregate_evidence_reference"@))
    } else {
        match coordinator_of(tables, ticket.beneficiary_id) {
            None => Err(ReconciliationFault::NoSources),
            Some(coordinator) => match attempt_of(
                tables,
                ticket.beneficiary_id,
                ticket.attempt_id,
            ) {
                None => Err(ReconciliationFault::AttemptMissing),
                Some(row) => match stored_ticket(tables, row) {
                    Err(f) => Err(f),
                    Ok(stored) => if !same_collection(ticket, stored) {
                        Err(ReconciliationFault::CollectionConflict)
                    } else {
                        let answer = collection(
                            ticket.beneficiary_id,
                            ticket.source_bindings,
                            observations,
                            aggregate_evidence_reference,
                        );
                        match stored.status {
                            CollectionStatus::Completed => completion_replayed(
                                row,
                                answer,
                                aggregate_evidence_reference,
                            ),
                            CollectionStatus::Superseded => match answer {
                                Err(f) => Err(f),
                                Ok(_) => Err(ReconciliationFault::AttemptSuperseded),
                            },
                            CollectionStatus::Pending => match answer {
                                Err(f) => Err(f),
                                Ok((result, projection)) => completion_applied(
                                    tables,
                                    coordinator,
                                    ticket,
                                    aggregate_evidence_reference,
                                    result,
                                    projection,
                                ),
                            },
                        }
                    },
                },
            },
        }
    }
}

/// How the completion of a completed attempt is answered.
pub open spec fn completion_replayed(
    row: Attempt,
    answer: Result<(Collected, Projection), ReconciliationFault>,
    aggregate_evidence_reference: Seq<char>,
) -> Result<Answer<Completion>, ReconciliationFault> {
    if answer matches Ok((result, _)) && row.aggregate_evidence_reference == Some(
        aggregate_evidence_reference,
    ) && row.canonical_result == Some(result) && row.projection_revision is Some {
        Ok(
            Answer {
                receipt: Completion {
                    attempt_id: row.attempt_id,
                    revision: row.projection_revision->0,
                    outcome: PublicationOutcome::AlreadyApplied,
                },
                writes: Seq::empty(),
            },
        )
    } else {
        Err(ReconciliationFault::OperationConflict)
    }
}

/// What a completion asks to publish.
pub open spec fn completion_request(
    ticket: Ticket,
    aggregate_evidence_reference: Seq<char>,
    projection: Projection,
) -> Request {
    Request {
        beneficiary_id: ticket.beneficiary_id,
        expected_revision: ticket.expected_projection_revision,
        operation_id: collection_publication(ticket.attempt_id),
        evidence_reference: aggregate_evidence_reference,
        projection,
    }
}

/// How the completion of a pending attempt with accepted observations is answered.
pub open spec fn completion_applied(
    tables: Tables,
    coordinator: Coordinator,
    ticket: Ticket,
    aggregate_evidence_reference: Seq<char>,
    result: Collected,
    projection: Projection,
) -> Result<Answer<Completion>, ReconciliationFault> {
    let beneficiary_id = ticket.beneficiary_id;
    let attempt_id = ticket.attempt_id;
    let actual = revision_now(tables, beneficiary_id);
    if coordinator.current_attempt_id != Some(attempt_id) || coordinator.source_set_generation
        != ticket.source_set_generation || coordinator.collection_epoch
        != ticket.collection_epoch {
        Err(ReconciliationFault::CollectionConflict)
    } else if actual != ticket.expected_projection_revision {
        Err(
            ReconciliationFault::Store(
                StoreFault::RevisionConflict {
                    expected: ticket.expected_projection_revision,
                    actual,
                },
            ),
        )
    } else {
        match publication(
            tables,
            completion_request(ticket, aggregate_evidence_reference, projection),
        ) {
            Err(f) => Err(ReconciliationFault::Store(f)),
            Ok(published) => Ok(
                Answer {
                    receipt: Completion {
                        attempt_id,
                        revision: published.receipt.revision,
                        outcome: published.receipt.outcome,
                    },
                    writes: published.writes + seq![
                        Write::CompleteAttempt {
                            beneficiary_id,
                            attempt_id,
                            canonical_result: result,
                            projection_revision: published.receipt.revision,
                        },
                        Write::ClearCurrentAttempt { beneficiary_id, attempt_id },
                    ],
                },
            ),
        }
    }
}

} // verus!
