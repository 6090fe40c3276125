//! What holds of sources, collections and projections over whole histories.

use crate::cloud_coverage::Coverage;
use crate::cloud_coverage_reconciliation::{
    status_name, status_named, Binding, CollectionStatus, Completion, Observation,
    ReconciliationFault, Registration, RegistrationOutcome, Ticket,
};
use crate::cloud_coverage_store::{
    loaded, next_revision, publication, revision_now, Loaded, Projection, PublicationOutcome,
    Request, StoreFault, UnavailableReason,
};
use crate::collection_laws::law_collected_facts_are_valid;
use crate::collection_rules::collection;
use crate::coverage_facts::canonical;
use crate::coverage_invariant::{
    attempt_kept, attempts_kept, exclusive, kept, law_beginning_keeps_the_tables,
    law_completing_keeps_the_tables, law_publishing_keeps_the_tables,
    law_registering_keeps_the_tables, lemma_attempt_in, lemma_bindings_push,
    lemma_current_publication_is_new, lemma_status_names, projection_kept, revision_kept,
    sources_kept,
};
use crate::coverage_lookups::{
    attempt_of, claiming, coordinator_of, head_of, numbered, publication_of, registered_by,
    registration_of, revision_of,
};
use crate::coverage_tables::{
    applied_all, attempt_with, completed, pending_attempt, pending_of, source_with, superseded,
    Attempt, Source, Tables, Write,
};
use crate::ordered::{ascending, lemma_insert_ascending};
use crate::reconciliation_effects::{
    begins, begun_attempt, completes, lemma_begun, lemma_completed, lemma_publication_writes,
    lemma_registered, registered_source, registers, without_current,
};
use crate::reconciliation_rules::{
    beginning, binding_fault, bindings_in_order, completion, completion_request, generation_now,
    place, registered_until, registration, registration_request, same_collection, source_set,
    stored_ticket, Answer,
};
use crate::rows::{first_match, lemma_found, lemma_search_push, lemma_search_updated};
use crate::store_laws::{
    countable, law_loading_gives_back_what_was_published, law_publishing_leaves_others_alone,
    lemma_published, publishes,
};
use crate::text::{before, before_total, before_transitive, blank};
use vstd::prelude::*;

verus! {

/// A request of any kind.
pub enum Step {
    Publish(Request),
    Register { operation_id: Seq<char>, binding: Binding },
    Begin { beneficiary_id: Seq<char>, attempt_id: Seq<char> },
    Complete {
        ticket: Ticket,
        aggregate_evidence_reference: Seq<char>,
        observations: Seq<Observation>,
    },
}

/// What a request writes. A refused one writes nothing.
pub open spec fn step_writes(tables: Tables, step: Step) -> Seq<Write> {
    match step {
        Step::Publish(request) => match publication(tables, request) {
            Ok(publication) => publication.writes,
            Err(_) => Seq::empty(),
        },
        Step::Register { operation_id, binding } => match registration(
            tables,
            operation_id,
            binding,
        ) {
            Ok(answer) => answer.writes,
            Err(_) => Seq::empty(),
        },
        Step::Begin { beneficiary_id, attempt_id } => match beginning(
            tables,
            beneficiary_id,
            attempt_id,
        ) {
            Ok(answer) => answer.writes,
            Err(_) => Seq::empty(),
        },
        Step::Complete { ticket, aggregate_evidence_reference, observations } => match completion(
            tables,
            ticket,
            aggregate_evidence_reference,
            observations,
        ) {
            Ok(answer) => answer.writes,
            Err(_) => Seq::empty(),
        },
    }
}

/// The tables after a request.
pub open spec fn stepped(tables: Tables, step: Step) -> Tables {
    applied_all(tables, step_writes(tables, step))
}

/// The tables after a history of requests.
pub open spec fn after_history(tables: Tables, history: Seq<Step>) -> Tables
    decreases history.len(),
{
    if history.len() == 0 {
        tables
    } else {
        stepped(after_history(tables, history.drop_last()), history.last())
    }
}

/// Every request keeps the tables.
pub proof fn law_every_request_keeps_the_tables(tables: Tables, step: Step)
    requires
        kept(tables),
    ensures
        kept(stepped(tables, step)),
{
    match step {
        Step::Publish(request) => {
            if publication(tables, request) is Ok {
                law_publishing_keeps_the_tables(tables, request);
            }
        },
        Step::Register { operation_id, binding } => {
            if registration(tables, operation_id, binding) is Ok {
                law_registering_keeps_the_tables(tables, operation_id, binding);
            }
        },
        Step::Begin { beneficiary_id, attempt_id } => {
            if beginning(tables, beneficiary_id, attempt_id) is Ok {
                law_beginning_keeps_the_tables(tables, beneficiary_id, attempt_id);
            }
        },
        Step::Complete { ticket, aggregate_evidence_reference, observations } => {
            if completion(tables, ticket, aggregate_evidence_reference, observations) is Ok {
                law_completing_keeps_the_tables(
                    tables,
                    ticket,
                    aggregate_evidence_reference,
                    observations,
                );
            }
        },
    }
}

/// Every history keeps the tables.
pub proof fn law_every_history_keeps_the_tables(tables: Tables, history: Seq<Step>)
    requires
        kept(tables),
    ensures
        kept(after_history(tables, history)),
    decreases history.len(),
{
    if history.len() > 0 {
        law_every_history_keeps_the_tables(tables, history.drop_last());
        law_every_request_keeps_the_tables(
            after_history(tables, history.drop_last()),
            history.last(),
        );
    }
}

/// What one request can do to the sources: add one, of the generation after the current one.
pub open spec fn sources_grow(tables: Tables, after: Tables) -> bool {
    ||| after.sources == tables.sources
    ||| {
        &&& after.sources.len() == tables.sources.len() + 1
        &&& after.sources == tables.sources.push(after.sources.last())
        &&& after.sources.last().registration_source_set_generation == generation_now(
            tables,
            after.sources.last().binding.beneficiary_id,
        ) + 1
        &&& first_match(
            tables.sources,
            source_with(after.sources.last().binding.source_id),
        ) is None
    }
}

/// What one request can do to the sources, coordinators and settled attempts.
pub proof fn lemma_step(tables: Tables, step: Step)
    requires
        kept(tables),
    ensures
        ({
            let after = stepped(tables, step);
            &&& sources_grow(tables, after)
            &&& forall|b: Seq<char>| #[trigger]
                coordinator_of(tables, b) is Some ==> coordinator_of(after, b) is Some
            &&& forall|b: Seq<char>| #[trigger]
                generation_now(tables, b) <= generation_now(after, b)
            &&& forall|b: Seq<char>, a: Seq<char>|
                (#[trigger] attempt_of(tables, b, a) matches Some(row) && row.status != "pending"@)
                    ==> attempt_of(after, b, a) == attempt_of(tables, b, a)
        }),
{
    let after = stepped(tables, step);
    match step {
        Step::Publish(request) => {
            if publication(tables, request) is Ok {
                lemma_publication_writes(tables, request);
            }
        },
        Step::Register { operation_id, binding } => {
            let b = binding.beneficiary_id;
            if registers(tables, operation_id, binding) {
                lemma_registered(tables, operation_id, binding);
                assert forall|x: Seq<char>| #[trigger]
                    coordinator_of(tables, x) is Some implies coordinator_of(after, x) is Some by {}
                assert forall|x: Seq<char>| #[trigger]
                    generation_now(tables, x) <= generation_now(after, x) by {
                    if x != b {
                        assert(coordinator_of(after, x) == coordinator_of(tables, x));
                    }
                }
                assert forall|x: Seq<char>, a: Seq<char>|
                    (#[trigger] attempt_of(tables, x, a) matches Some(row) && row.status
                        != "pending"@) implies attempt_of(after, x, a) == attempt_of(
                    tables,
                    x,
                    a,
                ) by {
                    lemma_search_updated(
                        tables.attempts,
                        pending_of(b),
                        superseded(),
                        attempt_with(x, a),
                    );
                }
            } else if registration(tables, operation_id, binding) is Ok {
                lemma_registration_replay_writes_nothing(tables, operation_id, binding);
            }
        },
        Step::Begin { beneficiary_id, attempt_id } => {
            if begins(tables, beneficiary_id, attempt_id) {
                lemma_begun(tables, beneficiary_id, attempt_id);
                let coordinator = coordinator_of(tables, beneficiary_id)->0;
                let ticket = beginning(tables, beneficiary_id, attempt_id)->Ok_0.receipt;
                assert forall|x: Seq<char>| #[trigger]
                    generation_now(tables, x) <= generation_now(after, x) by {
                    if x != beneficiary_id {
                        assert(coordinator_of(after, x) == coordinator_of(tables, x));
                    }
                }
                assert forall|x: Seq<char>, a: Seq<char>|
                    (#[trigger] attempt_of(tables, x, a) matches Some(row) && row.status
                        != "pending"@) implies attempt_of(after, x, a) == attempt_of(
                    tables,
                    x,
                    a,
                ) by {
                    lemma_attempt_in(tables, coordinator, x, a);
                    lemma_search_push(
                        without_current(tables.attempts, coordinator),
                        begun_attempt(ticket),
                        attempt_with(x, a),
                    );
                }
            }
        },
        Step::Complete { ticket, aggregate_evidence_reference, observations } => {
            if completes(tables, ticket, aggregate_evidence_reference, observations) {
                lemma_completed(tables, ticket, aggregate_evidence_reference, observations);
                let b = ticket.beneficiary_id;
                assert forall|x: Seq<char>| #[trigger]
                    generation_now(tables, x) <= generation_now(after, x) by {
                    if x != b {
                        assert(coordinator_of(after, x) == coordinator_of(tables, x));
                    }
                }
                let combined = collection(
                    b,
                    ticket.source_bindings,
                    observations,
                    aggregate_evidence_reference,
                )->Ok_0;
                let request = completion_request(ticket, aggregate_evidence_reference, combined.1);
                assert forall|x: Seq<char>, a: Seq<char>|
                    (#[trigger] attempt_of(tables, x, a) matches Some(row) && row.status
                        != "pending"@) implies attempt_of(after, x, a) == attempt_of(
                    tables,
                    x,
                    a,
                ) by {
                    lemma_search_updated(
                        tables.attempts,
                        pending_attempt(b, ticket.attempt_id),
                        completed(
                            combined.0,
                            publication(tables, request)->Ok_0.receipt.revision,
                        ),
                        attempt_with(x, a),
                    );
                }
            } else if completion(tables, ticket, aggregate_evidence_reference, observations) is Ok {
                assert(after == tables);
            }
        },
    }
}

/// A repeated registration of a kept beneficiary writes nothing.
proof fn lemma_registration_replay_writes_nothing(
    tables: Tables,
    operation_id: Seq<char>,
    binding: Binding,
)
    requires
        kept(tables),
        registration(tables, operation_id, binding) is Ok,
        registration_of(tables, binding.beneficiary_id, operation_id) is Some,
    ensures
        registration(tables, operation_id, binding)->Ok_0.writes.len() == 0,
        coordinator_of(tables, binding.beneficiary_id) is Some,
        generation_now(tables, binding.beneficiary_id) > 0,
{
    let owner = binding.beneficiary_id;
    lemma_found(tables.sources, registered_by(owner, operation_id));
    let row = registration_of(tables, owner, operation_id)->0;
    let k = choose|k: int| 0 <= k < tables.sources.len() && tables.sources[k] == row;
    assert(sources_kept(tables, owner));
    assert(tables.sources[k].binding.beneficiary_id == owner);
}

/// A source is never changed or removed: the sources after any history begin with those before.
pub proof fn law_sources_are_never_removed(tables: Tables, history: Seq<Step>)
    requires
        kept(tables),
    ensures
        tables.sources.is_prefix_of(after_history(tables, history).sources),
    decreases history.len(),
{
    if history.len() > 0 {
        law_sources_are_never_removed(tables, history.drop_last());
        law_every_history_keeps_the_tables(tables, history.drop_last());
        lemma_step(after_history(tables, history.drop_last()), history.last());
    }
}

/// A registration advances the generation by one, supersedes every pending attempt of the
/// beneficiary, and makes its coverage unavailable until the next collection.
pub proof fn law_registering_ends_completeness(
    tables: Tables,
    operation_id: Seq<char>,
    binding: Binding,
)
    requires
        kept(tables),
        registers(tables, operation_id, binding),
    ensures
        ({
            let b = binding.beneficiary_id;
            let answer = registration(tables, operation_id, binding)->Ok_0;
            let after = applied_all(tables, answer.writes);
            &&& answer.receipt.outcome == RegistrationOutcome::Applied
            &&& answer.receipt.source_set_generation == generation_now(tables, b) + 1
            &&& generation_now(after, b) == generation_now(tables, b) + 1
            &&& answer.receipt.projection_revision == revision_now(after, b)
            &&& revision_now(after, b) matches Some(now)
            &&& now == next_revision(revision_now(tables, b))
            &&& loaded(after, b) == Err::<Loaded, StoreFault>(
                StoreFault::ProjectionUnavailable(UnavailableReason::NeedsReconciliation),
            )
            &&& forall|k: int|
                0 <= k < after.attempts.len() && (#[trigger] after.attempts[k]).beneficiary_id == b
                    ==> after.attempts[k].status != "pending"@
            &&& forall|a: Seq<char>|
                (#[trigger] attempt_of(tables, b, a) matches Some(row) && row.status == "pending"@)
                    ==> attempt_of(after, b, a) == Some(
                    (superseded())(attempt_of(tables, b, a)->0),
                )
        }),
{
    let b = binding.beneficiary_id;
    let answer = registration(tables, operation_id, binding)->Ok_0;
    let after = applied_all(tables, answer.writes);
    let request = registration_request(tables, operation_id, binding);
    assert(projection_kept(tables, b));
    lemma_registered(tables, operation_id, binding);
    lemma_current_publication_is_new(tables, request);
    lemma_new_revision_number(tables, request);
    law_loading_gives_back_what_was_published(tables, request);
    let row = lemma_published(tables, request);
    let direct = applied_all(tables, publication(tables, request)->Ok_0.writes);
    assert(head_of(after, b) == head_of(direct, b));
    assert(loaded(after, b) == loaded(direct, b));
    lemma_status_names();
    assert forall|a: Seq<char>|
        (#[trigger] attempt_of(tables, b, a) matches Some(row) && row.status
            == "pending"@) implies attempt_of(after, b, a) == Some(
        (superseded())(attempt_of(tables, b, a)->0),
    ) by {
        lemma_found(tables.attempts, attempt_with(b, a));
        lemma_search_updated(tables.attempts, pending_of(b), superseded(), attempt_with(b, a));
    }
}

/// The number of a new revision of a kept beneficiary is not taken.
pub proof fn lemma_new_revision_number(tables: Tables, request: Request)
    requires
        projection_kept(tables, request.beneficiary_id),
        publishes(tables, request),
    ensures
        revision_of(
            tables,
            request.beneficiary_id,
            publication(tables, request)->Ok_0.receipt.revision,
        ) is None,
{
    let revision = publication(tables, request)->Ok_0.receipt.revision;
    let b = request.beneficiary_id;
    let row = lemma_published(tables, request);
    lemma_found(tables.revisions, numbered(b, revision));
    if let Some(taken) = revision_of(tables, b, revision) {
        let k = choose|k: int| 0 <= k < tables.revisions.len() && tables.revisions[k] == taken;
        assert(revision_kept(tables.revisions[k], revision_now(tables, b)));
    }
}

/// What a publication stores is what loading gives back.
pub proof fn law_publishing_then_loading(tables: Tables, request: Request)
    requires
        kept(tables),
        countable(request.projection),
        publishes(tables, request),
    ensures
        ({
            let p = publication(tables, request)->Ok_0;
            loaded(applied_all(tables, p.writes), request.beneficiary_id)
                == match request.projection {
                Projection::Complete { facts } => Ok::<Loaded, StoreFault>(
                    Loaded {
                        revision: p.receipt.revision,
                        coverage: Coverage {
                            beneficiary_id: request.beneficiary_id,
                            facts: canonical(facts),
                        },
                    },
                ),
                Projection::Unavailable { reason } => Err(
                    StoreFault::ProjectionUnavailable(reason),
                ),
            }
        }),
{
    assert(projection_kept(tables, request.beneficiary_id));
    lemma_new_revision_number(tables, request);
    law_loading_gives_back_what_was_published(tables, request);
}

/// Repeating a registration is answered with its receipt and writes nothing.
pub proof fn law_repeating_a_registration_changes_nothing(
    tables: Tables,
    operation_id: Seq<char>,
    binding: Binding,
)
    requires
        kept(tables),
        registers(tables, operation_id, binding),
    ensures
        ({
            let answer = registration(tables, operation_id, binding)->Ok_0;
            registration(applied_all(tables, answer.writes), operation_id, binding) == Ok::<
                Answer<Registration>,
                ReconciliationFault,
            >(
                Answer {
                    receipt: Registration {
                        outcome: RegistrationOutcome::AlreadyApplied,
                        ..answer.receipt
                    },
                    writes: Seq::empty(),
                },
            )
        }),
{
    let b = binding.beneficiary_id;
    let answer = registration(tables, operation_id, binding)->Ok_0;
    let after = applied_all(tables, answer.writes);
    let request = registration_request(tables, operation_id, binding);
    lemma_registered(tables, operation_id, binding);
    assert(sources_kept(tables, b));
    let revision = publication(tables, request)->Ok_0.receipt.revision;
    let row = registered_source(
        operation_id,
        binding,
        (generation_now(tables, b) + 1) as i64,
        revision,
    );
    lemma_search_push(tables.sources, row, registered_by(b, operation_id));
    assert(registration_of(after, b, operation_id) == Some(row));
    assert(coordinator_of(after, b) is Some);
    assert(generation_now(after, b) > 0);
}

/// A repeated registration stays answered with its own receipt, whatever is requested later.
pub proof fn law_registration_replays_survive(
    tables: Tables,
    operation_id: Seq<char>,
    binding: Binding,
    history: Seq<Step>,
)
    requires
        kept(tables),
        registration(tables, operation_id, binding) is Ok,
        registration_of(tables, binding.beneficiary_id, operation_id) is Some,
    ensures
        registration(after_history(tables, history), operation_id, binding) == registration(
            tables,
            operation_id,
            binding,
        ),
        registration_of(
            after_history(tables, history),
            binding.beneficiary_id,
            operation_id,
        ) is Some,
    decreases history.len(),
{
    if history.len() > 0 {
        let now = after_history(tables, history.drop_last());
        let b = binding.beneficiary_id;
        law_registration_replays_survive(tables, operation_id, binding, history.drop_last());
        law_every_history_keeps_the_tables(tables, history.drop_last());
        lemma_registration_replay_writes_nothing(now, operation_id, binding);
        lemma_step(now, history.last());
        let next = stepped(now, history.last());
        assert(generation_now(now, b) <= generation_now(next, b));
        assert(coordinator_of(next, b) is Some);
        if next.sources != now.sources {
            lemma_search_push(now.sources, next.sources.last(), registered_by(b, operation_id));
        }
    }
}

/// A source and an allocation stay with the beneficiary that registered them: another registration
/// of either is refused.
pub proof fn law_sources_stay_with_their_beneficiary(
    tables: Tables,
    row: Source,
    operation_id: Seq<char>,
    binding: Binding,
    history: Seq<Step>,
)
    requires
        kept(tables),
        tables.sources.contains(row),
        row.binding.source_id == binding.source_id || (row.binding.provider_namespace
            == binding.provider_namespace && row.binding.external_allocation_reference
            == binding.external_allocation_reference),
        !blank(operation_id),
        binding_fault(binding) is None,
    ensures
        ({
            let after = after_history(tables, history);
            let b = binding.beneficiary_id;
            registration_of(after, b, operation_id) is None && !(generation_now(after, b) == 0
                && revision_now(after, b) is Some) ==> registration(after, operation_id, binding)
                == Err::<Answer<Registration>, ReconciliationFault>(
                ReconciliationFault::SourceBindingConflict,
            )
        }),
        !registers(after_history(tables, history), operation_id, binding),
{
    let after = after_history(tables, history);
    law_sources_are_never_removed(tables, history);
    let k = choose|k: int| 0 <= k < tables.sources.len() && tables.sources[k] == row;
    assert(after.sources[k] == row);
    assert(after.sources.contains(row));
    lemma_found(after.sources, source_with(binding.source_id));
    lemma_found(
        after.sources,
        claiming(binding.provider_namespace, binding.external_allocation_reference),
    );
}

/// A new attempt opens the next epoch, snapshots the whole source set and the current revision, and
/// is from then on the only pending attempt of its beneficiary.
pub proof fn law_beginning_supersedes(
    tables: Tables,
    beneficiary_id: Seq<char>,
    attempt_id: Seq<char>,
)
    requires
        kept(tables),
        begins(tables, beneficiary_id, attempt_id),
    ensures
        ({
            let b = beneficiary_id;
            let answer = beginning(tables, b, attempt_id)->Ok_0;
            let ticket = answer.receipt;
            let after = applied_all(tables, answer.writes);
            &&& coordinator_of(tables, b) matches Some(before)
            &&& coordinator_of(after, b) matches Some(now)
            &&& ticket.collection_epoch == before.collection_epoch + 1
            &&& now.collection_epoch == ticket.collection_epoch
            &&& now.current_attempt_id == Some(attempt_id)
            &&& ticket.source_set_generation == before.source_set_generation
            &&& ticket.source_bindings == source_set(tables, b, None)
            &&& ticket.expected_projection_revision == revision_now(tables, b)
            &&& attempt_of(after, b, attempt_id) == Some(begun_attempt(ticket))
            &&& forall|k: int|
                0 <= k < after.attempts.len() && (#[trigger] after.attempts[k]).beneficiary_id == b
                    && after.attempts[k].status == "pending"@ ==> after.attempts[k].attempt_id
                    == attempt_id
            &&& forall|a: Seq<char>|
                a != attempt_id && (#[trigger] attempt_of(tables, b, a)) is Some ==> attempt_of(
                    after,
                    b,
                    a,
                ) == Some(
                    if attempt_of(tables, b, a)->0.status == "pending"@ {
                        (superseded())(attempt_of(tables, b, a)->0)
                    } else {
                        attempt_of(tables, b, a)->0
                    },
                )
            &&& loaded(after, b) == loaded(tables, b)
        }),
{
    let b = beneficiary_id;
    let answer = beginning(tables, b, attempt_id)->Ok_0;
    let ticket = answer.receipt;
    let after = applied_all(tables, answer.writes);
    lemma_begun(tables, b, attempt_id);
    let coordinator = coordinator_of(tables, b)->0;
    let earlier = without_current(tables.attempts, coordinator);
    law_beginning_keeps_the_tables(tables, b, attempt_id);
    assert(attempts_kept(after, b));
    lemma_attempt_in(tables, coordinator, b, attempt_id);
    lemma_search_push(earlier, begun_attempt(ticket), attempt_with(b, attempt_id));
    assert forall|k: int|
        0 <= k < after.attempts.len() && (#[trigger] after.attempts[k]).beneficiary_id == b
            && after.attempts[k].status == "pending"@ implies after.attempts[k].attempt_id
        == attempt_id by {
        assert(attempt_kept(after, after.attempts[k]));
    }
    assert forall|a: Seq<char>|
        a != attempt_id && (#[trigger] attempt_of(tables, b, a)) is Some implies attempt_of(
        after,
        b,
        a,
    ) == Some(
        if attempt_of(tables, b, a)->0.status == "pending"@ {
            (superseded())(attempt_of(tables, b, a)->0)
        } else {
            attempt_of(tables, b, a)->0
        },
    ) by {
        lemma_attempt_in(tables, coordinator, b, a);
        lemma_search_push(earlier, begun_attempt(ticket), attempt_with(b, a));
        lemma_found(tables.attempts, attempt_with(b, a));
        let row = attempt_of(tables, b, a)->0;
        let k = choose|k: int| 0 <= k < tables.attempts.len() && tables.attempts[k] == row;
        assert(attempts_kept(tables, b));
        assert(attempt_kept(tables, tables.attempts[k]));
    }
    assert(head_of(after, b) == head_of(tables, b));
}

/// Whether two rows are of one attempt: they differ at most in how far it has come.
pub open spec fn same_attempt(a: Attempt, b: Attempt) -> bool {
    b == (Attempt {
        status: b.status,
        aggregate_evidence_reference: b.aggregate_evidence_reference,
        canonical_result: b.canonical_result,
        projection_revision: b.projection_revision,
        ..a
    })
}

/// No write removes an attempt, or changes more of it than how far it has come.
proof fn lemma_attempts_stay(
    tables: Tables,
    writes: Seq<Write>,
    beneficiary_id: Seq<char>,
    attempt_id: Seq<char>,
)
    requires
        attempt_of(tables, beneficiary_id, attempt_id) is Some,
    ensures
        attempt_of(applied_all(tables, writes), beneficiary_id, attempt_id) matches Some(row)
            && same_attempt(attempt_of(tables, beneficiary_id, attempt_id)->0, row),
    decreases writes.len(),
{
    if writes.len() > 0 {
        lemma_attempts_stay(tables, writes.drop_last(), beneficiary_id, attempt_id);
        let rows = applied_all(tables, writes.drop_last()).attempts;
        let wanted = attempt_with(beneficiary_id, attempt_id);
        match writes.last() {
            Write::InsertAttempt(row) => {
                lemma_search_push(rows, row, wanted);
            },
            Write::SupersedePending { beneficiary_id: b } => {
                lemma_search_updated(rows, pending_of(b), superseded(), wanted);
            },
            Write::SupersedeAttempt { beneficiary_id: b, attempt_id: a } => {
                lemma_search_updated(rows, pending_attempt(b, a), superseded(), wanted);
            },
            Write::CompleteAttempt {
                beneficiary_id: b,
                attempt_id: a,
                canonical_result,
                projection_revision,
            } => {
                lemma_search_updated(
                    rows,
                    pending_attempt(b, a),
                    completed(canonical_result, projection_revision),
                    wanted,
                );
            },
            _ => {},
        }
    }
}

/// No history removes an attempt, or changes more of it than how far it has come.
proof fn lemma_attempts_outlast(
    tables: Tables,
    history: Seq<Step>,
    beneficiary_id: Seq<char>,
    attempt_id: Seq<char>,
)
    requires
        attempt_of(tables, beneficiary_id, attempt_id) is Some,
    ensures
        attempt_of(after_history(tables, history), beneficiary_id, attempt_id) matches Some(row)
            && same_attempt(attempt_of(tables, beneficiary_id, attempt_id)->0, row),
    decreases history.len(),
{
    if history.len() > 0 {
        lemma_attempts_outlast(tables, history.drop_last(), beneficiary_id, attempt_id);
        let now = after_history(tables, history.drop_last());
        lemma_attempts_stay(now, step_writes(now, history.last()), beneficiary_id, attempt_id);
    }
}

/// Repeating the beginning of a collection writes nothing and gives the same ticket, whatever is
/// requested in between: it differs from the first at most in the attempt's present status and the
/// revision that completed it. Repeated at once, it does not differ.
pub proof fn law_repeating_a_beginning_changes_nothing(
    tables: Tables,
    beneficiary_id: Seq<char>,
    attempt_id: Seq<char>,
    history: Seq<Step>,
)
    requires
        kept(tables),
        begins(tables, beneficiary_id, attempt_id),
    ensures
        ({
            let answer = beginning(tables, beneficiary_id, attempt_id)->Ok_0;
            let after = after_history(applied_all(tables, answer.writes), history);
            &&& attempt_of(after, beneficiary_id, attempt_id) matches Some(row)
            &&& status_named(row.status) matches Some(status)
            &&& beginning(after, beneficiary_id, attempt_id) == Ok::<
                Answer<Ticket>,
                ReconciliationFault,
            >(
                Answer {
                    receipt: Ticket {
                        status,
                        completed_revision: row.projection_revision,
                        ..answer.receipt
                    },
                    writes: Seq::empty(),
                },
            )
            &&& history.len() == 0 ==> status == answer.receipt.status && row.projection_revision
                == answer.receipt.completed_revision
        }),
{
    let b = beneficiary_id;
    let answer = beginning(tables, b, attempt_id)->Ok_0;
    let ticket = answer.receipt;
    let begun = applied_all(tables, answer.writes);
    let after = after_history(begun, history);
    law_beginning_supersedes(tables, b, attempt_id);
    lemma_status_names();
    assert(step_writes(tables, Step::Begin { beneficiary_id: b, attempt_id }) == answer.writes);
    law_every_request_keeps_the_tables(tables, Step::Begin { beneficiary_id: b, attempt_id });
    law_every_history_keeps_the_tables(begun, history);
    lemma_attempts_outlast(begun, history, b, attempt_id);
    lemma_found(after.attempts, attempt_with(b, attempt_id));
    let row = attempt_of(after, b, attempt_id)->0;
    let k = choose|k: int| 0 <= k < after.attempts.len() && after.attempts[k] == row;
    assert(attempts_kept(after, b));
    assert(attempt_kept(after, after.attempts[k]));
}

/// An attempt that is superseded or completed stays as it is, and stays trusted.
pub proof fn law_settled_attempts_never_change(
    tables: Tables,
    beneficiary_id: Seq<char>,
    attempt_id: Seq<char>,
    history: Seq<Step>,
)
    requires
        kept(tables),
        attempt_of(tables, beneficiary_id, attempt_id) matches Some(row) && row.status
            != "pending"@,
    ensures
        ({
            let row = attempt_of(tables, beneficiary_id, attempt_id)->0;
            let after = after_history(tables, history);
            &&& attempt_of(after, beneficiary_id, attempt_id) == Some(row)
            &&& stored_ticket(after, row) == stored_ticket(tables, row)
            &&& stored_ticket(tables, row) is Ok
            &&& coordinator_of(after, beneficiary_id) is Some
        }),
    decreases history.len(),
{
    let b = beneficiary_id;
    let row = attempt_of(tables, b, attempt_id)->0;
    lemma_found(tables.attempts, attempt_with(b, attempt_id));
    let k = choose|k: int| 0 <= k < tables.attempts.len() && tables.attempts[k] == row;
    assert(attempts_kept(tables, b));
    assert(attempt_kept(tables, tables.attempts[k]));
    if history.len() > 0 {
        let now = after_history(tables, history.drop_last());
        let next = stepped(now, history.last());
        law_settled_attempts_never_change(tables, b, attempt_id, history.drop_last());
        law_every_history_keeps_the_tables(tables, history.drop_last());
        lemma_step(now, history.last());
        assert(attempt_of(now, b, attempt_id) == Some(row));
        lemma_found(now.attempts, attempt_with(b, attempt_id));
        let m = choose|m: int| 0 <= m < now.attempts.len() && now.attempts[m] == row;
        assert(attempts_kept(now, b));
        assert(attempt_kept(now, now.attempts[m]));
        if next.sources != now.sources {
            let added = next.sources.last();
            lemma_bindings_push(
                now.sources,
                added,
                registered_until(b, Some(row.source_set_generation)),
            );
        }
        assert(source_set(next, b, Some(row.source_set_generation)) == source_set(
            now,
            b,
            Some(row.source_set_generation),
        ));
        assert(stored_ticket(next, row) == stored_ticket(now, row));
        assert(coordinator_of(next, b) is Some);
    }
}

/// The completion of a superseded attempt is refused for good, however the observations combine.
pub proof fn law_superseded_attempts_stay_refused(
    tables: Tables,
    ticket: Ticket,
    aggregate_evidence_reference: Seq<char>,
    observations: Seq<Observation>,
    history: Seq<Step>,
)
    requires
        kept(tables),
        attempt_of(tables, ticket.beneficiary_id, ticket.attempt_id) matches Some(row)
            && row.status == "superseded"@,
    ensures
        completion(
            after_history(tables, history),
            ticket,
            aggregate_evidence_reference,
            observations,
        ) is Err,
        ({
            let row = attempt_of(tables, ticket.beneficiary_id, ticket.attempt_id)->0;
            !blank(ticket.beneficiary_id) && !blank(ticket.attempt_id) && !blank(
                aggregate_evidence_reference,
            ) && same_collection(ticket, stored_ticket(tables, row)->Ok_0) && collection(
                ticket.beneficiary_id,
                ticket.source_bindings,
                observations,
                aggregate_evidence_reference,
            ) is Ok ==> completion(
                after_history(tables, history),
                ticket,
                aggregate_evidence_reference,
                observations,
            ) == Err::<Answer<Completion>, ReconciliationFault>(
                ReconciliationFault::AttemptSuperseded,
            )
        }),
{
    lemma_status_names();
    law_settled_attempts_never_change(
        tables,
        ticket.beneficiary_id,
        ticket.attempt_id,
        history,
    );
}

/// A completion publishes the revision after the one that its ticket expected, and what it
/// publishes is what loading gives back.
pub proof fn law_completing_then_loading(
    tables: Tables,
    ticket: Ticket,
    aggregate_evidence_reference: Seq<char>,
    observations: Seq<Observation>,
)
    requires
        kept(tables),
        completes(tables, ticket, aggregate_evidence_reference, observations),
        countable(
            collection(
                ticket.beneficiary_id,
                ticket.source_bindings,
                observations,
                aggregate_evidence_reference,
            )->Ok_0.1,
        ),
    ensures
        ({
            let b = ticket.beneficiary_id;
            let answer = completion(
                tables,
                ticket,
                aggregate_evidence_reference,
                observations,
            )->Ok_0;
            let after = applied_all(tables, answer.writes);
            &&& answer.receipt.outcome == PublicationOutcome::Applied
            &&& answer.receipt.revision == next_revision(ticket.expected_projection_revision)
            &&& revision_now(after, b) == Some(answer.receipt.revision)
            &&& loaded(after, b) == match collection(
                b,
                ticket.source_bindings,
                observations,
                aggregate_evidence_reference,
            )->Ok_0.1 {
                Projection::Complete { facts } => Ok::<Loaded, StoreFault>(
                    Loaded {
                        revision: answer.receipt.revision,
                        coverage: Coverage { beneficiary_id: b, facts },
                    },
                ),
                Projection::Unavailable { reason } => Err(
                    StoreFault::ProjectionUnavailable(reason),
                ),
            }
        }),
{
    let b = ticket.beneficiary_id;
    let answer = completion(tables, ticket, aggregate_evidence_reference, observations)->Ok_0;
    let after = applied_all(tables, answer.writes);
    let combined = collection(
        b,
        ticket.source_bindings,
        observations,
        aggregate_evidence_reference,
    )->Ok_0;
    let request = completion_request(ticket, aggregate_evidence_reference, combined.1);
    lemma_completed(tables, ticket, aggregate_evidence_reference, observations);
    assert(projection_kept(tables, b));
    lemma_current_publication_is_new(tables, request);
    law_publishing_then_loading(tables, request);
    law_collected_facts_are_valid(
        b,
        ticket.source_bindings,
        observations,
        aggregate_evidence_reference,
    );
    let row = lemma_published(tables, request);
    let direct = applied_all(tables, publication(tables, request)->Ok_0.writes);
    assert(head_of(after, b) == head_of(direct, b));
    assert(loaded(after, b) == loaded(direct, b));
}

/// What the completion of a pending attempt leaves of the attempt.
proof fn lemma_completed_attempt(
    tables: Tables,
    ticket: Ticket,
    aggregate_evidence_reference: Seq<char>,
    observations: Seq<Observation>,
)
    requires
        kept(tables),
        completes(tables, ticket, aggregate_evidence_reference, observations),
    ensures
        ({
            let b = ticket.beneficiary_id;
            let answer = completion(
                tables,
                ticket,
                aggregate_evidence_reference,
                observations,
            )->Ok_0;
            let after = applied_all(tables, answer.writes);
            let combined = collection(
                b,
                ticket.source_bindings,
                observations,
                aggregate_evidence_reference,
            )->Ok_0;
            &&& attempt_of(after, b, ticket.attempt_id) matches Some(row)
            &&& row.status == "completed"@
            &&& row.attempt_id == ticket.attempt_id
            &&& row.aggregate_evidence_reference == Some(aggregate_evidence_reference)
            &&& row.canonical_result == Some(combined.0)
            &&& row.projection_revision == Some(answer.receipt.revision)
            &&& stored_ticket(after, row) matches Ok(stored)
            &&& same_collection(ticket, stored)
            &&& stored.status == CollectionStatus::Completed
            &&& coordinator_of(after, b) is Some
        }),
{
    let b = ticket.beneficiary_id;
    let answer = completion(tables, ticket, aggregate_evidence_reference, observations)->Ok_0;
    let after = applied_all(tables, answer.writes);
    let combined = collection(
        b,
        ticket.source_bindings,
        observations,
        aggregate_evidence_reference,
    )->Ok_0;
    let before = attempt_of(tables, b, ticket.attempt_id)->0;
    lemma_completed(tables, ticket, aggregate_evidence_reference, observations);
    law_completing_keeps_the_tables(tables, ticket, aggregate_evidence_reference, observations);
    lemma_found(tables.attempts, attempt_with(b, ticket.attempt_id));
    lemma_search_updated(
        tables.attempts,
        pending_attempt(b, ticket.attempt_id),
        completed(combined.0, answer.receipt.revision),
        attempt_with(b, ticket.attempt_id),
    );
    let row = (completed(combined.0, answer.receipt.revision))(before);
    assert(attempt_of(after, b, ticket.attempt_id) == Some(row));
    lemma_found(after.attempts, attempt_with(b, ticket.attempt_id));
    let k = choose|k: int| 0 <= k < after.attempts.len() && after.attempts[k] == row;
    assert(attempts_kept(after, b));
    assert(attempt_kept(after, after.attempts[k]));
    lemma_status_names();
    assert(stored_ticket(tables, before) is Ok);
}

/// Repeating a completion is answered with its revision and writes nothing, whatever is requested
/// in between: later publications, registrations and collections do not change the answer.
pub proof fn law_completion_replays_survive(
    tables: Tables,
    ticket: Ticket,
    aggregate_evidence_reference: Seq<char>,
    observations: Seq<Observation>,
    history: Seq<Step>,
)
    requires
        kept(tables),
        completes(tables, ticket, aggregate_evidence_reference, observations),
    ensures
        ({
            let answer = completion(
                tables,
                ticket,
                aggregate_evidence_reference,
                observations,
            )->Ok_0;
            let after = after_history(applied_all(tables, answer.writes), history);
            completion(after, ticket, aggregate_evidence_reference, observations) == Ok::<
                Answer<Completion>,
                ReconciliationFault,
            >(
                Answer {
                    receipt: Completion {
                        outcome: PublicationOutcome::AlreadyApplied,
                        ..answer.receipt
                    },
                    writes: Seq::empty(),
                },
            )
        }),
{
    let answer = completion(tables, ticket, aggregate_evidence_reference, observations)->Ok_0;
    let done = applied_all(tables, answer.writes);
    lemma_completed(tables, ticket, aggregate_evidence_reference, observations);
    lemma_completed_attempt(tables, ticket, aggregate_evidence_reference, observations);
    law_completing_keeps_the_tables(tables, ticket, aggregate_evidence_reference, observations);
    lemma_status_names();
    law_settled_attempts_never_change(done, ticket.beneficiary_id, ticket.attempt_id, history);
}

/// Completing a completed attempt with anything that does not combine to its stored result, or with
/// other evidence, is refused.
pub proof fn law_a_changed_completion_conflicts(
    tables: Tables,
    ticket: Ticket,
    aggregate_evidence_reference: Seq<char>,
    observations: Seq<Observation>,
    other_evidence: Seq<char>,
    other_observations: Seq<Observation>,
    history: Seq<Step>,
)
    requires
        kept(tables),
        completes(tables, ticket, aggregate_evidence_reference, observations),
        !blank(other_evidence),
        other_evidence != aggregate_evidence_reference || match collection(
            ticket.beneficiary_id,
            ticket.source_bindings,
            other_observations,
            other_evidence,
        ) {
            Ok((result, _)) => result != collection(
                ticket.beneficiary_id,
                ticket.source_bindings,
                observations,
                aggregate_evidence_reference,
            )->Ok_0.0,
            Err(_) => true,
        },
    ensures
        ({
            let answer = completion(
                tables,
                ticket,
                aggregate_evidence_reference,
                observations,
            )->Ok_0;
            let after = after_history(applied_all(tables, answer.writes), history);
            completion(after, ticket, other_evidence, other_observations) == Err::<
                Answer<Completion>,
                ReconciliationFault,
            >(ReconciliationFault::OperationConflict)
        }),
{
    let answer = completion(tables, ticket, aggregate_evidence_reference, observations)->Ok_0;
    let done = applied_all(tables, answer.writes);
    lemma_completed_attempt(tables, ticket, aggregate_evidence_reference, observations);
    law_completing_keeps_the_tables(tables, ticket, aggregate_evidence_reference, observations);
    lemma_status_names();
    law_settled_attempts_never_change(done, ticket.beneficiary_id, ticket.attempt_id, history);
}

/// The name of a status stands for that status, and no other name does.
pub proof fn law_status_names_round_trip(status: CollectionStatus, name: Seq<char>)
    ensures
        status_named(status_name(status)) == Some(status),
        status_named(name) == Some(status) ==> name == status_name(status),
{
    lemma_status_names();
}

/// A collection that began before another publication of its beneficiary is refused.
pub proof fn law_a_stale_collection_is_refused(
    tables: Tables,
    ticket: Ticket,
    aggregate_evidence_reference: Seq<char>,
    observations: Seq<Observation>,
    request: Request,
)
    requires
        completes(tables, ticket, aggregate_evidence_reference, observations),
        request.beneficiary_id == ticket.beneficiary_id,
        publishes(tables, request),
    ensures
        ({
            let p = publication(tables, request)->Ok_0;
            completion(
                applied_all(tables, p.writes),
                ticket,
                aggregate_evidence_reference,
                observations,
            ) == Err::<Answer<Completion>, ReconciliationFault>(
                ReconciliationFault::Store(
                    StoreFault::RevisionConflict {
                        expected: ticket.expected_projection_revision,
                        actual: Some(p.receipt.revision),
                    },
                ),
            )
        }),
{
    let p = publication(tables, request)->Ok_0;
    let after = applied_all(tables, p.writes);
    let row = lemma_published(tables, request);
    lemma_completed(tables, ticket, aggregate_evidence_reference, observations);
    let attempt = attempt_of(tables, ticket.beneficiary_id, ticket.attempt_id)->0;
    assert(stored_ticket(after, attempt) == stored_ticket(tables, attempt));
    lemma_status_names();
}

/// Whose tables a request is about.
pub open spec fn beneficiary_of(step: Step) -> Seq<char> {
    match step {
        Step::Publish(request) => request.beneficiary_id,
        Step::Register { binding, .. } => binding.beneficiary_id,
        Step::Begin { beneficiary_id, .. } => beneficiary_id,
        Step::Complete { ticket, .. } => ticket.beneficiary_id,
    }
}

/// A request about one beneficiary leaves everything of every other as it was: what is loaded, the
/// current revision, the coordinator, the source sets, the attempts and the publications.
pub proof fn law_beneficiaries_do_not_interfere(tables: Tables, step: Step, other: Seq<char>)
    requires
        kept(tables),
        beneficiary_of(step) != other,
    ensures
        ({
            let after = stepped(tables, step);
            &&& loaded(after, other) == loaded(tables, other)
            &&& revision_now(after, other) == revision_now(tables, other)
            &&& coordinator_of(after, other) == coordinator_of(tables, other)
            &&& forall|g: Option<i64>| #[trigger]
                source_set(after, other, g) == source_set(tables, other, g)
            &&& forall|a: Seq<char>| #[trigger]
                attempt_of(after, other, a) == attempt_of(tables, other, a)
            &&& forall|op: Seq<char>| #[trigger]
                publication_of(after, other, op) == publication_of(tables, other, op)
        }),
{
    let after = stepped(tables, step);
    match step {
        Step::Publish(request) => {
            if publication(tables, request) is Ok {
                law_publishing_leaves_others_alone(tables, request, other);
                lemma_publication_writes(tables, request);
            }
        },
        Step::Register { operation_id, binding } => {
            if registers(tables, operation_id, binding) {
                let b = binding.beneficiary_id;
                let request = registration_request(tables, operation_id, binding);
                lemma_registered(tables, operation_id, binding);
                law_publishing_leaves_others_alone(tables, request, other);
                lemma_same_projections(
                    applied_all(tables, publication(tables, request)->Ok_0.writes),
                    after,
                    other,
                );
                assert forall|g: Option<i64>| #[trigger]
                    source_set(after, other, g) == source_set(tables, other, g) by {
                    lemma_bindings_push(
                        tables.sources,
                        after.sources.last(),
                        registered_until(other, g),
                    );
                }
                assert forall|a: Seq<char>| #[trigger]
                    attempt_of(after, other, a) == attempt_of(tables, other, a) by {
                    lemma_search_updated(
                        tables.attempts,
                        pending_of(b),
                        superseded(),
                        attempt_with(other, a),
                    );
                    lemma_found(tables.attempts, attempt_with(other, a));
                }
            } else if registration(tables, operation_id, binding) is Ok {
                lemma_registration_replay_writes_nothing(tables, operation_id, binding);
            }
        },
        Step::Begin { beneficiary_id, attempt_id } => {
            if begins(tables, beneficiary_id, attempt_id) {
                lemma_begun(tables, beneficiary_id, attempt_id);
                let coordinator = coordinator_of(tables, beneficiary_id)->0;
                let ticket = beginning(tables, beneficiary_id, attempt_id)->Ok_0.receipt;
                lemma_same_projections(tables, after, other);
                assert forall|a: Seq<char>| #[trigger]
                    attempt_of(after, other, a) == attempt_of(tables, other, a) by {
                    lemma_attempt_in(tables, coordinator, other, a);
                    lemma_search_push(
                        without_current(tables.attempts, coordinator),
                        begun_attempt(ticket),
                        attempt_with(other, a),
                    );
                }
            }
        },
        Step::Complete { ticket, aggregate_evidence_reference, observations } => {
            if completes(tables, ticket, aggregate_evidence_reference, observations) {
                let b = ticket.beneficiary_id;
                lemma_completed(tables, ticket, aggregate_evidence_reference, observations);
                let combined = collection(
                    b,
                    ticket.source_bindings,
                    observations,
                    aggregate_evidence_reference,
                )->Ok_0;
                let request = completion_request(ticket, aggregate_evidence_reference, combined.1);
                law_publishing_leaves_others_alone(tables, request, other);
                lemma_same_projections(
                    applied_all(tables, publication(tables, request)->Ok_0.writes),
                    after,
                    other,
                );
                assert forall|a: Seq<char>| #[trigger]
                    attempt_of(after, other, a) == attempt_of(tables, other, a) by {
                    lemma_search_updated(
                        tables.attempts,
                        pending_attempt(b, ticket.attempt_id),
                        completed(
                            combined.0,
                            publication(tables, request)->Ok_0.receipt.revision,
                        ),
                        attempt_with(other, a),
                    );
                    lemma_found(tables.attempts, attempt_with(other, a));
                }
            } else if completion(tables, ticket, aggregate_evidence_reference, observations) is Ok {
                assert(after == tables);
            }
        },
    }
}

/// Tables with the same heads and revisions say the same of projections.
proof fn lemma_same_projections(a: Tables, b: Tables, beneficiary_id: Seq<char>)
    requires
        a.heads == b.heads,
        a.revisions == b.revisions,
    ensures
        loaded(a, beneficiary_id) == loaded(b, beneficiary_id),
        revision_now(a, beneficiary_id) == revision_now(b, beneficiary_id),
        forall|op: Seq<char>| #[trigger]
            publication_of(b, beneficiary_id, op) == publication_of(a, beneficiary_id, op),
{
}

/// The source set of a beneficiary lists each of its sources once, in ascending byte order of their
/// identities.
pub proof fn law_source_sets_are_complete_and_ordered(
    tables: Tables,
    beneficiary_id: Seq<char>,
    generation: Option<i64>,
)
    requires
        exclusive(tables.sources),
    ensures
        ascending(source_set(tables, beneficiary_id, generation), bound_source()),
        forall|binding: Binding| #[trigger]
            source_set(tables, beneficiary_id, generation).contains(binding) <==> exists|k: int|
                0 <= k < tables.sources.len() && (registered_until(beneficiary_id, generation))(
                    #[trigger] tables.sources[k],
                ) && tables.sources[k].binding == binding,
{
    lemma_bindings_are_ordered(tables.sources, registered_until(beneficiary_id, generation));
}

/// The identity by which bindings are ordered.
pub open spec fn bound_source() -> spec_fn(Binding) -> Seq<char> {
    |binding: Binding| binding.source_id
}

proof fn lemma_bindings_are_ordered(rows: Seq<Source>, wanted: spec_fn(Source) -> bool)
    requires
        exclusive(rows),
    ensures
        ascending(bindings_in_order(rows, wanted), bound_source()),
        forall|binding: Binding| #[trigger]
            bindings_in_order(rows, wanted).contains(binding) <==> exists|k: int|
                0 <= k < rows.len() && wanted(#[trigger] rows[k]) && rows[k].binding == binding,
    decreases rows.len(),
{
    if rows.len() > 0 {
        let front = rows.drop_last();
        let row = rows.last();
        let earlier = bindings_in_order(front, wanted);
        let last = rows.len() - 1;
        assert(exclusive(front)) by {
            assert forall|i: int, j: int| 0 <= i < j < front.len() implies {
                &&& (#[trigger] front[i]).binding.source_id != (
                #[trigger] front[j]).binding.source_id
                &&& !(front[i].binding.provider_namespace == front[j].binding.provider_namespace
                    && front[i].binding.external_allocation_reference
                    == front[j].binding.external_allocation_reference)
            } by {
                assert(front[i] == rows[i] && front[j] == rows[j]);
            }
        }
        lemma_bindings_are_ordered(front, wanted);
        let list = bindings_in_order(rows, wanted);
        assert forall|binding: Binding| #[trigger]
            earlier.contains(binding) implies binding.source_id != row.binding.source_id by {
            let k = choose|k: int|
                0 <= k < front.len() && wanted(#[trigger] front[k]) && front[k].binding == binding;
            assert(rows[k] == front[k]);
            assert(rows[last] == row);
        }
        if wanted(row) {
            lemma_place_is_right(earlier, row.binding.source_id);
            let at = place(earlier, row.binding.source_id);
            lemma_insert_ascending(earlier, at, row.binding, bound_source());
        }
        assert forall|binding: Binding| #[trigger] list.contains(binding) <==> exists|k: int|
            0 <= k < rows.len() && wanted(#[trigger] rows[k]) && rows[k].binding == binding by {
            if list.contains(binding) {
                if earlier.contains(binding) {
                    let k = choose|k: int|
                        0 <= k < front.len() && wanted(#[trigger] front[k]) && front[k].binding
                            == binding;
                    assert(rows[k] == front[k]);
                } else {
                    assert(rows[last] == row);
                }
            }
            if exists|k: int|
                0 <= k < rows.len() && wanted(#[trigger] rows[k]) && rows[k].binding == binding {
                let k = choose|k: int|
                    0 <= k < rows.len() && wanted(#[trigger] rows[k]) && rows[k].binding == binding;
                if k < last {
                    assert(front[k] == rows[k]);
                    assert(earlier.contains(binding));
                }
            }
        }
    }
}

/// A new source belongs behind those that come before it and before those that come after it.
proof fn lemma_place_is_right(list: Seq<Binding>, source_id: Seq<char>)
    requires
        ascending(list, bound_source()),
        forall|binding: Binding| #[trigger]
            list.contains(binding) ==> binding.source_id != source_id,
    ensures
        0 <= place(list, source_id) <= list.len(),
        forall|i: int|
            0 <= i < place(list, source_id) ==> before((#[trigger] list[i]).source_id, source_id),
        place(list, source_id) < list.len() ==> before(
            source_id,
            list[place(list, source_id)].source_id,
        ),
    decreases list.len(),
{
    if list.len() > 0 {
        let front = list.drop_last();
        let n = list.len() - 1;
        if before(source_id, list.last().source_id) {
            assert forall|i: int, j: int| 0 <= i < j < front.len() implies before(
                (bound_source())(#[trigger] front[i]),
                (bound_source())(#[trigger] front[j]),
            ) by {
                assert(before((bound_source())(list[i]), (bound_source())(list[j])));
            }
            assert forall|binding: Binding| #[trigger]
                front.contains(binding) implies binding.source_id != source_id by {
                let k = choose|k: int| 0 <= k < front.len() && front[k] == binding;
                assert(list[k] == binding);
                assert(list.contains(binding));
            }
            lemma_place_is_right(front, source_id);
            let at = place(front, source_id);
            assert forall|i: int| 0 <= i < at implies before(
                (#[trigger] list[i]).source_id,
                source_id,
            ) by {
                assert(front[i] == list[i]);
            }
            if at < front.len() {
                assert(front[at] == list[at]);
            }
        } else {
            assert(list.contains(list[n]));
            before_total(list[n].source_id, source_id);
            assert forall|i: int| 0 <= i < list.len() implies before(
                (#[trigger] list[i]).source_id,
                source_id,
            ) by {
                if i < n {
                    assert(before((bound_source())(list[i]), (bound_source())(list[n])));
                    before_transitive(list[i].source_id, list[n].source_id, source_id);
                }
            }
        }
    }
}

} // verus!
