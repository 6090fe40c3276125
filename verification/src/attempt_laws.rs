//! How collections begin and complete, said of the tickets and the rows themselves.

use crate::cloud_coverage_reconciliation::{
    Binding, CollectionStatus, Completion, CorruptAttemptReason, Observation, ReconciliationFault,
    Ticket,
};
use crate::cloud_coverage_store::{publication, PublicationOutcome, Request, StoreFault};
use crate::collection_laws::law_collected_facts_are_valid;
use crate::collection_rules::collection;
use crate::coverage_invariant::{
    attempt_kept, attempts_kept, exclusive, kept, lemma_current_publication_is_new,
    lemma_status_names, projection_kept, sources_kept,
};
use crate::coverage_lookups::{attempt_of, coordinator_of, head_of, publication_of};
use crate::coverage_tables::{applied_all, Attempt, Coordinator, Tables};
use crate::lookup_laws::law_attempts_are_found;
use crate::observation_laws::law_results_restate_every_observation;
use crate::publication_laws::{
    holds, is_valid_request, law_publishing_adds_what_was_requested,
    law_valid_publications_are_answered,
};
use crate::reconciliation_effects::{begins, completes, lemma_begun, lemma_completed};
use crate::reconciliation_laws::{bound_source, law_source_sets_are_complete_and_ordered};
use crate::reconciliation_rules::{
    beginning, collection_publication, completion, completion_request, registered_until,
    registration_publication, result_is_canonical, source_set, stored_ticket, Answer,
};
use crate::registration_laws::{generation_at, revision_at};
use crate::text::{before, blank};
use crate::text_laws::{is_space, law_blank_texts_hold_white_space_alone};
use vstd::prelude::*;

verus! {

/// Whether a list of bindings is the source set of a beneficiary, up to a generation if one is
/// given: exactly the bindings of its sources, in strictly ascending byte order of the sources.
pub open spec fn is_source_set(
    list: Seq<Binding>,
    tables: Tables,
    beneficiary_id: Seq<char>,
    generation: Option<i64>,
) -> bool {
    &&& forall|binding: Binding| #[trigger]
        list.contains(binding) <==> exists|k: int|
            0 <= k < tables.sources.len() && (#[trigger] tables.sources[k]).binding == binding
                && binding.beneficiary_id == beneficiary_id && (generation matches Some(last) ==> 1
                <= tables.sources[k].registration_source_set_generation <= last)
    &&& forall|i: int, j: int|
        0 <= i < j < list.len() ==> before(
            (#[trigger] list[i]).source_id,
            (#[trigger] list[j]).source_id,
        )
}

/// The source set of a beneficiary holds all of its sources and no others.
pub proof fn law_source_sets_hold_every_source(
    tables: Tables,
    beneficiary_id: Seq<char>,
    generation: Option<i64>,
)
    requires
        exclusive(tables.sources),
    ensures
        is_source_set(
            source_set(tables, beneficiary_id, generation),
            tables,
            beneficiary_id,
            generation,
        ),
{
    let list = source_set(tables, beneficiary_id, generation);
    let wanted = registered_until(beneficiary_id, generation);
    law_source_sets_are_complete_and_ordered(tables, beneficiary_id, generation);
    assert forall|binding: Binding| #[trigger] list.contains(binding) <==> exists|k: int|
        0 <= k < tables.sources.len() && (#[trigger] tables.sources[k]).binding == binding
            && binding.beneficiary_id == beneficiary_id && (generation matches Some(last) ==> 1
            <= tables.sources[k].registration_source_set_generation <= last) by {
        assert forall|k: int| 0 <= k < tables.sources.len() implies wanted(
            #[trigger] tables.sources[k],
        ) == (tables.sources[k].binding.beneficiary_id == beneficiary_id && (
        generation matches Some(last) ==> 1 <= tables.sources[k].registration_source_set_generation
            <= last)) by {}
        if list.contains(binding) {
            let k = choose|k: int|
                0 <= k < tables.sources.len() && wanted(#[trigger] tables.sources[k])
                    && tables.sources[k].binding == binding;
            assert(tables.sources[k].binding == binding);
        }
        if exists|k: int|
            0 <= k < tables.sources.len() && (#[trigger] tables.sources[k]).binding == binding
                && binding.beneficiary_id == beneficiary_id && (generation matches Some(last) ==> 1
                <= tables.sources[k].registration_source_set_generation <= last) {
            let k = choose|k: int|
                0 <= k < tables.sources.len() && (#[trigger] tables.sources[k]).binding == binding
                    && binding.beneficiary_id == beneficiary_id && (generation matches Some(last)
                    ==> 1 <= tables.sources[k].registration_source_set_generation <= last);
            assert(wanted(tables.sources[k]));
        }
    }
    assert forall|i: int, j: int| 0 <= i < j < list.len() implies before(
        (#[trigger] list[i]).source_id,
        (#[trigger] list[j]).source_id,
    ) by {
        assert(before((bound_source())(list[i]), (bound_source())(list[j])));
    }
}

/// Whether a status has the name that stands in a row.
pub open spec fn is_written_as(status: CollectionStatus, name: Seq<char>) -> bool {
    match status {
        CollectionStatus::Pending => name == "pending"@,
        CollectionStatus::Superseded => name == "superseded"@,
        CollectionStatus::Completed => name == "completed"@,
    }
}

/// Whether the stored result of a completed attempt is one that collecting its own entries gives.
pub open spec fn is_own_result(row: Attempt, bindings: Seq<Binding>) -> bool {
    &&& row.projection_revision is Some
    &&& row.aggregate_evidence_reference is Some
    &&& row.canonical_result is Some
    &&& row.canonical_result->0.aggregate_evidence_reference
        == row.aggregate_evidence_reference->0
    &&& collection(
        row.beneficiary_id,
        bindings,
        row.canonical_result->0.sources,
        row.aggregate_evidence_reference->0,
    ) is Ok
    &&& collection(
        row.beneficiary_id,
        bindings,
        row.canonical_result->0.sources,
        row.aggregate_evidence_reference->0,
    )->Ok_0.0 == row.canonical_result->0
}

/// A stored attempt is trusted exactly if its status is known, the bindings that it snapshot are
/// readable and are the source set of its generation, one for each generation, and, where it is
/// completed, its result is its own. Its ticket then says what the row says. What cannot be trusted
/// is reported by what is wrong first.
pub proof fn law_stored_attempts_are_read_back(tables: Tables, row: Attempt)
    ensures
        ({
            let answer = stored_ticket(tables, row);
            let known = row.status == "pending"@ || row.status == "superseded"@ || row.status
                == "completed"@;
            let registered = source_set(
                tables,
                row.beneficiary_id,
                Some(row.source_set_generation),
            );
            &&& !known ==> answer == Err::<Ticket, ReconciliationFault>(
                ReconciliationFault::CollectionConflict,
            )
            &&& known ==> match row.source_bindings {
                Err(detail) => answer == Err::<Ticket, ReconciliationFault>(
                    ReconciliationFault::Serialization(detail),
                ),
                Ok(bindings) => {
                    let whole = bindings == registered && registered.len()
                        == row.source_set_generation;
                    &&& bindings.len() == 0 ==> answer == Err::<Ticket, ReconciliationFault>(
                        ReconciliationFault::CorruptAttempt(CorruptAttemptReason::BindingShape),
                    )
                    &&& bindings.len() > 0 && !whole ==> answer == Err::<
                        Ticket,
                        ReconciliationFault,
                    >(ReconciliationFault::CorruptAttempt(CorruptAttemptReason::BindingSourceSet))
                    &&& bindings.len() > 0 && whole && row.status == "completed"@ && !is_own_result(
                        row,
                        bindings,
                    ) ==> answer == Err::<Ticket, ReconciliationFault>(
                        ReconciliationFault::CorruptAttempt(CorruptAttemptReason::ResultCanonical),
                    )
                    &&& bindings.len() > 0 && whole && (row.status == "completed"@
                        ==> is_own_result(row, bindings)) ==> {
                        &&& answer matches Ok(ticket)
                        &&& ticket.beneficiary_id == row.beneficiary_id
                        &&& ticket.attempt_id == row.attempt_id
                        &&& ticket.collection_epoch == row.collection_epoch
                        &&& ticket.source_set_generation == row.source_set_generation
                        &&& ticket.expected_projection_revision == row.expected_projection_revision
                        &&& ticket.source_bindings == bindings
                        &&& is_written_as(ticket.status, row.status)
                        &&& ticket.completed_revision == row.projection_revision
                    }
                },
            }
        }),
{
    lemma_status_names();
    if let Ok(bindings) = row.source_bindings {
        assert(result_is_canonical(row, bindings) == is_own_result(row, bindings));
    }
}

/// Whether a beneficiary has a registered source.
pub open spec fn has_a_source(tables: Tables, beneficiary_id: Seq<char>) -> bool {
    exists|k: int|
        0 <= k < tables.sources.len() && (#[trigger] tables.sources[k]).binding.beneficiary_id
            == beneficiary_id
}

/// The collections that have begun for a beneficiary.
pub open spec fn epoch_at(tables: Tables, beneficiary_id: Seq<char>) -> i64 {
    match coordinator_of(tables, beneficiary_id) {
        Some(coordinator) => coordinator.collection_epoch,
        None => 0,
    }
}

proof fn lemma_with_a_source(tables: Tables, beneficiary_id: Seq<char>)
    requires
        kept(tables),
    ensures
        has_a_source(tables, beneficiary_id) ==> {
            &&& coordinator_of(tables, beneficiary_id) is Some
            &&& generation_at(tables, beneficiary_id) > 0
        },
        has_a_source(tables, beneficiary_id) <==> source_set(
            tables,
            beneficiary_id,
            None,
        ).len() > 0,
{
    let list = source_set(tables, beneficiary_id, None);
    assert(sources_kept(tables, beneficiary_id));
    law_source_sets_hold_every_source(tables, beneficiary_id, None);
    if has_a_source(tables, beneficiary_id) {
        let k = choose|k: int|
            0 <= k < tables.sources.len() && (#[trigger] tables.sources[k]).binding.beneficiary_id
                == beneficiary_id;
        assert(list.contains(tables.sources[k].binding));
    }
    if list.len() > 0 {
        assert(list.contains(list[0]));
    }
}

/// A collection is refused before any attempt is looked at exactly where its beneficiary or attempt
/// is blank, or the beneficiary has no coordinator.
pub proof fn law_invalid_beginnings_are_refused(
    tables: Tables,
    beneficiary_id: Seq<char>,
    attempt_id: Seq<char>,
)
    ensures
        ({
            let answer = beginning(tables, beneficiary_id, attempt_id);
            &&& blank(beneficiary_id) ==> answer == Err::<Answer<Ticket>, ReconciliationFault>(
                ReconciliationFault::InvalidSource("beneficiary_id must not be empty"@),
            )
            &&& !blank(beneficiary_id) && blank(attempt_id) ==> answer == Err::<
                Answer<Ticket>,
                ReconciliationFault,
            >(ReconciliationFault::EmptyAttemptId)
            &&& !blank(beneficiary_id) && !blank(attempt_id) && coordinator_of(
                tables,
                beneficiary_id,
            ) is None ==> answer == Err::<Answer<Ticket>, ReconciliationFault>(
                ReconciliationFault::NoSources,
            )
        }),
{
    reveal_strlit("beneficiary_id");
    reveal_strlit(" must not be empty");
    reveal_strlit("beneficiary_id must not be empty");
    assert("beneficiary_id"@ + " must not be empty"@ =~= "beneficiary_id must not be empty"@);
}

/// An attempt that is known is answered with its own ticket and nothing is written, or with what is
/// wrong with its row.
pub proof fn law_known_attempts_are_answered(
    tables: Tables,
    beneficiary_id: Seq<char>,
    attempt_id: Seq<char>,
    row: Attempt,
)
    requires
        !blank(beneficiary_id),
        !blank(attempt_id),
        coordinator_of(tables, beneficiary_id) is Some,
        attempt_of(tables, beneficiary_id, attempt_id) == Some(row),
    ensures
        match stored_ticket(tables, row) {
            Ok(ticket) => {
                &&& beginning(tables, beneficiary_id, attempt_id) matches Ok(answer)
                &&& answer.receipt == ticket
                &&& answer.writes.len() == 0
            },
            Err(f) => beginning(tables, beneficiary_id, attempt_id) == Err::<
                Answer<Ticket>,
                ReconciliationFault,
            >(f),
        },
{
}

/// An attempt that is new begins exactly if its beneficiary has sources and a generation, and an
/// epoch is left, whatever the tables hold beside.
pub proof fn law_new_attempts_are_answered(
    tables: Tables,
    beneficiary_id: Seq<char>,
    attempt_id: Seq<char>,
)
    requires
        !blank(beneficiary_id),
        !blank(attempt_id),
        coordinator_of(tables, beneficiary_id) is Some,
        attempt_of(tables, beneficiary_id, attempt_id) is None,
    ensures
        ({
            let answer = beginning(tables, beneficiary_id, attempt_id);
            let sources = source_set(tables, beneficiary_id, None);
            let generation = generation_at(tables, beneficiary_id);
            let epoch = epoch_at(tables, beneficiary_id);
            &&& sources.len() == 0 || generation == 0 ==> answer == Err::<
                Answer<Ticket>,
                ReconciliationFault,
            >(ReconciliationFault::NoSources)
            &&& sources.len() > 0 && generation != 0 && epoch == i64::MAX ==> answer == Err::<
                Answer<Ticket>,
                ReconciliationFault,
            >(ReconciliationFault::EpochOverflow)
            &&& sources.len() > 0 && generation != 0 && epoch < i64::MAX ==> {
                &&& answer matches Ok(a)
                &&& a.receipt.beneficiary_id == beneficiary_id
                &&& a.receipt.attempt_id == attempt_id
                &&& a.receipt.collection_epoch == epoch + 1
                &&& a.receipt.source_set_generation == generation
                &&& a.receipt.expected_projection_revision == revision_at(tables, beneficiary_id)
                &&& a.receipt.source_bindings == sources
                &&& a.receipt.status == CollectionStatus::Pending
                &&& a.receipt.completed_revision is None
            }
        }),
{
}

/// A collection can always begin, whatever collections began, completed or were superseded before:
/// the beneficiary has a source, the attempt is new, and an epoch is left. The ticket is of the
/// next epoch, and snapshots every source, their generation and the current revision. Without a
/// source there is nothing to collect, and without an epoch no collection.
pub proof fn law_collections_can_begin(
    tables: Tables,
    beneficiary_id: Seq<char>,
    attempt_id: Seq<char>,
)
    requires
        kept(tables),
        !blank(beneficiary_id),
        !blank(attempt_id),
        attempt_of(tables, beneficiary_id, attempt_id) is None,
    ensures
        ({
            let answer = beginning(tables, beneficiary_id, attempt_id);
            &&& !has_a_source(tables, beneficiary_id) ==> answer == Err::<
                Answer<Ticket>,
                ReconciliationFault,
            >(ReconciliationFault::NoSources)
            &&& has_a_source(tables, beneficiary_id) && epoch_at(tables, beneficiary_id) == i64::MAX
                ==> answer == Err::<Answer<Ticket>, ReconciliationFault>(
                ReconciliationFault::EpochOverflow,
            )
            &&& has_a_source(tables, beneficiary_id) && epoch_at(tables, beneficiary_id) < i64::MAX
                ==> {
                &&& answer matches Ok(a)
                &&& a.receipt.beneficiary_id == beneficiary_id
                &&& a.receipt.attempt_id == attempt_id
                &&& a.receipt.collection_epoch == epoch_at(tables, beneficiary_id) + 1
                &&& a.receipt.source_set_generation == generation_at(tables, beneficiary_id)
                &&& a.receipt.expected_projection_revision == revision_at(tables, beneficiary_id)
                &&& is_source_set(a.receipt.source_bindings, tables, beneficiary_id, None)
                &&& a.receipt.status == CollectionStatus::Pending
                &&& a.receipt.completed_revision is None
            }
        }),
{
    lemma_with_a_source(tables, beneficiary_id);
    law_source_sets_hold_every_source(tables, beneficiary_id, None);
}

/// What the beginning of a new attempt makes of the tables: exactly one attempt is added, as the
/// ticket says and pending, every attempt of the beneficiary that was pending is superseded, and
/// the coordinator runs the new one. Nothing else changes.
pub proof fn law_beginning_adds_the_attempt(
    tables: Tables,
    beneficiary_id: Seq<char>,
    attempt_id: Seq<char>,
)
    requires
        kept(tables),
        begins(tables, beneficiary_id, attempt_id),
    ensures
        ({
            let b = beneficiary_id;
            let answer = beginning(tables, b, attempt_id)->Ok_0;
            let ticket = answer.receipt;
            let after = applied_all(tables, answer.writes);
            let n = tables.attempts.len() as int;
            &&& after.heads == tables.heads
            &&& after.revisions == tables.revisions
            &&& after.sources == tables.sources
            &&& after.attempts.len() == n + 1
            &&& after.attempts[n] == (Attempt {
                beneficiary_id: b,
                attempt_id,
                collection_epoch: ticket.collection_epoch,
                source_set_generation: ticket.source_set_generation,
                expected_projection_revision: ticket.expected_projection_revision,
                source_bindings: Ok(ticket.source_bindings),
                status: "pending"@,
                aggregate_evidence_reference: None,
                canonical_result: None,
                projection_revision: None,
            })
            &&& forall|k: int|
                0 <= k < n ==> {
                    let attempt = tables.attempts[k];
                    let superseded = attempt.beneficiary_id == b && attempt.status == "pending"@;
                    &&& superseded ==> (#[trigger] after.attempts[k]) == (Attempt {
                        status: "superseded"@,
                        ..attempt
                    })
                    &&& !superseded ==> after.attempts[k] == attempt
                }
            &&& coordinator_of(tables, b) matches Some(before)
            &&& coordinator_of(after, b) matches Some(now)
            &&& now.beneficiary_id == b
            &&& now.source_set_generation == before.source_set_generation
            &&& now.collection_epoch == before.collection_epoch + 1
            &&& now.current_attempt_id == Some(attempt_id)
            &&& forall|other: Seq<char>|
                other != b ==> #[trigger] coordinator_of(after, other) == coordinator_of(
                    tables,
                    other,
                )
        }),
{
    let b = beneficiary_id;
    let answer = beginning(tables, b, attempt_id)->Ok_0;
    let after = applied_all(tables, answer.writes);
    let n = tables.attempts.len() as int;
    lemma_begun(tables, b, attempt_id);
    let before = coordinator_of(tables, b)->0;
    assert(attempts_kept(tables, b));
    assert forall|k: int| 0 <= k < n implies {
        let attempt = tables.attempts[k];
        let superseded = attempt.beneficiary_id == b && attempt.status == "pending"@;
        &&& superseded ==> (#[trigger] after.attempts[k]) == (Attempt {
            status: "superseded"@,
            ..attempt
        })
        &&& !superseded ==> after.attempts[k] == attempt
    } by {
        let attempt = tables.attempts[k];
        if attempt.beneficiary_id == b && attempt.status == "pending"@ {
            assert(attempt_kept(tables, tables.attempts[k]));
        }
    }
}

/// A collection publishes under an operation of its own, which no registration has.
pub proof fn law_collections_publish_under_their_own_name(
    attempt_id: Seq<char>,
    operation_id: Seq<char>,
)
    ensures
        collection_publication(attempt_id) == "collection:"@ + attempt_id,
        collection_publication(attempt_id) != registration_publication(operation_id),
{
    reveal_strlit("collection:");
    reveal_strlit("source-registration:");
    assert(collection_publication(attempt_id)[0] == 'c');
    assert(registration_publication(operation_id)[0] == 's');
}

/// Whether a ticket is the one that a row stands for.
pub open spec fn is_ticket_of(ticket: Ticket, row: Attempt) -> bool {
    &&& ticket.beneficiary_id == row.beneficiary_id
    &&& ticket.collection_epoch == row.collection_epoch
    &&& ticket.source_set_generation == row.source_set_generation
    &&& ticket.expected_projection_revision == row.expected_projection_revision
    &&& row.source_bindings == Ok::<Seq<Binding>, Seq<char>>(ticket.source_bindings)
}

/// A completion is refused before its batch is looked at exactly where something of it is blank,
/// the beneficiary has no coordinator, or the attempt is unknown.
pub proof fn law_invalid_completions_are_refused(
    tables: Tables,
    ticket: Ticket,
    aggregate_evidence_reference: Seq<char>,
    observations: Seq<Observation>,
)
    ensures
        ({
            let answer = completion(tables, ticket, aggregate_evidence_reference, observations);
            let b = ticket.beneficiary_id;
            let named = !blank(b) && !blank(ticket.attempt_id) && !blank(
                aggregate_evidence_reference,
            );
            &&& blank(b) ==> answer == Err::<Answer<Completion>, ReconciliationFault>(
                ReconciliationFault::InvalidSource("beneficiary_id must not be empty"@),
            )
            &&& !blank(b) && blank(ticket.attempt_id) ==> answer == Err::<
                Answer<Completion>,
                ReconciliationFault,
            >(ReconciliationFault::EmptyAttemptId)
            &&& !blank(b) && !blank(ticket.attempt_id) && blank(aggregate_evidence_reference)
                ==> answer == Err::<Answer<Completion>, ReconciliationFault>(
                ReconciliationFault::InvalidSource(
                    "aggregate_evidence_reference must not be empty"@,
                ),
            )
            &&& named && coordinator_of(tables, b) is None ==> answer == Err::<
                Answer<Completion>,
                ReconciliationFault,
            >(ReconciliationFault::NoSources)
            &&& named && coordinator_of(tables, b) is Some && attempt_of(
                tables,
                b,
                ticket.attempt_id,
            ) is None ==> answer == Err::<Answer<Completion>, ReconciliationFault>(
                ReconciliationFault::AttemptMissing,
            )
        }),
{
    reveal_strlit("beneficiary_id");
    reveal_strlit("aggregate_evidence_reference");
    reveal_strlit(" must not be empty");
    reveal_strlit("beneficiary_id must not be empty");
    reveal_strlit("aggregate_evidence_reference must not be empty");
    assert("beneficiary_id"@ + " must not be empty"@ =~= "beneficiary_id must not be empty"@);
    assert("aggregate_evidence_reference"@ + " must not be empty"@
        =~= "aggregate_evidence_reference must not be empty"@);
}

/// How the completion of a known attempt is answered.
///
/// A ticket that is not the attempt's is refused. A completed attempt is answered with its revision
/// if the batch combines to the stored result under the stored evidence, and refused otherwise. A
/// batch that is refused is refused for its own reason. A superseded attempt is refused. A pending
/// one is completed if the current revision is the one that the ticket expected, whatever began,
/// completed or was superseded before, and refused with both revisions otherwise.
pub proof fn law_completions_are_answered(
    tables: Tables,
    ticket: Ticket,
    aggregate_evidence_reference: Seq<char>,
    observations: Seq<Observation>,
)
    requires
        kept(tables),
        !blank(ticket.beneficiary_id),
        !blank(ticket.attempt_id),
        !blank(aggregate_evidence_reference),
        attempt_of(tables, ticket.beneficiary_id, ticket.attempt_id) is Some,
    ensures
        ({
            let b = ticket.beneficiary_id;
            let answer = completion(tables, ticket, aggregate_evidence_reference, observations);
            let row = attempt_of(tables, b, ticket.attempt_id)->0;
            let batch = collection(
                b,
                ticket.source_bindings,
                observations,
                aggregate_evidence_reference,
            );
            let now = revision_at(tables, b);
            &&& !is_ticket_of(ticket, row) ==> answer == Err::<
                Answer<Completion>,
                ReconciliationFault,
            >(ReconciliationFault::CollectionConflict)
            &&& is_ticket_of(ticket, row) && row.status == "completed"@ ==> {
                let same = batch is Ok && row.aggregate_evidence_reference == Some(
                    aggregate_evidence_reference,
                ) && row.canonical_result == Some(batch->Ok_0.0);
                &&& same ==> {
                    &&& answer matches Ok(a)
                    &&& a.receipt.attempt_id == ticket.attempt_id
                    &&& Some(a.receipt.revision) == row.projection_revision
                    &&& a.receipt.outcome == PublicationOutcome::AlreadyApplied
                    &&& a.writes.len() == 0
                }
                &&& !same ==> answer == Err::<Answer<Completion>, ReconciliationFault>(
                    ReconciliationFault::OperationConflict,
                )
            }
            &&& is_ticket_of(ticket, row) && row.status != "completed"@ && batch is Err ==> answer
                == Err::<Answer<Completion>, ReconciliationFault>(batch->Err_0)
            &&& is_ticket_of(ticket, row) && row.status == "superseded"@ && batch is Ok ==> answer
                == Err::<Answer<Completion>, ReconciliationFault>(
                ReconciliationFault::AttemptSuperseded,
            )
            &&& is_ticket_of(ticket, row) && row.status == "pending"@ && batch is Ok ==> {
                &&& now != ticket.expected_projection_revision ==> answer == Err::<
                    Answer<Completion>,
                    ReconciliationFault,
                >(
                    ReconciliationFault::Store(
                        StoreFault::RevisionConflict {
                            expected: ticket.expected_projection_revision,
                            actual: now,
                        },
                    ),
                )
                &&& now == ticket.expected_projection_revision && now != Some(i64::MAX)
                    && publication_of(tables, b, "collection:"@ + ticket.attempt_id) is None ==> {
                    &&& answer matches Ok(a)
                    &&& a.receipt.attempt_id == ticket.attempt_id
                    &&& a.receipt.outcome == PublicationOutcome::Applied
                    &&& now matches Some(n) ==> a.receipt.revision == n + 1
                    &&& now is None ==> a.receipt.revision == 1
                }
            }
        }),
{
    let b = ticket.beneficiary_id;
    let row = attempt_of(tables, b, ticket.attempt_id)->0;
    let batch = collection(
        b,
        ticket.source_bindings,
        observations,
        aggregate_evidence_reference,
    );
    lemma_status_names();
    law_attempts_are_found(tables, b, ticket.attempt_id);
    let k = choose|k: int| 0 <= k < tables.attempts.len() && #[trigger] tables.attempts[k] == row;
    assert(attempts_kept(tables, b));
    assert(attempt_kept(tables, tables.attempts[k]));
    law_stored_attempts_are_read_back(tables, row);
    if is_ticket_of(ticket, row) && row.status == "pending"@ && batch is Ok {
        let request = completion_request(
            ticket,
            aggregate_evidence_reference,
            batch->Ok_0.1,
        );
        lemma_completion_request(
            tables,
            ticket,
            aggregate_evidence_reference,
            observations,
        );
        assert(projection_kept(tables, b));
        if revision_at(tables, b) == ticket.expected_projection_revision {
            law_valid_publications_are_answered(tables, request);
        }
    }
}

/// An attempt that is settled answers every completion in the same way, whatever the tables hold
/// beside. A row that cannot be trusted is reported, and a ticket that is not the row's refused. A
/// completed attempt is answered with its own revision, and nothing is written, if the batch
/// combines to the stored result under the stored evidence, and is refused otherwise. A superseded
/// one refuses every batch.
pub proof fn law_settled_attempts_are_answered(
    tables: Tables,
    ticket: Ticket,
    aggregate_evidence_reference: Seq<char>,
    observations: Seq<Observation>,
    row: Attempt,
)
    requires
        !blank(ticket.beneficiary_id),
        !blank(ticket.attempt_id),
        !blank(aggregate_evidence_reference),
        coordinator_of(tables, ticket.beneficiary_id) is Some,
        attempt_of(tables, ticket.beneficiary_id, ticket.attempt_id) == Some(row),
    ensures
        ({
            let answer = completion(tables, ticket, aggregate_evidence_reference, observations);
            let batch = collection(
                ticket.beneficiary_id,
                ticket.source_bindings,
                observations,
                aggregate_evidence_reference,
            );
            match stored_ticket(tables, row) {
                Err(f) => answer == Err::<Answer<Completion>, ReconciliationFault>(f),
                Ok(_) => {
                    &&& !is_ticket_of(ticket, row) ==> answer == Err::<
                        Answer<Completion>,
                        ReconciliationFault,
                    >(ReconciliationFault::CollectionConflict)
                    &&& is_ticket_of(ticket, row) && row.status == "completed"@ ==> {
                        let same = batch is Ok && row.aggregate_evidence_reference == Some(
                            aggregate_evidence_reference,
                        ) && row.canonical_result == Some(batch->Ok_0.0);
                        &&& same ==> {
                            &&& answer matches Ok(a)
                            &&& a.receipt.attempt_id == ticket.attempt_id
                            &&& Some(a.receipt.revision) == row.projection_revision
                            &&& a.receipt.outcome == PublicationOutcome::AlreadyApplied
                            &&& a.writes.len() == 0
                        }
                        &&& !same ==> answer == Err::<Answer<Completion>, ReconciliationFault>(
                            ReconciliationFault::OperationConflict,
                        )
                    }
                    &&& is_ticket_of(ticket, row) && row.status == "superseded"@ ==> {
                        &&& batch is Ok ==> answer == Err::<
                            Answer<Completion>,
                            ReconciliationFault,
                        >(ReconciliationFault::AttemptSuperseded)
                        &&& batch is Err ==> answer == Err::<
                            Answer<Completion>,
                            ReconciliationFault,
                        >(batch->Err_0)
                    }
                },
            }
        }),
{
    lemma_status_names();
    law_attempts_are_found(tables, ticket.beneficiary_id, ticket.attempt_id);
    law_stored_attempts_are_read_back(tables, row);
}

/// A completion stands and falls with its publication, whatever the tables hold. A row that cannot
/// be trusted is reported. A pending attempt is refused where the coordinator runs another one, in
/// another epoch or generation, or the current revision is not the expected one. Otherwise what the
/// batch combines to is published, and the receipt names the revision, or the reason of a refusal
/// is handed on.
pub proof fn law_completions_stand_with_their_publication(
    tables: Tables,
    ticket: Ticket,
    aggregate_evidence_reference: Seq<char>,
    observations: Seq<Observation>,
    coordinator: Coordinator,
    row: Attempt,
)
    requires
        !blank(ticket.beneficiary_id),
        !blank(ticket.attempt_id),
        !blank(aggregate_evidence_reference),
        coordinator_of(tables, ticket.beneficiary_id) == Some(coordinator),
        attempt_of(tables, ticket.beneficiary_id, ticket.attempt_id) == Some(row),
    ensures
        ({
            let b = ticket.beneficiary_id;
            let answer = completion(tables, ticket, aggregate_evidence_reference, observations);
            let batch = collection(
                b,
                ticket.source_bindings,
                observations,
                aggregate_evidence_reference,
            );
            let running = coordinator.current_attempt_id == Some(ticket.attempt_id)
                && coordinator.source_set_generation == ticket.source_set_generation
                && coordinator.collection_epoch == ticket.collection_epoch;
            let now = revision_at(tables, b);
            match stored_ticket(tables, row) {
                Err(f) => answer == Err::<Answer<Completion>, ReconciliationFault>(f),
                Ok(_) => is_ticket_of(ticket, row) && row.status == "pending"@ && batch is Ok ==> {
                    &&& !running ==> answer == Err::<Answer<Completion>, ReconciliationFault>(
                        ReconciliationFault::CollectionConflict,
                    )
                    &&& running && now != ticket.expected_projection_revision ==> answer == Err::<
                        Answer<Completion>,
                        ReconciliationFault,
                    >(
                        ReconciliationFault::Store(
                            StoreFault::RevisionConflict {
                                expected: ticket.expected_projection_revision,
                                actual: now,
                            },
                        ),
                    )
                    &&& running && now == ticket.expected_projection_revision ==> match publication(
                        tables,
                        Request {
                            beneficiary_id: b,
                            expected_revision: now,
                            operation_id: "collection:"@ + ticket.attempt_id,
                            evidence_reference: aggregate_evidence_reference,
                            projection: batch->Ok_0.1,
                        },
                    ) {
                        Ok(published) => {
                            &&& answer matches Ok(a)
                            &&& a.receipt.attempt_id == ticket.attempt_id
                            &&& a.receipt.revision == published.receipt.revision
                            &&& a.receipt.outcome == published.receipt.outcome
                        },
                        Err(f) => answer == Err::<Answer<Completion>, ReconciliationFault>(
                            ReconciliationFault::Store(f),
                        ),
                    }
                },
            }
        }),
{
    lemma_status_names();
    law_stored_attempts_are_read_back(tables, row);
}

/// What a completion publishes.
proof fn lemma_completion_request(
    tables: Tables,
    ticket: Ticket,
    aggregate_evidence_reference: Seq<char>,
    observations: Seq<Observation>,
)
    requires
        kept(tables),
        !blank(ticket.beneficiary_id),
        !blank(aggregate_evidence_reference),
        collection(
            ticket.beneficiary_id,
            ticket.source_bindings,
            observations,
            aggregate_evidence_reference,
        ) is Ok,
    ensures
        ({
            let projection = collection(
                ticket.beneficiary_id,
                ticket.source_bindings,
                observations,
                aggregate_evidence_reference,
            )->Ok_0.1;
            let request = completion_request(ticket, aggregate_evidence_reference, projection);
            &&& request == (Request {
                beneficiary_id: ticket.beneficiary_id,
                expected_revision: ticket.expected_projection_revision,
                operation_id: "collection:"@ + ticket.attempt_id,
                evidence_reference: aggregate_evidence_reference,
                projection,
            })
            &&& revision_at(tables, ticket.beneficiary_id) == ticket.expected_projection_revision
                ==> is_valid_request(request)
        }),
{
    let batch = collection(
        ticket.beneficiary_id,
        ticket.source_bindings,
        observations,
        aggregate_evidence_reference,
    );
    let request = completion_request(ticket, aggregate_evidence_reference, batch->Ok_0.1);
    assert(projection_kept(tables, ticket.beneficiary_id));
    reveal_strlit("collection:");
    assert(request.operation_id[0] == 'c');
    law_blank_texts_hold_white_space_alone(request.operation_id);
    assert(!is_space('c'));
    law_collected_facts_are_valid(
        ticket.beneficiary_id,
        ticket.source_bindings,
        observations,
        aggregate_evidence_reference,
    );
}

/// What the completion of a pending attempt makes of the tables: the attempt is completed with what
/// the batch combines to, one revision is added that holds what it publishes, under the attempt's
/// own operation, and the coordinator runs no attempt. Nothing else changes.
pub proof fn law_completing_stores_what_was_collected(
    tables: Tables,
    ticket: Ticket,
    aggregate_evidence_reference: Seq<char>,
    observations: Seq<Observation>,
)
    requires
        kept(tables),
        completes(tables, ticket, aggregate_evidence_reference, observations),
    ensures
        ({
            let b = ticket.beneficiary_id;
            let answer = completion(
                tables,
                ticket,
                aggregate_evidence_reference,
                observations,
            )->Ok_0;
            let after = applied_all(tables, answer.writes);
            let batch = collection(
                b,
                ticket.source_bindings,
                observations,
                aggregate_evidence_reference,
            );
            let row = after.revisions.last();
            &&& batch is Ok
            &&& answer.receipt.outcome == PublicationOutcome::Applied
            &&& after.sources == tables.sources
            &&& after.attempts.len() == tables.attempts.len()
            &&& forall|k: int|
                0 <= k < tables.attempts.len() ==> {
                    let attempt = tables.attempts[k];
                    let finished = attempt.beneficiary_id == b && attempt.attempt_id
                        == ticket.attempt_id && attempt.status == "pending"@;
                    &&& finished ==> (#[trigger] after.attempts[k]) == (Attempt {
                        status: "completed"@,
                        aggregate_evidence_reference: Some(aggregate_evidence_reference),
                        canonical_result: Some(batch->Ok_0.0),
                        projection_revision: Some(answer.receipt.revision),
                        ..attempt
                    })
                    &&& !finished ==> after.attempts[k] == attempt
                }
            &&& after.revisions == tables.revisions.push(row)
            &&& row.beneficiary_id == b
            &&& row.revision == answer.receipt.revision
            &&& row.operation_id == "collection:"@ + ticket.attempt_id
            &&& row.expected_revision == ticket.expected_projection_revision
            &&& row.evidence_reference == aggregate_evidence_reference
            &&& holds(row, batch->Ok_0.1)
            &&& revision_at(after, b) == Some(answer.receipt.revision)
            &&& coordinator_of(tables, b) matches Some(before)
            &&& coordinator_of(after, b) matches Some(now)
            &&& now.source_set_generation == before.source_set_generation
            &&& now.collection_epoch == before.collection_epoch
            &&& now.current_attempt_id is None
            &&& forall|other: Seq<char>|
                other != b ==> #[trigger] coordinator_of(after, other) == coordinator_of(
                    tables,
                    other,
                )
        }),
{
    let b = ticket.beneficiary_id;
    let batch = collection(
        b,
        ticket.source_bindings,
        observations,
        aggregate_evidence_reference,
    );
    let answer = completion(tables, ticket, aggregate_evidence_reference, observations)->Ok_0;
    let after = applied_all(tables, answer.writes);
    lemma_completed(tables, ticket, aggregate_evidence_reference, observations);
    lemma_completion_request(tables, ticket, aggregate_evidence_reference, observations);
    let request = completion_request(ticket, aggregate_evidence_reference, batch->Ok_0.1);
    law_publishing_adds_what_was_requested(tables, request);
    assert(projection_kept(tables, b));
    lemma_current_publication_is_new(tables, request);
    let direct = applied_all(tables, publication(tables, request)->Ok_0.writes);
    assert(head_of(after, b) == head_of(direct, b));
    law_results_restate_every_observation(
        b,
        ticket.source_bindings,
        observations,
        aggregate_evidence_reference,
    );
}

} // verus!
