//! What every operation keeps of the coverage tables.

use crate::cloud_coverage_reconciliation::{Binding, Observation, Ticket};
use crate::cloud_coverage_store::{
    next_revision, publication, revision_now, PublicationOutcome, Request,
};
use crate::collection_laws::law_results_are_their_own_collection;
use crate::collection_rules::collection;
use crate::coverage_lookups::{
    attempt_of, claiming, coordinator_of, head_of, publication_of, published_by, registered_by,
    registration_of,
};
use crate::coverage_tables::{
    applied_all, attempt_with, completed, pending_attempt, pending_of, source_with, superseded,
    Attempt, Coordinator, Revision, Source, Tables,
};
use crate::reconciliation_effects::{
    begun_attempt, lemma_begun, lemma_completed, lemma_publication_writes, lemma_registered,
    registered_source, registers, without_current,
};
use crate::reconciliation_rules::{
    beginning, bindings_in_order, completion, completion_request, generation_now, place,
    registered_until, registration, registration_request, result_is_canonical, source_set,
    stored_ticket,
};
use crate::rows::{first_match, lemma_found, lemma_search_push, lemma_search_updated};
use crate::store_laws::lemma_published;
use vstd::prelude::*;

verus! {

/// Where a source belongs is in the list.
pub proof fn lemma_place_in_range(list: Seq<Binding>, source_id: Seq<char>)
    ensures
        0 <= place(list, source_id) <= list.len(),
    decreases list.len(),
{
    if list.len() > 0 {
        lemma_place_in_range(list.drop_last(), source_id);
    }
}

/// The bindings of one more source.
pub proof fn lemma_bindings_push(rows: Seq<Source>, row: Source, wanted: spec_fn(Source) -> bool)
    ensures
        !wanted(row) ==> bindings_in_order(rows.push(row), wanted) == bindings_in_order(
            rows,
            wanted,
        ),
        wanted(row) ==> bindings_in_order(rows.push(row), wanted).len() == bindings_in_order(
            rows,
            wanted,
        ).len() + 1,
{
    assert(rows.push(row).drop_last() =~= rows);
    lemma_place_in_range(bindings_in_order(rows, wanted), row.binding.source_id);
}

/// The bindings depend on which of the rows are wanted.
pub proof fn lemma_bindings_agree(
    rows: Seq<Source>,
    a: spec_fn(Source) -> bool,
    b: spec_fn(Source) -> bool,
)
    requires
        forall|i: int| 0 <= i < rows.len() ==> a(#[trigger] rows[i]) == b(rows[i]),
    ensures
        bindings_in_order(rows, a) == bindings_in_order(rows, b),
    decreases rows.len(),
{
    if rows.len() > 0 {
        let front = rows.drop_last();
        assert forall|i: int| 0 <= i < front.len() implies a(#[trigger] front[i]) == b(
            front[i],
        ) by {
            assert(front[i] == rows[i]);
        }
        lemma_bindings_agree(front, a, b);
        assert(a(rows[rows.len() - 1]) == b(rows[rows.len() - 1]));
    }
}

/// Whether every source and every allocation is registered once.
pub open spec fn exclusive(sources: Seq<Source>) -> bool {
    forall|i: int, j: int|
        0 <= i < j < sources.len() ==> {
            &&& (#[trigger] sources[i]).binding.source_id != (
            #[trigger] sources[j]).binding.source_id
            &&& !(sources[i].binding.provider_namespace == sources[j].binding.provider_namespace
                && sources[i].binding.external_allocation_reference
                == sources[j].binding.external_allocation_reference)
        }
}

/// Whether a beneficiary's head points to the latest of its revisions.
pub open spec fn projection_kept(tables: Tables, beneficiary_id: Seq<char>) -> bool {
    &&& head_of(tables, beneficiary_id) matches Some(head) ==> head.current_revision is Some
    &&& revision_now(tables, beneficiary_id) matches Some(now) ==> now >= 1
    &&& forall|k: int|
        0 <= k < tables.revisions.len() && (#[trigger] tables.revisions[k]).beneficiary_id
            == beneficiary_id ==> revision_kept(
            tables.revisions[k],
            revision_now(tables, beneficiary_id),
        )
}

/// Whether a revision follows the one that it expected and is not later than the current one.
pub open spec fn revision_kept(row: Revision, current: Option<i64>) -> bool {
    &&& row.revision == next_revision(row.expected_revision)
    &&& current matches Some(now)
    &&& 1 <= row.revision <= now
}

/// Whether a beneficiary's sources are numbered by the generations of its source set.
pub open spec fn sources_kept(tables: Tables, beneficiary_id: Seq<char>) -> bool {
    let generation = generation_now(tables, beneficiary_id);
    &&& 0 <= generation
    &&& generation > 0 ==> revision_now(tables, beneficiary_id) is Some
    &&& forall|k: int|
        0 <= k < tables.sources.len() && (#[trigger] tables.sources[k]).binding.beneficiary_id
            == beneficiary_id ==> {
            &&& 1 <= tables.sources[k].registration_source_set_generation <= generation
            &&& tables.sources[k].registration_projection_revision is Some
        }
    &&& forall|g: i64|
        0 <= g <= generation ==> #[trigger] source_set(tables, beneficiary_id, Some(g)).len() == g
}

/// Whether a stored attempt of a beneficiary can be trusted, and is pending only as the current
/// one of its coordinator.
pub open spec fn attempt_kept(tables: Tables, row: Attempt) -> bool {
    &&& stored_ticket(tables, row) is Ok
    &&& coordinator_of(tables, row.beneficiary_id) matches Some(coordinator)
    &&& row.source_set_generation <= coordinator.source_set_generation
    &&& row.status == "pending"@ ==> {
        &&& coordinator.current_attempt_id == Some(row.attempt_id)
        &&& coordinator.source_set_generation == row.source_set_generation
        &&& coordinator.collection_epoch == row.collection_epoch
    }
}

/// Whether the stored attempts of a beneficiary can be trusted, and the current one of its
/// coordinator is pending.
pub open spec fn attempts_kept(tables: Tables, beneficiary_id: Seq<char>) -> bool {
    &&& forall|k: int|
        0 <= k < tables.attempts.len() && (#[trigger] tables.attempts[k]).beneficiary_id
            == beneficiary_id ==> attempt_kept(tables, tables.attempts[k])
    &&& coordinator_of(tables, beneficiary_id) matches Some(coordinator) ==> (
    coordinator.current_attempt_id matches Some(attempt_id) ==> (attempt_of(
        tables,
        beneficiary_id,
        attempt_id,
    ) matches Some(row) && row.status == "pending"@))
}

/// Whether the tables are as the operations keep them.
pub open spec fn kept(tables: Tables) -> bool {
    &&& exclusive(tables.sources)
    &&& forall|b: Seq<char>| #[trigger] projection_kept(tables, b)
    &&& forall|b: Seq<char>| #[trigger] sources_kept(tables, b)
    &&& forall|b: Seq<char>| #[trigger] attempts_kept(tables, b)
}

/// Tables without rows are as the operations keep them.
pub proof fn law_empty_tables_are_kept(tables: Tables)
    requires
        tables.heads.len() == 0,
        tables.revisions.len() == 0,
        tables.coordinators.len() == 0,
        tables.sources.len() == 0,
        tables.attempts.len() == 0,
    ensures
        kept(tables),
{
    assert forall|b: Seq<char>| #[trigger] projection_kept(tables, b) by {}
    assert forall|b: Seq<char>| #[trigger] sources_kept(tables, b) by {
        assert(generation_now(tables, b) == 0);
        assert(source_set(tables, b, Some(0)).len() == 0);
    }
    assert forall|b: Seq<char>| #[trigger] attempts_kept(tables, b) by {
        assert(coordinator_of(tables, b) is None);
    }
}

/// A publication that expects the current revision of a kept beneficiary repeats no other.
pub proof fn lemma_current_publication_is_new(tables: Tables, request: Request)
    requires
        projection_kept(tables, request.beneficiary_id),
        request.expected_revision == revision_now(tables, request.beneficiary_id),
        publication(tables, request) is Ok,
    ensures
        publication(tables, request)->Ok_0.receipt.outcome == PublicationOutcome::Applied,
{
    lemma_found(
        tables.revisions,
        published_by(request.beneficiary_id, request.operation_id),
    );
    if let Some(row) = publication_of(tables, request.beneficiary_id, request.operation_id) {
        let k = choose|k: int| 0 <= k < tables.revisions.len() && tables.revisions[k] == row;
        assert(revision_kept(
            tables.revisions[k],
            revision_now(tables, request.beneficiary_id),
        ));
    }
}

/// A publication of a kept beneficiary that repeats another writes nothing.
proof fn lemma_replay_writes_nothing(tables: Tables, request: Request)
    requires
        projection_kept(tables, request.beneficiary_id),
        publication(tables, request) matches Ok(p) && p.receipt.outcome
            == PublicationOutcome::AlreadyApplied,
    ensures
        head_of(tables, request.beneficiary_id) is Some,
        applied_all(tables, publication(tables, request)->Ok_0.writes) == tables,
{
    lemma_found(
        tables.revisions,
        published_by(request.beneficiary_id, request.operation_id),
    );
    let row = publication_of(tables, request.beneficiary_id, request.operation_id)->0;
    let k = choose|k: int| 0 <= k < tables.revisions.len() && tables.revisions[k] == row;
    assert(tables.revisions[k].beneficiary_id == request.beneficiary_id);
    lemma_publication_writes(tables, request);
}

/// What an accepted publication makes of kept projections.
proof fn lemma_projections_stay_kept(tables: Tables, after: Tables, request: Request)
    requires
        forall|b: Seq<char>| #[trigger] projection_kept(tables, b),
        publication(tables, request) is Ok,
        after.heads == applied_all(tables, publication(tables, request)->Ok_0.writes).heads,
        after.revisions == applied_all(tables, publication(tables, request)->Ok_0.writes).revisions,
    ensures
        forall|b: Seq<char>| #[trigger] projection_kept(after, b),
        forall|b: Seq<char>| #[trigger]
            revision_now(tables, b) is Some ==> revision_now(after, b) is Some,
        revision_now(after, request.beneficiary_id) is Some,
{
    let p = publication(tables, request)->Ok_0;
    assert(projection_kept(tables, request.beneficiary_id));
    if p.receipt.outcome == PublicationOutcome::AlreadyApplied {
        lemma_replay_writes_nothing(tables, request);
        assert forall|b: Seq<char>| #[trigger] projection_kept(after, b) by {
            assert(projection_kept(tables, b));
        }
        assert(revision_now(after, request.beneficiary_id) is Some);
    } else {
        let row = lemma_published(tables, request);
        let direct = applied_all(tables, p.writes);
        assert forall|b: Seq<char>| #[trigger] projection_kept(after, b) by {
            assert(projection_kept(tables, b));
            assert(head_of(after, b) == head_of(direct, b));
            assert forall|k: int|
                0 <= k < after.revisions.len() && (#[trigger] after.revisions[k]).beneficiary_id
                    == b implies revision_kept(
                after.revisions[k],
                revision_now(after, b),
            ) by {
                if k < tables.revisions.len() {
                    assert(after.revisions[k] == tables.revisions[k]);
                }
            }
        }
        assert forall|b: Seq<char>| #[trigger]
            revision_now(tables, b) is Some implies revision_now(after, b) is Some by {
            assert(head_of(after, b) == head_of(direct, b));
        }
        assert(head_of(after, request.beneficiary_id) == head_of(direct, request.beneficiary_id));
    }
}

/// An accepted publication keeps the tables.
pub proof fn law_publishing_keeps_the_tables(tables: Tables, request: Request)
    requires
        kept(tables),
        publication(tables, request) is Ok,
    ensures
        kept(applied_all(tables, publication(tables, request)->Ok_0.writes)),
{
    let after = applied_all(tables, publication(tables, request)->Ok_0.writes);
    lemma_projections_stay_kept(tables, after, request);
    lemma_publication_writes(tables, request);
    assert forall|b: Seq<char>| #[trigger] sources_kept(after, b) by {
        assert(sources_kept(tables, b));
        assert(revision_now(tables, b) is Some ==> revision_now(after, b) is Some);
        assert forall|g: i64| 0 <= g <= generation_now(after, b) implies #[trigger] source_set(
            after,
            b,
            Some(g),
        ).len() == g by {
            assert(source_set(tables, b, Some(g)).len() == g);
        }
    }
    assert forall|b: Seq<char>| #[trigger] attempts_kept(after, b) by {
        assert(attempts_kept(tables, b));
        assert forall|k: int|
            0 <= k < after.attempts.len() && (#[trigger] after.attempts[k]).beneficiary_id
                == b implies attempt_kept(after, after.attempts[k]) by {
            assert(attempt_kept(tables, tables.attempts[k]));
            assert(stored_ticket(after, after.attempts[k]) == stored_ticket(
                tables,
                tables.attempts[k],
            ));
        }
    }
}

/// The source set of a generation that is past does not change with a later source.
proof fn lemma_past_source_set(
    tables: Tables,
    after: Tables,
    row: Source,
    beneficiary_id: Seq<char>,
    g: i64,
)
    requires
        after.sources == tables.sources.push(row),
        row.binding.beneficiary_id != beneficiary_id || g < row.registration_source_set_generation,
    ensures
        source_set(after, beneficiary_id, Some(g)) == source_set(tables, beneficiary_id, Some(g)),
{
    lemma_bindings_push(tables.sources, row, registered_until(beneficiary_id, Some(g)));
}

/// The source set of a kept beneficiary now is that of its generation.
pub proof fn lemma_source_set_now(tables: Tables, beneficiary_id: Seq<char>, g: i64)
    requires
        sources_kept(tables, beneficiary_id),
        generation_now(tables, beneficiary_id) <= g,
    ensures
        source_set(tables, beneficiary_id, Some(g)) == source_set(tables, beneficiary_id, None),
        source_set(tables, beneficiary_id, None).len() == generation_now(tables, beneficiary_id),
{
    let now = generation_now(tables, beneficiary_id);
    assert forall|k: int| 0 <= k < tables.sources.len() implies (registered_until(
        beneficiary_id,
        Some(g),
    ))(#[trigger] tables.sources[k]) == (registered_until(beneficiary_id, None))(
        tables.sources[k],
    ) by {}
    assert forall|k: int| 0 <= k < tables.sources.len() implies (registered_until(
        beneficiary_id,
        Some(now),
    ))(#[trigger] tables.sources[k]) == (registered_until(beneficiary_id, None))(
        tables.sources[k],
    ) by {}
    lemma_bindings_agree(
        tables.sources,
        registered_until(beneficiary_id, Some(g)),
        registered_until(beneficiary_id, None),
    );
    lemma_bindings_agree(
        tables.sources,
        registered_until(beneficiary_id, Some(now)),
        registered_until(beneficiary_id, None),
    );
    assert(source_set(tables, beneficiary_id, Some(now)).len() == now);
}

/// The names of the stored statuses differ.
pub proof fn lemma_status_names()
    ensures
        "pending"@ != "superseded"@,
        "pending"@ != "completed"@,
        "superseded"@ != "completed"@,
{
    reveal_strlit("pending");
    reveal_strlit("superseded");
    reveal_strlit("completed");
    assert("pending"@.len() == 7);
    assert("superseded"@.len() == 10);
    assert("completed"@.len() == 9);
}

/// A trusted attempt stays trusted when it is superseded.
proof fn lemma_superseded_ticket(tables: Tables, row: Attempt)
    requires
        stored_ticket(tables, row) is Ok,
        row.status == "pending"@,
    ensures
        stored_ticket(tables, (superseded())(row)) is Ok,
{
    lemma_status_names();
}

/// An accepted registration of a new source keeps the sources.
proof fn lemma_registering_keeps_sources(
    tables: Tables,
    operation_id: Seq<char>,
    binding: Binding,
    b: Seq<char>,
)
    requires
        kept(tables),
        registers(tables, operation_id, binding),
    ensures
        sources_kept(
            applied_all(tables, registration(tables, operation_id, binding)->Ok_0.writes),
            b,
        ),
{
    let owner = binding.beneficiary_id;
    let answer = registration(tables, operation_id, binding)->Ok_0;
    let after = applied_all(tables, answer.writes);
    let request = registration_request(tables, operation_id, binding);
    lemma_registered(tables, operation_id, binding);
    lemma_projections_stay_kept(tables, after, request);
    let generation = (generation_now(tables, owner) + 1) as i64;
    let revision = publication(tables, request)->Ok_0.receipt.revision;
    let row = registered_source(operation_id, binding, generation, revision);
    assert(sources_kept(tables, b));
    assert(sources_kept(tables, owner));
    assert(revision_now(tables, b) is Some ==> revision_now(after, b) is Some);
    assert forall|k: int|
        0 <= k < after.sources.len() && (#[trigger] after.sources[k]).binding.beneficiary_id
            == b implies {
        &&& 1 <= after.sources[k].registration_source_set_generation <= generation_now(after, b)
        &&& after.sources[k].registration_projection_revision is Some
    } by {
        if k < tables.sources.len() {
            assert(after.sources[k] == tables.sources[k]);
        }
    }
    assert forall|g: i64| 0 <= g <= generation_now(after, b) implies #[trigger] source_set(
        after,
        b,
        Some(g),
    ).len() == g by {
        if b != owner || g < generation {
            lemma_past_source_set(tables, after, row, b, g);
            assert(source_set(tables, b, Some(g)).len() == g);
        } else {
            lemma_source_set_now(tables, b, g);
            lemma_bindings_push(tables.sources, row, registered_until(b, Some(g)));
        }
    }
}

/// An accepted registration keeps the tables.
pub proof fn law_registering_keeps_the_tables(
    tables: Tables,
    operation_id: Seq<char>,
    binding: Binding,
)
    requires
        kept(tables),
        registration(tables, operation_id, binding) is Ok,
    ensures
        kept(applied_all(tables, registration(tables, operation_id, binding)->Ok_0.writes)),
{
    let owner = binding.beneficiary_id;
    let answer = registration(tables, operation_id, binding)->Ok_0;
    let after = applied_all(tables, answer.writes);
    assert(sources_kept(tables, owner));
    if registration_of(tables, owner, operation_id) is Some {
        lemma_found(tables.sources, registered_by(owner, operation_id));
        let row = registration_of(tables, owner, operation_id)->0;
        let k = choose|k: int| 0 <= k < tables.sources.len() && tables.sources[k] == row;
        assert(tables.sources[k].binding.beneficiary_id == owner);
        assert(after == tables);
    } else {
        let request = registration_request(tables, operation_id, binding);
        lemma_registered(tables, operation_id, binding);
        lemma_projections_stay_kept(tables, after, request);
        let generation = (generation_now(tables, owner) + 1) as i64;
        let revision = publication(tables, request)->Ok_0.receipt.revision;
        let row = registered_source(operation_id, binding, generation, revision);
        lemma_found(tables.sources, source_with(binding.source_id));
        lemma_found(
            tables.sources,
            claiming(binding.provider_namespace, binding.external_allocation_reference),
        );
        assert forall|i: int, j: int| 0 <= i < j < after.sources.len() implies {
            &&& (#[trigger] after.sources[i]).binding.source_id != (
            #[trigger] after.sources[j]).binding.source_id
            &&& !(after.sources[i].binding.provider_namespace
                == after.sources[j].binding.provider_namespace
                && after.sources[i].binding.external_allocation_reference
                == after.sources[j].binding.external_allocation_reference)
        } by {
            assert(after.sources[i] == tables.sources[i]);
            assert(tables.sources.contains(tables.sources[i]));
            if j < tables.sources.len() {
                assert(after.sources[j] == tables.sources[j]);
            }
        }
        assert forall|b: Seq<char>| #[trigger] sources_kept(after, b) by {
            lemma_registering_keeps_sources(tables, operation_id, binding, b);
        }
        assert forall|b: Seq<char>| #[trigger] attempts_kept(after, b) by {
            assert(attempts_kept(tables, b));
            assert(sources_kept(tables, b));
            assert forall|k: int|
                0 <= k < after.attempts.len() && (#[trigger] after.attempts[k]).beneficiary_id
                    == b implies attempt_kept(after, after.attempts[k]) by {
                let old_row = tables.attempts[k];
                assert(attempt_kept(tables, old_row));
                lemma_status_names();
                lemma_past_source_set(tables, after, row, b, old_row.source_set_generation);
                assert(stored_ticket(after, old_row) == stored_ticket(tables, old_row));
                if b == owner && old_row.status == "pending"@ {
                    lemma_superseded_ticket(after, old_row);
                }
            }
            if b != owner {
                lemma_search_updated(
                    tables.attempts,
                    pending_of(owner),
                    superseded(),
                    attempt_with(b, coordinator_of(tables, b)->0.current_attempt_id->0),
                );
                lemma_found(
                    tables.attempts,
                    attempt_with(b, coordinator_of(tables, b)->0.current_attempt_id->0),
                );
            }
        }
    }
}

/// The beginning of a collection keeps the tables.
pub proof fn law_beginning_keeps_the_tables(
    tables: Tables,
    beneficiary_id: Seq<char>,
    attempt_id: Seq<char>,
)
    requires
        kept(tables),
        beginning(tables, beneficiary_id, attempt_id) is Ok,
    ensures
        kept(applied_all(tables, beginning(tables, beneficiary_id, attempt_id)->Ok_0.writes)),
{
    let owner = beneficiary_id;
    let answer = beginning(tables, owner, attempt_id)->Ok_0;
    let ticket = answer.receipt;
    let after = applied_all(tables, answer.writes);
    if attempt_of(tables, owner, attempt_id) is Some {
        assert(after == tables);
    } else {
        lemma_begun(tables, owner, attempt_id);
        let coordinator = coordinator_of(tables, owner)->0;
        let earlier = without_current(tables.attempts, coordinator);
        assert forall|b: Seq<char>| #[trigger] projection_kept(after, b) by {
            assert(projection_kept(tables, b));
        }
        assert forall|b: Seq<char>| #[trigger] sources_kept(after, b) by {
            assert(sources_kept(tables, b));
            assert forall|g: i64| 0 <= g <= generation_now(after, b) implies #[trigger] source_set(
                after,
                b,
                Some(g),
            ).len() == g by {
                assert(source_set(tables, b, Some(g)).len() == g);
            }
        }
        assert(sources_kept(tables, owner));
        lemma_source_set_now(tables, owner, ticket.source_set_generation);
        lemma_status_names();
        assert forall|b: Seq<char>| #[trigger] attempts_kept(after, b) by {
            assert(attempts_kept(tables, b));
            assert forall|k: int|
                0 <= k < after.attempts.len() && (#[trigger] after.attempts[k]).beneficiary_id
                    == b implies attempt_kept(after, after.attempts[k]) by {
                if k < tables.attempts.len() {
                    let old_row = tables.attempts[k];
                    assert(after.attempts[k] == earlier[k]);
                    assert(old_row.beneficiary_id == b);
                    assert(attempt_kept(tables, old_row));
                    assert(stored_ticket(after, old_row) == stored_ticket(tables, old_row));
                    if b == owner && old_row.status == "pending"@ {
                        assert(coordinator.current_attempt_id == Some(old_row.attempt_id));
                        lemma_superseded_ticket(after, old_row);
                    }
                } else {
                    assert(after.attempts[k] == begun_attempt(ticket));
                    assert(stored_ticket(after, begun_attempt(ticket)) is Ok);
                }
            }
            if b == owner {
                lemma_attempt_in(tables, coordinator, b, attempt_id);
                lemma_search_push(earlier, begun_attempt(ticket), attempt_with(b, attempt_id));
            } else if coordinator_of(after, b) is Some && coordinator_of(
                after,
                b,
            )->0.current_attempt_id is Some {
                let current = coordinator_of(after, b)->0.current_attempt_id->0;
                lemma_attempt_in(tables, coordinator, b, current);
                lemma_search_push(earlier, begun_attempt(ticket), attempt_with(b, current));
            }
        }
    }
}

/// Superseding the current attempt of one coordinator: what that does to the search for an attempt.
pub proof fn lemma_attempt_in(
    tables: Tables,
    coordinator: Coordinator,
    beneficiary_id: Seq<char>,
    attempt_id: Seq<char>,
)
    ensures
        ({
            let found = first_match(
                without_current(tables.attempts, coordinator),
                attempt_with(beneficiary_id, attempt_id),
            );
            &&& attempt_of(tables, beneficiary_id, attempt_id) is None ==> found is None
            &&& attempt_of(tables, beneficiary_id, attempt_id) matches Some(row) ==> found == Some(
                if beneficiary_id == coordinator.beneficiary_id && coordinator.current_attempt_id
                    == Some(attempt_id) && row.status == "pending"@ {
                    (superseded())(row)
                } else {
                    row
                },
            )
        }),
{
    lemma_found(tables.attempts, attempt_with(beneficiary_id, attempt_id));
    if let Some(current) = coordinator.current_attempt_id {
        lemma_search_updated(
            tables.attempts,
            pending_attempt(coordinator.beneficiary_id, current),
            superseded(),
            attempt_with(beneficiary_id, attempt_id),
        );
    }
}

/// The completion of a collection keeps the tables.
pub proof fn law_completing_keeps_the_tables(
    tables: Tables,
    ticket: Ticket,
    aggregate_evidence_reference: Seq<char>,
    observations: Seq<Observation>,
)
    requires
        kept(tables),
        completion(tables, ticket, aggregate_evidence_reference, observations) is Ok,
    ensures
        kept(
            applied_all(
                tables,
                completion(
                    tables,
                    ticket,
                    aggregate_evidence_reference,
                    observations,
                )->Ok_0.writes,
            ),
        ),
{
    let owner = ticket.beneficiary_id;
    let answer = completion(tables, ticket, aggregate_evidence_reference, observations)->Ok_0;
    let after = applied_all(tables, answer.writes);
    let row = attempt_of(tables, owner, ticket.attempt_id)->0;
    lemma_status_names();
    if row.status != "pending"@ {
        assert(after == tables);
    } else {
        let combined = collection(
            owner,
            ticket.source_bindings,
            observations,
            aggregate_evidence_reference,
        )->Ok_0;
        let request = completion_request(ticket, aggregate_evidence_reference, combined.1);
        lemma_completed(tables, ticket, aggregate_evidence_reference, observations);
        lemma_projections_stay_kept(tables, after, request);
        let revision = publication(tables, request)->Ok_0.receipt.revision;
        law_results_are_their_own_collection(
            owner,
            ticket.source_bindings,
            observations,
            aggregate_evidence_reference,
        );
        lemma_found(tables.attempts, attempt_with(owner, ticket.attempt_id));
        assert forall|b: Seq<char>| #[trigger] sources_kept(after, b) by {
            assert(sources_kept(tables, b));
            assert(revision_now(tables, b) is Some ==> revision_now(after, b) is Some);
            assert forall|g: i64| 0 <= g <= generation_now(after, b) implies #[trigger] source_set(
                after,
                b,
                Some(g),
            ).len() == g by {
                assert(source_set(tables, b, Some(g)).len() == g);
            }
        }
        assert forall|b: Seq<char>| #[trigger] attempts_kept(after, b) by {
            assert(attempts_kept(tables, b));
            assert forall|k: int|
                0 <= k < after.attempts.len() && (#[trigger] after.attempts[k]).beneficiary_id
                    == b implies attempt_kept(after, after.attempts[k]) by {
                let old_row = tables.attempts[k];
                assert(old_row.beneficiary_id == b);
                assert(attempt_kept(tables, old_row));
                assert(stored_ticket(after, old_row) == stored_ticket(tables, old_row));
                if b == owner && old_row.status == "pending"@ {
                    assert(old_row.attempt_id == ticket.attempt_id);
                    assert(old_row.source_set_generation == ticket.source_set_generation);
                    assert(stored_ticket(tables, old_row)->Ok_0.source_bindings
                        == ticket.source_bindings);
                    assert(after.attempts[k] == (completed(combined.0, revision))(old_row));
                    assert(result_is_canonical(after.attempts[k], ticket.source_bindings));
                }
            }
            if b != owner && coordinator_of(tables, b) is Some && coordinator_of(
                tables,
                b,
            )->0.current_attempt_id is Some {
                let current = coordinator_of(tables, b)->0.current_attempt_id->0;
                lemma_search_updated(
                    tables.attempts,
                    pending_attempt(owner, ticket.attempt_id),
                    completed(combined.0, revision),
                    attempt_with(b, current),
                );
                lemma_found(tables.attempts, attempt_with(b, current));
            }
        }
    }
}

} // verus!
