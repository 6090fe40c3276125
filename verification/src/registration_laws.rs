//! How registrations are answered, said of the bindings and the rows themselves.

use crate::cloud_coverage_reconciliation::{
    names_a_binding_constraint, Binding, ReconciliationFault, Registration, RegistrationOutcome,
};
use crate::cloud_coverage_store::{
    publication, Projection, PublicationOutcome, Request, UnavailableReason,
};
use crate::coverage_invariant::{kept, lemma_current_publication_is_new, projection_kept};
use crate::coverage_lookups::{coordinator_of, head_of, publication_of, registration_of};
use crate::coverage_tables::{applied_all, Attempt, Tables, Write};
use crate::lookup_laws::{law_claims_are_found, law_registrations_are_found};
use crate::publication_laws::{
    holds, is_valid_request, law_publishing_adds_what_was_requested,
    law_valid_publications_are_answered,
};
use crate::reconciliation_effects::{lemma_registered, registers};
use crate::reconciliation_laws::{
    after_history, law_every_request_keeps_the_tables, law_registration_replays_survive,
    law_repeating_a_registration_changes_nothing, stepped, Step,
};
use crate::reconciliation_rules::{
    coordinator_writes, incomplete, registration, registration_outcome, registration_publication,
    registration_request, Answer,
};
use crate::store_laws::lemma_applied_one;
use crate::text::blank;
use crate::text_laws::{is_space, law_blank_texts_hold_white_space_alone};
use vstd::prelude::*;

verus! {

/// Two constraints of the database stand for a source or an allocation that is bound already, and
/// no other does.
pub proof fn law_two_constraints_keep_bindings_apart(constraint: Option<&str>)
    ensures
        constraint is None ==> !names_a_binding_constraint(constraint),
        constraint matches Some(name) ==> (names_a_binding_constraint(constraint) <==> {
            ||| name@ == "cloud_coverage_sources_pkey"@
            ||| name@ == "cloud_coverage_sources_provider_allocation_key"@
        }),
{
}

/// A registration publishes under an operation of its own that its coverage needs a collection, and
/// is applied exactly if the publication was.
pub proof fn law_registrations_publish_that_coverage_is_incomplete(
    operation_id: Seq<char>,
    outcome: PublicationOutcome,
)
    ensures
        registration_publication(operation_id) == "source-registration:"@ + operation_id,
        incomplete() == (Projection::Unavailable {
            reason: UnavailableReason::NeedsReconciliation,
        }),
        registration_outcome(outcome) is Applied <==> outcome is Applied,
        registration_outcome(outcome) is AlreadyApplied <==> outcome is AlreadyApplied,
{
}

/// Whether every part of a binding is filled in.
pub open spec fn is_filled_in(binding: Binding) -> bool {
    &&& !blank(binding.beneficiary_id)
    &&& !blank(binding.source_id)
    &&& !blank(binding.provider_namespace)
    &&& !blank(binding.external_allocation_reference)
    &&& !blank(binding.ownership_evidence_reference)
}

/// What is reported of a binding whose first blank part has a name.
pub open spec fn blank_part(binding: Binding) -> Seq<char> {
    if blank(binding.beneficiary_id) {
        "beneficiary_id must not be empty"@
    } else if blank(binding.source_id) {
        "source_id must not be empty"@
    } else if blank(binding.provider_namespace) {
        "provider_namespace must not be empty"@
    } else if blank(binding.external_allocation_reference) {
        "external_allocation_reference must not be empty"@
    } else {
        "ownership_evidence_reference must not be empty"@
    }
}

/// A registration is refused for what is wrong with it alone exactly where its operation or a part
/// of its binding is blank.
pub proof fn law_invalid_registrations_are_refused(
    tables: Tables,
    operation_id: Seq<char>,
    binding: Binding,
)
    ensures
        ({
            let answer = registration(tables, operation_id, binding);
            &&& answer == Err::<Answer<Registration>, ReconciliationFault>(
                ReconciliationFault::EmptyOperationId,
            ) <==> blank(operation_id)
            &&& (answer is Err && answer->Err_0 is InvalidSource) <==> !blank(operation_id)
                && !is_filled_in(binding)
            &&& !blank(operation_id) && !is_filled_in(binding) ==> answer == Err::<
                Answer<Registration>,
                ReconciliationFault,
            >(ReconciliationFault::InvalidSource(blank_part(binding)))
        }),
{
    reveal_strlit("beneficiary_id");
    reveal_strlit("source_id");
    reveal_strlit("provider_namespace");
    reveal_strlit("external_allocation_reference");
    reveal_strlit("ownership_evidence_reference");
    reveal_strlit(" must not be empty");
    reveal_strlit("beneficiary_id must not be empty");
    reveal_strlit("source_id must not be empty");
    reveal_strlit("provider_namespace must not be empty");
    reveal_strlit("external_allocation_reference must not be empty");
    reveal_strlit("ownership_evidence_reference must not be empty");
    assert("beneficiary_id"@ + " must not be empty"@ =~= "beneficiary_id must not be empty"@);
    assert("source_id"@ + " must not be empty"@ =~= "source_id must not be empty"@);
    assert("provider_namespace"@ + " must not be empty"@
        =~= "provider_namespace must not be empty"@);
    assert("external_allocation_reference"@ + " must not be empty"@
        =~= "external_allocation_reference must not be empty"@);
    assert("ownership_evidence_reference"@ + " must not be empty"@
        =~= "ownership_evidence_reference must not be empty"@);
}

/// Whether a source or an allocation of a binding is registered.
pub open spec fn is_claimed(tables: Tables, binding: Binding) -> bool {
    exists|k: int|
        0 <= k < tables.sources.len() && ((#[trigger] tables.sources[k]).binding.source_id
            == binding.source_id || (tables.sources[k].binding.provider_namespace
            == binding.provider_namespace
            && tables.sources[k].binding.external_allocation_reference
            == binding.external_allocation_reference))
}

/// The source-set generation that a beneficiary's coordinator stands at: zero without a
/// coordinator.
pub open spec fn generation_at(tables: Tables, beneficiary_id: Seq<char>) -> i64 {
    match coordinator_of(tables, beneficiary_id) {
        Some(coordinator) => coordinator.source_set_generation,
        None => 0,
    }
}

/// The revision that a beneficiary's head points to, if there is one.
pub open spec fn revision_at(tables: Tables, beneficiary_id: Seq<char>) -> Option<i64> {
    match head_of(tables, beneficiary_id) {
        Some(head) => head.current_revision,
        None => None,
    }
}

/// How a registration with everything filled in is answered, where it adds no source.
///
/// Coverage that was published without sources is not taken over. An operation that registered a
/// source before is answered with the receipt of that source if every part of the binding is the
/// same, and refused if any is not. A new operation for a source or an allocation that is
/// registered is refused.
pub proof fn law_registrations_that_add_nothing_are_answered(
    tables: Tables,
    operation_id: Seq<char>,
    binding: Binding,
)
    requires
        !blank(operation_id),
        is_filled_in(binding),
    ensures
        ({
            let answer = registration(tables, operation_id, binding);
            let b = binding.beneficiary_id;
            let unowned = generation_at(tables, b) == 0 && revision_at(tables, b) is Some;
            &&& answer == Err::<Answer<Registration>, ReconciliationFault>(
                ReconciliationFault::BootstrapConflict,
            ) <==> unowned
            &&& !unowned ==> match registration_of(tables, b, operation_id) {
                Some(row) => {
                    &&& row.binding != binding ==> answer == Err::<
                        Answer<Registration>,
                        ReconciliationFault,
                    >(ReconciliationFault::RegistrationConflict)
                    &&& row.binding == binding && row.registration_projection_revision is None
                        ==> answer == Err::<Answer<Registration>, ReconciliationFault>(
                        ReconciliationFault::CorruptRegistration,
                    )
                    &&& row.binding == binding && row.registration_projection_revision is Some ==> {
                        &&& answer matches Ok(a)
                        &&& a.receipt.source_id == binding.source_id
                        &&& a.receipt.source_set_generation
                            == row.registration_source_set_generation
                        &&& a.receipt.projection_revision == row.registration_projection_revision
                        &&& a.receipt.outcome == RegistrationOutcome::AlreadyApplied
                    }
                },
                None => {
                    &&& is_claimed(tables, binding) <==> answer == Err::<
                        Answer<Registration>,
                        ReconciliationFault,
                    >(ReconciliationFault::SourceBindingConflict)
                    &&& !is_claimed(tables, binding) && generation_at(tables, b) == i64::MAX
                        ==> answer == Err::<Answer<Registration>, ReconciliationFault>(
                        ReconciliationFault::GenerationOverflow,
                    )
                },
            }
        }),
{
    law_claims_are_found(
        tables,
        binding.source_id,
        binding.provider_namespace,
        binding.external_allocation_reference,
    );
}

/// What a registration publishes.
proof fn lemma_registration_request(tables: Tables, operation_id: Seq<char>, binding: Binding)
    requires
        kept(tables),
        !blank(operation_id),
        is_filled_in(binding),
    ensures
        is_valid_request(registration_request(tables, operation_id, binding)),
        registration_request(tables, operation_id, binding) == (Request {
            beneficiary_id: binding.beneficiary_id,
            expected_revision: revision_at(tables, binding.beneficiary_id),
            operation_id: "source-registration:"@ + operation_id,
            evidence_reference: binding.ownership_evidence_reference,
            projection: Projection::Unavailable { reason: UnavailableReason::NeedsReconciliation },
        }),
{
    let request = registration_request(tables, operation_id, binding);
    assert(projection_kept(tables, binding.beneficiary_id));
    reveal_strlit("source-registration:");
    assert(request.operation_id[0] == 's');
    law_blank_texts_hold_white_space_alone(request.operation_id);
    assert(!is_space('s'));
}

/// A registration is accepted, whatever was registered, published or collected before: everything
/// is filled in, the operation is new, neither the source nor the allocation is registered, a
/// generation and a revision are left, and the coverage that there is stems from sources.
pub proof fn law_new_sources_can_be_registered(
    tables: Tables,
    operation_id: Seq<char>,
    binding: Binding,
)
    requires
        kept(tables),
        !blank(operation_id),
        is_filled_in(binding),
        registration_of(tables, binding.beneficiary_id, operation_id) is None,
        publication_of(
            tables,
            binding.beneficiary_id,
            "source-registration:"@ + operation_id,
        ) is None,
        !is_claimed(tables, binding),
        generation_at(tables, binding.beneficiary_id) < i64::MAX,
        generation_at(tables, binding.beneficiary_id) > 0 || revision_at(
            tables,
            binding.beneficiary_id,
        ) is None,
        revision_at(tables, binding.beneficiary_id) != Some(i64::MAX),
    ensures
        ({
            let b = binding.beneficiary_id;
            &&& registration(tables, operation_id, binding) matches Ok(a)
            &&& a.receipt.source_id == binding.source_id
            &&& a.receipt.source_set_generation == generation_at(tables, b) + 1
            &&& a.receipt.projection_revision matches Some(revision)
            &&& revision_at(tables, b) matches Some(now) ==> revision == now + 1
            &&& revision_at(tables, b) is None ==> revision == 1
            &&& a.receipt.outcome == RegistrationOutcome::Applied
        }),
{
    let b = binding.beneficiary_id;
    law_claims_are_found(
        tables,
        binding.source_id,
        binding.provider_namespace,
        binding.external_allocation_reference,
    );
    lemma_registration_request(tables, operation_id, binding);
    assert(projection_kept(tables, b));
    law_valid_publications_are_answered(
        tables,
        registration_request(tables, operation_id, binding),
    );
}

/// A registration of a new source stands and falls with its publication, whatever the tables hold:
/// where coverage can be published as in need of reconciliation, over the current revision and with
/// the evidence of ownership, the source is registered in the next generation and the receipt names
/// the revision. Where that is refused, so is the registration, for the same reason.
pub proof fn law_registrations_stand_with_their_publication(
    tables: Tables,
    operation_id: Seq<char>,
    binding: Binding,
)
    requires
        !blank(operation_id),
        is_filled_in(binding),
        registration_of(tables, binding.beneficiary_id, operation_id) is None,
        !is_claimed(tables, binding),
        generation_at(tables, binding.beneficiary_id) < i64::MAX,
        generation_at(tables, binding.beneficiary_id) != 0 || revision_at(
            tables,
            binding.beneficiary_id,
        ) is None,
    ensures
        ({
            let b = binding.beneficiary_id;
            let answer = registration(tables, operation_id, binding);
            match publication(
                tables,
                Request {
                    beneficiary_id: b,
                    expected_revision: revision_at(tables, b),
                    operation_id: "source-registration:"@ + operation_id,
                    evidence_reference: binding.ownership_evidence_reference,
                    projection: Projection::Unavailable {
                        reason: UnavailableReason::NeedsReconciliation,
                    },
                },
            ) {
                Ok(published) => {
                    &&& answer matches Ok(a)
                    &&& a.receipt.source_id == binding.source_id
                    &&& a.receipt.source_set_generation == generation_at(tables, b) + 1
                    &&& a.receipt.projection_revision == Some(published.receipt.revision)
                    &&& a.receipt.outcome is Applied <==> published.receipt.outcome is Applied
                },
                Err(f) => answer == Err::<Answer<Registration>, ReconciliationFault>(
                    ReconciliationFault::Store(f),
                ),
            }
        }),
{
    law_claims_are_found(
        tables,
        binding.source_id,
        binding.provider_namespace,
        binding.external_allocation_reference,
    );
}

/// What an accepted registration of a new source makes of the tables.
///
/// Exactly one source is added, with the binding as it was given. The pending attempts of the
/// beneficiary are superseded, and no other attempt changes. The coordinator advances by one
/// generation and has no current attempt. One revision is added, under the registration's own
/// operation and evidence: coverage needs reconciliation.
pub proof fn law_registering_adds_the_source(
    tables: Tables,
    operation_id: Seq<char>,
    binding: Binding,
)
    requires
        kept(tables),
        registers(tables, operation_id, binding),
    ensures
        ({
            let b = binding.beneficiary_id;
            let answer = registration(tables, operation_id, binding)->Ok_0;
            let after = applied_all(tables, answer.writes);
            let source = after.sources.last();
            let row = after.revisions.last();
            &&& answer.receipt.projection_revision matches Some(revision)
            &&& after.sources == tables.sources.push(source)
            &&& source.binding == binding
            &&& source.registration_operation_id == operation_id
            &&& source.registration_source_set_generation == generation_at(tables, b) + 1
            &&& source.registration_projection_revision == Some(revision)
            &&& after.attempts.len() == tables.attempts.len()
            &&& forall|k: int|
                0 <= k < tables.attempts.len() ==> {
                    let attempt = tables.attempts[k];
                    let superseded = attempt.beneficiary_id == b && attempt.status == "pending"@;
                    &&& superseded ==> (#[trigger] after.attempts[k]) == (Attempt {
                        status: "superseded"@,
                        ..attempt
                    })
                    &&& !superseded ==> after.attempts[k] == attempt
                }
            &&& coordinator_of(after, b) matches Some(coordinator)
            &&& coordinator.source_set_generation == generation_at(tables, b) + 1
            &&& coordinator.current_attempt_id is None
            &&& coordinator_of(tables, b) matches Some(before) ==> coordinator.collection_epoch
                == before.collection_epoch
            &&& coordinator_of(tables, b) is None ==> coordinator.collection_epoch == 0
            &&& coordinator.beneficiary_id == b
            &&& forall|other: Seq<char>|
                other != b ==> #[trigger] coordinator_of(after, other) == coordinator_of(
                    tables,
                    other,
                )
            &&& after.revisions == tables.revisions.push(row)
            &&& row.beneficiary_id == b
            &&& row.revision == revision
            &&& row.operation_id == "source-registration:"@ + operation_id
            &&& row.expected_revision == revision_at(tables, b)
            &&& row.evidence_reference == binding.ownership_evidence_reference
            &&& holds(
                row,
                Projection::Unavailable { reason: UnavailableReason::NeedsReconciliation },
            )
            &&& revision_at(after, b) == Some(revision)
            &&& forall|other: Seq<char>|
                other != b ==> #[trigger] head_of(after, other) == head_of(tables, other)
        }),
{
    let b = binding.beneficiary_id;
    let request = registration_request(tables, operation_id, binding);
    let answer = registration(tables, operation_id, binding)->Ok_0;
    let after = applied_all(tables, answer.writes);
    lemma_registered(tables, operation_id, binding);
    lemma_registration_request(tables, operation_id, binding);
    law_publishing_adds_what_was_requested(tables, request);
    assert(projection_kept(tables, b));
    lemma_current_publication_is_new(tables, request);
    let direct = applied_all(tables, publication(tables, request)->Ok_0.writes);
    assert(head_of(after, b) == head_of(direct, b));
    assert forall|other: Seq<char>| other != b implies #[trigger] head_of(after, other) == head_of(
        tables,
        other,
    ) by {
        assert(head_of(after, other) == head_of(direct, other));
    }
}

/// Whatever is accepted is stored: the source of an answered registration, new or repeated, stands
/// among the sources with exactly the binding that was given, under the operation that was given.
pub proof fn law_answered_registrations_are_stored(
    tables: Tables,
    operation_id: Seq<char>,
    binding: Binding,
)
    requires
        kept(tables),
        registration(tables, operation_id, binding) is Ok,
    ensures
        exists|k: int|
            0 <= k < applied_all(
                tables,
                registration(tables, operation_id, binding)->Ok_0.writes,
            ).sources.len() && (#[trigger] applied_all(
                tables,
                registration(tables, operation_id, binding)->Ok_0.writes,
            ).sources[k]).binding == binding && applied_all(
                tables,
                registration(tables, operation_id, binding)->Ok_0.writes,
            ).sources[k].registration_operation_id == operation_id,
{
    let b = binding.beneficiary_id;
    let writes = registration(tables, operation_id, binding)->Ok_0.writes;
    let after = applied_all(tables, writes);
    if registers(tables, operation_id, binding) {
        lemma_registered(tables, operation_id, binding);
        let n = tables.sources.len() as int;
        assert(after.sources[n].binding == binding);
    } else {
        let row = registration_of(tables, b, operation_id)->0;
        law_registrations_are_found(tables, b, operation_id);
        let k = choose|k: int|
            0 <= k < tables.sources.len() && #[trigger] tables.sources[k] == row;
        assert(writes == coordinator_writes(tables, b));
        if coordinator_of(tables, b) is None {
            lemma_applied_one(
                tables,
                Write::InsertCoordinator { beneficiary_id: b },
            );
        }
        assert(after.sources == tables.sources);
        assert(after.sources[k].binding == binding);
    }
}

/// A registration that reuses an applied operation with a binding that differs in any part is
/// refused, whatever is requested in between.
pub proof fn law_a_changed_registration_conflicts(
    tables: Tables,
    operation_id: Seq<char>,
    binding: Binding,
    history: Seq<Step>,
    other: Binding,
)
    requires
        kept(tables),
        registers(tables, operation_id, binding),
        other.beneficiary_id == binding.beneficiary_id,
        other != binding,
        is_filled_in(other),
    ensures
        ({
            let answer = registration(tables, operation_id, binding)->Ok_0;
            let after = after_history(applied_all(tables, answer.writes), history);
            registration(after, operation_id, other) == Err::<
                Answer<Registration>,
                ReconciliationFault,
            >(ReconciliationFault::RegistrationConflict)
        }),
{
    let b = binding.beneficiary_id;
    let answer = registration(tables, operation_id, binding)->Ok_0;
    let registered = applied_all(tables, answer.writes);
    let after = after_history(registered, history);
    let step = Step::Register { operation_id, binding };
    assert(stepped(tables, step) == registered);
    law_every_request_keeps_the_tables(tables, step);
    law_repeating_a_registration_changes_nothing(tables, operation_id, binding);
    law_invalid_registrations_are_refused(tables, operation_id, binding);
    law_invalid_registrations_are_refused(registered, operation_id, binding);
    assert(registration_of(registered, b, operation_id) is Some) by {
        law_registrations_that_add_nothing_are_answered(registered, operation_id, binding);
        if registration_of(registered, b, operation_id) is None {
            lemma_registered(tables, operation_id, binding);
            let n = tables.sources.len() as int;
            assert(registered.sources[n].binding.source_id == binding.source_id);
            assert(is_claimed(registered, binding));
        }
    }
    law_registration_replays_survive(registered, operation_id, binding, history);
    law_registrations_that_add_nothing_are_answered(after, operation_id, binding);
    law_registrations_that_add_nothing_are_answered(after, operation_id, other);
}

} // verus!
