//! What the values that the library takes and gives say: each field, as it is.

use crate::base32_codec;
use crate::base32_codec::CodecTrial;
use crate::callback::CallbackAction;
use crate::cloud_coverage::{
    facts_of, spans_of, text_of, ConfirmedPaidInterval, EligibleInterval, PersonCoverage,
};
use crate::cloud_coverage_reconciliation::{
    bindings_of, observations_of, CanonicalResult, CollectionTicket, ReconciliationError,
    ReconciliationFault, ReconciliationReceipt, RegistrationReceipt, SourceBinding,
    SourceObservation,
};
use crate::cloud_coverage_store::{
    CanonicalProjection, CoverageProjection, LoadedCoverage, Projection, PublicationPlan,
    StoreError, StoreFault, StoredOperation, UnavailableReason,
};
use crate::coverage_tables::{
    writes_of, AttemptRow, CoordinatorRow, CoverageTables, CoverageTransaction, HeadRow,
    RevisionRow, SourceRow, TableWrite, Write,
};
use crate::error::{Error, Fault};
use crate::key_strings;
use crate::key_strings::KeyTrial;
use crate::text::decimal;
use vstd::prelude::*;
use vstd::std_specs::cmp::PartialEqSpec;

verus! {

/// An optional text says its text, and nothing where there is none.
pub proof fn law_optional_texts_say_their_text(s: Option<String>)
    ensures
        text_of(s) is Some <==> s is Some,
        s matches Some(t) ==> text_of(s) == Some(t@),
{
}

/// An interval says its identities and instants as they are.
pub proof fn law_intervals_say_their_fields(interval: ConfirmedPaidInterval)
    ensures
        interval@.coverage_id == interval.coverage_id@,
        interval@.source_id == interval.source_id@,
        interval@.starts_at == interval.starts_at,
        interval@.paid_until == interval.paid_until,
        interval@.failed_renewal_id is Some <==> interval.failed_renewal_id is Some,
        interval.failed_renewal_id matches Some(id) ==> interval@.failed_renewal_id == Some(id@),
{
}

/// A list of intervals says each of them, in its order and no other.
pub proof fn law_lists_say_every_interval(intervals: Seq<ConfirmedPaidInterval>)
    ensures
        facts_of(intervals).len() == intervals.len(),
        forall|i: int|
            0 <= i < intervals.len() ==> #[trigger] facts_of(intervals)[i] == intervals[i]@,
{
}

/// The coverage of a person says whose it is, and its intervals.
pub proof fn law_coverage_says_its_fields(coverage: PersonCoverage)
    ensures
        coverage@.beneficiary_id == coverage.beneficiary_id@,
        coverage@.facts == facts_of(coverage.paid_intervals@),
{
}

/// Eligible intervals say their fields, each in its place.
pub proof fn law_eligible_intervals_say_their_fields(intervals: Seq<EligibleInterval>)
    ensures
        spans_of(intervals).len() == intervals.len(),
        forall|i: int|
            0 <= i < intervals.len() ==> {
                &&& (#[trigger] spans_of(intervals)[i]).starts_at == intervals[i].starts_at
                &&& spans_of(intervals)[i].ends_at == intervals[i].ends_at
                &&& spans_of(intervals)[i].kind == intervals[i].kind
                &&& spans_of(intervals)[i].coverage_id == intervals[i].coverage_id@
            },
{
}

/// A projection says its intervals or why there are none.
pub proof fn law_projections_say_their_fields(projection: CoverageProjection)
    ensures
        match projection {
            CoverageProjection::Complete { paid_intervals } => projection@
                == (Projection::Complete { facts: facts_of(paid_intervals@) }),
            CoverageProjection::Unavailable { reason } => projection@
                == (Projection::Unavailable { reason }),
        },
{
}

/// Loaded coverage says its revision and the coverage.
pub proof fn law_loaded_coverage_says_its_fields(loaded: LoadedCoverage)
    ensures
        loaded@.revision == loaded.revision,
        loaded@.coverage == loaded.coverage@,
{
}

/// A binding says its five texts.
pub proof fn law_bindings_say_their_fields(binding: SourceBinding)
    ensures
        binding@.beneficiary_id == binding.beneficiary_id@,
        binding@.source_id == binding.source_id@,
        binding@.provider_namespace == binding.provider_namespace@,
        binding@.external_allocation_reference == binding.external_allocation_reference@,
        binding@.ownership_evidence_reference == binding.ownership_evidence_reference@,
{
}

/// A list of bindings says each of them, in its order and no other.
pub proof fn law_lists_say_every_binding(bindings: Seq<SourceBinding>)
    ensures
        bindings_of(bindings).len() == bindings.len(),
        forall|i: int|
            0 <= i < bindings.len() ==> #[trigger] bindings_of(bindings)[i] == bindings[i]@,
{
}

/// The receipts of registrations and collections say their fields.
pub proof fn law_receipts_say_their_fields(
    registration: RegistrationReceipt,
    collection: ReconciliationReceipt,
)
    ensures
        registration@.source_id == registration.source_id@,
        registration@.source_set_generation == registration.source_set_generation,
        registration@.projection_revision == registration.projection_revision,
        registration@.outcome == registration.outcome,
        collection@.attempt_id == collection.attempt_id@,
        collection@.revision == collection.revision,
        collection@.outcome == collection.outcome,
{
}

/// A ticket says its fields.
pub proof fn law_tickets_say_their_fields(ticket: CollectionTicket)
    ensures
        ticket@.beneficiary_id == ticket.beneficiary_id@,
        ticket@.attempt_id == ticket.attempt_id@,
        ticket@.collection_epoch == ticket.collection_epoch,
        ticket@.source_set_generation == ticket.source_set_generation,
        ticket@.expected_projection_revision == ticket.expected_projection_revision,
        ticket@.source_bindings == bindings_of(ticket.source_bindings@),
        ticket@.status == ticket.status,
        ticket@.completed_revision == ticket.completed_revision,
{
}

/// An observation says its source, its evidence and what was found there.
pub proof fn law_observations_say_their_fields(observation: SourceObservation)
    ensures
        match observation {
            SourceObservation::Complete { source_id, evidence_reference, paid_intervals } => {
                &&& observation@.source_id == source_id@
                &&& observation@.evidence_reference == evidence_reference@
                &&& observation@.result == (Projection::Complete {
                    facts: facts_of(paid_intervals@),
                })
            },
            SourceObservation::Unavailable { source_id, evidence_reference, reason } => {
                &&& observation@.source_id == source_id@
                &&& observation@.evidence_reference == evidence_reference@
                &&& observation@.result == (Projection::Unavailable { reason })
            },
        },
{
}

/// A list of observations says each of them, in its order and no other.
pub proof fn law_lists_say_every_observation(observations: Seq<SourceObservation>)
    ensures
        observations_of(observations).len() == observations.len(),
        forall|i: int|
            0 <= i < observations.len() ==> #[trigger] observations_of(observations)[i]
                == observations[i]@,
{
}

/// A collected result says its evidence and its observations.
pub proof fn law_results_say_their_fields(result: CanonicalResult)
    ensures
        result@.aggregate_evidence_reference == result.aggregate_evidence_reference@,
        result@.sources == observations_of(result.sources@),
{
}

/// The rows of heads, revisions, coordinators and sources say their fields.
pub proof fn law_rows_say_their_fields(
    head: HeadRow,
    revision: RevisionRow,
    coordinator: CoordinatorRow,
    source: SourceRow,
)
    ensures
        head@.beneficiary_id == head.beneficiary_id@,
        head@.current_revision == head.current_revision,
        revision@.beneficiary_id == revision.beneficiary_id@,
        revision@.revision == revision.revision,
        revision@.operation_id == revision.operation_id@,
        revision@.expected_revision == revision.expected_revision,
        revision@.evidence_reference == revision.evidence_reference@,
        revision@.status == revision.status@,
        revision@.unavailable_reason == text_of(revision.unavailable_reason),
        revision@.fact_count == revision.fact_count,
        revision@.facts == facts_of(revision.facts@),
        coordinator@.beneficiary_id == coordinator.beneficiary_id@,
        coordinator@.source_set_generation == coordinator.source_set_generation,
        coordinator@.collection_epoch == coordinator.collection_epoch,
        coordinator@.current_attempt_id == text_of(coordinator.current_attempt_id),
        source@.binding == source.binding@,
        source@.registration_operation_id == source.registration_operation_id@,
        source@.registration_source_set_generation == source.registration_source_set_generation,
        source@.registration_projection_revision == source.registration_projection_revision,
{
}

/// The row of an attempt says its fields.
pub proof fn law_attempt_rows_say_their_fields(attempt: AttemptRow)
    ensures
        attempt@.beneficiary_id == attempt.beneficiary_id@,
        attempt@.attempt_id == attempt.attempt_id@,
        attempt@.collection_epoch == attempt.collection_epoch,
        attempt@.source_set_generation == attempt.source_set_generation,
        attempt@.expected_projection_revision == attempt.expected_projection_revision,
        match attempt.source_bindings {
            Ok(list) => attempt@.source_bindings matches Ok(said) && said == bindings_of(list@),
            Err(detail) => attempt@.source_bindings matches Err(said) && said == detail@,
        },
        attempt@.status == attempt.status@,
        attempt@.aggregate_evidence_reference == text_of(attempt.aggregate_evidence_reference),
        attempt@.canonical_result is Some <==> attempt.canonical_result is Some,
        attempt.canonical_result matches Some(result) ==> attempt@.canonical_result == Some(
            result@,
        ),
        attempt@.projection_revision == attempt.projection_revision,
{
}

/// Tables say every row, each in its place and no other.
pub proof fn law_tables_say_every_row(tables: CoverageTables)
    ensures
        tables@.heads.len() == tables.heads@.len(),
        tables@.revisions.len() == tables.revisions@.len(),
        tables@.coordinators.len() == tables.coordinators@.len(),
        tables@.sources.len() == tables.sources@.len(),
        tables@.attempts.len() == tables.attempts@.len(),
        forall|i: int|
            0 <= i < tables.heads@.len() ==> #[trigger] tables@.heads[i] == tables.heads@[i]@,
        forall|i: int|
            0 <= i < tables.revisions@.len() ==> #[trigger] tables@.revisions[i]
                == tables.revisions@[i]@,
        forall|i: int|
            0 <= i < tables.coordinators@.len() ==> #[trigger] tables@.coordinators[i]
                == tables.coordinators@[i]@,
        forall|i: int|
            0 <= i < tables.sources@.len() ==> #[trigger] tables@.sources[i]
                == tables.sources@[i]@,
        forall|i: int|
            0 <= i < tables.attempts@.len() ==> #[trigger] tables@.attempts[i]
                == tables.attempts@[i]@,
{
}

/// A transaction says its tables, and every write that it has staged, in its order and no other.
pub proof fn law_transactions_say_every_write(transaction: CoverageTransaction)
    ensures
        transaction@.tables == transaction.tables@,
        transaction@.writes == writes_of(transaction.writes@),
        transaction@.writes.len() == transaction.writes@.len(),
        forall|i: int|
            0 <= i < transaction.writes@.len() ==> #[trigger] transaction@.writes[i]
                == transaction.writes@[i]@,
{
}

/// A write says what it does, to which row.
pub proof fn law_writes_say_their_fields(write: TableWrite)
    ensures
        match write {
            TableWrite::InsertHead { beneficiary_id } => write@ matches Write::InsertHead {
                beneficiary_id: b,
            } && b == beneficiary_id@,
            TableWrite::InsertRevision(row) => write@ matches Write::InsertRevision(r) && r == row@,
            TableWrite::SetHead { beneficiary_id, revision } => write@ matches Write::SetHead {
                beneficiary_id: b,
                revision: n,
            } && b == beneficiary_id@ && n == revision,
            TableWrite::InsertCoordinator { beneficiary_id } =>
                write@ matches Write::InsertCoordinator { beneficiary_id: b } && b
                    == beneficiary_id@,
            TableWrite::InsertSource(row) => write@ matches Write::InsertSource(r) && r == row@,
            TableWrite::SupersedePending { beneficiary_id } =>
                write@ matches Write::SupersedePending { beneficiary_id: b } && b
                    == beneficiary_id@,
            TableWrite::AdvanceGeneration { beneficiary_id, source_set_generation } =>
                write@ matches Write::AdvanceGeneration {
                beneficiary_id: b,
                source_set_generation: n,
            } && b == beneficiary_id@ && n == source_set_generation,
            TableWrite::RecordRegistration { source_id, projection_revision } =>
                write@ matches Write::RecordRegistration {
                source_id: s,
                projection_revision: n,
            } && s == source_id@ && n == projection_revision,
            TableWrite::SupersedeAttempt { beneficiary_id, attempt_id } =>
                write@ matches Write::SupersedeAttempt {
                beneficiary_id: b,
                attempt_id: a,
            } && b == beneficiary_id@ && a == attempt_id@,
            TableWrite::InsertAttempt(row) => write@ matches Write::InsertAttempt(r) && r == row@,
            TableWrite::StartCollection { beneficiary_id, collection_epoch, attempt_id } =>
                write@ matches Write::StartCollection {
                beneficiary_id: b,
                collection_epoch: n,
                attempt_id: a,
            } && b == beneficiary_id@ && n == collection_epoch && a == attempt_id@,
            TableWrite::CompleteAttempt {
                beneficiary_id,
                attempt_id,
                canonical_result,
                projection_revision,
            } => write@ matches Write::CompleteAttempt {
                beneficiary_id: b,
                attempt_id: a,
                canonical_result: c,
                projection_revision: n,
            } && b == beneficiary_id@ && a == attempt_id@ && c == canonical_result@ && n
                == projection_revision,
            TableWrite::ClearCurrentAttempt { beneficiary_id, attempt_id } =>
                write@ matches Write::ClearCurrentAttempt {
                beneficiary_id: b,
                attempt_id: a,
            } && b == beneficiary_id@ && a == attempt_id@,
        },
{
}

/// Two values are equal exactly if they say the same.
pub proof fn law_equal_values_say_the_same(
    intervals: (ConfirmedPaidInterval, ConfirmedPaidInterval),
    coverages: (PersonCoverage, PersonCoverage),
    bindings: (SourceBinding, SourceBinding),
    observations: (SourceObservation, SourceObservation),
    results: (CanonicalResult, CanonicalResult),
    projections: (CoverageProjection, CoverageProjection),
    loads: (LoadedCoverage, LoadedCoverage),
)
    ensures
        intervals.0.eq_spec(&intervals.1) <==> intervals.0@ == intervals.1@,
        coverages.0.eq_spec(&coverages.1) <==> coverages.0@ == coverages.1@,
        bindings.0.eq_spec(&bindings.1) <==> bindings.0@ == bindings.1@,
        observations.0.eq_spec(&observations.1) <==> observations.0@ == observations.1@,
        results.0.eq_spec(&results.1) <==> results.0@ == results.1@,
        projections.0.eq_spec(&projections.1) <==> projections.0@ == projections.1@,
        loads.0.eq_spec(&loads.1) <==> loads.0@ == loads.1@,
{
}

/// What a publication is made of says its fields: the projection as it is stored, the request that
/// a stored revision answered, and the receipt with every write, in its order and no other.
pub proof fn law_publications_say_their_fields(
    projection: CanonicalProjection,
    operation: StoredOperation,
    plan: PublicationPlan,
)
    ensures
        projection@.unavailable_reason == projection.unavailable_reason,
        projection@.facts == facts_of(projection.paid_intervals@),
        operation@.revision == operation.revision,
        operation@.expected_revision == operation.expected_revision,
        operation@.evidence_reference == operation.evidence_reference@,
        operation@.snapshot == operation.projection@,
        plan@.receipt == plan.receipt,
        plan@.writes.len() == plan.writes@.len(),
        forall|i: int|
            0 <= i < plan.writes@.len() ==> #[trigger] plan@.writes[i] == plan.writes@[i]@,
{
}

/// What a listener does next is said as it is, with the code or the error that ends a login.
pub proof fn law_actions_say_what_they_do(action: CallbackAction)
    ensures
        action is Listen <==> action@ is Listen,
        action is Pause <==> action@ is Pause,
        action is Reject <==> action@ is Reject,
        action matches CallbackAction::Finish { reply, outcome } ==> {
            &&& action@ is Finish
            &&& action@->reply == reply
            &&& match outcome {
                Ok(code) => action@->outcome matches Ok(said) && said == code@,
                Err(error) => action@->outcome matches Err(said) && said == error@,
            }
        },
{
}

/// What is to be tried is said as it is, with the text or the bytes to try.
pub proof fn law_trials_say_what_to_try(codec: CodecTrial, key: KeyTrial)
    ensures
        codec is Nothing <==> codec@ is Nothing,
        match codec {
            CodecTrial::Decode(text) => codec@ matches base32_codec::Trial::Decode(said) && said
                == text@,
            CodecTrial::RoundTrip(bytes) => codec@ matches base32_codec::Trial::RoundTrip(said)
                && said == bytes@,
            CodecTrial::Refuse(text) => codec@ matches base32_codec::Trial::Refuse(said) && said
                == text@,
            CodecTrial::Nothing => true,
        },
        match key {
            KeyTrial::Decode(text) => key@ matches key_strings::Trial::Decode(said) && said
                == text@,
            KeyTrial::RoundTrip(payload) => key@ matches key_strings::Trial::RoundTrip(said)
                && said == payload@,
            KeyTrial::Refuse(text) => key@ matches key_strings::Trial::Refuse(said) && said
                == text@,
            KeyTrial::WrongVersion { prefix, payload } => {
                &&& key@ is WrongVersion
                &&& key@->prefix == prefix@
                &&& key@->WrongVersion_payload == payload@
            },
        },
{
}

/// The sentence of an error that carries something ends with it: a detail, the sentence of the
/// error below, the reason, or the two revisions that differ.
pub proof fn law_sentences_end_with_what_the_error_carries(e: StoreFault, f: ReconciliationFault)
    ensures
        match e {
            StoreFault::InvalidCoverage(x) => e.sentence() == "invalid coverage: "@ + x.sentence(),
            StoreFault::ProjectionUnavailable(x) => e.sentence() == "projection is unavailable: "@
                + (match x {
                UnavailableReason::NeedsReconciliation => "needs_reconciliation"@,
                UnavailableReason::ConflictingEvidence => "conflicting_evidence"@,
            }),
            StoreFault::RevisionConflict { expected: Some(m), actual: Some(n) } => e.sentence()
                == "projection revision conflict: expected "@ + ("Some("@ + decimal(m as int)
                + ")"@) + ", current "@ + ("Some("@ + decimal(n as int) + ")"@),
            StoreFault::RevisionConflict { expected: None, actual: Some(n) } => e.sentence()
                == "projection revision conflict: expected "@ + "None"@ + ", current "@ + (
            "Some("@ + decimal(n as int) + ")"@),
            StoreFault::RevisionConflict { expected: Some(m), actual: None } => e.sentence()
                == "projection revision conflict: expected "@ + ("Some("@ + decimal(m as int)
                + ")"@) + ", current "@ + "None"@,
            StoreFault::CorruptProjection(x) => e.sentence() == "stored projection is corrupt: "@
                + x,
            _ => true,
        },
        match f {
            ReconciliationFault::Store(x) => f.sentence() == "coverage store error: "@
                + x.sentence(),
            ReconciliationFault::InvalidSource(x) => f.sentence() == "invalid source binding: "@
                + x,
            ReconciliationFault::CorruptAttempt(x) => f.sentence()
                == "stored collection attempt is corrupt: "@ + x.sentence(),
            ReconciliationFault::SourceObservationConflict(x) => f.sentence()
                == "source observations conflict: "@ + x,
            ReconciliationFault::InvalidObservation(x) => f.sentence()
                == "invalid source observation: "@ + x.sentence(),
            ReconciliationFault::Serialization(x) => f.sentence()
                == "serialised reconciliation value is invalid: "@ + x,
            _ => true,
        },
{
}

/// An error of the store says its kind, and what it carries.
pub proof fn law_store_errors_say_their_kind(e: StoreError)
    ensures
        e is EmptyBeneficiary <==> e@ is EmptyBeneficiary,
        e is EmptyOperationId <==> e@ is EmptyOperationId,
        e is EmptyEvidenceReference <==> e@ is EmptyEvidenceReference,
        e is InvalidExpectedRevision <==> e@ is InvalidExpectedRevision,
        e is RevisionOverflow <==> e@ is RevisionOverflow,
        e is ProjectionMissing <==> e@ is ProjectionMissing,
        e is OperationConflict <==> e@ is OperationConflict,
        match e {
            StoreError::InvalidCoverage(x) => e@ == StoreFault::InvalidCoverage(x),
            StoreError::ProjectionUnavailable(x) => e@ == StoreFault::ProjectionUnavailable(x),
            StoreError::RevisionConflict { expected, actual } => e@
                == (StoreFault::RevisionConflict { expected, actual }),
            StoreError::CorruptProjection(x) => e@ == StoreFault::CorruptProjection(x@),
            _ => true,
        },
{
}

/// An error of the reconciliation says its kind, and what it carries.
pub proof fn law_reconciliation_errors_say_their_kind(e: ReconciliationError)
    ensures
        e is EmptyOperationId <==> e@ is EmptyOperationId,
        e is RegistrationConflict <==> e@ is RegistrationConflict,
        e is BootstrapConflict <==> e@ is BootstrapConflict,
        e is CorruptRegistration <==> e@ is CorruptRegistration,
        e is SourceBindingConflict <==> e@ is SourceBindingConflict,
        e is EmptyAttemptId <==> e@ is EmptyAttemptId,
        e is NoSources <==> e@ is NoSources,
        e is AttemptMissing <==> e@ is AttemptMissing,
        e is AttemptSuperseded <==> e@ is AttemptSuperseded,
        e is CollectionConflict <==> e@ is CollectionConflict,
        e is OperationConflict <==> e@ is OperationConflict,
        e is SourceBatchMismatch <==> e@ is SourceBatchMismatch,
        e is EpochOverflow <==> e@ is EpochOverflow,
        e is GenerationOverflow <==> e@ is GenerationOverflow,
        match e {
            ReconciliationError::Store(x) => e@ == ReconciliationFault::Store(x@),
            ReconciliationError::InvalidSource(x) => e@ == ReconciliationFault::InvalidSource(x@),
            ReconciliationError::CorruptAttempt(x) => e@ == ReconciliationFault::CorruptAttempt(x),
            ReconciliationError::SourceObservationConflict(x) => e@
                == ReconciliationFault::SourceObservationConflict(x@),
            ReconciliationError::InvalidObservation(x) => e@
                == ReconciliationFault::InvalidObservation(x),
            ReconciliationError::Serialization(x) => e@ == ReconciliationFault::Serialization(x@),
            _ => true,
        },
{
}

/// An error of a login says its kind and its detail, and its sentence is the detail where it has
/// one.
pub proof fn law_login_errors_say_their_detail(e: Error)
    ensures
        e is LegacyServer <==> e@ is LegacyServer,
        match e {
            Error::Keychain(detail) => e@ == Fault::Keychain(detail@) && e@.sentence() == detail@,
            Error::Input(detail) => e@ == Fault::Input(detail@) && e@.sentence() == detail@,
            Error::Server(detail) => e@ == Fault::Server(detail@) && e@.sentence() == detail@,
            Error::LegacyServer => e@.sentence()
                == "the server sent a session instead of a login code: it needs an update"@,
            Error::Network(detail) => e@ == Fault::Network(detail@) && e@.sentence() == detail@,
            Error::Io(detail) => e@ == Fault::Io(detail@) && e@.sentence() == detail@,
        },
{
}

} // verus!
