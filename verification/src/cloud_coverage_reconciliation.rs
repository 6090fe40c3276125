//! Coordination of the trusted sources of person-level Cloud coverage.
//!
//! The module records which external allocations belong to a beneficiary and serialises later
//! complete collections. It does not call a provider or decide whether an allocation is paid:
//! callers hand it evidence that has already passed the provider's checks.

use crate::cloud_coverage::{
    clone_intervals, facts_of, normalise_confirmed_intervals, position_of, same_intervals,
    ConfirmedPaidInterval, InvalidCoverage, PaidFact, PersonCoverage,
};
use crate::cloud_coverage_store::{
    current_revision, plan_publication, same_revision, CoverageProjection, Projection,
    PublicationOutcome, StoreError, StoreFault, UnavailableReason,
};
use crate::collection_rules::{
    canonical_observation, canonical_observations, collection, first_observation_fault,
    first_provenance_fault, gathered, identity_taken, is_bound, is_repeated,
    lemma_observation_fault_persists, lemma_provenance_members, lemma_provenance_persists,
    observation_fault, observed_source, provenance_fault, renewal_taken, some_unavailable,
};
use crate::coverage_facts::{fact_id, in_order, is_canonical};
use crate::coverage_lookups::{
    find_attempt, find_coordinator, find_registration, is_allocation_claimed, is_source_known,
};
use crate::coverage_tables::{
    is_text, staged, writes_of, AttemptRow, CoverageTables, CoverageTransaction, SourceRow,
    TableWrite, Write,
};
use crate::ordered::{
    ascending, is_arranged, lemma_arranged_is, lemma_concat_members, lemma_insert_ascending,
    lemma_push_members, lemma_take_members,
};
use crate::reconciliation_rules::{
    beginning, binding_fault, bindings_in_order, collection_publication, completion,
    completion_replayed, coordinator_writes, incomplete, must_not_be_empty, place, registered_until,
    registration, registration_outcome, registration_publication, result_is_canonical,
    same_collection, source_set, stored_ticket, superseding_writes,
};
use crate::text;
use crate::text::{before, before_irreflexive, before_total, blank};
use vstd::prelude::*;

verus! {

/// The immutable identity that binds one external allocation to a beneficiary.
#[derive(Debug)]
pub struct SourceBinding {
    pub beneficiary_id: String,
    pub source_id: String,
    pub provider_namespace: String,
    pub external_allocation_reference: String,
    pub ownership_evidence_reference: String,
}

/// What a [`SourceBinding`] says.
pub struct Binding {
    pub beneficiary_id: Seq<char>,
    pub source_id: Seq<char>,
    pub provider_namespace: Seq<char>,
    pub external_allocation_reference: Seq<char>,
    pub ownership_evidence_reference: Seq<char>,
}

impl View for SourceBinding {
    type V = Binding;

    open spec fn view(&self) -> Binding {
        Binding {
            beneficiary_id: self.beneficiary_id@,
            source_id: self.source_id@,
            provider_namespace: self.provider_namespace@,
            external_allocation_reference: self.external_allocation_reference@,
            ownership_evidence_reference: self.ownership_evidence_reference@,
        }
    }
}

impl Clone for SourceBinding {
    fn clone(&self) -> (r: Self)
        ensures
            r@ == self@,
    {
        SourceBinding {
            beneficiary_id: self.beneficiary_id.clone(),
            source_id: self.source_id.clone(),
            provider_namespace: self.provider_namespace.clone(),
            external_allocation_reference: self.external_allocation_reference.clone(),
            ownership_evidence_reference: self.ownership_evidence_reference.clone(),
        }
    }
}

impl PartialEq for SourceBinding {
    fn eq(&self, other: &Self) -> (r: bool) {
        self.beneficiary_id == other.beneficiary_id && self.source_id == other.source_id
            && self.provider_namespace == other.provider_namespace
            && self.external_allocation_reference == other.external_allocation_reference
            && self.ownership_evidence_reference == other.ownership_evidence_reference
    }
}

impl vstd::std_specs::cmp::PartialEqSpecImpl for SourceBinding {
    open spec fn obeys_eq_spec() -> bool {
        true
    }

    open spec fn eq_spec(&self, other: &Self) -> bool {
        self@ == other@
    }
}

impl Eq for SourceBinding {

}

/// What a list of bindings says, in its order.
pub open spec fn bindings_of(bindings: Seq<SourceBinding>) -> Seq<Binding> {
    bindings.map_values(|b: SourceBinding| b@)
}

/// Copies a list of bindings.
pub fn clone_bindings(bindings: &Vec<SourceBinding>) -> (r: Vec<SourceBinding>)
    ensures
        bindings_of(r@) == bindings_of(bindings@),
{
    let mut r: Vec<SourceBinding> = Vec::new();
    for i in 0..bindings.len()
        invariant
            bindings_of(r@) == bindings_of(bindings@).take(i as int),
    {
        let ghost copied = r@;
        r.push(bindings[i].clone());
        assert(bindings_of(r@) =~= bindings_of(copied).push(bindings@[i as int]@));
        assert(bindings_of(r@) =~= bindings_of(bindings@).take(i + 1));
    }
    assert(bindings_of(bindings@).take(bindings@.len() as int) =~= bindings_of(bindings@));
    r
}

/// Whether two lists of bindings say the same.
pub fn same_bindings(a: &Vec<SourceBinding>, b: &Vec<SourceBinding>) -> (r: bool)
    ensures
        r == (bindings_of(a@) == bindings_of(b@)),
{
    if a.len() != b.len() {
        assert(bindings_of(a@).len() != bindings_of(b@).len());
        return false;
    }
    for i in 0..a.len()
        invariant
            a@.len() == b@.len(),
            forall|k: int| 0 <= k < i ==> bindings_of(a@)[k] == bindings_of(b@)[k],
    {
        if !(a[i] == b[i]) {
            assert(bindings_of(a@)[i as int] != bindings_of(b@)[i as int]);
            return false;
        }
    }
    assert(bindings_of(a@) =~= bindings_of(b@));
    true
}

/// Whether a source registration was newly applied or exactly replayed.
#[derive(Debug, Clone, Copy, PartialEq, Eq, Structural)]
pub enum RegistrationOutcome {
    Applied,
    AlreadyApplied,
}

impl RegistrationOutcome {
    /// The name of the outcome.
    pub fn as_str(self) -> (r: &'static str)
        ensures
            r@ == match self {
                RegistrationOutcome::Applied => "applied"@,
                RegistrationOutcome::AlreadyApplied => "already_applied"@,
            },
    {
        match self {
            RegistrationOutcome::Applied => "applied",
            RegistrationOutcome::AlreadyApplied => "already_applied",
        }
    }
}

/// The durable result of registering one source.
#[derive(Debug, PartialEq, Eq)]
pub struct RegistrationReceipt {
    pub source_id: String,
    pub source_set_generation: i64,
    pub projection_revision: Option<i64>,
    pub outcome: RegistrationOutcome,
}

/// What a [`RegistrationReceipt`] says.
pub struct Registration {
    pub source_id: Seq<char>,
    pub source_set_generation: i64,
    pub projection_revision: Option<i64>,
    pub outcome: RegistrationOutcome,
}

impl View for RegistrationReceipt {
    type V = Registration;

    open spec fn view(&self) -> Registration {
        Registration {
            source_id: self.source_id@,
            source_set_generation: self.source_set_generation,
            projection_revision: self.projection_revision,
            outcome: self.outcome,
        }
    }
}

impl Clone for RegistrationReceipt {
    fn clone(&self) -> (r: Self)
        ensures
            r@ == self@,
    {
        RegistrationReceipt {
            source_id: self.source_id.clone(),
            source_set_generation: self.source_set_generation,
            projection_revision: self.projection_revision,
            outcome: self.outcome,
        }
    }
}

/// The lifecycle state of a durable collection attempt.
#[derive(Debug, Clone, Copy, PartialEq, Eq, Structural)]
pub enum CollectionStatus {
    Pending,
    Superseded,
    Completed,
}

/// The name under which a status is stored.
pub open spec fn status_name(status: CollectionStatus) -> Seq<char> {
    match status {
        CollectionStatus::Pending => "pending"@,
        CollectionStatus::Superseded => "superseded"@,
        CollectionStatus::Completed => "completed"@,
    }
}

/// The status that a stored name stands for, if there is one.
pub open spec fn status_named(name: Seq<char>) -> Option<CollectionStatus> {
    if name == "pending"@ {
        Some(CollectionStatus::Pending)
    } else if name == "superseded"@ {
        Some(CollectionStatus::Superseded)
    } else if name == "completed"@ {
        Some(CollectionStatus::Completed)
    } else {
        None
    }
}

impl CollectionStatus {
    /// The name under which the status is stored.
    pub fn as_str(self) -> (r: &'static str)
        ensures
            r@ == status_name(self),
    {
        match self {
            CollectionStatus::Pending => "pending",
            CollectionStatus::Superseded => "superseded",
            CollectionStatus::Completed => "completed",
        }
    }

    /// The status that a stored name stands for, if there is one.
    pub fn parse(value: &str) -> (r: Option<Self>)
        ensures
            r == status_named(value@),
    {
        if text::same(value, "pending") {
            Some(CollectionStatus::Pending)
        } else if text::same(value, "superseded") {
            Some(CollectionStatus::Superseded)
        } else if text::same(value, "completed") {
            Some(CollectionStatus::Completed)
        } else {
            None
        }
    }
}

/// A source set snapshot and projection revision captured before provider collection begins.
#[derive(Debug, PartialEq, Eq)]
pub struct CollectionTicket {
    pub beneficiary_id: String,
    pub attempt_id: String,
    pub collection_epoch: i64,
    pub source_set_generation: i64,
    pub expected_projection_revision: Option<i64>,
    pub source_bindings: Vec<SourceBinding>,
    pub status: CollectionStatus,
    pub completed_revision: Option<i64>,
}

/// What a [`CollectionTicket`] says.
pub struct Ticket {
    pub beneficiary_id: Seq<char>,
    pub attempt_id: Seq<char>,
    pub collection_epoch: i64,
    pub source_set_generation: i64,
    pub expected_projection_revision: Option<i64>,
    pub source_bindings: Seq<Binding>,
    pub status: CollectionStatus,
    pub completed_revision: Option<i64>,
}

impl View for CollectionTicket {
    type V = Ticket;

    open spec fn view(&self) -> Ticket {
        Ticket {
            beneficiary_id: self.beneficiary_id@,
            attempt_id: self.attempt_id@,
            collection_epoch: self.collection_epoch,
            source_set_generation: self.source_set_generation,
            expected_projection_revision: self.expected_projection_revision,
            source_bindings: bindings_of(self.source_bindings@),
            status: self.status,
            completed_revision: self.completed_revision,
        }
    }
}

impl Clone for CollectionTicket {
    fn clone(&self) -> (r: Self)
        ensures
            r@ == self@,
    {
        CollectionTicket {
            beneficiary_id: self.beneficiary_id.clone(),
            attempt_id: self.attempt_id.clone(),
            collection_epoch: self.collection_epoch,
            source_set_generation: self.source_set_generation,
            expected_projection_revision: self.expected_projection_revision,
            source_bindings: clone_bindings(&self.source_bindings),
            status: self.status,
            completed_revision: self.completed_revision,
        }
    }
}

/// A complete or explicitly unavailable observation for one registered source.
#[derive(Debug)]
pub enum SourceObservation {
    Complete {
        source_id: String,
        evidence_reference: String,
        paid_intervals: Vec<ConfirmedPaidInterval>,
    },
    Unavailable { source_id: String, evidence_reference: String, reason: UnavailableReason },
}

/// What a [`SourceObservation`] says.
pub struct Observation {
    pub source_id: Seq<char>,
    pub evidence_reference: Seq<char>,
    pub result: Projection,
}

impl View for SourceObservation {
    type V = Observation;

    open spec fn view(&self) -> Observation {
        match *self {
            SourceObservation::Complete { source_id, evidence_reference, paid_intervals } =>
                Observation {
                source_id: source_id@,
                evidence_reference: evidence_reference@,
                result: Projection::Complete { facts: facts_of(paid_intervals@) },
            },
            SourceObservation::Unavailable { source_id, evidence_reference, reason } =>
                Observation {
                source_id: source_id@,
                evidence_reference: evidence_reference@,
                result: Projection::Unavailable { reason },
            },
        }
    }
}

impl Clone for SourceObservation {
    fn clone(&self) -> (r: Self)
        ensures
            r@ == self@,
    {
        match self {
            SourceObservation::Complete { source_id, evidence_reference, paid_intervals } =>
                SourceObservation::Complete {
                source_id: source_id.clone(),
                evidence_reference: evidence_reference.clone(),
                paid_intervals: clone_intervals(paid_intervals),
            },
            SourceObservation::Unavailable { source_id, evidence_reference, reason } =>
                SourceObservation::Unavailable {
                source_id: source_id.clone(),
                evidence_reference: evidence_reference.clone(),
                reason: *reason,
            },
        }
    }
}

impl PartialEq for SourceObservation {
    fn eq(&self, other: &Self) -> (r: bool) {
        match (self, other) {
            (
                SourceObservation::Complete {
                    source_id: a,
                    evidence_reference: b,
                    paid_intervals: c,
                },
                SourceObservation::Complete {
                    source_id: x,
                    evidence_reference: y,
                    paid_intervals: z,
                },
            ) => *a == *x && *b == *y && same_intervals(c, z),
            (
                SourceObservation::Unavailable { source_id: a, evidence_reference: b, reason: c },
                SourceObservation::Unavailable { source_id: x, evidence_reference: y, reason: z },
            ) => *a == *x && *b == *y && *c == *z,
            _ => false,
        }
    }
}

impl vstd::std_specs::cmp::PartialEqSpecImpl for SourceObservation {
    open spec fn obeys_eq_spec() -> bool {
        true
    }

    open spec fn eq_spec(&self, other: &Self) -> bool {
        self@ == other@
    }
}

impl Eq for SourceObservation {

}

/// What a list of observations says, in its order.
pub open spec fn observations_of(observations: Seq<SourceObservation>) -> Seq<Observation> {
    observations.map_values(|o: SourceObservation| o@)
}

/// Whether two lists of observations say the same.
pub fn same_observations(a: &Vec<SourceObservation>, b: &Vec<SourceObservation>) -> (r: bool)
    ensures
        r == (observations_of(a@) == observations_of(b@)),
{
    if a.len() != b.len() {
        assert(observations_of(a@).len() != observations_of(b@).len());
        return false;
    }
    for i in 0..a.len()
        invariant
            a@.len() == b@.len(),
            forall|k: int| 0 <= k < i ==> observations_of(a@)[k] == observations_of(b@)[k],
    {
        if !(a[i] == b[i]) {
            assert(observations_of(a@)[i as int] != observations_of(b@)[i as int]);
            return false;
        }
    }
    assert(observations_of(a@) =~= observations_of(b@));
    true
}

/// Copies a list of observations.
pub fn clone_observations(observations: &Vec<SourceObservation>) -> (r: Vec<SourceObservation>)
    ensures
        observations_of(r@) == observations_of(observations@),
{
    let mut r: Vec<SourceObservation> = Vec::new();
    for i in 0..observations.len()
        invariant
            observations_of(r@) == observations_of(observations@).take(i as int),
    {
        let ghost copied = r@;
        r.push(observations[i].clone());
        assert(observations_of(r@) =~= observations_of(copied).push(observations@[i as int]@));
        assert(observations_of(r@) =~= observations_of(observations@).take(i + 1));
    }
    assert(observations_of(observations@).take(observations@.len() as int) =~= observations_of(
        observations@,
    ));
    r
}

/// The combined result of one collection: each source's observation in canonical form.
#[derive(Debug)]
pub struct CanonicalResult {
    pub aggregate_evidence_reference: String,
    pub sources: Vec<SourceObservation>,
}

/// What a [`CanonicalResult`] says.
pub struct Collected {
    pub aggregate_evidence_reference: Seq<char>,
    pub sources: Seq<Observation>,
}

impl View for CanonicalResult {
    type V = Collected;

    open spec fn view(&self) -> Collected {
        Collected {
            aggregate_evidence_reference: self.aggregate_evidence_reference@,
            sources: observations_of(self.sources@),
        }
    }
}

impl Clone for CanonicalResult {
    fn clone(&self) -> (r: Self)
        ensures
            r@ == self@,
    {
        CanonicalResult {
            aggregate_evidence_reference: self.aggregate_evidence_reference.clone(),
            sources: clone_observations(&self.sources),
        }
    }
}

impl PartialEq for CanonicalResult {
    fn eq(&self, other: &Self) -> (r: bool) {
        self.aggregate_evidence_reference == other.aggregate_evidence_reference
            && same_observations(&self.sources, &other.sources)
    }
}

impl vstd::std_specs::cmp::PartialEqSpecImpl for CanonicalResult {
    open spec fn obeys_eq_spec() -> bool {
        true
    }

    open spec fn eq_spec(&self, other: &Self) -> bool {
        self@ == other@
    }
}

impl Eq for CanonicalResult {

}

/// The result of completing a collection attempt.
#[derive(Debug, PartialEq, Eq)]
pub struct ReconciliationReceipt {
    pub attempt_id: String,
    pub revision: i64,
    pub outcome: PublicationOutcome,
}

/// What a [`ReconciliationReceipt`] says.
pub struct Completion {
    pub attempt_id: Seq<char>,
    pub revision: i64,
    pub outcome: PublicationOutcome,
}

impl View for ReconciliationReceipt {
    type V = Completion;

    open spec fn view(&self) -> Completion {
        Completion {
            attempt_id: self.attempt_id@,
            revision: self.revision,
            outcome: self.outcome,
        }
    }
}

impl Clone for ReconciliationReceipt {
    fn clone(&self) -> (r: Self)
        ensures
            r@ == self@,
    {
        ReconciliationReceipt {
            attempt_id: self.attempt_id.clone(),
            revision: self.revision,
            outcome: self.outcome,
        }
    }
}

/// In which respect a stored collection attempt cannot be trusted.
#[derive(Debug, Clone, Copy, PartialEq, Eq, Structural)]
pub enum CorruptAttemptReason {
    /// The stored bindings do not have the shape of a source set.
    BindingShape,
    /// The stored bindings are not the sources registered up to the attempt's generation.
    BindingSourceSet,
    /// The stored result of a completed attempt is not the canonical result of its sources.
    ResultCanonical,
}

impl CorruptAttemptReason {
    /// The phrase that describes the reason.
    pub open spec fn sentence(self) -> Seq<char> {
        match self {
            CorruptAttemptReason::BindingShape => "source bindings are malformed"@,
            CorruptAttemptReason::BindingSourceSet =>
                "source bindings differ from the registered source set"@,
            CorruptAttemptReason::ResultCanonical => "completed result is not canonical"@,
        }
    }

    /// The phrase that describes the reason.
    pub fn message(&self) -> (r: &'static str)
        ensures
            r@ == self.sentence(),
    {
        match self {
            CorruptAttemptReason::BindingShape => "source bindings are malformed",
            CorruptAttemptReason::BindingSourceSet =>
                "source bindings differ from the registered source set",
            CorruptAttemptReason::ResultCanonical => "completed result is not canonical",
        }
    }
}

/// Source coordination and validation failures.
#[derive(Debug)]
pub enum ReconciliationError {
    Store(StoreError),
    InvalidSource(String),
    EmptyOperationId,
    RegistrationConflict,
    BootstrapConflict,
    CorruptRegistration,
    SourceBindingConflict,
    EmptyAttemptId,
    NoSources,
    AttemptMissing,
    AttemptSuperseded,
    CollectionConflict,
    OperationConflict,
    CorruptAttempt(CorruptAttemptReason),
    SourceBatchMismatch,
    SourceObservationConflict(String),
    InvalidObservation(InvalidCoverage),
    EpochOverflow,
    GenerationOverflow,
    Serialization(String),
}

/// What a [`ReconciliationError`] says.
pub enum ReconciliationFault {
    Store(StoreFault),
    InvalidSource(Seq<char>),
    EmptyOperationId,
    RegistrationConflict,
    BootstrapConflict,
    CorruptRegistration,
    SourceBindingConflict,
    EmptyAttemptId,
    NoSources,
    AttemptMissing,
    AttemptSuperseded,
    CollectionConflict,
    OperationConflict,
    CorruptAttempt(CorruptAttemptReason),
    SourceBatchMismatch,
    SourceObservationConflict(Seq<char>),
    InvalidObservation(InvalidCoverage),
    EpochOverflow,
    GenerationOverflow,
    Serialization(Seq<char>),
}

impl View for ReconciliationError {
    type V = ReconciliationFault;

    open spec fn view(&self) -> ReconciliationFault {
        match *self {
            ReconciliationError::Store(x) => ReconciliationFault::Store(x@),
            ReconciliationError::InvalidSource(x) => ReconciliationFault::InvalidSource(x@),
            ReconciliationError::EmptyOperationId => ReconciliationFault::EmptyOperationId,
            ReconciliationError::RegistrationConflict => ReconciliationFault::RegistrationConflict,
            ReconciliationError::BootstrapConflict => ReconciliationFault::BootstrapConflict,
            ReconciliationError::CorruptRegistration => ReconciliationFault::CorruptRegistration,
            ReconciliationError::SourceBindingConflict =>
                ReconciliationFault::SourceBindingConflict,
            ReconciliationError::EmptyAttemptId => ReconciliationFault::EmptyAttemptId,
            ReconciliationError::NoSources => ReconciliationFault::NoSources,
            ReconciliationError::AttemptMissing => ReconciliationFault::AttemptMissing,
            ReconciliationError::AttemptSuperseded => ReconciliationFault::AttemptSuperseded,
            ReconciliationError::CollectionConflict => ReconciliationFault::CollectionConflict,
            ReconciliationError::OperationConflict => ReconciliationFault::OperationConflict,
            ReconciliationError::CorruptAttempt(x) => ReconciliationFault::CorruptAttempt(x),
            ReconciliationError::SourceBatchMismatch => ReconciliationFault::SourceBatchMismatch,
            ReconciliationError::SourceObservationConflict(x) =>
                ReconciliationFault::SourceObservationConflict(x@),
            ReconciliationError::InvalidObservation(x) =>
                ReconciliationFault::InvalidObservation(x),
            ReconciliationError::EpochOverflow => ReconciliationFault::EpochOverflow,
            ReconciliationError::GenerationOverflow => ReconciliationFault::GenerationOverflow,
            ReconciliationError::Serialization(x) => ReconciliationFault::Serialization(x@),
        }
    }
}

impl ReconciliationFault {
    /// The sentence that describes the failure.
    pub open spec fn sentence(self) -> Seq<char> {
        match self {
            ReconciliationFault::Store(fault) => "coverage store error: "@ + fault.sentence(),
            ReconciliationFault::InvalidSource(fault) => "invalid source binding: "@ + fault,
            ReconciliationFault::EmptyOperationId => "registration operation_id must not be empty"@,
            ReconciliationFault::RegistrationConflict =>
                "source registration conflicts with an existing binding"@,
            ReconciliationFault::BootstrapConflict =>
                "existing coverage is not owned by the reconciliation coordinator"@,
            ReconciliationFault::CorruptRegistration =>
                "stored source registration receipt is incomplete"@,
            ReconciliationFault::SourceBindingConflict =>
                "source allocation is already bound to another beneficiary"@,
            ReconciliationFault::EmptyAttemptId => "collection attempt_id must not be empty"@,
            ReconciliationFault::NoSources =>
                "no registered coverage sources exist for this beneficiary"@,
            ReconciliationFault::AttemptMissing => "collection attempt does not exist"@,
            ReconciliationFault::AttemptSuperseded => "collection attempt is superseded"@,
            ReconciliationFault::CollectionConflict =>
                "collection attempt conflicts with current source or projection state"@,
            ReconciliationFault::OperationConflict =>
                "collection completion conflicts with the completed attempt"@,
            ReconciliationFault::CorruptAttempt(fault) =>
                "stored collection attempt is corrupt: "@ + fault.sentence(),
            ReconciliationFault::SourceBatchMismatch =>
                "collection source batch does not match the registered source set"@,
            ReconciliationFault::SourceObservationConflict(fault) =>
                "source observations conflict: "@ + fault,
            ReconciliationFault::InvalidObservation(fault) =>
                "invalid source observation: "@ + fault.sentence(),
            ReconciliationFault::EpochOverflow => "collection epoch is exhausted"@,
            ReconciliationFault::GenerationOverflow => "source set generation is exhausted"@,
            ReconciliationFault::Serialization(fault) =>
                "serialised reconciliation value is invalid: "@ + fault,
        }
    }
}

impl ReconciliationError {
    /// The sentence that describes the failure.
    pub fn message(&self) -> (r: String)
        ensures
            r@ == self@.sentence(),
    {
        match self {
            ReconciliationError::Store(fault) =>
                text::join("coverage store error: ", &fault.message()),
            ReconciliationError::InvalidSource(fault) =>
                text::join("invalid source binding: ", fault),
            ReconciliationError::EmptyOperationId =>
                "registration operation_id must not be empty".to_owned(),
            ReconciliationError::RegistrationConflict =>
                "source registration conflicts with an existing binding".to_owned(),
            ReconciliationError::BootstrapConflict =>
                "existing coverage is not owned by the reconciliation coordinator".to_owned(),
            ReconciliationError::CorruptRegistration =>
                "stored source registration receipt is incomplete".to_owned(),
            ReconciliationError::SourceBindingConflict =>
                "source allocation is already bound to another beneficiary".to_owned(),
            ReconciliationError::EmptyAttemptId =>
                "collection attempt_id must not be empty".to_owned(),
            ReconciliationError::NoSources =>
                "no registered coverage sources exist for this beneficiary".to_owned(),
            ReconciliationError::AttemptMissing => "collection attempt does not exist".to_owned(),
            ReconciliationError::AttemptSuperseded => "collection attempt is superseded".to_owned(),
            ReconciliationError::CollectionConflict =>
                "collection attempt conflicts with current source or projection state".to_owned(),
            ReconciliationError::OperationConflict =>
                "collection completion conflicts with the completed attempt".to_owned(),
            ReconciliationError::CorruptAttempt(fault) =>
                text::join("stored collection attempt is corrupt: ", fault.message()),
            ReconciliationError::SourceBatchMismatch =>
                "collection source batch does not match the registered source set".to_owned(),
            ReconciliationError::SourceObservationConflict(fault) =>
                text::join("source observations conflict: ", fault),
            ReconciliationError::InvalidObservation(fault) =>
                text::join("invalid source observation: ", fault.message()),
            ReconciliationError::EpochOverflow => "collection epoch is exhausted".to_owned(),
            ReconciliationError::GenerationOverflow =>
                "source set generation is exhausted".to_owned(),
            ReconciliationError::Serialization(fault) =>
                text::join("serialised reconciliation value is invalid: ", fault),
        }
    }
}

/// Whether an interval of the list carries a failed renewal.
fn carries_renewal(list: &Vec<ConfirmedPaidInterval>, renewal_id: &str) -> (r: bool)
    ensures
        r == renewal_taken(facts_of(list@), renewal_id@),
{
    for i in 0..list.len()
        invariant
            forall|k: int|
                0 <= k < i ==> (#[trigger] facts_of(list@)[k]).failed_renewal_id != Some(
                    renewal_id@,
                ),
    {
        assert(facts_of(list@)[i as int] == list@[i as int]@);
        if is_text(&list[i].failed_renewal_id, renewal_id) {
            assert(facts_of(list@).contains(facts_of(list@)[i as int]));
            return true;
        }
    }
    false
}

/// An ordered list has an identity if the place of that identity does.
proof fn lemma_identity_place(list: Seq<PaidFact>, at: int, id: Seq<char>)
    requires
        in_order(list),
        0 <= at <= list.len(),
        forall|k: int| 0 <= k < at ==> before((#[trigger] list[k]).coverage_id, id),
        at < list.len() ==> !before(list[at].coverage_id, id),
    ensures
        identity_taken(list, id) == (at < list.len() && list[at].coverage_id == id),
{
    before_irreflexive(id);
    if at < list.len() && list[at].coverage_id == id {
        assert(list.contains(list[at]));
    }
    if identity_taken(list, id) {
        let fact = choose|fact: PaidFact| #[trigger]
            list.contains(fact) && fact.coverage_id == id;
        let k = choose|k: int| 0 <= k < list.len() && list[k] == fact;
        if k < at {
            assert(before(list[k].coverage_id, id));
        } else if k > at {
            assert(before(list[at].coverage_id, list[k].coverage_id));
        }
    }
}

/// Adds the facts that one source reports to the facts gathered before, in canonical order.
fn gather(
    earlier: Vec<ConfirmedPaidInterval>,
    facts: &Vec<ConfirmedPaidInterval>,
    source_id: &str,
) -> (r: Result<Vec<ConfirmedPaidInterval>, ReconciliationError>)
    requires
        in_order(facts_of(earlier@)),
    ensures
        match first_provenance_fault(
            facts_of(earlier@),
            facts_of(facts@),
            facts@.len() as int,
            source_id@,
        ) {
            Some(message) => r matches Err(e) && e@
                == ReconciliationFault::SourceObservationConflict(message),
            None => r matches Ok(list) && is_canonical(
                facts_of(list@),
                facts_of(earlier@) + facts_of(facts@),
            ),
        },
{
    let ghost before_them = facts_of(earlier@);
    let ghost reported = facts_of(facts@);
    let mut list: Vec<ConfirmedPaidInterval> = earlier;
    assert(before_them + reported.take(0) =~= before_them);
    for i in 0..facts.len()
        invariant
            before_them == facts_of(earlier@),
            reported == facts_of(facts@),
            is_canonical(facts_of(list@), before_them + reported.take(i as int)),
            first_provenance_fault(before_them, reported, i as int, source_id@) is None,
    {
        let interval = &facts[i];
        let ghost fact = interval@;
        let ghost so_far = before_them + reported.take(i as int);
        let ghost members = facts_of(list@);
        let ghost n = facts@.len() as int;
        assert(reported[i as int] == fact);
        proof {
            if provenance_fault(so_far, fact, source_id@) is Some {
                lemma_provenance_persists(before_them, reported, i + 1, n, source_id@);
            }
            assert(identity_taken(so_far, fact.coverage_id) == identity_taken(
                members,
                fact.coverage_id,
            ));
        }
        if !text::same(&interval.source_id, source_id) {
            return Err(
                ReconciliationError::SourceObservationConflict(
                    "coverage fact source_id does not match its registered source".to_owned(),
                ),
            );
        }
        let at = position_of(&list, &interval.coverage_id);
        proof {
            assert forall|k: int| 0 <= k < at implies before(
                (#[trigger] members[k]).coverage_id,
                fact.coverage_id,
            ) by {
                assert(before(list@[k]@.coverage_id, fact.coverage_id));
            }
            lemma_identity_place(members, at as int, fact.coverage_id);
        }
        if at < list.len() && list[at].coverage_id == interval.coverage_id {
            return Err(
                ReconciliationError::SourceObservationConflict(
                    "coverage_id appears in multiple sources".to_owned(),
                ),
            );
        }
        if let Some(renewal_id) = &interval.failed_renewal_id {
            assert(renewal_taken(so_far, renewal_id@) == renewal_taken(members, renewal_id@));
            if carries_renewal(&list, renewal_id) {
                return Err(
                    ReconciliationError::SourceObservationConflict(
                        "failed_renewal_id appears in multiple sources".to_owned(),
                    ),
                );
            }
        }
        proof {
            if at < list@.len() {
                before_total(members[at as int].coverage_id, fact.coverage_id);
            }
            lemma_insert_ascending(members, at as int, fact, fact_id());
        }
        list.insert(at, interval.clone());
        proof {
            assert(facts_of(list@) =~= members.insert(at as int, fact));
            assert(before_them + reported.take(i + 1) =~= so_far.push(fact));
            lemma_push_members(so_far, fact);
        }
    }
    assert(reported.take(facts@.len() as int) =~= reported);
    Ok(list)
}

/// The evidence and the source of an observation.
fn observed(observation: &SourceObservation) -> (r: (&String, &String))
    ensures
        r.0@ == observation@.source_id,
        r.1@ == observation@.evidence_reference,
{
    match observation {
        SourceObservation::Complete { source_id, evidence_reference, .. } => (
            source_id,
            evidence_reference,
        ),
        SourceObservation::Unavailable { source_id, evidence_reference, .. } => (
            source_id,
            evidence_reference,
        ),
    }
}

/// Whether a source is among the bindings.
fn has_source(bindings: &[SourceBinding], source_id: &str) -> (r: bool)
    ensures
        r == is_bound(bindings_of(bindings@), source_id@),
{
    for i in 0..bindings.len()
        invariant
            forall|k: int|
                0 <= k < i ==> (#[trigger] bindings_of(bindings@)[k]).source_id != source_id@,
    {
        assert(bindings_of(bindings@)[i as int] == bindings@[i as int]@);
        if text::same(&bindings[i].source_id, source_id) {
            return true;
        }
    }
    false
}

/// Whether one of the first `n` observations is of a source.
fn has_observed(observations: &[SourceObservation], n: usize, source_id: &str) -> (r: bool)
    requires
        n < observations@.len(),
        observations@[n as int]@.source_id == source_id@,
    ensures
        r == is_repeated(observations_of(observations@), n as int),
{
    for i in 0..n
        invariant
            n < observations@.len(),
            observations@[n as int]@.source_id == source_id@,
            forall|k: int|
                0 <= k < i ==> (#[trigger] observations_of(observations@)[k]).source_id
                    != source_id@,
    {
        assert(observations_of(observations@)[i as int] == observations@[i as int]@);
        if text::same(observed(&observations[i]).0, source_id) {
            return true;
        }
    }
    false
}

/// Puts an observation in its place among ordered ones.
fn insert_observation(list: &mut Vec<SourceObservation>, observation: SourceObservation)
    requires
        ascending(observations_of(old(list)@), observed_source()),
        forall|o: Observation| #[trigger]
            observations_of(old(list)@).contains(o) ==> o.source_id != observation@.source_id,
    ensures
        ascending(observations_of(final(list)@), observed_source()),
        forall|o: Observation| #[trigger]
            observations_of(final(list)@).contains(o) <==> observations_of(old(list)@).contains(o)
                || o == observation@,
{
    let ghost members = observations_of(list@);
    let ghost id = observation@.source_id;
    let mut at: usize = 0;
    while at < list.len() && text::comes_before(observed(&list[at]).0, observed(&observation).0)
        invariant
            at <= list@.len(),
            members == observations_of(list@),
            id == observation@.source_id,
            forall|k: int| 0 <= k < at ==> before((#[trigger] members[k]).source_id, id),
        decreases list@.len() - at,
    {
        assert(members[at as int] == list@[at as int]@);
        at = at + 1;
    }
    let ghost added = observation@;
    proof {
        if at < list@.len() {
            assert(members[at as int] == list@[at as int]@);
            assert(members.contains(members[at as int]));
            before_total(members[at as int].source_id, id);
        }
        lemma_insert_ascending(members, at as int, added, observed_source());
    }
    list.insert(at, observation);
    assert(observations_of(list@) =~= members.insert(at as int, added));
}

/// Combines the observations of a source set: the result to store and the projection to publish.
pub fn canonical_collection(
    beneficiary_id: &str,
    bindings: &[SourceBinding],
    observations: &[SourceObservation],
    aggregate_evidence_reference: &str,
) -> (r: Result<(CanonicalResult, CoverageProjection), ReconciliationError>)
    ensures
        match collection(
            beneficiary_id@,
            bindings_of(bindings@),
            observations_of(observations@),
            aggregate_evidence_reference@,
        ) {
            Ok((result, projection)) => r matches Ok(c) && c.0@ == result && c.1@ == projection,
            Err(f) => r matches Err(e) && e@ == f,
        },
{
    if observations.len() != bindings.len() {
        return Err(ReconciliationError::SourceBatchMismatch);
    }
    let ghost all = observations_of(observations@);
    let ghost sources = bindings_of(bindings@);
    let ghost b = beneficiary_id@;
    let ghost n = observations@.len() as int;
    let ghost canon = canonical_observations(all);
    let mut list: Vec<SourceObservation> = Vec::new();
    let mut facts: Vec<ConfirmedPaidInterval> = Vec::new();
    let mut conflicting: bool = false;
    let mut unavailable: bool = false;
    assert(canon.take(0) =~= Seq::empty());
    assert(observations_of(list@) =~= Seq::empty());
    assert(facts_of(facts@) =~= Seq::empty());
    for i in 0..observations.len()
        invariant
            all == observations_of(observations@),
            sources == bindings_of(bindings@),
            b == beneficiary_id@,
            n == observations@.len(),
            canon == canonical_observations(all),
            observations@.len() == bindings@.len(),
            first_observation_fault(b, sources, all, i as int) is None,
            is_arranged(observations_of(list@), canon.take(i as int), observed_source()),
            is_canonical(facts_of(facts@), gathered(all, i as int)),
            conflicting == some_unavailable(
                all.take(i as int),
                UnavailableReason::ConflictingEvidence,
            ),
            unavailable == some_unavailable(
                all.take(i as int),
                UnavailableReason::NeedsReconciliation,
            ),
    {
        let observation = &observations[i];
        let ghost o = observation@;
        let (source_id, evidence_reference) = observed(observation);
        assert(all[i as int] == o);
        proof {
            if observation_fault(b, sources, all, i as int) is Some {
                lemma_observation_fault_persists(b, sources, all, i + 1, n);
            }
            lemma_unavailable_step(all, i as int);
        }
        if text::is_blank(evidence_reference) || !has_source(bindings, source_id) || has_observed(
            observations,
            i,
            source_id,
        ) {
            return Err(ReconciliationError::SourceBatchMismatch);
        }
        let entry = match observation {
            SourceObservation::Complete { paid_intervals, .. } => {
                let coverage = PersonCoverage {
                    beneficiary_id: beneficiary_id.to_owned(),
                    paid_intervals: clone_intervals(paid_intervals),
                };
                let normalised = match normalise_confirmed_intervals(&coverage) {
                    Ok(normalised) => normalised,
                    Err(fault) => {
                        return Err(ReconciliationError::InvalidObservation(fault));
                    },
                };
                proof {
                    lemma_provenance_members(
                        facts_of(facts@),
                        gathered(all, i as int),
                        facts_of(normalised@),
                        normalised@.len() as int,
                        source_id@,
                    );
                }
                let ghost before_them = facts_of(facts@);
                facts = gather(facts, &normalised, source_id)?;
                proof {
                    lemma_concat_members(before_them, facts_of(normalised@));
                    lemma_concat_members(gathered(all, i as int), facts_of(normalised@));
                }
                SourceObservation::Complete {
                    source_id: source_id.clone(),
                    evidence_reference: evidence_reference.clone(),
                    paid_intervals: normalised,
                }
            },
            SourceObservation::Unavailable { reason, .. } => {
                if *reason == UnavailableReason::ConflictingEvidence {
                    conflicting = true;
                } else {
                    unavailable = true;
                }
                assert(gathered(all, i + 1) =~= gathered(all, i as int));
                observation.clone()
            },
        };
        assert(entry@ == canonical_observation(o));
        assert(canon[i as int] == entry@);
        proof {
            lemma_new_source(all, i as int);
            lemma_take_members(canon, i as int);
        }
        insert_observation(&mut list, entry);
    }
    proof {
        assert(canon.take(n) =~= canon);
        assert(all.take(n) =~= all);
        lemma_arranged_is(observations_of(list@), canon, observed_source());
        lemma_arranged_is(facts_of(facts@), gathered(all, n), fact_id());
    }
    let projection = if conflicting {
        CoverageProjection::Unavailable { reason: UnavailableReason::ConflictingEvidence }
    } else if unavailable {
        CoverageProjection::Unavailable { reason: UnavailableReason::NeedsReconciliation }
    } else {
        CoverageProjection::Complete { paid_intervals: facts }
    };
    Ok(
        (
            CanonicalResult {
                aggregate_evidence_reference: aggregate_evidence_reference.to_owned(),
                sources: list,
            },
            projection,
        ),
    )
}

/// Which reasons one more observation adds.
proof fn lemma_unavailable_step(observations: Seq<Observation>, i: int)
    requires
        0 <= i < observations.len(),
    ensures
        forall|reason: UnavailableReason| #[trigger]
            some_unavailable(observations.take(i + 1), reason) == (some_unavailable(
                observations.take(i),
                reason,
            ) || observations[i].result == (Projection::Unavailable { reason })),
{
    let shorter = observations.take(i);
    let longer = observations.take(i + 1);
    assert forall|reason: UnavailableReason| #[trigger] some_unavailable(longer, reason) == (
    some_unavailable(shorter, reason) || observations[i].result == (Projection::Unavailable {
        reason,
    })) by {
        let wanted = Projection::Unavailable { reason };
        if some_unavailable(shorter, reason) {
            let k = choose|k: int|
                0 <= k < shorter.len() && (#[trigger] shorter[k]).result == wanted;
            assert(longer[k] == shorter[k]);
        }
        if observations[i].result == wanted {
            assert(longer[i] == observations[i]);
        }
        if some_unavailable(longer, reason) {
            let k = choose|k: int| 0 <= k < longer.len() && (#[trigger] longer[k]).result == wanted;
            if k < i {
                assert(shorter[k] == longer[k]);
            }
        }
    }
}

/// A source that no earlier observation is of does not occur among the earlier ones in canonical
/// form.
proof fn lemma_new_source(observations: Seq<Observation>, i: int)
    requires
        0 <= i < observations.len(),
        !is_repeated(observations, i),
    ensures
        forall|o: Observation| #[trigger]
            canonical_observations(observations).take(i).contains(o) ==> o.source_id
                != observations[i].source_id,
{
    let earlier = canonical_observations(observations).take(i);
    assert forall|o: Observation| #[trigger] earlier.contains(o) implies o.source_id
        != observations[i].source_id by {
        let k = choose|k: int| 0 <= k < earlier.len() && earlier[k] == o;
        assert(o == canonical_observation(observations[k]));
    }
}

/// Refuses a blank registration operation.
pub fn validate_operation_id(operation_id: &str) -> (r: Result<(), ReconciliationError>)
    ensures
        match r {
            Ok(_) => !blank(operation_id@),
            Err(e) => blank(operation_id@) && e@ == ReconciliationFault::EmptyOperationId,
        },
{
    if text::is_blank(operation_id) {
        Err(ReconciliationError::EmptyOperationId)
    } else {
        Ok(())
    }
}

/// Refuses a blank attempt.
pub fn validate_attempt_id(attempt_id: &str) -> (r: Result<(), ReconciliationError>)
    ensures
        match r {
            Ok(_) => !blank(attempt_id@),
            Err(e) => blank(attempt_id@) && e@ == ReconciliationFault::EmptyAttemptId,
        },
{
    if text::is_blank(attempt_id) {
        Err(ReconciliationError::EmptyAttemptId)
    } else {
        Ok(())
    }
}

/// Refuses a blank value with a name.
pub fn validate_identifier(value: &str, name: &str) -> (r: Result<(), ReconciliationError>)
    ensures
        match r {
            Ok(_) => !blank(value@),
            Err(e) => blank(value@) && e@ == must_not_be_empty(name@),
        },
{
    if text::is_blank(value) {
        Err(ReconciliationError::InvalidSource(text::join(name, " must not be empty")))
    } else {
        Ok(())
    }
}

/// Refuses a binding with a blank part.
pub fn validate_binding(binding: &SourceBinding) -> (r: Result<(), ReconciliationError>)
    ensures
        match r {
            Ok(_) => binding_fault(binding@) is None,
            Err(e) => binding_fault(binding@) == Some(e@),
        },
{
    validate_identifier(&binding.beneficiary_id, "beneficiary_id")?;
    validate_identifier(&binding.source_id, "source_id")?;
    validate_identifier(&binding.provider_namespace, "provider_namespace")?;
    validate_identifier(&binding.external_allocation_reference, "external_allocation_reference")?;
    validate_identifier(&binding.ownership_evidence_reference, "ownership_evidence_reference")
}

/// What a publication says of the registration that made it.
pub fn projection_outcome(outcome: PublicationOutcome) -> (r: RegistrationOutcome)
    ensures
        r == registration_outcome(outcome),
{
    match outcome {
        PublicationOutcome::Applied => RegistrationOutcome::Applied,
        PublicationOutcome::AlreadyApplied => RegistrationOutcome::AlreadyApplied,
    }
}

/// What a registration publishes.
pub fn unavailable_projection() -> (r: CoverageProjection)
    ensures
        r@ == incomplete(),
{
    CoverageProjection::Unavailable { reason: UnavailableReason::NeedsReconciliation }
}

/// What the database's refusal of a new source means, by the constraint that it names: two
/// constraints keep a source and an allocation with one beneficiary. Any other refusal is none of
/// the coordinator's.
pub fn map_source_insert_error(constraint: Option<&str>) -> (r: Option<ReconciliationError>)
    ensures
        match r {
            Some(e) => e@ == ReconciliationFault::SourceBindingConflict
                && names_a_binding_constraint(constraint),
            None => !names_a_binding_constraint(constraint),
        },
{
    match constraint {
        Some(name) => if text::same(name, "cloud_coverage_sources_provider_allocation_key")
            || text::same(name, "cloud_coverage_sources_pkey") {
            Some(ReconciliationError::SourceBindingConflict)
        } else {
            None
        },
        None => None,
    }
}

/// Whether a constraint keeps a source or an allocation with one beneficiary.
pub open spec fn names_a_binding_constraint(constraint: Option<&str>) -> bool {
    constraint matches Some(name) && (name@ == "cloud_coverage_sources_provider_allocation_key"@
        || name@ == "cloud_coverage_sources_pkey"@)
}

/// Puts a binding in its place.
fn insert_binding(list: &mut Vec<SourceBinding>, binding: SourceBinding)
    ensures
        bindings_of(final(list)@) == bindings_of(old(list)@).insert(
            place(bindings_of(old(list)@), binding@.source_id),
            binding@,
        ),
{
    let ghost earlier = bindings_of(list@);
    let ghost added = binding@;
    let mut at: usize = list.len();
    assert(earlier.take(at as int) =~= earlier);
    while at > 0 && text::comes_before(&binding.source_id, &list[at - 1].source_id)
        invariant
            at <= list@.len(),
            earlier == bindings_of(list@),
            added == binding@,
            place(earlier.take(at as int), added.source_id) == place(earlier, added.source_id),
        decreases at,
    {
        assert(earlier.take(at as int).last() == list@[at - 1]@);
        assert(earlier.take(at as int).drop_last() =~= earlier.take(at - 1));
        at = at - 1;
    }
    proof {
        if at > 0 {
            assert(earlier.take(at as int).last() == list@[at - 1]@);
        }
        assert(place(earlier, added.source_id) == at);
    }
    list.insert(at, binding);
    assert(bindings_of(list@) =~= earlier.insert(at as int, added));
}

/// The source set of a beneficiary as of a generation, or now.
fn registered_sources(
    tables: &CoverageTables,
    beneficiary_id: &str,
    generation: Option<i64>,
) -> (r: Vec<SourceBinding>)
    ensures
        bindings_of(r@) == source_set(tables@, beneficiary_id@, generation),
{
    let ghost rows = tables@.sources;
    let ghost wanted = registered_until(beneficiary_id@, generation);
    let mut list: Vec<SourceBinding> = Vec::new();
    assert(bindings_of(list@) =~= Seq::empty());
    assert(bindings_in_order(rows.take(0), wanted) =~= Seq::empty());
    for i in 0..tables.sources.len()
        invariant
            rows == tables@.sources,
            wanted == registered_until(beneficiary_id@, generation),
            bindings_of(list@) == bindings_in_order(rows.take(i as int), wanted),
    {
        let row = &tables.sources[i];
        assert(rows[i as int] == row@);
        assert(rows.take(i + 1).drop_last() =~= rows.take(i as int));
        assert(rows.take(i + 1).last() == row@);
        let in_time = match generation {
            Some(last) => 1 <= row.registration_source_set_generation
                && row.registration_source_set_generation <= last,
            None => true,
        };
        if in_time && text::same(&row.binding.beneficiary_id, beneficiary_id) {
            insert_binding(&mut list, row.binding.clone());
        }
    }
    assert(rows.take(tables.sources@.len() as int) =~= rows);
    list
}

/// Whether the stored result of a completed attempt is what its own sources combine to.
fn has_canonical_result(row: &AttemptRow, bindings: &Vec<SourceBinding>) -> (r: bool)
    ensures
        r == result_is_canonical(row@, bindings_of(bindings@)),
{
    if row.projection_revision.is_none() {
        return false;
    }
    match (&row.aggregate_evidence_reference, &row.canonical_result) {
        (Some(evidence), Some(result)) => {
            if !(result.aggregate_evidence_reference == *evidence) {
                return false;
            }
            match canonical_collection(
                &row.beneficiary_id,
                bindings.as_slice(),
                result.sources.as_slice(),
                evidence,
            ) {
                Ok((again, _)) => again == *result,
                Err(_) => false,
            }
        },
        _ => false,
    }
}

/// Reads the ticket of a stored attempt, and refuses an attempt that cannot be trusted.
pub fn collection_ticket_from_row(tables: &CoverageTables, row: &AttemptRow) -> (r: Result<
    CollectionTicket,
    ReconciliationError,
>)
    ensures
        match stored_ticket(tables@, row@) {
            Ok(ticket) => r matches Ok(t) && t@ == ticket,
            Err(f) => r matches Err(e) && e@ == f,
        },
{
    let status = match CollectionStatus::parse(&row.status) {
        Some(status) => status,
        None => {
            return Err(ReconciliationError::CollectionConflict);
        },
    };
    let bindings = match &row.source_bindings {
        Ok(bindings) => bindings,
        Err(detail) => {
            return Err(ReconciliationError::Serialization(detail.clone()));
        },
    };
    if bindings.len() == 0 {
        return Err(ReconciliationError::CorruptAttempt(CorruptAttemptReason::BindingShape));
    }
    let registered = registered_sources(
        tables,
        &row.beneficiary_id,
        Some(row.source_set_generation),
    );
    if !same_bindings(bindings, &registered) || row.source_set_generation < 0
        || registered.len() as u64 != row.source_set_generation as u64 {
        return Err(ReconciliationError::CorruptAttempt(CorruptAttemptReason::BindingSourceSet));
    }
    if status == CollectionStatus::Completed && !has_canonical_result(row, bindings) {
        return Err(ReconciliationError::CorruptAttempt(CorruptAttemptReason::ResultCanonical));
    }
    Ok(
        CollectionTicket {
            beneficiary_id: row.beneficiary_id.clone(),
            attempt_id: row.attempt_id.clone(),
            collection_epoch: row.collection_epoch,
            source_set_generation: row.source_set_generation,
            expected_projection_revision: row.expected_projection_revision,
            source_bindings: registered,
            status,
            completed_revision: row.projection_revision,
        },
    )
}

/// The identity of the publication operation of a registration.
pub fn registration_publication_id(operation_id: &str) -> (r: String)
    ensures
        r@ == registration_publication(operation_id@),
{
    text::join("source-registration:", operation_id)
}

/// The identity of the publication operation of a collection.
pub fn collection_publication_id(attempt_id: &str) -> (r: String)
    ensures
        r@ == collection_publication(attempt_id@),
{
    text::join("collection:", attempt_id)
}

/// Registers a source and ends the claim that coverage is complete, in the caller's transaction.
///
/// The first registration publishes an unavailable projection. Adding a later source advances the
/// source-set generation, supersedes pending collections and publishes a new unavailable revision.
/// A refused request stages nothing.
pub fn register_source(
    transaction: &mut CoverageTransaction,
    operation_id: &str,
    binding: &SourceBinding,
) -> (r: Result<RegistrationReceipt, ReconciliationError>)
    ensures
        match registration(old(transaction)@.tables, operation_id@, binding@) {
            Ok(answer) => {
                &&& r matches Ok(receipt) && receipt@ == answer.receipt
                &&& final(transaction)@ == staged(old(transaction)@, answer.writes)
            },
            Err(f) => {
                &&& r matches Err(e) && e@ == f
                &&& final(transaction)@ == old(transaction)@
            },
        },
{
    validate_operation_id(operation_id)?;
    validate_binding(binding)?;
    let tables = &transaction.tables;
    let beneficiary_id = binding.beneficiary_id.as_str();
    let expected_revision = current_revision(tables, beneficiary_id);
    let mut writes: Vec<TableWrite> = Vec::new();
    let generation: i64 = match find_coordinator(tables, beneficiary_id) {
        Some(coordinator) => coordinator.source_set_generation,
        None => {
            writes.push(
                TableWrite::InsertCoordinator { beneficiary_id: beneficiary_id.to_owned() },
            );
            0
        },
    };
    assert(writes_of(writes@) =~= coordinator_writes(tables@, beneficiary_id@));
    if generation == 0 && expected_revision.is_some() {
        return Err(ReconciliationError::BootstrapConflict);
    }
    if let Some(row) = find_registration(tables, beneficiary_id, operation_id) {
        if !(row.binding == *binding) {
            return Err(ReconciliationError::RegistrationConflict);
        }
        if row.registration_projection_revision.is_none() {
            return Err(ReconciliationError::CorruptRegistration);
        }
        let receipt = RegistrationReceipt {
            source_id: row.binding.source_id.clone(),
            source_set_generation: row.registration_source_set_generation,
            projection_revision: row.registration_projection_revision,
            outcome: RegistrationOutcome::AlreadyApplied,
        };
        transaction.stage(writes);
        return Ok(receipt);
    }
    if is_source_known(tables, &binding.source_id) || is_allocation_claimed(
        tables,
        &binding.provider_namespace,
        &binding.external_allocation_reference,
    ) {
        return Err(ReconciliationError::SourceBindingConflict);
    }
    let next_generation: i64 = match generation.checked_add(1) {
        Some(next) => next,
        None => {
            return Err(ReconciliationError::GenerationOverflow);
        },
    };
    let plan = match plan_publication(
        tables,
        beneficiary_id,
        expected_revision,
        &registration_publication_id(operation_id),
        &binding.ownership_evidence_reference,
        &unavailable_projection(),
    ) {
        Ok(plan) => plan,
        Err(error) => {
            return Err(ReconciliationError::Store(error));
        },
    };
    let ghost first = writes_of(writes@);
    let source = SourceRow {
        binding: binding.clone(),
        registration_operation_id: operation_id.to_owned(),
        registration_source_set_generation: next_generation,
        registration_projection_revision: None,
    };
    writes.push(TableWrite::InsertSource(source));
    writes.push(TableWrite::SupersedePending { beneficiary_id: beneficiary_id.to_owned() });
    writes.push(
        TableWrite::AdvanceGeneration {
            beneficiary_id: beneficiary_id.to_owned(),
            source_set_generation: next_generation,
        },
    );
    assert(writes_of(writes@) =~= first + seq![
        Write::InsertSource(source@),
        Write::SupersedePending { beneficiary_id: beneficiary_id@ },
        Write::AdvanceGeneration {
            beneficiary_id: beneficiary_id@,
            source_set_generation: next_generation,
        },
    ]);
    let ghost second = writes_of(writes@);
    let mut published = plan.writes;
    writes.append(&mut published);
    assert(writes_of(writes@) =~= second + writes_of(plan.writes@));
    let ghost third = writes_of(writes@);
    writes.push(
        TableWrite::RecordRegistration {
            source_id: binding.source_id.clone(),
            projection_revision: plan.receipt.revision,
        },
    );
    assert(writes_of(writes@) =~= third + seq![
        Write::RecordRegistration {
            source_id: binding@.source_id,
            projection_revision: plan.receipt.revision,
        },
    ]);
    transaction.stage(writes);
    Ok(
        RegistrationReceipt {
            source_id: binding.source_id.clone(),
            source_set_generation: next_generation,
            projection_revision: Some(plan.receipt.revision),
            outcome: projection_outcome(plan.receipt.outcome),
        },
    )
}

/// Begins a collection against the current source set, in the caller's transaction.
///
/// A new attempt supersedes the pending one of the same beneficiary, and an attempt that exists is
/// answered with its stored ticket. No provider call belongs inside the transaction.
pub fn begin_collection(
    transaction: &mut CoverageTransaction,
    beneficiary_id: &str,
    attempt_id: &str,
) -> (r: Result<CollectionTicket, ReconciliationError>)
    ensures
        match beginning(old(transaction)@.tables, beneficiary_id@, attempt_id@) {
            Ok(answer) => {
                &&& r matches Ok(ticket) && ticket@ == answer.receipt
                &&& final(transaction)@ == staged(old(transaction)@, answer.writes)
            },
            Err(f) => {
                &&& r matches Err(e) && e@ == f
                &&& final(transaction)@ == old(transaction)@
            },
        },
{
    validate_identifier(beneficiary_id, "beneficiary_id")?;
    validate_attempt_id(attempt_id)?;
    let tables = &transaction.tables;
    let coordinator = match find_coordinator(tables, beneficiary_id) {
        Some(coordinator) => coordinator,
        None => {
            return Err(ReconciliationError::NoSources);
        },
    };
    if let Some(row) = find_attempt(tables, beneficiary_id, attempt_id) {
        let ticket = collection_ticket_from_row(tables, row)?;
        assert(staged(transaction@, Seq::empty()) =~= transaction@);
        return Ok(ticket);
    }
    let source_bindings = registered_sources(tables, beneficiary_id, None);
    if source_bindings.len() == 0 || coordinator.source_set_generation == 0 {
        return Err(ReconciliationError::NoSources);
    }
    let expected_projection_revision = current_revision(tables, beneficiary_id);
    let collection_epoch: i64 = match coordinator.collection_epoch.checked_add(1) {
        Some(next) => next,
        None => {
            return Err(ReconciliationError::EpochOverflow);
        },
    };
    let source_set_generation = coordinator.source_set_generation;
    let mut writes: Vec<TableWrite> = Vec::new();
    if let Some(previous) = &coordinator.current_attempt_id {
        writes.push(
            TableWrite::SupersedeAttempt {
                beneficiary_id: beneficiary_id.to_owned(),
                attempt_id: previous.clone(),
            },
        );
    }
    assert(writes_of(writes@) =~= superseding_writes(coordinator@, beneficiary_id@));
    let ghost first = writes_of(writes@);
    let row = AttemptRow {
        beneficiary_id: beneficiary_id.to_owned(),
        attempt_id: attempt_id.to_owned(),
        collection_epoch,
        source_set_generation,
        expected_projection_revision,
        source_bindings: Ok(clone_bindings(&source_bindings)),
        status: CollectionStatus::Pending.as_str().to_owned(),
        aggregate_evidence_reference: None,
        canonical_result: None,
        projection_revision: None,
    };
    writes.push(TableWrite::InsertAttempt(row));
    writes.push(
        TableWrite::StartCollection {
            beneficiary_id: beneficiary_id.to_owned(),
            collection_epoch,
            attempt_id: attempt_id.to_owned(),
        },
    );
    assert(writes_of(writes@) =~= first + seq![
        Write::InsertAttempt(row@),
        Write::StartCollection {
            beneficiary_id: beneficiary_id@,
            collection_epoch,
            attempt_id: attempt_id@,
        },
    ]);
    transaction.stage(writes);
    Ok(
        CollectionTicket {
            beneficiary_id: beneficiary_id.to_owned(),
            attempt_id: attempt_id.to_owned(),
            collection_epoch,
            source_set_generation,
            expected_projection_revision,
            source_bindings,
            status: CollectionStatus::Pending,
            completed_revision: None,
        },
    )
}

/// Finishes a collection: combines every registered source and publishes one projection, in the
/// caller's transaction.
///
/// Provider work is complete before the call. A pending attempt never turns into an empty result,
/// and a refused request stages nothing.
pub fn finish_collection(
    transaction: &mut CoverageTransaction,
    ticket: &CollectionTicket,
    aggregate_evidence_reference: &str,
    observations: &[SourceObservation],
) -> (r: Result<ReconciliationReceipt, ReconciliationError>)
    ensures
        match completion(
            old(transaction)@.tables,
            ticket@,
            aggregate_evidence_reference@,
            observations_of(observations@),
        ) {
            Ok(answer) => {
                &&& r matches Ok(receipt) && receipt@ == answer.receipt
                &&& final(transaction)@ == staged(old(transaction)@, answer.writes)
            },
            Err(f) => {
                &&& r matches Err(e) && e@ == f
                &&& final(transaction)@ == old(transaction)@
            },
        },
{
    validate_identifier(&ticket.beneficiary_id, "beneficiary_id")?;
    validate_attempt_id(&ticket.attempt_id)?;
    validate_identifier(aggregate_evidence_reference, "aggregate_evidence_reference")?;
    let tables = &transaction.tables;
    let coordinator = match find_coordinator(tables, &ticket.beneficiary_id) {
        Some(coordinator) => coordinator,
        None => {
            return Err(ReconciliationError::NoSources);
        },
    };
    let row = match find_attempt(tables, &ticket.beneficiary_id, &ticket.attempt_id) {
        Some(row) => row,
        None => {
            return Err(ReconciliationError::AttemptMissing);
        },
    };
    let stored = collection_ticket_from_row(tables, row)?;
    if !is_same_collection(ticket, &stored) {
        return Err(ReconciliationError::CollectionConflict);
    }
    let answer = canonical_collection(
        &ticket.beneficiary_id,
        ticket.source_bindings.as_slice(),
        observations,
        aggregate_evidence_reference,
    );
    if stored.status == CollectionStatus::Completed {
        let receipt = replay_completion(row, &answer, aggregate_evidence_reference)?;
        assert(staged(transaction@, Seq::empty()) =~= transaction@);
        return Ok(receipt);
    }
    let (canonical_result, projection) = answer?;
    if stored.status == CollectionStatus::Superseded {
        return Err(ReconciliationError::AttemptSuperseded);
    }
    if !is_text(&coordinator.current_attempt_id, &ticket.attempt_id)
        || coordinator.source_set_generation != ticket.source_set_generation
        || coordinator.collection_epoch != ticket.collection_epoch {
        return Err(ReconciliationError::CollectionConflict);
    }
    let actual = current_revision(tables, &ticket.beneficiary_id);
    if !same_revision(actual, ticket.expected_projection_revision) {
        return Err(
            ReconciliationError::Store(
                StoreError::RevisionConflict {
                    expected: ticket.expected_projection_revision,
                    actual,
                },
            ),
        );
    }
    let plan = match plan_publication(
        tables,
        &ticket.beneficiary_id,
        ticket.expected_projection_revision,
        &collection_publication_id(&ticket.attempt_id),
        aggregate_evidence_reference,
        &projection,
    ) {
        Ok(plan) => plan,
        Err(error) => {
            return Err(ReconciliationError::Store(error));
        },
    };
    let revision = plan.receipt.revision;
    let ghost result = canonical_result@;
    let mut writes = plan.writes;
    writes.push(
        TableWrite::CompleteAttempt {
            beneficiary_id: ticket.beneficiary_id.clone(),
            attempt_id: ticket.attempt_id.clone(),
            canonical_result,
            projection_revision: revision,
        },
    );
    writes.push(
        TableWrite::ClearCurrentAttempt {
            beneficiary_id: ticket.beneficiary_id.clone(),
            attempt_id: ticket.attempt_id.clone(),
        },
    );
    assert(writes_of(writes@) =~= writes_of(plan.writes@) + seq![
        Write::CompleteAttempt {
            beneficiary_id: ticket@.beneficiary_id,
            attempt_id: ticket@.attempt_id,
            canonical_result: result,
            projection_revision: revision,
        },
        Write::ClearCurrentAttempt {
            beneficiary_id: ticket@.beneficiary_id,
            attempt_id: ticket@.attempt_id,
        },
    ]);
    transaction.stage(writes);
    Ok(
        ReconciliationReceipt {
            attempt_id: ticket.attempt_id.clone(),
            revision,
            outcome: plan.receipt.outcome,
        },
    )
}

/// Whether a ticket is of the same collection as the stored one.
fn is_same_collection(ticket: &CollectionTicket, stored: &CollectionTicket) -> (r: bool)
    ensures
        r == same_collection(ticket@, stored@),
{
    ticket.beneficiary_id == stored.beneficiary_id && ticket.collection_epoch
        == stored.collection_epoch && ticket.source_set_generation == stored.source_set_generation
        && same_revision(ticket.expected_projection_revision, stored.expected_projection_revision)
        && same_bindings(&ticket.source_bindings, &stored.source_bindings)
}

/// Answers the completion of a completed attempt.
fn replay_completion(
    row: &AttemptRow,
    answer: &Result<(CanonicalResult, CoverageProjection), ReconciliationError>,
    aggregate_evidence_reference: &str,
) -> (r: Result<ReconciliationReceipt, ReconciliationError>)
    ensures
        match completion_replayed(
            row@,
            match *answer {
                Ok((result, projection)) => Ok((result@, projection@)),
                Err(e) => Err(e@),
            },
            aggregate_evidence_reference@,
        ) {
            Ok(a) => r matches Ok(receipt) && receipt@ == a.receipt,
            Err(f) => r matches Err(e) && e@ == f,
        },
{
    match (answer, &row.canonical_result, row.projection_revision) {
        (Ok((result, _)), Some(stored), Some(revision)) => {
            if is_text(&row.aggregate_evidence_reference, aggregate_evidence_reference) && *stored
                == *result {
                return Ok(
                    ReconciliationReceipt {
                        attempt_id: row.attempt_id.clone(),
                        revision,
                        outcome: PublicationOutcome::AlreadyApplied,
                    },
                );
            }
        },
        _ => {},
    }
    Err(ReconciliationError::OperationConflict)
}

} // verus!
