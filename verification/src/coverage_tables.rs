//! The tables that hold coverage projections and their reconciliation, as one transaction sees
//! them.
//!
//! An operation reads the rows that the transaction has loaded and stages writes. A staged write
//! is visible to what follows in the same transaction, and [`CoverageTransaction::writes`] lists
//! all of them, in order, for the database.

use crate::cloud_coverage::{
    clone_intervals, clone_text, facts_of, text_of, ConfirmedPaidInterval, PaidFact,
};
use crate::cloud_coverage_reconciliation::{
    bindings_of, clone_bindings, Binding, CanonicalResult, Collected, SourceBinding,
};
use crate::rows::{changed, updated};
use crate::text;
use vstd::prelude::*;

verus! {

/// The current revision of one beneficiary's projection.
#[derive(Debug, PartialEq, Eq)]
pub struct HeadRow {
    pub beneficiary_id: String,
    pub current_revision: Option<i64>,
}

/// What a [`HeadRow`] says.
pub struct Head {
    pub beneficiary_id: Seq<char>,
    pub current_revision: Option<i64>,
}

impl View for HeadRow {
    type V = Head;

    open spec fn view(&self) -> Head {
        Head { beneficiary_id: self.beneficiary_id@, current_revision: self.current_revision }
    }
}

impl Clone for HeadRow {
    fn clone(&self) -> (r: Self)
        ensures
            r@ == self@,
    {
        HeadRow {
            beneficiary_id: self.beneficiary_id.clone(),
            current_revision: self.current_revision,
        }
    }
}

/// One immutable revision, with its facts in ascending byte order of their identities.
#[derive(Debug, PartialEq, Eq)]
pub struct RevisionRow {
    pub beneficiary_id: String,
    pub revision: i64,
    pub operation_id: String,
    pub expected_revision: Option<i64>,
    pub evidence_reference: String,
    pub status: String,
    pub unavailable_reason: Option<String>,
    pub fact_count: i64,
    pub facts: Vec<ConfirmedPaidInterval>,
}

/// What a [`RevisionRow`] says.
pub struct Revision {
    pub beneficiary_id: Seq<char>,
    pub revision: i64,
    pub operation_id: Seq<char>,
    pub expected_revision: Option<i64>,
    pub evidence_reference: Seq<char>,
    pub status: Seq<char>,
    pub unavailable_reason: Option<Seq<char>>,
    pub fact_count: i64,
    pub facts: Seq<PaidFact>,
}

impl View for RevisionRow {
    type V = Revision;

    open spec fn view(&self) -> Revision {
        Revision {
            beneficiary_id: self.beneficiary_id@,
            revision: self.revision,
            operation_id: self.operation_id@,
            expected_revision: self.expected_revision,
            evidence_reference: self.evidence_reference@,
            status: self.status@,
            unavailable_reason: text_of(self.unavailable_reason),
            fact_count: self.fact_count,
            facts: facts_of(self.facts@),
        }
    }
}

impl Clone for RevisionRow {
    fn clone(&self) -> (r: Self)
        ensures
            r@ == self@,
    {
        RevisionRow {
            beneficiary_id: self.beneficiary_id.clone(),
            revision: self.revision,
            operation_id: self.operation_id.clone(),
            expected_revision: self.expected_revision,
            evidence_reference: self.evidence_reference.clone(),
            status: self.status.clone(),
            unavailable_reason: clone_text(&self.unavailable_reason),
            fact_count: self.fact_count,
            facts: clone_intervals(&self.facts),
        }
    }
}

/// What coordinates the sources and collections of one beneficiary.
#[derive(Debug, PartialEq, Eq)]
pub struct CoordinatorRow {
    pub beneficiary_id: String,
    pub source_set_generation: i64,
    pub collection_epoch: i64,
    pub current_attempt_id: Option<String>,
}

/// What a [`CoordinatorRow`] says.
pub struct Coordinator {
    pub beneficiary_id: Seq<char>,
    pub source_set_generation: i64,
    pub collection_epoch: i64,
    pub current_attempt_id: Option<Seq<char>>,
}

impl View for CoordinatorRow {
    type V = Coordinator;

    open spec fn view(&self) -> Coordinator {
        Coordinator {
            beneficiary_id: self.beneficiary_id@,
            source_set_generation: self.source_set_generation,
            collection_epoch: self.collection_epoch,
            current_attempt_id: text_of(self.current_attempt_id),
        }
    }
}

impl Clone for CoordinatorRow {
    fn clone(&self) -> (r: Self)
        ensures
            r@ == self@,
    {
        CoordinatorRow {
            beneficiary_id: self.beneficiary_id.clone(),
            source_set_generation: self.source_set_generation,
            collection_epoch: self.collection_epoch,
            current_attempt_id: clone_text(&self.current_attempt_id),
        }
    }
}

/// One registered source, with the receipt of its registration.
#[derive(Debug, PartialEq, Eq)]
pub struct SourceRow {
    pub binding: SourceBinding,
    pub registration_operation_id: String,
    pub registration_source_set_generation: i64,
    pub registration_projection_revision: Option<i64>,
}

/// What a [`SourceRow`] says.
pub struct Source {
    pub binding: Binding,
    pub registration_operation_id: Seq<char>,
    pub registration_source_set_generation: i64,
    pub registration_projection_revision: Option<i64>,
}

impl View for SourceRow {
    type V = Source;

    open spec fn view(&self) -> Source {
        Source {
            binding: self.binding@,
            registration_operation_id: self.registration_operation_id@,
            registration_source_set_generation: self.registration_source_set_generation,
            registration_projection_revision: self.registration_projection_revision,
        }
    }
}

impl Clone for SourceRow {
    fn clone(&self) -> (r: Self)
        ensures
            r@ == self@,
    {
        SourceRow {
            binding: self.binding.clone(),
            registration_operation_id: self.registration_operation_id.clone(),
            registration_source_set_generation: self.registration_source_set_generation,
            registration_projection_revision: self.registration_projection_revision,
        }
    }
}

/// One collection attempt.
///
/// `source_bindings` holds what is wrong with the stored text where it is no list of bindings.
/// `canonical_result` is empty where nothing is stored, or nothing that has the form of a result.
#[derive(Debug, PartialEq, Eq)]
pub struct AttemptRow {
    pub beneficiary_id: String,
    pub attempt_id: String,
    pub collection_epoch: i64,
    pub source_set_generation: i64,
    pub expected_projection_revision: Option<i64>,
    pub source_bindings: Result<Vec<SourceBinding>, String>,
    pub status: String,
    pub aggregate_evidence_reference: Option<String>,
    pub canonical_result: Option<CanonicalResult>,
    pub projection_revision: Option<i64>,
}

/// What an [`AttemptRow`] says.
pub struct Attempt {
    pub beneficiary_id: Seq<char>,
    pub attempt_id: Seq<char>,
    pub collection_epoch: i64,
    pub source_set_generation: i64,
    pub expected_projection_revision: Option<i64>,
    pub source_bindings: Result<Seq<Binding>, Seq<char>>,
    pub status: Seq<char>,
    pub aggregate_evidence_reference: Option<Seq<char>>,
    pub canonical_result: Option<Collected>,
    pub projection_revision: Option<i64>,
}

/// What stored bindings say.
pub open spec fn stored_bindings_of(bindings: Result<Vec<SourceBinding>, String>) -> Result<
    Seq<Binding>,
    Seq<char>,
> {
    match bindings {
        Ok(list) => Ok(bindings_of(list@)),
        Err(detail) => Err(detail@),
    }
}

/// What a stored result says.
pub open spec fn result_of(result: Option<CanonicalResult>) -> Option<Collected> {
    match result {
        Some(collected) => Some(collected@),
        None => None,
    }
}

impl View for AttemptRow {
    type V = Attempt;

    open spec fn view(&self) -> Attempt {
        Attempt {
            beneficiary_id: self.beneficiary_id@,
            attempt_id: self.attempt_id@,
            collection_epoch: self.collection_epoch,
            source_set_generation: self.source_set_generation,
            expected_projection_revision: self.expected_projection_revision,
            source_bindings: stored_bindings_of(self.source_bindings),
            status: self.status@,
            aggregate_evidence_reference: text_of(self.aggregate_evidence_reference),
            canonical_result: result_of(self.canonical_result),
            projection_revision: self.projection_revision,
        }
    }
}

fn clone_stored_bindings(bindings: &Result<Vec<SourceBinding>, String>) -> (r: Result<
    Vec<SourceBinding>,
    String,
>)
    ensures
        stored_bindings_of(r) == stored_bindings_of(*bindings),
{
    match bindings {
        Ok(list) => Ok(clone_bindings(list)),
        Err(detail) => Err(detail.clone()),
    }
}

fn clone_result(result: &Option<CanonicalResult>) -> (r: Option<CanonicalResult>)
    ensures
        result_of(r) == result_of(*result),
{
    match result {
        Some(collected) => Some(collected.clone()),
        None => None,
    }
}

impl Clone for AttemptRow {
    fn clone(&self) -> (r: Self)
        ensures
            r@ == self@,
    {
        AttemptRow {
            beneficiary_id: self.beneficiary_id.clone(),
            attempt_id: self.attempt_id.clone(),
            collection_epoch: self.collection_epoch,
            source_set_generation: self.source_set_generation,
            expected_projection_revision: self.expected_projection_revision,
            source_bindings: clone_stored_bindings(&self.source_bindings),
            status: self.status.clone(),
            aggregate_evidence_reference: clone_text(&self.aggregate_evidence_reference),
            canonical_result: clone_result(&self.canonical_result),
            projection_revision: self.projection_revision,
        }
    }
}

/// The rows that a transaction works on.
#[derive(Debug, PartialEq, Eq)]
pub struct CoverageTables {
    pub heads: Vec<HeadRow>,
    pub revisions: Vec<RevisionRow>,
    pub coordinators: Vec<CoordinatorRow>,
    pub sources: Vec<SourceRow>,
    pub attempts: Vec<AttemptRow>,
}

/// What [`CoverageTables`] say.
#[verifier::ext_equal]
pub struct Tables {
    pub heads: Seq<Head>,
    pub revisions: Seq<Revision>,
    pub coordinators: Seq<Coordinator>,
    pub sources: Seq<Source>,
    pub attempts: Seq<Attempt>,
}

impl View for CoverageTables {
    type V = Tables;

    open spec fn view(&self) -> Tables {
        Tables {
            heads: self.heads@.map_values(|row: HeadRow| row@),
            revisions: self.revisions@.map_values(|row: RevisionRow| row@),
            coordinators: self.coordinators@.map_values(|row: CoordinatorRow| row@),
            sources: self.sources@.map_values(|row: SourceRow| row@),
            attempts: self.attempts@.map_values(|row: AttemptRow| row@),
        }
    }
}

impl Clone for CoverageTables {
    fn clone(&self) -> (r: Self)
        ensures
            r@ == self@,
    {
        let mut heads: Vec<HeadRow> = Vec::new();
        for i in 0..self.heads.len()
            invariant
                heads@.len() == i,
                forall|k: int| 0 <= k < i ==> (#[trigger] heads@[k])@ == self.heads@[k]@,
        {
            heads.push(self.heads[i].clone());
        }
        let mut revisions: Vec<RevisionRow> = Vec::new();
        for i in 0..self.revisions.len()
            invariant
                revisions@.len() == i,
                forall|k: int| 0 <= k < i ==> (#[trigger] revisions@[k])@ == self.revisions@[k]@,
        {
            revisions.push(self.revisions[i].clone());
        }
        let mut coordinators: Vec<CoordinatorRow> = Vec::new();
        for i in 0..self.coordinators.len()
            invariant
                coordinators@.len() == i,
                forall|k: int|
                    0 <= k < i ==> (#[trigger] coordinators@[k])@ == self.coordinators@[k]@,
        {
            coordinators.push(self.coordinators[i].clone());
        }
        let mut sources: Vec<SourceRow> = Vec::new();
        for i in 0..self.sources.len()
            invariant
                sources@.len() == i,
                forall|k: int| 0 <= k < i ==> (#[trigger] sources@[k])@ == self.sources@[k]@,
        {
            sources.push(self.sources[i].clone());
        }
        let mut attempts: Vec<AttemptRow> = Vec::new();
        for i in 0..self.attempts.len()
            invariant
                attempts@.len() == i,
                forall|k: int| 0 <= k < i ==> (#[trigger] attempts@[k])@ == self.attempts@[k]@,
        {
            attempts.push(self.attempts[i].clone());
        }
        let r = CoverageTables { heads, revisions, coordinators, sources, attempts };
        assert(r@ =~= self@);
        r
    }
}

/// One change of the tables.
#[derive(Debug, PartialEq, Eq)]
pub enum TableWrite {
    /// Adds a head without a revision.
    InsertHead { beneficiary_id: String },
    /// Adds a revision and its facts.
    InsertRevision(RevisionRow),
    /// Points a head to a revision.
    SetHead { beneficiary_id: String, revision: i64 },
    /// Adds a coordinator that has neither sources nor collections.
    InsertCoordinator { beneficiary_id: String },
    /// Adds a source.
    InsertSource(SourceRow),
    /// Supersedes every pending attempt of a beneficiary.
    SupersedePending { beneficiary_id: String },
    /// Sets a coordinator's source-set generation and ends its current attempt.
    AdvanceGeneration { beneficiary_id: String, source_set_generation: i64 },
    /// Notes the revision that a registration published.
    RecordRegistration { source_id: String, projection_revision: i64 },
    /// Supersedes one attempt, if it is pending.
    SupersedeAttempt { beneficiary_id: String, attempt_id: String },
    /// Adds an attempt.
    InsertAttempt(AttemptRow),
    /// Makes an attempt the current one of a coordinator, in a new epoch.
    StartCollection { beneficiary_id: String, collection_epoch: i64, attempt_id: String },
    /// Completes a pending attempt.
    CompleteAttempt {
        beneficiary_id: String,
        attempt_id: String,
        canonical_result: CanonicalResult,
        projection_revision: i64,
    },
    /// Ends an attempt that is the current one of a coordinator.
    ClearCurrentAttempt { beneficiary_id: String, attempt_id: String },
}

/// What a [`TableWrite`] says.
pub enum Write {
    InsertHead { beneficiary_id: Seq<char> },
    InsertRevision(Revision),
    SetHead { beneficiary_id: Seq<char>, revision: i64 },
    InsertCoordinator { beneficiary_id: Seq<char> },
    InsertSource(Source),
    SupersedePending { beneficiary_id: Seq<char> },
    AdvanceGeneration { beneficiary_id: Seq<char>, source_set_generation: i64 },
    RecordRegistration { source_id: Seq<char>, projection_revision: i64 },
    SupersedeAttempt { beneficiary_id: Seq<char>, attempt_id: Seq<char> },
    InsertAttempt(Attempt),
    StartCollection { beneficiary_id: Seq<char>, collection_epoch: i64, attempt_id: Seq<char> },
    CompleteAttempt {
        beneficiary_id: Seq<char>,
        attempt_id: Seq<char>,
        canonical_result: Collected,
        projection_revision: i64,
    },
    ClearCurrentAttempt { beneficiary_id: Seq<char>, attempt_id: Seq<char> },
}

impl View for TableWrite {
    type V = Write;

    open spec fn view(&self) -> Write {
        match *self {
            TableWrite::InsertHead { beneficiary_id } => Write::InsertHead {
                beneficiary_id: beneficiary_id@,
            },
            TableWrite::InsertRevision(row) => Write::InsertRevision(row@),
            TableWrite::SetHead { beneficiary_id, revision } => Write::SetHead {
                beneficiary_id: beneficiary_id@,
                revision,
            },
            TableWrite::InsertCoordinator { beneficiary_id } => Write::InsertCoordinator {
                beneficiary_id: beneficiary_id@,
            },
            TableWrite::InsertSource(row) => Write::InsertSource(row@),
            TableWrite::SupersedePending { beneficiary_id } => Write::SupersedePending {
                beneficiary_id: beneficiary_id@,
            },
            TableWrite::AdvanceGeneration { beneficiary_id, source_set_generation } =>
                Write::AdvanceGeneration { beneficiary_id: beneficiary_id@, source_set_generation },
            TableWrite::RecordRegistration { source_id, projection_revision } =>
                Write::RecordRegistration { source_id: source_id@, projection_revision },
            TableWrite::SupersedeAttempt { beneficiary_id, attempt_id } =>
                Write::SupersedeAttempt {
                beneficiary_id: beneficiary_id@,
                attempt_id: attempt_id@,
            },
            TableWrite::InsertAttempt(row) => Write::InsertAttempt(row@),
            TableWrite::StartCollection { beneficiary_id, collection_epoch, attempt_id } =>
                Write::StartCollection {
                beneficiary_id: beneficiary_id@,
                collection_epoch,
                attempt_id: attempt_id@,
            },
            TableWrite::CompleteAttempt {
                beneficiary_id,
                attempt_id,
                canonical_result,
                projection_revision,
            } => Write::CompleteAttempt {
                beneficiary_id: beneficiary_id@,
                attempt_id: attempt_id@,
                canonical_result: canonical_result@,
                projection_revision,
            },
            TableWrite::ClearCurrentAttempt { beneficiary_id, attempt_id } =>
                Write::ClearCurrentAttempt {
                beneficiary_id: beneficiary_id@,
                attempt_id: attempt_id@,
            },
        }
    }
}

/// Which heads belong to a beneficiary.
pub open spec fn head_for(beneficiary_id: Seq<char>) -> spec_fn(Head) -> bool {
    |row: Head| row.beneficiary_id == beneficiary_id
}

/// Which coordinators belong to a beneficiary.
pub open spec fn coordinator_for(beneficiary_id: Seq<char>) -> spec_fn(Coordinator) -> bool {
    |row: Coordinator| row.beneficiary_id == beneficiary_id
}

/// Which coordinators have the attempt as their current one.
pub open spec fn running(beneficiary_id: Seq<char>, attempt_id: Seq<char>) -> spec_fn(
    Coordinator,
) -> bool {
    |row: Coordinator|
        row.beneficiary_id == beneficiary_id && row.current_attempt_id == Some(attempt_id)
}

/// Which sources have an identity.
pub open spec fn source_with(source_id: Seq<char>) -> spec_fn(Source) -> bool {
    |row: Source| row.binding.source_id == source_id
}

/// Which attempts of a beneficiary are pending.
pub open spec fn pending_of(beneficiary_id: Seq<char>) -> spec_fn(Attempt) -> bool {
    |row: Attempt| row.beneficiary_id == beneficiary_id && row.status == "pending"@
}

/// Which attempts have an identity.
pub open spec fn attempt_with(beneficiary_id: Seq<char>, attempt_id: Seq<char>) -> spec_fn(
    Attempt,
) -> bool {
    |row: Attempt| row.beneficiary_id == beneficiary_id && row.attempt_id == attempt_id
}

/// Which pending attempts have an identity.
pub open spec fn pending_attempt(beneficiary_id: Seq<char>, attempt_id: Seq<char>) -> spec_fn(
    Attempt,
) -> bool {
    |row: Attempt|
        row.beneficiary_id == beneficiary_id && row.attempt_id == attempt_id && row.status
            == "pending"@
}

/// A head that points to a revision.
pub open spec fn pointed_to(revision: i64) -> spec_fn(Head) -> Head {
    |row: Head| Head { current_revision: Some(revision), ..row }
}

/// A coordinator with a new generation and no current attempt.
pub open spec fn advanced_to(source_set_generation: i64) -> spec_fn(Coordinator) -> Coordinator {
    |row: Coordinator| Coordinator { source_set_generation, current_attempt_id: None, ..row }
}

/// A coordinator with a new epoch and current attempt.
pub open spec fn started(collection_epoch: i64, attempt_id: Seq<char>) -> spec_fn(
    Coordinator,
) -> Coordinator {
    |row: Coordinator|
        Coordinator { collection_epoch, current_attempt_id: Some(attempt_id), ..row }
}

/// A coordinator without a current attempt.
pub open spec fn stopped() -> spec_fn(Coordinator) -> Coordinator {
    |row: Coordinator| Coordinator { current_attempt_id: None, ..row }
}

/// A source whose registration has published a revision.
pub open spec fn recorded(projection_revision: i64) -> spec_fn(Source) -> Source {
    |row: Source| Source { registration_projection_revision: Some(projection_revision), ..row }
}

/// A superseded attempt.
pub open spec fn superseded() -> spec_fn(Attempt) -> Attempt {
    |row: Attempt| Attempt { status: "superseded"@, ..row }
}

/// A completed attempt.
pub open spec fn completed(canonical_result: Collected, projection_revision: i64) -> spec_fn(
    Attempt,
) -> Attempt {
    |row: Attempt|
        Attempt {
            status: "completed"@,
            aggregate_evidence_reference: Some(canonical_result.aggregate_evidence_reference),
            canonical_result: Some(canonical_result),
            projection_revision: Some(projection_revision),
            ..row
        }
}

/// The tables after one write.
pub open spec fn applied(tables: Tables, write: Write) -> Tables {
    match write {
        Write::InsertHead { beneficiary_id } => Tables {
            heads: tables.heads.push(Head { beneficiary_id, current_revision: None }),
            ..tables
        },
        Write::InsertRevision(row) => Tables { revisions: tables.revisions.push(row), ..tables },
        Write::SetHead { beneficiary_id, revision } => Tables {
            heads: updated(tables.heads, head_for(beneficiary_id), pointed_to(revision)),
            ..tables
        },
        Write::InsertCoordinator { beneficiary_id } => Tables {
            coordinators: tables.coordinators.push(
                Coordinator {
                    beneficiary_id,
                    source_set_generation: 0,
                    collection_epoch: 0,
                    current_attempt_id: None,
                },
            ),
            ..tables
        },
        Write::InsertSource(row) => Tables { sources: tables.sources.push(row), ..tables },
        Write::SupersedePending { beneficiary_id } => Tables {
            attempts: updated(tables.attempts, pending_of(beneficiary_id), superseded()),
            ..tables
        },
        Write::AdvanceGeneration { beneficiary_id, source_set_generation } => Tables {
            coordinators: updated(
                tables.coordinators,
                coordinator_for(beneficiary_id),
                advanced_to(source_set_generation),
            ),
            ..tables
        },
        Write::RecordRegistration { source_id, projection_revision } => Tables {
            sources: updated(tables.sources, source_with(source_id), recorded(projection_revision)),
            ..tables
        },
        Write::SupersedeAttempt { beneficiary_id, attempt_id } => Tables {
            attempts: updated(
                tables.attempts,
                pending_attempt(beneficiary_id, attempt_id),
                superseded(),
            ),
            ..tables
        },
        Write::InsertAttempt(row) => Tables { attempts: tables.attempts.push(row), ..tables },
        Write::StartCollection { beneficiary_id, collection_epoch, attempt_id } => Tables {
            coordinators: updated(
                tables.coordinators,
                coordinator_for(beneficiary_id),
                started(collection_epoch, attempt_id),
            ),
            ..tables
        },
        Write::CompleteAttempt {
            beneficiary_id,
            attempt_id,
            canonical_result,
            projection_revision,
        } => Tables {
            attempts: updated(
                tables.attempts,
                pending_attempt(beneficiary_id, attempt_id),
                completed(canonical_result, projection_revision),
            ),
            ..tables
        },
        Write::ClearCurrentAttempt { beneficiary_id, attempt_id } => Tables {
            coordinators: updated(
                tables.coordinators,
                running(beneficiary_id, attempt_id),
                stopped(),
            ),
            ..tables
        },
    }
}

/// The tables after a list of writes, made in its order.
pub open spec fn applied_all(tables: Tables, writes: Seq<Write>) -> Tables
    decreases writes.len(),
{
    if writes.len() == 0 {
        tables
    } else {
        applied(applied_all(tables, writes.drop_last()), writes.last())
    }
}

/// Whether an optional text is there and is `wanted`.
pub fn is_text(s: &Option<String>, wanted: &str) -> (r: bool)
    ensures
        r == (text_of(*s) == Some(wanted@)),
{
    match s {
        Some(t) => text::same(t, wanted),
        None => false,
    }
}

impl CoverageTables {
    /// Tables without rows.
    pub fn new() -> (r: Self)
        ensures
            r@ == (Tables {
                heads: Seq::empty(),
                revisions: Seq::empty(),
                coordinators: Seq::empty(),
                sources: Seq::empty(),
                attempts: Seq::empty(),
            }),
    {
        CoverageTables {
            heads: Vec::new(),
            revisions: Vec::new(),
            coordinators: Vec::new(),
            sources: Vec::new(),
            attempts: Vec::new(),
        }
    }

    /// Points the heads of a beneficiary to a revision.
    fn set_head(&mut self, beneficiary_id: &str, revision: i64)
        ensures
            final(self)@ == applied(
                old(self)@,
                Write::SetHead { beneficiary_id: beneficiary_id@, revision },
            ),
    {
        let ghost rows = self.heads@;
        let n: usize = self.heads.len();
        for i in 0..n
            invariant
                n == rows.len(),
                self.heads@.len() == n,
                *self == (CoverageTables { heads: self.heads, ..*old(self) }),
                old(self).heads@ == rows,
                forall|k: int| i <= k < n ==> #[trigger] self.heads@[k] == rows[k],
                forall|k: int|
                    0 <= k < i ==> (#[trigger] self.heads@[k])@ == changed(
                        rows[k]@,
                        head_for(beneficiary_id@),
                        pointed_to(revision),
                    ),
        {
            if text::same(&self.heads[i].beneficiary_id, beneficiary_id) {
                self.heads[i].current_revision = Some(revision);
            }
        }
        assert(self@.heads =~= updated(
            old(self)@.heads,
            head_for(beneficiary_id@),
            pointed_to(revision),
        ));
    }

    /// Sets the generation of a beneficiary's coordinators and ends their current attempts.
    fn advance_generation(&mut self, beneficiary_id: &str, source_set_generation: i64)
        ensures
            final(self)@ == applied(
                old(self)@,
                Write::AdvanceGeneration { beneficiary_id: beneficiary_id@, source_set_generation },
            ),
    {
        let ghost rows = self.coordinators@;
        let n: usize = self.coordinators.len();
        for i in 0..n
            invariant
                n == rows.len(),
                self.coordinators@.len() == n,
                *self == (CoverageTables { coordinators: self.coordinators, ..*old(self) }),
                old(self).coordinators@ == rows,
                forall|k: int| i <= k < n ==> #[trigger] self.coordinators@[k] == rows[k],
                forall|k: int|
                    0 <= k < i ==> (#[trigger] self.coordinators@[k])@ == changed(
                        rows[k]@,
                        coordinator_for(beneficiary_id@),
                        advanced_to(source_set_generation),
                    ),
        {
            if text::same(&self.coordinators[i].beneficiary_id, beneficiary_id) {
                self.coordinators[i].source_set_generation = source_set_generation;
                self.coordinators[i].current_attempt_id = None;
            }
        }
        assert(self@.coordinators =~= updated(
            old(self)@.coordinators,
            coordinator_for(beneficiary_id@),
            advanced_to(source_set_generation),
        ));
    }

    /// Makes an attempt the current one of a beneficiary's coordinators, in a new epoch.
    fn start_collection(&mut self, beneficiary_id: &str, collection_epoch: i64, attempt_id: &str)
        ensures
            final(self)@ == applied(
                old(self)@,
                Write::StartCollection {
                    beneficiary_id: beneficiary_id@,
                    collection_epoch,
                    attempt_id: attempt_id@,
                },
            ),
    {
        let ghost rows = self.coordinators@;
        let n: usize = self.coordinators.len();
        for i in 0..n
            invariant
                n == rows.len(),
                self.coordinators@.len() == n,
                *self == (CoverageTables { coordinators: self.coordinators, ..*old(self) }),
                old(self).coordinators@ == rows,
                forall|k: int| i <= k < n ==> #[trigger] self.coordinators@[k] == rows[k],
                forall|k: int|
                    0 <= k < i ==> (#[trigger] self.coordinators@[k])@ == changed(
                        rows[k]@,
                        coordinator_for(beneficiary_id@),
                        started(collection_epoch, attempt_id@),
                    ),
        {
            if text::same(&self.coordinators[i].beneficiary_id, beneficiary_id) {
                self.coordinators[i].collection_epoch = collection_epoch;
                self.coordinators[i].current_attempt_id = Some(attempt_id.to_owned());
            }
        }
        assert(self@.coordinators =~= updated(
            old(self)@.coordinators,
            coordinator_for(beneficiary_id@),
            started(collection_epoch, attempt_id@),
        ));
    }

    /// Ends an attempt that is the current one of a beneficiary's coordinators.
    fn clear_current_attempt(&mut self, beneficiary_id: &str, attempt_id: &str)
        ensures
            final(self)@ == applied(
                old(self)@,
                Write::ClearCurrentAttempt {
                    beneficiary_id: beneficiary_id@,
                    attempt_id: attempt_id@,
                },
            ),
    {
        let ghost rows = self.coordinators@;
        let n: usize = self.coordinators.len();
        for i in 0..n
            invariant
                n == rows.len(),
                self.coordinators@.len() == n,
                *self == (CoverageTables { coordinators: self.coordinators, ..*old(self) }),
                old(self).coordinators@ == rows,
                forall|k: int| i <= k < n ==> #[trigger] self.coordinators@[k] == rows[k],
                forall|k: int|
                    0 <= k < i ==> (#[trigger] self.coordinators@[k])@ == changed(
                        rows[k]@,
                        running(beneficiary_id@, attempt_id@),
                        stopped(),
                    ),
        {
            if text::same(&self.coordinators[i].beneficiary_id, beneficiary_id)
                && is_text(&self.coordinators[i].current_attempt_id, attempt_id) {
                self.coordinators[i].current_attempt_id = None;
            }
        }
        assert(self@.coordinators =~= updated(
            old(self)@.coordinators,
            running(beneficiary_id@, attempt_id@),
            stopped(),
        ));
    }

    /// Notes the revision that the registration of a source published.
    fn record_registration(&mut self, source_id: &str, projection_revision: i64)
        ensures
            final(self)@ == applied(
                old(self)@,
                Write::RecordRegistration { source_id: source_id@, projection_revision },
            ),
    {
        let ghost rows = self.sources@;
        let n: usize = self.sources.len();
        for i in 0..n
            invariant
                n == rows.len(),
                self.sources@.len() == n,
                *self == (CoverageTables { sources: self.sources, ..*old(self) }),
                old(self).sources@ == rows,
                forall|k: int| i <= k < n ==> #[trigger] self.sources@[k] == rows[k],
                forall|k: int|
                    0 <= k < i ==> (#[trigger] self.sources@[k])@ == changed(
                        rows[k]@,
                        source_with(source_id@),
                        recorded(projection_revision),
                    ),
        {
            if text::same(&self.sources[i].binding.source_id, source_id) {
                self.sources[i].registration_projection_revision = Some(projection_revision);
            }
        }
        assert(self@.sources =~= updated(
            old(self)@.sources,
            source_with(source_id@),
            recorded(projection_revision),
        ));
    }

    /// Supersedes the pending attempts of a beneficiary.
    fn supersede_pending(&mut self, beneficiary_id: &str)
        ensures
            final(self)@ == applied(
                old(self)@,
                Write::SupersedePending { beneficiary_id: beneficiary_id@ },
            ),
    {
        let ghost rows = self.attempts@;
        let n: usize = self.attempts.len();
        for i in 0..n
            invariant
                n == rows.len(),
                self.attempts@.len() == n,
                *self == (CoverageTables { attempts: self.attempts, ..*old(self) }),
                old(self).attempts@ == rows,
                forall|k: int| i <= k < n ==> #[trigger] self.attempts@[k] == rows[k],
                forall|k: int|
                    0 <= k < i ==> (#[trigger] self.attempts@[k])@ == changed(
                        rows[k]@,
                        pending_of(beneficiary_id@),
                        superseded(),
                    ),
        {
            if text::same(&self.attempts[i].beneficiary_id, beneficiary_id)
                && text::same(&self.attempts[i].status, "pending") {
                self.attempts[i].status = "superseded".to_owned();
            }
        }
        assert(self@.attempts =~= updated(
            old(self)@.attempts,
            pending_of(beneficiary_id@),
            superseded(),
        ));
    }

    /// Supersedes an attempt, if it is pending.
    fn supersede_attempt(&mut self, beneficiary_id: &str, attempt_id: &str)
        ensures
            final(self)@ == applied(
                old(self)@,
                Write::SupersedeAttempt {
                    beneficiary_id: beneficiary_id@,
                    attempt_id: attempt_id@,
                },
            ),
    {
        let ghost rows = self.attempts@;
        let n: usize = self.attempts.len();
        for i in 0..n
            invariant
                n == rows.len(),
                self.attempts@.len() == n,
                *self == (CoverageTables { attempts: self.attempts, ..*old(self) }),
                old(self).attempts@ == rows,
                forall|k: int| i <= k < n ==> #[trigger] self.attempts@[k] == rows[k],
                forall|k: int|
                    0 <= k < i ==> (#[trigger] self.attempts@[k])@ == changed(
                        rows[k]@,
                        pending_attempt(beneficiary_id@, attempt_id@),
                        superseded(),
                    ),
        {
            if text::same(&self.attempts[i].beneficiary_id, beneficiary_id)
                && text::same(&self.attempts[i].attempt_id, attempt_id)
                && text::same(&self.attempts[i].status, "pending") {
                self.attempts[i].status = "superseded".to_owned();
            }
        }
        assert(self@.attempts =~= updated(
            old(self)@.attempts,
            pending_attempt(beneficiary_id@, attempt_id@),
            superseded(),
        ));
    }

    /// Completes an attempt, if it is pending.
    fn complete_attempt(
        &mut self,
        beneficiary_id: &str,
        attempt_id: &str,
        canonical_result: &CanonicalResult,
        projection_revision: i64,
    )
        ensures
            final(self)@ == applied(
                old(self)@,
                Write::CompleteAttempt {
                    beneficiary_id: beneficiary_id@,
                    attempt_id: attempt_id@,
                    canonical_result: canonical_result@,
                    projection_revision,
                },
            ),
    {
        let ghost rows = self.attempts@;
        let n: usize = self.attempts.len();
        for i in 0..n
            invariant
                n == rows.len(),
                self.attempts@.len() == n,
                *self == (CoverageTables { attempts: self.attempts, ..*old(self) }),
                old(self).attempts@ == rows,
                forall|k: int| i <= k < n ==> #[trigger] self.attempts@[k] == rows[k],
                forall|k: int|
                    0 <= k < i ==> (#[trigger] self.attempts@[k])@ == changed(
                        rows[k]@,
                        pending_attempt(beneficiary_id@, attempt_id@),
                        completed(canonical_result@, projection_revision),
                    ),
        {
            if text::same(&self.attempts[i].beneficiary_id, beneficiary_id)
                && text::same(&self.attempts[i].attempt_id, attempt_id)
                && text::same(&self.attempts[i].status, "pending") {
                self.attempts[i].status = "completed".to_owned();
                self.attempts[i].aggregate_evidence_reference = Some(
                    canonical_result.aggregate_evidence_reference.clone(),
                );
                self.attempts[i].canonical_result = Some(canonical_result.clone());
                self.attempts[i].projection_revision = Some(projection_revision);
            }
        }
        assert(self@.attempts =~= updated(
            old(self)@.attempts,
            pending_attempt(beneficiary_id@, attempt_id@),
            completed(canonical_result@, projection_revision),
        ));
    }

    /// Makes one write.
    pub fn apply(&mut self, write: &TableWrite)
        ensures
            final(self)@ == applied(old(self)@, write@),
    {
        let ghost before = self@;
        match write {
            TableWrite::InsertHead { beneficiary_id } => {
                self.heads.push(
                    HeadRow { beneficiary_id: beneficiary_id.clone(), current_revision: None },
                );
            },
            TableWrite::InsertRevision(row) => {
                self.revisions.push(row.clone());
            },
            TableWrite::SetHead { beneficiary_id, revision } => {
                self.set_head(beneficiary_id, *revision);
            },
            TableWrite::InsertCoordinator { beneficiary_id } => {
                self.coordinators.push(
                    CoordinatorRow {
                        beneficiary_id: beneficiary_id.clone(),
                        source_set_generation: 0,
                        collection_epoch: 0,
                        current_attempt_id: None,
                    },
                );
            },
            TableWrite::InsertSource(row) => {
                self.sources.push(row.clone());
            },
            TableWrite::SupersedePending { beneficiary_id } => {
                self.supersede_pending(beneficiary_id);
            },
            TableWrite::AdvanceGeneration { beneficiary_id, source_set_generation } => {
                self.advance_generation(beneficiary_id, *source_set_generation);
            },
            TableWrite::RecordRegistration { source_id, projection_revision } => {
                self.record_registration(source_id, *projection_revision);
            },
            TableWrite::SupersedeAttempt { beneficiary_id, attempt_id } => {
                self.supersede_attempt(beneficiary_id, attempt_id);
            },
            TableWrite::InsertAttempt(row) => {
                self.attempts.push(row.clone());
            },
            TableWrite::StartCollection { beneficiary_id, collection_epoch, attempt_id } => {
                self.start_collection(beneficiary_id, *collection_epoch, attempt_id);
            },
            TableWrite::CompleteAttempt {
                beneficiary_id,
                attempt_id,
                canonical_result,
                projection_revision,
            } => {
                self.complete_attempt(
                    beneficiary_id,
                    attempt_id,
                    canonical_result,
                    *projection_revision,
                );
            },
            TableWrite::ClearCurrentAttempt { beneficiary_id, attempt_id } => {
                self.clear_current_attempt(beneficiary_id, attempt_id);
            },
        }
        assert(self@ =~= applied(before, write@));
    }
}

/// One transaction: the rows it works on and the writes it has staged.
#[derive(Debug, PartialEq, Eq)]
pub struct CoverageTransaction {
    pub tables: CoverageTables,
    pub writes: Vec<TableWrite>,
}

/// What a [`CoverageTransaction`] says.
#[verifier::ext_equal]
pub struct Staged {
    pub tables: Tables,
    pub writes: Seq<Write>,
}

/// What a list of writes says, in its order.
pub open spec fn writes_of(writes: Seq<TableWrite>) -> Seq<Write> {
    writes.map_values(|w: TableWrite| w@)
}

impl View for CoverageTransaction {
    type V = Staged;

    open spec fn view(&self) -> Staged {
        Staged { tables: self.tables@, writes: writes_of(self.writes@) }
    }
}

/// A transaction after it has staged more writes.
pub open spec fn staged(transaction: Staged, writes: Seq<Write>) -> Staged {
    Staged {
        tables: applied_all(transaction.tables, writes),
        writes: transaction.writes + writes,
    }
}

impl CoverageTransaction {
    /// A transaction over some rows that has staged nothing.
    pub fn new(tables: CoverageTables) -> (r: Self)
        ensures
            r@ == (Staged { tables: tables@, writes: Seq::empty() }),
    {
        CoverageTransaction { tables, writes: Vec::new() }
    }

    /// Stages a list of writes, in its order.
    pub fn stage(&mut self, writes: Vec<TableWrite>)
        ensures
            final(self)@ == staged(old(self)@, writes_of(writes@)),
    {
        let ghost start = self@;
        let ghost list = writes_of(writes@);
        let mut rest: Vec<TableWrite> = writes;
        let n: usize = rest.len();
        for i in 0..n
            invariant
                n == writes@.len(),
                rest@ == writes@,
                list == writes_of(writes@),
                self@.writes == start.writes,
                self@.tables == applied_all(start.tables, list.take(i as int)),
        {
            self.tables.apply(&rest[i]);
            assert(list.take(i + 1).drop_last() =~= list.take(i as int));
            assert(list.take(i + 1).last() == rest@[i as int]@);
        }
        assert(list.take(n as int) =~= list);
        let ghost staged_before = self.writes@;
        self.writes.append(&mut rest);
        assert(writes_of(self.writes@) =~= writes_of(staged_before) + list);
    }
}

} // verus!
