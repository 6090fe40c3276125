//! Durable storage for verified person-level Cloud coverage projections.
//!
//! The module stores complete snapshots and does not interpret provider events. Callers own the
//! transaction, so that an adapter can commit its provider cursor and a projection together. What
//! a snapshot entitles a person to is decided in [`crate::cloud_coverage`].

use crate::cloud_coverage::{
    clone_intervals, facts_of, normalise_confirmed_intervals, same_intervals, text_of,
    ConfirmedPaidInterval, Coverage, InvalidCoverage, PaidFact, PersonCoverage,
};
use crate::coverage_facts::{canonical, fault};
use crate::coverage_lookups::{
    find_head, find_publication, find_revision, head_of, publication_of, revision_of,
};
use crate::coverage_tables::{
    staged, writes_of, CoverageTables, CoverageTransaction, Revision, RevisionRow, TableWrite,
    Tables, Write,
};
use crate::text;
use crate::text::{blank, decimal, natural};
use vstd::prelude::*;

verus! {

/// Why a trusted producer could not publish a complete coverage history.
#[derive(Debug, Clone, Copy, PartialEq, Eq, Structural)]
pub enum UnavailableReason {
    NeedsReconciliation,
    ConflictingEvidence,
}

/// The name under which a reason is stored.
pub open spec fn reason_name(reason: UnavailableReason) -> Seq<char> {
    match reason {
        UnavailableReason::NeedsReconciliation => "needs_reconciliation"@,
        UnavailableReason::ConflictingEvidence => "conflicting_evidence"@,
    }
}

/// The reason that a stored name stands for, if there is one.
pub open spec fn reason_named(name: Seq<char>) -> Option<UnavailableReason> {
    if name == "needs_reconciliation"@ {
        Some(UnavailableReason::NeedsReconciliation)
    } else if name == "conflicting_evidence"@ {
        Some(UnavailableReason::ConflictingEvidence)
    } else {
        None
    }
}

impl UnavailableReason {
    /// The name under which the reason is stored.
    pub fn as_str(self) -> (r: &'static str)
        ensures
            r@ == reason_name(self),
    {
        match self {
            UnavailableReason::NeedsReconciliation => "needs_reconciliation",
            UnavailableReason::ConflictingEvidence => "conflicting_evidence",
        }
    }

    /// The reason that a stored name stands for, if there is one.
    pub fn parse(value: &str) -> (r: Option<Self>)
        ensures
            r == reason_named(value@),
    {
        if text::same(value, "needs_reconciliation") {
            Some(UnavailableReason::NeedsReconciliation)
        } else if text::same(value, "conflicting_evidence") {
            Some(UnavailableReason::ConflictingEvidence)
        } else {
            None
        }
    }
}

/// The complete or explicitly unavailable result of a trusted projection.
#[derive(Debug)]
pub enum CoverageProjection {
    Complete { paid_intervals: Vec<ConfirmedPaidInterval> },
    Unavailable { reason: UnavailableReason },
}

/// What a [`CoverageProjection`] says.
pub enum Projection {
    Complete { facts: Seq<PaidFact> },
    Unavailable { reason: UnavailableReason },
}

impl View for CoverageProjection {
    type V = Projection;

    open spec fn view(&self) -> Projection {
        match *self {
            CoverageProjection::Complete { paid_intervals } => Projection::Complete {
                facts: facts_of(paid_intervals@),
            },
            CoverageProjection::Unavailable { reason } => Projection::Unavailable { reason },
        }
    }
}

impl Clone for CoverageProjection {
    fn clone(&self) -> (r: Self)
        ensures
            r@ == self@,
    {
        match self {
            CoverageProjection::Complete { paid_intervals } => CoverageProjection::Complete {
                paid_intervals: clone_intervals(paid_intervals),
            },
            CoverageProjection::Unavailable { reason } => CoverageProjection::Unavailable {
                reason: *reason,
            },
        }
    }
}

impl PartialEq for CoverageProjection {
    fn eq(&self, other: &Self) -> (r: bool) {
        match (self, other) {
            (
                CoverageProjection::Complete { paid_intervals: a },
                CoverageProjection::Complete { paid_intervals: b },
            ) => same_intervals(a, b),
            (
                CoverageProjection::Unavailable { reason: a },
                CoverageProjection::Unavailable { reason: b },
            ) => *a == *b,
            _ => false,
        }
    }
}

impl vstd::std_specs::cmp::PartialEqSpecImpl for CoverageProjection {
    open spec fn obeys_eq_spec() -> bool {
        true
    }

    open spec fn eq_spec(&self, other: &Self) -> bool {
        self@ == other@
    }
}

impl Eq for CoverageProjection {

}

/// The result of publishing one projection operation.
#[derive(Debug, Clone, Copy, PartialEq, Eq, Structural)]
pub struct PublicationReceipt {
    pub revision: i64,
    pub outcome: PublicationOutcome,
}

/// Whether the operation was newly applied or was an exact replay.
#[derive(Debug, Clone, Copy, PartialEq, Eq, Structural)]
pub enum PublicationOutcome {
    Applied,
    AlreadyApplied,
}

/// A complete snapshot loaded from one committed revision.
#[derive(Debug)]
pub struct LoadedCoverage {
    pub revision: i64,
    pub coverage: PersonCoverage,
}

/// What a [`LoadedCoverage`] says.
pub struct Loaded {
    pub revision: i64,
    pub coverage: Coverage,
}

impl View for LoadedCoverage {
    type V = Loaded;

    open spec fn view(&self) -> Loaded {
        Loaded { revision: self.revision, coverage: self.coverage@ }
    }
}

impl Clone for LoadedCoverage {
    fn clone(&self) -> (r: Self)
        ensures
            r@ == self@,
    {
        LoadedCoverage { revision: self.revision, coverage: self.coverage.clone() }
    }
}

impl PartialEq for LoadedCoverage {
    fn eq(&self, other: &Self) -> (r: bool) {
        self.revision == other.revision && self.coverage == other.coverage
    }
}

impl vstd::std_specs::cmp::PartialEqSpecImpl for LoadedCoverage {
    open spec fn obeys_eq_spec() -> bool {
        true
    }

    open spec fn eq_spec(&self, other: &Self) -> bool {
        self@ == other@
    }
}

impl Eq for LoadedCoverage {

}

/// Storage and projection contract failures.
#[derive(Debug)]
pub enum StoreError {
    EmptyBeneficiary,
    EmptyOperationId,
    EmptyEvidenceReference,
    InvalidExpectedRevision,
    InvalidCoverage(InvalidCoverage),
    RevisionOverflow,
    ProjectionMissing,
    ProjectionUnavailable(UnavailableReason),
    OperationConflict,
    RevisionConflict { expected: Option<i64>, actual: Option<i64> },
    CorruptProjection(String),
}

/// What a [`StoreError`] says.
pub enum StoreFault {
    EmptyBeneficiary,
    EmptyOperationId,
    EmptyEvidenceReference,
    InvalidExpectedRevision,
    InvalidCoverage(InvalidCoverage),
    RevisionOverflow,
    ProjectionMissing,
    ProjectionUnavailable(UnavailableReason),
    OperationConflict,
    RevisionConflict { expected: Option<i64>, actual: Option<i64> },
    CorruptProjection(Seq<char>),
}

impl View for StoreError {
    type V = StoreFault;

    open spec fn view(&self) -> StoreFault {
        match *self {
            StoreError::EmptyBeneficiary => StoreFault::EmptyBeneficiary,
            StoreError::EmptyOperationId => StoreFault::EmptyOperationId,
            StoreError::EmptyEvidenceReference => StoreFault::EmptyEvidenceReference,
            StoreError::InvalidExpectedRevision => StoreFault::InvalidExpectedRevision,
            StoreError::InvalidCoverage(fault) => StoreFault::InvalidCoverage(fault),
            StoreError::RevisionOverflow => StoreFault::RevisionOverflow,
            StoreError::ProjectionMissing => StoreFault::ProjectionMissing,
            StoreError::ProjectionUnavailable(reason) => StoreFault::ProjectionUnavailable(reason),
            StoreError::OperationConflict => StoreFault::OperationConflict,
            StoreError::RevisionConflict { expected, actual } => StoreFault::RevisionConflict {
                expected,
                actual,
            },
            StoreError::CorruptProjection(detail) => StoreFault::CorruptProjection(detail@),
        }
    }
}

/// An optional revision as a message shows it.
pub open spec fn revision_shown(revision: Option<i64>) -> Seq<char> {
    match revision {
        Some(n) => "Some("@ + decimal(n as int) + ")"@,
        None => "None"@,
    }
}

fn show_revision(revision: Option<i64>) -> (r: String)
    ensures
        r@ == revision_shown(revision),
{
    match revision {
        Some(n) => text::join3("Some(", &text::decimal_text(n), ")"),
        None => "None".to_owned(),
    }
}

impl StoreFault {
    /// The sentence that describes the failure.
    pub open spec fn sentence(self) -> Seq<char> {
        match self {
            StoreFault::EmptyBeneficiary => "beneficiary_id must not be empty"@,
            StoreFault::EmptyOperationId => "operation_id must not be empty"@,
            StoreFault::EmptyEvidenceReference => "evidence_reference must not be empty"@,
            StoreFault::InvalidExpectedRevision => "expected revision must be positive"@,
            StoreFault::InvalidCoverage(fault) => "invalid coverage: "@ + fault.sentence(),
            StoreFault::RevisionOverflow => "projection revision is exhausted"@,
            StoreFault::ProjectionMissing => "projection is missing"@,
            StoreFault::ProjectionUnavailable(reason) => "projection is unavailable: "@
                + reason_name(reason),
            StoreFault::OperationConflict =>
                "publication operation conflicts with an existing request"@,
            StoreFault::RevisionConflict { expected, actual } =>
                "projection revision conflict: expected "@ + revision_shown(expected)
                    + ", current "@ + revision_shown(actual),
            StoreFault::CorruptProjection(detail) => "stored projection is corrupt: "@ + detail,
        }
    }
}

impl StoreError {
    /// The sentence that describes the failure.
    pub fn message(&self) -> (r: String)
        ensures
            r@ == self@.sentence(),
    {
        match self {
            StoreError::EmptyBeneficiary => "beneficiary_id must not be empty".to_owned(),
            StoreError::EmptyOperationId => "operation_id must not be empty".to_owned(),
            StoreError::EmptyEvidenceReference => "evidence_reference must not be empty".to_owned(),
            StoreError::InvalidExpectedRevision => "expected revision must be positive".to_owned(),
            StoreError::InvalidCoverage(fault) => text::join("invalid coverage: ", fault.message()),
            StoreError::RevisionOverflow => "projection revision is exhausted".to_owned(),
            StoreError::ProjectionMissing => "projection is missing".to_owned(),
            StoreError::ProjectionUnavailable(reason) => text::join(
                "projection is unavailable: ",
                reason.as_str(),
            ),
            StoreError::OperationConflict =>
                "publication operation conflicts with an existing request".to_owned(),
            StoreError::RevisionConflict { expected, actual } => {
                let shown = text::join3(
                    "projection revision conflict: expected ",
                    &show_revision(*expected),
                    ", current ",
                );
                text::join(&shown, &show_revision(*actual))
            },
            StoreError::CorruptProjection(detail) => text::join(
                "stored projection is corrupt: ",
                detail,
            ),
        }
    }
}

/// Refuses a blank identifier.
pub fn validate_identifier<T>(value: &str, error: T) -> (r: Result<(), T>)
    ensures
        r == (if blank(value@) {
            Err::<(), T>(error)
        } else {
            Ok(())
        }),
{
    if text::is_blank(value) {
        Err(error)
    } else {
        Ok(())
    }
}

/// A projection in the form in which it is stored and compared: no facts where it is unavailable,
/// and otherwise each fact once, in ascending byte order of its identity.
#[derive(Debug)]
pub struct CanonicalProjection {
    pub unavailable_reason: Option<UnavailableReason>,
    pub paid_intervals: Vec<ConfirmedPaidInterval>,
}

/// What a [`CanonicalProjection`] says.
pub struct Snapshot {
    pub unavailable_reason: Option<UnavailableReason>,
    pub facts: Seq<PaidFact>,
}

impl View for CanonicalProjection {
    type V = Snapshot;

    open spec fn view(&self) -> Snapshot {
        Snapshot {
            unavailable_reason: self.unavailable_reason,
            facts: facts_of(self.paid_intervals@),
        }
    }
}

/// The status under which a projection is stored.
pub open spec fn status_of(unavailable_reason: Option<UnavailableReason>) -> Seq<char> {
    match unavailable_reason {
        None => "complete"@,
        Some(_) => "unavailable"@,
    }
}

/// The form in which a projection is stored, or why it is refused.
pub open spec fn snapshot_of(beneficiary_id: Seq<char>, projection: Projection) -> Result<
    Snapshot,
    StoreFault,
> {
    match projection {
        Projection::Complete { facts } => match fault(Coverage { beneficiary_id, facts }) {
            Some(f) => Err(StoreFault::InvalidCoverage(f)),
            None => Ok(Snapshot { unavailable_reason: None, facts: canonical(facts) }),
        },
        Projection::Unavailable { reason } => Ok(
            Snapshot { unavailable_reason: Some(reason), facts: Seq::empty() },
        ),
    }
}

/// Brings a projection into the form in which it is stored.
pub fn canonical_projection(beneficiary_id: &str, projection: &CoverageProjection) -> (r: Result<
    CanonicalProjection,
    StoreError,
>)
    ensures
        match snapshot_of(beneficiary_id@, projection@) {
            Ok(snapshot) => r matches Ok(canonical) && canonical@ == snapshot,
            Err(f) => r matches Err(e) && e@ == f,
        },
{
    match projection {
        CoverageProjection::Complete { paid_intervals } => {
            let coverage = PersonCoverage {
                beneficiary_id: beneficiary_id.to_owned(),
                paid_intervals: clone_intervals(paid_intervals),
            };
            match normalise_confirmed_intervals(&coverage) {
                Ok(paid_intervals) => Ok(
                    CanonicalProjection { unavailable_reason: None, paid_intervals },
                ),
                Err(fault) => Err(StoreError::InvalidCoverage(fault)),
            }
        },
        CoverageProjection::Unavailable { reason } => {
            let canonical = CanonicalProjection {
                unavailable_reason: Some(*reason),
                paid_intervals: Vec::new(),
            };
            assert(canonical@.facts =~= Seq::empty());
            Ok(canonical)
        },
    }
}

/// What the columns of a stored revision say of its availability, or why they cannot be trusted.
pub open spec fn availability(
    status: Seq<char>,
    unavailable_reason: Option<Seq<char>>,
    fact_count: i64,
) -> Result<Option<UnavailableReason>, StoreFault> {
    let reason = match unavailable_reason {
        Some(name) => reason_named(name),
        None => None,
    };
    if fact_count < 0 {
        Err(StoreFault::CorruptProjection("fact count is negative"@))
    } else if status == "complete"@ && reason is None {
        Ok(None)
    } else if status == "unavailable"@ && reason is Some && fact_count == 0 {
        Ok(reason)
    } else {
        Err(StoreFault::CorruptProjection("invalid projection status or unavailable reason"@))
    }
}

/// Reads the columns of a stored revision that say whether it is available.
pub fn projection_metadata(
    status: &str,
    unavailable_reason: Option<&str>,
    fact_count: i64,
) -> (r: Result<CanonicalProjection, StoreError>)
    ensures
        match availability(
            status@,
            match unavailable_reason {
                Some(name) => Some(name@),
                None => None,
            },
            fact_count,
        ) {
            Ok(reason) => r matches Ok(projection) && projection@ == (Snapshot {
                unavailable_reason: reason,
                facts: Seq::empty(),
            }),
            Err(f) => r matches Err(e) && e@ == f,
        },
{
    if fact_count < 0 {
        return Err(StoreError::CorruptProjection("fact count is negative".to_owned()));
    }
    let reason = match unavailable_reason {
        Some(name) => UnavailableReason::parse(name),
        None => None,
    };
    let complete = text::same(status, "complete");
    let unavailable = text::same(status, "unavailable");
    if (complete && reason.is_none()) || (unavailable && reason.is_some() && fact_count == 0) {
        proof {
            reveal_strlit("complete");
            reveal_strlit("unavailable");
        }
        let projection = CanonicalProjection {
            unavailable_reason: reason,
            paid_intervals: Vec::new(),
        };
        assert(projection@.facts =~= Seq::empty());
        Ok(projection)
    } else {
        Err(
            StoreError::CorruptProjection(
                "invalid projection status or unavailable reason".to_owned(),
            ),
        )
    }
}

/// What is reported of a revision that stores another number of facts than it declares.
pub open spec fn miscount(
    subject: Seq<char>,
    revision: i64,
    declared: i64,
    stored: nat,
) -> StoreFault {
    StoreFault::CorruptProjection(
        subject + decimal(revision as int) + " declares "@ + decimal(declared as int)
            + " facts but stores "@ + natural(stored),
    )
}

fn report_miscount(subject: &str, revision: i64, declared: i64, stored: usize) -> (r: StoreError)
    ensures
        r@ == miscount(subject@, revision, declared, stored as nat),
{
    let head = text::join3(subject, &text::decimal_text(revision), " declares ");
    let middle = text::join3(&head, &text::decimal_text(declared), " facts but stores ");
    StoreError::CorruptProjection(text::join(&middle, &text::natural_text(stored as u64)))
}

/// The request that a stored revision answered.
#[derive(Debug)]
pub struct StoredOperation {
    pub revision: i64,
    pub expected_revision: Option<i64>,
    pub evidence_reference: String,
    pub projection: CanonicalProjection,
}

/// What a [`StoredOperation`] says.
pub struct Operation {
    pub revision: i64,
    pub expected_revision: Option<i64>,
    pub evidence_reference: Seq<char>,
    pub snapshot: Snapshot,
}

impl View for StoredOperation {
    type V = Operation;

    open spec fn view(&self) -> Operation {
        Operation {
            revision: self.revision,
            expected_revision: self.expected_revision,
            evidence_reference: self.evidence_reference@,
            snapshot: self.projection@,
        }
    }
}

/// The request that a stored revision answered, or why the revision cannot be trusted.
pub open spec fn stored_operation(row: Revision) -> Result<Operation, StoreFault> {
    match availability(row.status, row.unavailable_reason, row.fact_count) {
        Err(f) => Err(f),
        Ok(unavailable_reason) => if row.fact_count != row.facts.len() as i64 {
            Err(miscount("operation revision "@, row.revision, row.fact_count, row.facts.len()))
        } else {
            Ok(
                Operation {
                    revision: row.revision,
                    expected_revision: row.expected_revision,
                    evidence_reference: row.evidence_reference,
                    snapshot: Snapshot { unavailable_reason, facts: row.facts },
                },
            )
        },
    }
}

fn optional_str<'a>(s: &'a Option<String>) -> (r: Option<&'a str>)
    ensures
        text_of(*s) == (match r {
            Some(t) => Some(t@),
            None => None,
        }),
{
    match s {
        Some(t) => Some(t.as_str()),
        None => None,
    }
}

/// Reads back the request that a stored revision answered.
pub fn load_operation(row: &RevisionRow) -> (r: Result<StoredOperation, StoreError>)
    ensures
        match stored_operation(row@) {
            Ok(operation) => r matches Ok(stored) && stored@ == operation,
            Err(f) => r matches Err(e) && e@ == f,
        },
{
    let projection = projection_metadata(
        &row.status,
        optional_str(&row.unavailable_reason),
        row.fact_count,
    )?;
    if row.fact_count != row.facts.len() as i64 {
        return Err(
            report_miscount("operation revision ", row.revision, row.fact_count, row.facts.len()),
        );
    }
    Ok(
        StoredOperation {
            revision: row.revision,
            expected_revision: row.expected_revision,
            evidence_reference: row.evidence_reference.clone(),
            projection: CanonicalProjection {
                unavailable_reason: projection.unavailable_reason,
                paid_intervals: clone_intervals(&row.facts),
            },
        },
    )
}

/// The current revision of a beneficiary's projection, if there is one.
pub open spec fn revision_now(tables: Tables, beneficiary_id: Seq<char>) -> Option<i64> {
    match head_of(tables, beneficiary_id) {
        Some(head) => head.current_revision,
        None => None,
    }
}

/// The current revision of a beneficiary's projection, if there is one.
pub fn current_revision(tables: &CoverageTables, beneficiary_id: &str) -> (r: Option<i64>)
    ensures
        r == revision_now(tables@, beneficiary_id@),
{
    match find_head(tables, beneficiary_id) {
        Some(head) => head.current_revision,
        None => None,
    }
}

/// A request to publish a projection.
pub struct Request {
    pub beneficiary_id: Seq<char>,
    pub expected_revision: Option<i64>,
    pub operation_id: Seq<char>,
    pub evidence_reference: Seq<char>,
    pub projection: Projection,
}

/// What an accepted publication answers and writes.
pub struct Publication {
    pub receipt: PublicationReceipt,
    pub writes: Seq<Write>,
}

/// The revision that a publication adds.
pub open spec fn new_revision(request: Request, revision: i64, snapshot: Snapshot) -> Revision {
    Revision {
        beneficiary_id: request.beneficiary_id,
        revision,
        operation_id: request.operation_id,
        expected_revision: request.expected_revision,
        evidence_reference: request.evidence_reference,
        status: status_of(snapshot.unavailable_reason),
        unavailable_reason: match snapshot.unavailable_reason {
            Some(reason) => Some(reason_name(reason)),
            None => None,
        },
        fact_count: snapshot.facts.len() as i64,
        facts: snapshot.facts,
    }
}

/// The revision after the current one.
pub open spec fn next_revision(current: Option<i64>) -> int {
    match current {
        Some(revision) => revision + 1,
        None => 1,
    }
}

/// What makes a head where there is none yet.
pub open spec fn head_writes(tables: Tables, beneficiary_id: Seq<char>) -> Seq<Write> {
    match head_of(tables, beneficiary_id) {
        Some(_) => Seq::empty(),
        None => seq![Write::InsertHead { beneficiary_id }],
    }
}

/// What a publication request asks to store, or what is wrong with the request itself.
pub open spec fn requested(request: Request) -> Result<Snapshot, StoreFault> {
    if blank(request.beneficiary_id) {
        Err(StoreFault::EmptyBeneficiary)
    } else if blank(request.operation_id) {
        Err(StoreFault::EmptyOperationId)
    } else if blank(request.evidence_reference) {
        Err(StoreFault::EmptyEvidenceReference)
    } else if request.expected_revision matches Some(revision) && revision <= 0 {
        Err(StoreFault::InvalidExpectedRevision)
    } else {
        snapshot_of(request.beneficiary_id, request.projection)
    }
}

/// How a publication request is answered.
pub open spec fn publication(tables: Tables, request: Request) -> Result<Publication, StoreFault> {
    let beneficiary_id = request.beneficiary_id;
    let current = revision_now(tables, beneficiary_id);
    match requested(request) {
        Err(f) => Err(f),
        Ok(snapshot) => if head_of(tables, beneficiary_id) is Some && current is None {
            Err(StoreFault::CorruptProjection("head has no current revision"@))
        } else {
            match publication_of(tables, beneficiary_id, request.operation_id) {
                Some(row) => replayed(tables, row, request, snapshot),
                None => if current != request.expected_revision {
                    Err(
                        StoreFault::RevisionConflict {
                            expected: request.expected_revision,
                            actual: current,
                        },
                    )
                } else if next_revision(current) > i64::MAX {
                    Err(StoreFault::RevisionOverflow)
                } else {
                    Ok(fresh(tables, request, snapshot, next_revision(current) as i64))
                },
            }
        },
    }
}

/// How a publication request is answered that adds a revision.
pub open spec fn fresh(
    tables: Tables,
    request: Request,
    snapshot: Snapshot,
    revision: i64,
) -> Publication {
    Publication {
        receipt: PublicationReceipt { revision, outcome: PublicationOutcome::Applied },
        writes: head_writes(tables, request.beneficiary_id) + seq![
            Write::InsertRevision(new_revision(request, revision, snapshot)),
            Write::SetHead { beneficiary_id: request.beneficiary_id, revision },
        ],
    }
}

/// How a publication request is answered whose operation has already made the revision `row`.
pub open spec fn replayed(
    tables: Tables,
    row: Revision,
    request: Request,
    snapshot: Snapshot,
) -> Result<Publication, StoreFault> {
    match stored_operation(row) {
        Err(f) => Err(f),
        Ok(stored) => if stored.expected_revision == request.expected_revision
            && stored.evidence_reference == request.evidence_reference && stored.snapshot
            == snapshot {
            Ok(
                Publication {
                    receipt: PublicationReceipt {
                        revision: stored.revision,
                        outcome: PublicationOutcome::AlreadyApplied,
                    },
                    writes: head_writes(tables, request.beneficiary_id),
                },
            )
        } else {
            Err(StoreFault::OperationConflict)
        },
    }
}

/// What an accepted publication answers, and the writes that it takes.
#[derive(Debug)]
pub struct PublicationPlan {
    pub receipt: PublicationReceipt,
    pub writes: Vec<TableWrite>,
}

impl View for PublicationPlan {
    type V = Publication;

    open spec fn view(&self) -> Publication {
        Publication { receipt: self.receipt, writes: writes_of(self.writes@) }
    }
}

/// Checks what a publication request says by itself, before any row is looked at.
pub fn validate_publication(
    beneficiary_id: &str,
    expected_revision: Option<i64>,
    operation_id: &str,
    evidence_reference: &str,
    projection: &CoverageProjection,
) -> (r: Result<CanonicalProjection, StoreError>)
    ensures
        match requested(
            (Request {
                beneficiary_id: beneficiary_id@,
                expected_revision,
                operation_id: operation_id@,
                evidence_reference: evidence_reference@,
                projection: projection@,
            }),
        ) {
            Ok(snapshot) => r matches Ok(canonical) && canonical@ == snapshot,
            Err(f) => r matches Err(e) && e@ == f,
        },
{
    validate_identifier(beneficiary_id, StoreError::EmptyBeneficiary)?;
    validate_identifier(operation_id, StoreError::EmptyOperationId)?;
    validate_identifier(evidence_reference, StoreError::EmptyEvidenceReference)?;
    if let Some(revision) = expected_revision {
        if revision <= 0 {
            return Err(StoreError::InvalidExpectedRevision);
        }
    }
    canonical_projection(beneficiary_id, projection)
}

/// Decides how a publication request is answered, without making the writes.
pub fn plan_publication(
    tables: &CoverageTables,
    beneficiary_id: &str,
    expected_revision: Option<i64>,
    operation_id: &str,
    evidence_reference: &str,
    projection: &CoverageProjection,
) -> (r: Result<PublicationPlan, StoreError>)
    ensures
        match publication(
            tables@,
            (Request {
                beneficiary_id: beneficiary_id@,
                expected_revision,
                operation_id: operation_id@,
                evidence_reference: evidence_reference@,
                projection: projection@,
            }),
        ) {
            Ok(publication) => r matches Ok(plan) && plan@ == publication,
            Err(f) => r matches Err(e) && e@ == f,
        },
{
    let canonical = validate_publication(
        beneficiary_id,
        expected_revision,
        operation_id,
        evidence_reference,
        projection,
    )?;
    let mut writes: Vec<TableWrite> = Vec::new();
    let current = match find_head(tables, beneficiary_id) {
        Some(head) => {
            if head.current_revision.is_none() {
                return Err(
                    StoreError::CorruptProjection("head has no current revision".to_owned()),
                );
            }
            head.current_revision
        },
        None => {
            writes.push(TableWrite::InsertHead { beneficiary_id: beneficiary_id.to_owned() });
            None
        },
    };
    assert(writes_of(writes@) =~= head_writes(tables@, beneficiary_id@));
    if let Some(row) = find_publication(tables, beneficiary_id, operation_id) {
        let stored = load_operation(row)?;
        if same_revision(stored.expected_revision, expected_revision) && text::same(
            &stored.evidence_reference,
            evidence_reference,
        ) && same_projection(&stored.projection, &canonical) {
            return Ok(
                PublicationPlan {
                    receipt: PublicationReceipt {
                        revision: stored.revision,
                        outcome: PublicationOutcome::AlreadyApplied,
                    },
                    writes,
                },
            );
        }
        return Err(StoreError::OperationConflict);
    }
    if !same_revision(current, expected_revision) {
        return Err(
            StoreError::RevisionConflict { expected: expected_revision, actual: current },
        );
    }
    let revision: i64 = match current {
        Some(revision) => match revision.checked_add(1) {
            Some(next) => next,
            None => {
                return Err(StoreError::RevisionOverflow);
            },
        },
        None => 1,
    };
    let ghost before = writes@;
    let row = revision_row(
        beneficiary_id,
        revision,
        operation_id,
        expected_revision,
        evidence_reference,
        canonical,
    );
    writes.push(TableWrite::InsertRevision(row));
    writes.push(TableWrite::SetHead { beneficiary_id: beneficiary_id.to_owned(), revision });
    assert(writes_of(writes@) =~= writes_of(before) + seq![
        Write::InsertRevision(row@),
        Write::SetHead { beneficiary_id: beneficiary_id@, revision },
    ]);
    Ok(
        PublicationPlan {
            receipt: PublicationReceipt { revision, outcome: PublicationOutcome::Applied },
            writes,
        },
    )
}

/// Whether two optional revisions are the same.
pub fn same_revision(a: Option<i64>, b: Option<i64>) -> (r: bool)
    ensures
        r == (a == b),
{
    match (a, b) {
        (Some(x), Some(y)) => x == y,
        (None, None) => true,
        _ => false,
    }
}

fn same_projection(a: &CanonicalProjection, b: &CanonicalProjection) -> (r: bool)
    ensures
        r == (a@ == b@),
{
    let same_reason = match (a.unavailable_reason, b.unavailable_reason) {
        (Some(x), Some(y)) => x == y,
        (None, None) => true,
        _ => false,
    };
    same_reason && same_intervals(&a.paid_intervals, &b.paid_intervals)
}

fn revision_row(
    beneficiary_id: &str,
    revision: i64,
    operation_id: &str,
    expected_revision: Option<i64>,
    evidence_reference: &str,
    canonical: CanonicalProjection,
) -> (r: RevisionRow)
    ensures
        forall|request: Request|
            request.beneficiary_id == beneficiary_id@ && request.operation_id == operation_id@
                && request.expected_revision == expected_revision && request.evidence_reference
                == evidence_reference@ ==> r@ == #[trigger] new_revision(
                request,
                revision,
                canonical@,
            ),
{
    let (status, unavailable_reason) = match canonical.unavailable_reason {
        Some(reason) => ("unavailable", Some(reason.as_str().to_owned())),
        None => ("complete", None),
    };
    RevisionRow {
        beneficiary_id: beneficiary_id.to_owned(),
        revision,
        operation_id: operation_id.to_owned(),
        expected_revision,
        evidence_reference: evidence_reference.to_owned(),
        status: status.to_owned(),
        unavailable_reason,
        fact_count: canonical.paid_intervals.len() as i64,
        facts: canonical.paid_intervals,
    }
}

/// Publishes one complete or unavailable snapshot inside the caller's transaction.
///
/// The receipt is not durable until the caller commits. The revision and the beneficiary's head
/// are staged together, and a refused request stages nothing.
pub fn publish(
    transaction: &mut CoverageTransaction,
    beneficiary_id: &str,
    expected_revision: Option<i64>,
    operation_id: &str,
    evidence_reference: &str,
    projection: &CoverageProjection,
) -> (r: Result<PublicationReceipt, StoreError>)
    ensures
        match publication(
            old(transaction)@.tables,
            (Request {
                beneficiary_id: beneficiary_id@,
                expected_revision,
                operation_id: operation_id@,
                evidence_reference: evidence_reference@,
                projection: projection@,
            }),
        ) {
            Ok(publication) => {
                &&& r matches Ok(receipt) && receipt == publication.receipt
                &&& final(transaction)@ == staged(old(transaction)@, publication.writes)
            },
            Err(f) => {
                &&& r matches Err(e) && e@ == f
                &&& final(transaction)@ == old(transaction)@
            },
        },
{
    let plan = plan_publication(
        &transaction.tables,
        beneficiary_id,
        expected_revision,
        operation_id,
        evidence_reference,
        projection,
    )?;
    transaction.stage(plan.writes);
    Ok(plan.receipt)
}

/// What is loaded for a beneficiary, or why nothing can be.
pub open spec fn loaded(tables: Tables, beneficiary_id: Seq<char>) -> Result<Loaded, StoreFault> {
    if blank(beneficiary_id) {
        Err(StoreFault::EmptyBeneficiary)
    } else {
        match head_of(tables, beneficiary_id) {
            None => Err(StoreFault::ProjectionMissing),
            Some(head) => match head.current_revision {
                None => Err(StoreFault::CorruptProjection("head has no current revision"@)),
                Some(revision) => match revision_of(tables, beneficiary_id, revision) {
                    None => Err(
                        StoreFault::CorruptProjection(
                            "head points to missing revision "@ + decimal(revision as int),
                        ),
                    ),
                    Some(row) => loaded_revision(row, beneficiary_id, revision),
                },
            },
        }
    }
}

/// What a stored revision says of a beneficiary, or why nothing can be loaded from it.
pub open spec fn loaded_revision(row: Revision, beneficiary_id: Seq<char>, revision: i64) -> Result<
    Loaded,
    StoreFault,
> {
    let coverage = Coverage { beneficiary_id, facts: row.facts };
    match availability(row.status, row.unavailable_reason, row.fact_count) {
        Err(f) => Err(f),
        Ok(unavailable_reason) => if row.expected_revision matches Some(expected) && expected <= 0 {
            Err(StoreFault::CorruptProjection("expected revision is not positive"@))
        } else if blank(row.evidence_reference) {
            Err(StoreFault::CorruptProjection("evidence reference is empty"@))
        } else if row.fact_count != row.facts.len() as i64 {
            Err(miscount("revision "@, revision, row.fact_count, row.facts.len()))
        } else {
            match fault(coverage) {
                Some(f) => Err(StoreFault::CorruptProjection(f.sentence())),
                None => if canonical(row.facts) != row.facts {
                    Err(StoreFault::CorruptProjection("stored facts are not in canonical order"@))
                } else {
                    match unavailable_reason {
                        Some(reason) => Err(StoreFault::ProjectionUnavailable(reason)),
                        None => Ok(Loaded { revision, coverage }),
                    }
                },
            }
        },
    }
}

/// Loads the current snapshot of a beneficiary.
pub fn load(tables: &CoverageTables, beneficiary_id: &str) -> (r: Result<
    LoadedCoverage,
    StoreError,
>)
    ensures
        match loaded(tables@, beneficiary_id@) {
            Ok(l) => r matches Ok(snapshot) && snapshot@ == l,
            Err(f) => r matches Err(e) && e@ == f,
        },
{
    validate_identifier(beneficiary_id, StoreError::EmptyBeneficiary)?;
    let revision: i64 = match find_head(tables, beneficiary_id) {
        None => {
            return Err(StoreError::ProjectionMissing);
        },
        Some(head) => match head.current_revision {
            None => {
                return Err(
                    StoreError::CorruptProjection("head has no current revision".to_owned()),
                );
            },
            Some(revision) => revision,
        },
    };
    let row = match find_revision(tables, beneficiary_id, revision) {
        None => {
            return Err(
                StoreError::CorruptProjection(
                    text::join("head points to missing revision ", &text::decimal_text(revision)),
                ),
            );
        },
        Some(row) => row,
    };
    let projection = projection_metadata(
        &row.status,
        optional_str(&row.unavailable_reason),
        row.fact_count,
    )?;
    if let Some(expected) = row.expected_revision {
        if expected <= 0 {
            return Err(
                StoreError::CorruptProjection("expected revision is not positive".to_owned()),
            );
        }
    }
    if text::is_blank(&row.evidence_reference) {
        return Err(StoreError::CorruptProjection("evidence reference is empty".to_owned()));
    }
    if row.fact_count != row.facts.len() as i64 {
        return Err(report_miscount("revision ", revision, row.fact_count, row.facts.len()));
    }
    let coverage = PersonCoverage {
        beneficiary_id: beneficiary_id.to_owned(),
        paid_intervals: clone_intervals(&row.facts),
    };
    match normalise_confirmed_intervals(&coverage) {
        Err(fault) => {
            return Err(StoreError::CorruptProjection(fault.message().to_owned()));
        },
        Ok(canonical) => {
            if !same_intervals(&canonical, &coverage.paid_intervals) {
                return Err(
                    StoreError::CorruptProjection(
                        "stored facts are not in canonical order".to_owned(),
                    ),
                );
            }
        },
    }
    if let Some(reason) = projection.unavailable_reason {
        return Err(StoreError::ProjectionUnavailable(reason));
    }
    Ok(LoadedCoverage { revision, coverage })
}

/// What locking the head of a beneficiary asks of the database next.
#[derive(Debug, Clone, Copy, PartialEq, Eq, Structural)]
pub enum HeadLockAction {
    /// Insert a head without a revision, unless there is a head.
    Insert,
    /// Select the head for update.
    Select,
    /// Nothing: the head is locked.
    Proceed,
}

/// How far the locking of a beneficiary's head has come.
///
/// A head is inserted where there is none and then selected for update. Between the two, another
/// first publisher can remove the empty head that kept this one from inserting its own, so the
/// insertion is repeated until the selection finds a head.
#[derive(Debug, Clone, Copy, PartialEq, Eq, Structural)]
pub struct HeadLock {
    /// Whether this transaction inserted the head.
    pub inserted: bool,
    /// What comes next.
    pub action: HeadLockAction,
}

impl HeadLock {
    /// The beginning: a head is to be inserted.
    pub fn new() -> (r: Self)
        ensures
            r == (HeadLock { inserted: false, action: HeadLockAction::Insert }),
    {
        HeadLock { inserted: false, action: HeadLockAction::Insert }
    }

    /// Takes note of how many rows an insertion added.
    pub fn after_insert(&mut self, rows_affected: u64)
        ensures
            *final(self) == (HeadLock {
                inserted: old(self).inserted || rows_affected == 1,
                action: HeadLockAction::Select,
            }),
    {
        self.inserted = self.inserted || rows_affected == 1;
        self.action = HeadLockAction::Select;
    }

    /// Takes note of whether a selection found a head.
    pub fn after_select(&mut self, found: bool)
        ensures
            *final(self) == (HeadLock {
                inserted: old(self).inserted,
                action: if found {
                    HeadLockAction::Proceed
                } else {
                    HeadLockAction::Insert
                },
            }),
    {
        self.action = if found {
            HeadLockAction::Proceed
        } else {
            HeadLockAction::Insert
        };
    }

    /// Whether the empty head that this transaction inserted is to be removed again: a first
    /// publisher that expected a revision leaves none behind.
    pub fn abandons(&self, error: &StoreError) -> (r: bool)
        ensures
            r == (self.inserted && error@ is RevisionConflict),
    {
        match error {
            StoreError::RevisionConflict { .. } => self.inserted,
            _ => false,
        }
    }
}

} // verus!
