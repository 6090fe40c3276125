use sotto::cloud_coverage::{
    evaluate, ConfirmedPaidInterval, CoverageState, InvalidCoverage, PersonCoverage,
};
use sotto::cloud_coverage_store::{
    canonical_projection, current_revision, load, load_operation, plan_publication,
    projection_metadata, publish, validate_identifier, CoverageProjection, HeadLock,
    HeadLockAction, PublicationOutcome, PublicationReceipt, StoreError, UnavailableReason,
};
use sotto::coverage_tables::{CoverageTables, CoverageTransaction, HeadRow, TableWrite};

const DAY: i64 = 24 * 60 * 60;
const PERSON: &str = "person";

struct Database {
    tables: CoverageTables,
}

impl Database {
    fn new() -> Self {
        Database { tables: CoverageTables::new() }
    }

    fn begin(&self) -> CoverageTransaction {
        CoverageTransaction::new(self.tables.clone())
    }

    fn commit(&mut self, transaction: CoverageTransaction) {
        for write in &transaction.writes {
            self.tables.apply(write);
        }
        assert_eq!(self.tables, transaction.tables);
    }

    fn publish(
        &mut self,
        expected_revision: Option<i64>,
        operation_id: &str,
        evidence_reference: &str,
        projection: &CoverageProjection,
    ) -> Result<PublicationReceipt, StoreError> {
        let mut tx = self.begin();
        let receipt = publish(
            &mut tx,
            PERSON,
            expected_revision,
            operation_id,
            evidence_reference,
            projection,
        )?;
        self.commit(tx);
        Ok(receipt)
    }
}

fn paid(id: &str, source: &str, starts_at: i64, paid_until: i64) -> ConfirmedPaidInterval {
    ConfirmedPaidInterval {
        coverage_id: id.into(),
        source_id: source.into(),
        starts_at,
        paid_until,
        failed_renewal_id: None,
    }
}

fn recovery(
    id: &str,
    source: &str,
    starts_at: i64,
    paid_until: i64,
    renewal: &str,
) -> ConfirmedPaidInterval {
    ConfirmedPaidInterval {
        failed_renewal_id: Some(renewal.into()),
        ..paid(id, source, starts_at, paid_until)
    }
}

fn complete(paid_intervals: Vec<ConfirmedPaidInterval>) -> CoverageProjection {
    CoverageProjection::Complete { paid_intervals }
}

fn unavailable(reason: UnavailableReason) -> CoverageProjection {
    CoverageProjection::Unavailable { reason }
}

#[test]
fn missing_and_complete_empty_projection_are_distinct() {
    let mut db = Database::new();
    assert!(matches!(load(&db.tables, PERSON), Err(StoreError::ProjectionMissing)));
    let receipt = db.publish(None, "empty-op", "empty-evidence", &complete(vec![])).unwrap();
    assert_eq!(receipt.revision, 1);
    let loaded = load(&db.tables, PERSON).unwrap();
    assert_eq!(loaded.coverage.paid_intervals, Vec::new());
    assert_eq!(evaluate(&loaded.coverage, 5 * DAY).unwrap().state, CoverageState::Free);
}

#[test]
fn complete_facts_round_trip_and_exact_replay_is_idempotent() {
    let mut db = Database::new();
    let facts = vec![
        recovery("renewal", "personal", 0, 30 * DAY, "renewal-1"),
        paid("future", "sponsor", 40 * DAY, 70 * DAY),
    ];
    let first = db.publish(None, "operation-1", "evidence-1", &complete(facts.clone())).unwrap();
    assert_eq!(first.outcome, PublicationOutcome::Applied);
    let before = db.tables.clone();

    let mut reordered = facts.clone();
    reordered.reverse();
    reordered.push(reordered[0].clone());
    let replay = db.publish(None, "operation-1", "evidence-1", &complete(reordered)).unwrap();
    assert_eq!(replay.revision, first.revision);
    assert_eq!(replay.outcome, PublicationOutcome::AlreadyApplied);
    assert_eq!(db.tables, before);

    let loaded = load(&db.tables, PERSON).unwrap();
    assert_eq!(loaded.revision, 1);
    assert_eq!(loaded.coverage.paid_intervals.len(), 2);
    assert_eq!(loaded.coverage.paid_intervals[0].coverage_id, "future");
    assert_eq!(
        loaded.coverage,
        PersonCoverage {
            beneficiary_id: PERSON.into(),
            paid_intervals: vec![facts[1].clone(), facts[0].clone()],
        }
    );
}

#[test]
fn operation_conflict_and_stale_replay_cannot_rewind_head() {
    let mut db = Database::new();
    let first = complete(vec![paid("first", "personal", 0, 30 * DAY)]);
    db.publish(None, "operation-1", "evidence-1", &first).unwrap();
    db.publish(
        Some(1),
        "operation-2",
        "evidence-2",
        &complete(vec![paid("second", "personal", 30 * DAY, 60 * DAY)]),
    )
    .unwrap();
    assert!(matches!(
        db.publish(
            Some(1),
            "competing-correction",
            "evidence-competing",
            &complete(vec![paid("competing", "personal", 30 * DAY, 90 * DAY)]),
        ),
        Err(StoreError::RevisionConflict { expected: Some(1), actual: Some(2) })
    ));
    let replay = db.publish(None, "operation-1", "evidence-1", &first).unwrap();
    assert_eq!(replay.outcome, PublicationOutcome::AlreadyApplied);
    assert_eq!(replay.revision, 1);
    assert!(matches!(
        db.publish(None, "operation-1", "changed-evidence", &first),
        Err(StoreError::OperationConflict)
    ));
    assert!(matches!(
        db.publish(Some(1), "operation-1", "evidence-1", &first),
        Err(StoreError::OperationConflict)
    ));
    assert!(matches!(
        db.publish(None, "operation-1", "evidence-1", &complete(vec![])),
        Err(StoreError::OperationConflict)
    ));
    assert!(matches!(
        db.publish(None, "stale-operation", "stale-evidence", &first),
        Err(StoreError::RevisionConflict { expected: None, actual: Some(2) })
    ));
    assert_eq!(load(&db.tables, PERSON).unwrap().revision, 2);
    assert_eq!(db.tables.revisions.len(), 2);
}

#[test]
fn invalid_publication_does_not_create_a_head() {
    let db = Database::new();
    let mut tx = db.begin();
    assert!(matches!(
        publish(
            &mut tx,
            PERSON,
            None,
            "invalid",
            "evidence-invalid",
            &complete(vec![paid("invalid", "personal", 10, 10)]),
        ),
        Err(StoreError::InvalidCoverage(InvalidCoverage::InvalidInterval))
    ));
    assert_eq!(tx, db.begin());
    assert!(matches!(load(&tx.tables, PERSON), Err(StoreError::ProjectionMissing)));
}

#[test]
fn first_revision_conflict_does_not_leave_an_empty_head() {
    let mut db = Database::new();
    let mut tx = db.begin();
    let error = publish(
        &mut tx,
        PERSON,
        Some(1),
        "wrong-first-revision",
        "evidence-wrong-first-revision",
        &complete(vec![]),
    )
    .unwrap_err();
    assert!(matches!(
        error,
        StoreError::RevisionConflict { expected: Some(1), actual: None }
    ));
    db.commit(tx);
    assert!(matches!(load(&db.tables, PERSON), Err(StoreError::ProjectionMissing)));

    let mut lock = HeadLock::new();
    lock.after_insert(1);
    lock.after_select(true);
    assert!(lock.abandons(&error));
    assert!(!lock.abandons(&StoreError::OperationConflict));
}

#[test]
fn head_locks_repeat_until_a_head_is_found() {
    let mut lock = HeadLock::new();
    assert_eq!(lock.action, HeadLockAction::Insert);
    lock.after_insert(0);
    assert_eq!(lock.action, HeadLockAction::Select);
    lock.after_select(false);
    assert_eq!(lock.action, HeadLockAction::Insert);
    lock.after_insert(1);
    lock.after_select(true);
    assert_eq!(lock.action, HeadLockAction::Proceed);
    assert!(lock.inserted);
    let mut other = HeadLock::new();
    other.after_insert(0);
    other.after_select(true);
    assert!(!other.inserted);
    assert!(!other.abandons(&StoreError::RevisionConflict { expected: None, actual: Some(1) }));
}

#[test]
fn simultaneous_first_publications_have_one_winner() {
    let mut db = Database::new();
    let first = db.publish(
        None,
        "race-one",
        "race-evidence-one",
        &complete(vec![paid("one", "personal", 0, 30 * DAY)]),
    );
    let second = db.publish(
        None,
        "race-two",
        "race-evidence-two",
        &complete(vec![paid("two", "personal", 0, 30 * DAY)]),
    );
    assert_eq!(first.unwrap().outcome, PublicationOutcome::Applied);
    assert!(matches!(
        second,
        Err(StoreError::RevisionConflict { expected: None, actual: Some(1) })
    ));
}

#[test]
fn simultaneous_replays_of_one_operation_have_one_application() {
    let mut db = Database::new();
    let projection = complete(vec![paid("same", "personal", 0, 30 * DAY)]);
    let first = db.publish(None, "same-operation", "same-evidence", &projection).unwrap();
    let second = db.publish(None, "same-operation", "same-evidence", &projection).unwrap();
    assert_eq!(first.outcome, PublicationOutcome::Applied);
    assert_eq!(second.outcome, PublicationOutcome::AlreadyApplied);
    assert_eq!(first.revision, second.revision);
}

#[test]
fn unavailable_projection_blocks_load_until_complete_revision() {
    let mut db = Database::new();
    db.publish(
        None,
        "unavailable-op",
        "reconcile-1",
        &unavailable(UnavailableReason::NeedsReconciliation),
    )
    .unwrap();
    assert!(matches!(
        load(&db.tables, PERSON),
        Err(StoreError::ProjectionUnavailable(UnavailableReason::NeedsReconciliation))
    ));
    db.publish(
        Some(1),
        "complete-op",
        "reconcile-2",
        &complete(vec![paid("paid", "personal", 0, 30 * DAY)]),
    )
    .unwrap();
    assert_eq!(load(&db.tables, PERSON).unwrap().revision, 2);
}

#[test]
fn rollback_leaves_missing_projection_and_retry_can_apply() {
    let mut db = Database::new();
    let projection = complete(vec![paid("paid", "personal", 0, 30 * DAY)]);
    let mut tx = db.begin();
    publish(&mut tx, PERSON, None, "rolled-back", "evidence", &projection).unwrap();
    drop(tx);
    assert!(matches!(load(&db.tables, PERSON), Err(StoreError::ProjectionMissing)));
    db.publish(None, "rolled-back", "evidence", &projection).unwrap();
    assert_eq!(current_revision(&db.tables, PERSON), Some(1));
}

#[test]
fn renewal_correction_replaces_recovery_without_rewriting_old_revision() {
    let mut db = Database::new();
    let old = complete(vec![recovery("paid", "personal", 0, 30 * DAY, "renewal-1")]);
    db.publish(None, "old", "evidence-old", &old).unwrap();
    let stored = db.tables.revisions[0].clone();
    let renewed = complete(vec![
        paid("paid", "personal", 0, 30 * DAY),
        paid("renewed", "personal", 30 * DAY, 60 * DAY),
    ]);
    let mut pending = db.begin();
    publish(&mut pending, PERSON, Some(1), "renewed", "evidence-renewed", &renewed).unwrap();
    assert_eq!(load(&db.tables, PERSON).unwrap().revision, 1);
    db.commit(pending);
    let loaded = load(&db.tables, PERSON).unwrap();
    let decision = evaluate(&loaded.coverage, 31 * DAY).unwrap();
    assert_eq!(decision.state, CoverageState::Paid);
    assert_eq!(decision.active_until, Some(60 * DAY));
    assert_eq!(
        evaluate(&loaded.coverage, 60 * DAY).unwrap().export_until,
        Some(90 * DAY)
    );
    let replay = db.publish(None, "old", "evidence-old", &old).unwrap();
    assert_eq!(replay.outcome, PublicationOutcome::AlreadyApplied);
    assert_eq!(load(&db.tables, PERSON).unwrap().revision, 2);
    assert_eq!(db.tables.revisions[0], stored);
}

#[test]
fn future_max_timestamp_can_be_stored_without_eager_export_overflow() {
    let mut db = Database::new();
    db.publish(
        None,
        "future-max",
        "evidence-max",
        &complete(vec![paid("future", "personal", i64::MAX - 1, i64::MAX)]),
    )
    .unwrap();
    let loaded = load(&db.tables, PERSON).unwrap();
    assert_eq!(evaluate(&loaded.coverage, 5).unwrap().state, CoverageState::Free);
}

#[test]
fn stored_fact_count_mismatch_fails_closed() {
    let mut db = Database::new();
    let projection = complete(vec![paid("paid", "personal", 0, 30 * DAY)]);
    db.publish(None, "corrupt-count", "evidence-corrupt", &projection).unwrap();
    db.tables.revisions[0].fact_count = 0;
    let error = load(&db.tables, PERSON).unwrap_err();
    assert!(matches!(error, StoreError::CorruptProjection(_)));
    assert_eq!(
        error.message(),
        "stored projection is corrupt: revision 1 declares 0 facts but stores 1"
    );
    let error = db.publish(None, "corrupt-count", "evidence-corrupt", &projection).unwrap_err();
    assert_eq!(
        error.message(),
        "stored projection is corrupt: operation revision 1 declares 0 facts but stores 1"
    );
}

#[test]
fn unavailable_projection_with_stored_facts_fails_closed() {
    let mut db = Database::new();
    db.publish(
        None,
        "corrupt-unavailable",
        "evidence-corrupt-unavailable",
        &unavailable(UnavailableReason::NeedsReconciliation),
    )
    .unwrap();
    db.tables.revisions[0].facts.push(paid("unexpected", "source", 0, 10));
    assert!(matches!(load(&db.tables, PERSON), Err(StoreError::CorruptProjection(_))));
}

fn corrupted(change: fn(&mut CoverageTables)) -> String {
    let mut db = Database::new();
    db.publish(
        None,
        "op",
        "evidence",
        &complete(vec![paid("a", "s", 0, 1), paid("b", "s", 0, 1)]),
    )
    .unwrap();
    change(&mut db.tables);
    load(&db.tables, PERSON).unwrap_err().message()
}

#[test]
fn every_corruption_of_a_revision_is_reported() {
    assert_eq!(
        corrupted(|t| t.heads[0].current_revision = None),
        "stored projection is corrupt: head has no current revision"
    );
    assert_eq!(
        corrupted(|t| t.heads[0].current_revision = Some(-7)),
        "stored projection is corrupt: head points to missing revision -7"
    );
    assert_eq!(
        corrupted(|t| t.revisions[0].fact_count = -1),
        "stored projection is corrupt: fact count is negative"
    );
    assert_eq!(
        corrupted(|t| t.revisions[0].status = "odd".into()),
        "stored projection is corrupt: invalid projection status or unavailable reason"
    );
    assert_eq!(
        corrupted(|t| t.revisions[0].unavailable_reason = Some("needs_reconciliation".into())),
        "stored projection is corrupt: invalid projection status or unavailable reason"
    );
    assert_eq!(
        corrupted(|t| t.revisions[0].expected_revision = Some(0)),
        "stored projection is corrupt: expected revision is not positive"
    );
    assert_eq!(
        corrupted(|t| t.revisions[0].evidence_reference = " ".into()),
        "stored projection is corrupt: evidence reference is empty"
    );
    assert_eq!(
        corrupted(|t| t.revisions[0].facts.reverse()),
        "stored projection is corrupt: stored facts are not in canonical order"
    );
    assert_eq!(
        corrupted(|t| t.revisions[0].facts[0].paid_until = 0),
        "stored projection is corrupt: coverage interval must have starts_at before paid_until"
    );
}

#[test]
fn every_refusal_of_a_publication_is_reported() {
    let db = Database::new();
    let refusal = |person: &str, expected, operation: &str, evidence: &str| {
        let mut tx = db.begin();
        let error =
            publish(&mut tx, person, expected, operation, evidence, &complete(vec![])).unwrap_err();
        assert_eq!(tx, db.begin());
        error.message()
    };
    assert_eq!(refusal(" ", None, "op", "e"), "beneficiary_id must not be empty");
    assert_eq!(refusal("p", None, "\n", "e"), "operation_id must not be empty");
    assert_eq!(refusal("p", None, "op", ""), "evidence_reference must not be empty");
    assert_eq!(refusal("p", Some(0), "op", "e"), "expected revision must be positive");
    assert_eq!(
        refusal("p", Some(3), "op", "e"),
        "projection revision conflict: expected Some(3), current None"
    );
    let mut full = Database::new();
    full.tables.heads.push(HeadRow {
        beneficiary_id: PERSON.into(),
        current_revision: Some(i64::MAX),
    });
    assert!(matches!(
        full.publish(Some(i64::MAX), "op", "e", &complete(vec![])),
        Err(StoreError::RevisionOverflow)
    ));
    let mut broken = Database::new();
    broken.tables.heads.push(HeadRow { beneficiary_id: PERSON.into(), current_revision: None });
    assert!(matches!(
        broken.publish(None, "op", "e", &complete(vec![])),
        Err(StoreError::CorruptProjection(_))
    ));
    assert!(matches!(load(&db.tables, ""), Err(StoreError::EmptyBeneficiary)));
    assert_eq!(
        StoreError::InvalidCoverage(InvalidCoverage::InvalidInterval).message(),
        "invalid coverage: coverage interval must have starts_at before paid_until"
    );
    assert_eq!(
        StoreError::ProjectionUnavailable(UnavailableReason::ConflictingEvidence).message(),
        "projection is unavailable: conflicting_evidence"
    );
    assert_eq!(StoreError::ProjectionMissing.message(), "projection is missing");
}

#[test]
fn publications_stage_their_writes_in_order() {
    let db = Database::new();
    let plan = plan_publication(
        &db.tables,
        PERSON,
        None,
        "op",
        "e",
        &complete(vec![paid("a", "s", 0, 1)]),
    )
    .unwrap();
    assert_eq!(plan.receipt.revision, 1);
    assert_eq!(plan.writes.len(), 3);
    assert_eq!(plan.writes[0], TableWrite::InsertHead { beneficiary_id: PERSON.into() });
    match &plan.writes[1] {
        TableWrite::InsertRevision(row) => {
            assert_eq!((row.revision, row.fact_count), (1, 1));
            assert_eq!(row.status, "complete");
            assert_eq!(row.unavailable_reason, None);
            assert_eq!(row.expected_revision, None);
        }
        other => panic!("{other:?}"),
    }
    assert_eq!(
        plan.writes[2],
        TableWrite::SetHead { beneficiary_id: PERSON.into(), revision: 1 }
    );
}

#[test]
fn beneficiaries_are_independent() {
    let mut db = Database::new();
    db.publish(None, "op", "e", &complete(vec![paid("a", "s", 0, 1)])).unwrap();
    let mut tx = db.begin();
    let other = publish(&mut tx, "other", None, "op", "e", &complete(vec![])).unwrap();
    assert_eq!(other.outcome, PublicationOutcome::Applied);
    db.commit(tx);
    assert_eq!(load(&db.tables, PERSON).unwrap().coverage.paid_intervals.len(), 1);
    assert_eq!(load(&db.tables, "other").unwrap().coverage.paid_intervals.len(), 0);
}

#[test]
fn reasons_round_trip_through_their_names() {
    for reason in [UnavailableReason::NeedsReconciliation, UnavailableReason::ConflictingEvidence] {
        assert_eq!(UnavailableReason::parse(reason.as_str()), Some(reason));
    }
    assert_eq!(UnavailableReason::NeedsReconciliation.as_str(), "needs_reconciliation");
    assert_eq!(UnavailableReason::parse("Needs_reconciliation"), None);
}

#[test]
fn stored_forms_are_read_back() {
    let canonical = canonical_projection(
        PERSON,
        &complete(vec![paid("b", "s", 0, 1), paid("a", "s", 0, 1), paid("b", "s", 0, 1)]),
    )
    .unwrap();
    assert_eq!(canonical.unavailable_reason, None);
    assert_eq!(canonical.paid_intervals.len(), 2);
    assert_eq!(canonical.paid_intervals[0].coverage_id, "a");
    let metadata = projection_metadata("unavailable", Some("conflicting_evidence"), 0).unwrap();
    assert_eq!(metadata.unavailable_reason, Some(UnavailableReason::ConflictingEvidence));
    assert!(projection_metadata("unavailable", Some("conflicting_evidence"), 1).is_err());
    assert!(projection_metadata("unavailable", None, 0).is_err());
    assert!(projection_metadata("complete", Some("odd"), 3).is_ok());
    assert_eq!(validate_identifier("x", 7), Ok(()));
    assert_eq!(validate_identifier(" ", 7), Err(7));

    let mut db = Database::new();
    db.publish(None, "op", "e", &unavailable(UnavailableReason::ConflictingEvidence)).unwrap();
    let stored = load_operation(&db.tables.revisions[0]).unwrap();
    assert_eq!(stored.revision, 1);
    assert_eq!(stored.evidence_reference, "e");
    assert_eq!(
        stored.projection.unavailable_reason,
        Some(UnavailableReason::ConflictingEvidence)
    );
}
