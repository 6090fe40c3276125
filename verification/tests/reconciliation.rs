use sotto::cloud_coverage::{ConfirmedPaidInterval, InvalidCoverage};
use sotto::cloud_coverage_reconciliation::{
    begin_collection, canonical_collection, collection_publication_id, finish_collection,
    map_source_insert_error, register_source, registration_publication_id, CollectionStatus,
    CollectionTicket, CorruptAttemptReason, ReconciliationError, ReconciliationReceipt,
    RegistrationOutcome, RegistrationReceipt, SourceBinding, SourceObservation,
};
use sotto::cloud_coverage_store::{
    load, publish, CoverageProjection, PublicationOutcome, StoreError, UnavailableReason,
};
use sotto::coverage_tables::{CoverageTables, CoverageTransaction};

struct Database {
    tables: CoverageTables,
}

impl Database {
    fn new() -> Self {
        Database { tables: CoverageTables::new() }
    }

    fn begin(&self) -> CoverageTransaction {
        CoverageTransaction::new(self.tables.clone())
    }

    fn commit(&mut self, transaction: CoverageTransaction) {
        for write in &transaction.writes {
            self.tables.apply(write);
        }
        assert_eq!(self.tables, transaction.tables);
    }

    fn register(
        &mut self,
        operation_id: &str,
        binding: &SourceBinding,
    ) -> Result<RegistrationReceipt, ReconciliationError> {
        let mut tx = self.begin();
        match register_source(&mut tx, operation_id, binding) {
            Ok(receipt) => {
                self.commit(tx);
                Ok(receipt)
            }
            Err(error) => {
                assert_eq!(tx, self.begin());
                Err(error)
            }
        }
    }

    fn collect(
        &mut self,
        beneficiary_id: &str,
        attempt_id: &str,
    ) -> Result<CollectionTicket, ReconciliationError> {
        let mut tx = self.begin();
        match begin_collection(&mut tx, beneficiary_id, attempt_id) {
            Ok(ticket) => {
                self.commit(tx);
                Ok(ticket)
            }
            Err(error) => {
                assert_eq!(tx, self.begin());
                Err(error)
            }
        }
    }

    fn finish(
        &mut self,
        ticket: &CollectionTicket,
        evidence: &str,
        observations: &[SourceObservation],
    ) -> Result<ReconciliationReceipt, ReconciliationError> {
        let mut tx = self.begin();
        match finish_collection(&mut tx, ticket, evidence, observations) {
            Ok(receipt) => {
                self.commit(tx);
                Ok(receipt)
            }
            Err(error) => {
                assert_eq!(tx, self.begin());
                Err(error)
            }
        }
    }

    fn publish(
        &mut self,
        beneficiary_id: &str,
        expected_revision: Option<i64>,
        operation_id: &str,
        projection: &CoverageProjection,
    ) {
        let mut tx = self.begin();
        publish(&mut tx, beneficiary_id, expected_revision, operation_id, "evidence", projection)
            .unwrap();
        self.commit(tx);
    }

    fn head(&self, beneficiary_id: &str) -> i64 {
        self.tables
            .heads
            .iter()
            .find(|head| head.beneficiary_id == beneficiary_id)
            .and_then(|head| head.current_revision)
            .unwrap()
    }

    fn generation(&self, beneficiary_id: &str) -> i64 {
        self.tables
            .coordinators
            .iter()
            .find(|row| row.beneficiary_id == beneficiary_id)
            .unwrap()
            .source_set_generation
    }

    fn status(&self, ticket: &CollectionTicket) -> &str {
        &self
            .tables
            .attempts
            .iter()
            .find(|row| {
                row.beneficiary_id == ticket.beneficiary_id && row.attempt_id == ticket.attempt_id
            })
            .unwrap()
            .status
    }
}

const PERSON: &str = "person";

fn binding(beneficiary_id: &str, source: &str, external: &str) -> SourceBinding {
    SourceBinding {
        beneficiary_id: beneficiary_id.into(),
        source_id: format!("{beneficiary_id}:{source}"),
        provider_namespace: format!("stripe:test:{beneficiary_id}"),
        external_allocation_reference: external.into(),
        ownership_evidence_reference: format!("evidence:{external}"),
    }
}

fn fact(id: &str, source_id: &str, starts_at: i64, paid_until: i64) -> ConfirmedPaidInterval {
    ConfirmedPaidInterval {
        coverage_id: id.into(),
        source_id: source_id.into(),
        starts_at,
        paid_until,
        failed_renewal_id: None,
    }
}

fn renewal(fact: ConfirmedPaidInterval, id: &str) -> ConfirmedPaidInterval {
    ConfirmedPaidInterval { failed_renewal_id: Some(id.into()), ..fact }
}

fn observed(
    source: &SourceBinding,
    evidence: &str,
    paid_intervals: Vec<ConfirmedPaidInterval>,
) -> SourceObservation {
    SourceObservation::Complete {
        source_id: source.source_id.clone(),
        evidence_reference: evidence.into(),
        paid_intervals,
    }
}

fn missing(source: &SourceBinding, evidence: &str, reason: UnavailableReason) -> SourceObservation {
    SourceObservation::Unavailable {
        source_id: source.source_id.clone(),
        evidence_reference: evidence.into(),
        reason,
    }
}

fn is_corrupt<T>(result: Result<T, ReconciliationError>, reason: CorruptAttemptReason) -> bool {
    matches!(result, Err(ReconciliationError::CorruptAttempt(found)) if found == reason)
}

#[test]
fn malformed_stored_bindings_fail_closed_without_writes() {
    let mut db = Database::new();
    let source = binding(PERSON, "source", "allocation");
    db.register("registration", &source).unwrap();
    let ticket = db.collect(PERSON, "corrupt-bindings").unwrap();
    let head = db.head(PERSON);
    db.tables.attempts[0].source_bindings = Ok(vec![]);
    assert!(is_corrupt(
        db.collect(PERSON, &ticket.attempt_id),
        CorruptAttemptReason::BindingShape
    ));
    let observation = observed(&source, "source-evidence", vec![]);
    assert!(is_corrupt(
        db.finish(&ticket, "aggregate-evidence", &[observation]),
        CorruptAttemptReason::BindingShape
    ));
    assert_eq!(db.head(PERSON), head);
    assert_eq!(db.status(&ticket), "pending");
    db.tables.attempts[0].source_bindings = Err("expected a list".into());
    assert!(matches!(
        db.collect(PERSON, &ticket.attempt_id),
        Err(ReconciliationError::Serialization(detail)) if detail == "expected a list"
    ));
}

#[test]
fn changed_stored_binding_fails_without_disclosing_as_a_ticket_conflict() {
    let mut db = Database::new();
    let source = binding(PERSON, "source", "allocation");
    db.register("registration", &source).unwrap();
    let ticket = db.collect(PERSON, "changed-binding").unwrap();
    let mut changed = source.clone();
    changed.ownership_evidence_reference = "different-evidence".into();
    db.tables.attempts[0].source_bindings = Ok(vec![changed]);
    assert!(is_corrupt(
        db.collect(PERSON, &ticket.attempt_id),
        CorruptAttemptReason::BindingSourceSet
    ));
}

#[test]
fn stored_attempt_requires_an_exact_source_generation_snapshot() {
    let mut db = Database::new();
    let source = binding(PERSON, "source", "allocation");
    db.register("registration", &source).unwrap();
    let ticket = db.collect(PERSON, "missing-generation").unwrap();
    db.tables.attempts[0].source_set_generation = ticket.source_set_generation + 1;
    assert!(is_corrupt(
        db.collect(PERSON, &ticket.attempt_id),
        CorruptAttemptReason::BindingSourceSet
    ));
    assert_eq!(db.generation(PERSON), ticket.source_set_generation);
    db.tables.attempts[0].source_set_generation = -1;
    assert!(is_corrupt(
        db.collect(PERSON, &ticket.attempt_id),
        CorruptAttemptReason::BindingSourceSet
    ));
}

#[test]
fn corrupt_completed_result_fails_before_classifying_a_changed_replay() {
    let mut db = Database::new();
    let source = binding(PERSON, "source", "allocation");
    db.register("registration", &source).unwrap();
    let ticket = db.collect(PERSON, "corrupt-result").unwrap();
    let observation = observed(&source, "source-evidence", vec![]);
    db.finish(&ticket, "aggregate-evidence", &[observation]).unwrap();
    let head = db.head(PERSON);
    let kept = db.tables.clone();
    db.tables.attempts[0].canonical_result.as_mut().unwrap().sources.clear();
    let other = missing(&source, "different", UnavailableReason::ConflictingEvidence);
    assert!(is_corrupt(
        db.finish(&ticket, "different-evidence", &[other]),
        CorruptAttemptReason::ResultCanonical
    ));
    assert!(is_corrupt(
        db.collect(PERSON, &ticket.attempt_id),
        CorruptAttemptReason::ResultCanonical
    ));
    assert_eq!(db.head(PERSON), head);

    let corruptions: [fn(&mut CoverageTables); 4] = [
        |t| t.attempts[0].canonical_result = None,
        |t| t.attempts[0].projection_revision = None,
        |t| t.attempts[0].aggregate_evidence_reference = None,
        |t| t.attempts[0].aggregate_evidence_reference = Some("other".into()),
    ];
    for corrupt in corruptions {
        let mut db = Database { tables: kept.clone() };
        corrupt(&mut db.tables);
        assert!(is_corrupt(
            db.collect(PERSON, &ticket.attempt_id),
            CorruptAttemptReason::ResultCanonical
        ));
    }
    let mut db = Database { tables: kept };
    db.tables.attempts[0].status = "odd".into();
    assert!(matches!(
        db.collect(PERSON, &ticket.attempt_id),
        Err(ReconciliationError::CollectionConflict)
    ));
}

#[test]
fn beneficiaries_can_independently_use_the_same_attempt_id() {
    let mut db = Database::new();
    let first_source = binding("first", "source", "allocation");
    let second_source = binding("second", "source", "allocation");
    db.register("registration", &first_source).unwrap();
    db.register("registration", &second_source).unwrap();
    let first_ticket = db.collect("first", "attempt").unwrap();
    let second_ticket = db.collect("second", "attempt").unwrap();
    assert_eq!(first_ticket.attempt_id, second_ticket.attempt_id);
    assert_ne!(first_ticket.beneficiary_id, second_ticket.beneficiary_id);
    for (ticket, source) in [(first_ticket, first_source), (second_ticket, second_source)] {
        let observation = observed(&source, "source-evidence", vec![]);
        db.finish(&ticket, "collection-evidence", &[observation]).unwrap();
        assert!(load(&db.tables, &ticket.beneficiary_id).is_ok());
    }
}

#[test]
fn first_registration_is_unavailable_and_exact_replay_is_idempotent() {
    let mut db = Database::new();
    let source = binding(PERSON, "source-1", "allocation-1");
    let first = db.register("registration-1", &source).unwrap();
    assert_eq!(first.source_set_generation, 1);
    assert_eq!(first.projection_revision, Some(1));
    assert_eq!(first.outcome, RegistrationOutcome::Applied);
    assert!(matches!(
        load(&db.tables, PERSON),
        Err(StoreError::ProjectionUnavailable(UnavailableReason::NeedsReconciliation))
    ));
    let before = db.tables.clone();
    let replay = db.register("registration-1", &source).unwrap();
    assert_eq!(replay.outcome, RegistrationOutcome::AlreadyApplied);
    assert_eq!(replay.source_set_generation, 1);
    assert_eq!(replay.projection_revision, Some(1));
    assert_eq!(db.tables, before);
    assert_eq!(RegistrationOutcome::AlreadyApplied.as_str(), "already_applied");
    assert_eq!(RegistrationOutcome::Applied.as_str(), "applied");
}

#[test]
fn adding_a_source_invalidates_the_previous_completeness_claim() {
    let mut db = Database::new();
    let first_source = binding(PERSON, "source-1", "allocation-1");
    let second_source = binding(PERSON, "source-2", "allocation-2");
    for (operation, source) in
        [("registration-1", &first_source), ("registration-2", &second_source)]
    {
        assert_eq!(
            db.register(operation, source).unwrap().outcome,
            RegistrationOutcome::Applied
        );
    }
    let replay = db.register("registration-1", &first_source).unwrap();
    assert_eq!(replay.outcome, RegistrationOutcome::AlreadyApplied);
    assert_eq!(replay.source_set_generation, 1);
    assert_eq!(replay.projection_revision, Some(1));
    assert_eq!(db.generation(PERSON), 2);
    assert!(matches!(
        load(&db.tables, PERSON),
        Err(StoreError::ProjectionUnavailable(UnavailableReason::NeedsReconciliation))
    ));
}

#[test]
fn registration_rollback_leaves_no_source_or_projection() {
    let db = Database::new();
    let source = binding(PERSON, "source-1", "allocation-1");
    let mut tx = db.begin();
    register_source(&mut tx, "registration-1", &source).unwrap();
    assert_eq!(tx.tables.sources.len(), 1);
    drop(tx);
    assert!(matches!(load(&db.tables, PERSON), Err(StoreError::ProjectionMissing)));
    assert_eq!(db.tables.sources.len(), 0);
}

#[test]
fn registration_rejects_reusing_operation_for_changed_binding() {
    let mut db = Database::new();
    let source = binding(PERSON, "source-1", "allocation-1");
    let changed = binding(PERSON, "source-2", "allocation-2");
    db.register("registration-1", &source).unwrap();
    assert!(matches!(
        db.register("registration-1", &changed),
        Err(ReconciliationError::RegistrationConflict)
    ));
    db.tables.sources[0].registration_projection_revision = None;
    assert!(matches!(
        db.register("registration-1", &source),
        Err(ReconciliationError::CorruptRegistration)
    ));
}

#[test]
fn a_source_cannot_bind_to_two_beneficiaries() {
    let mut db = Database::new();
    let source = binding("first", "source", "allocation");
    db.register("registration", &source).unwrap();
    let rebound = SourceBinding { beneficiary_id: "second".into(), ..source.clone() };
    assert!(matches!(
        db.register("registration", &rebound),
        Err(ReconciliationError::SourceBindingConflict)
    ));
    assert!(matches!(load(&db.tables, "second"), Err(StoreError::ProjectionMissing)));
}

#[test]
fn competing_source_claims_preserve_provider_allocation_ownership() {
    let mut db = Database::new();
    let first_source = binding("first", "owner-a", "shared-allocation");
    let mut second_source = binding("second", "owner-b", "shared-allocation");
    second_source.provider_namespace = first_source.provider_namespace.clone();
    let first = db.register("owner-a-registration", &first_source).unwrap();
    assert_eq!(first.outcome, RegistrationOutcome::Applied);
    assert!(matches!(
        db.register("owner-b-registration", &second_source),
        Err(ReconciliationError::SourceBindingConflict)
    ));
    assert_eq!(db.tables.sources.len(), 1);
    let replay = db.register("owner-a-registration", &first_source).unwrap();
    assert_eq!(replay.outcome, RegistrationOutcome::AlreadyApplied);
    assert_eq!(replay.projection_revision, first.projection_revision);
}

#[test]
fn competing_source_claims_preserve_global_source_identity() {
    let mut db = Database::new();
    let first_source = binding("first", "shared-source", "allocation-a");
    let mut second_source = binding("second", "different-source", "allocation-b");
    second_source.source_id = first_source.source_id.clone();
    db.register("identity-a-registration", &first_source).unwrap();
    assert!(matches!(
        db.register("identity-b-registration", &second_source),
        Err(ReconciliationError::SourceBindingConflict)
    ));
    assert_eq!(db.tables.sources.len(), 1);
}

#[test]
fn insert_conflicts_are_told_by_their_constraint() {
    for name in ["cloud_coverage_sources_provider_allocation_key", "cloud_coverage_sources_pkey"] {
        assert!(matches!(
            map_source_insert_error(Some(name)),
            Some(ReconciliationError::SourceBindingConflict)
        ));
    }
    assert!(map_source_insert_error(Some("users_pkey")).is_none());
    assert!(map_source_insert_error(None).is_none());
}

#[test]
fn registration_rejects_adopting_an_unmanaged_projection() {
    let mut db = Database::new();
    db.publish(
        PERSON,
        None,
        "unmanaged-publication",
        &CoverageProjection::Complete { paid_intervals: vec![] },
    );
    let source = binding(PERSON, "source-1", "allocation-1");
    assert!(matches!(
        db.register("registration-1", &source),
        Err(ReconciliationError::BootstrapConflict)
    ));
    assert!(load(&db.tables, PERSON).is_ok());
}

#[test]
fn complete_collection_replaces_unavailable_projection_and_replays() {
    let mut db = Database::new();
    let source = binding(PERSON, "source-1", "allocation-1");
    db.register("registration-1", &source).unwrap();
    let ticket = db.collect(PERSON, "collection-1").unwrap();
    assert_eq!(ticket.status, CollectionStatus::Pending);
    let observations = vec![observed(
        &source,
        "source-evidence-1",
        vec![fact("coverage-1", &source.source_id, 0, 30 * 24 * 60 * 60)],
    )];
    let receipt = db.finish(&ticket, "collection-evidence-1", &observations).unwrap();
    assert_eq!(receipt.revision, 2);
    assert_eq!(receipt.outcome, PublicationOutcome::Applied);
    let loaded = load(&db.tables, PERSON).unwrap();
    assert_eq!(loaded.revision, 2);
    assert_eq!(loaded.coverage.paid_intervals.len(), 1);

    let replay = db.finish(&ticket, "collection-evidence-1", &observations).unwrap();
    assert_eq!(replay.outcome, PublicationOutcome::AlreadyApplied);
    assert_eq!(replay.revision, receipt.revision);

    db.publish(
        PERSON,
        Some(receipt.revision),
        "later-publication",
        &CoverageProjection::Complete { paid_intervals: vec![] },
    );
    let stale = db.finish(&ticket, "collection-evidence-1", &observations).unwrap();
    assert_eq!(stale.revision, receipt.revision);
    assert_eq!(load(&db.tables, PERSON).unwrap().revision, receipt.revision + 1);

    let later_source = binding(PERSON, "source-2", "allocation-2");
    db.register("registration-2", &later_source).unwrap();
    assert_eq!(db.generation(PERSON), 2);
    let historical = db.finish(&ticket, "collection-evidence-1", &observations).unwrap();
    assert_eq!(historical.revision, receipt.revision);
    assert_eq!(db.head(PERSON), receipt.revision + 2);
    assert!(matches!(
        db.finish(&ticket, "collection-evidence-1", &[]),
        Err(ReconciliationError::OperationConflict)
    ));
    let completed = db.collect(PERSON, "collection-1").unwrap();
    assert_eq!(completed.status, CollectionStatus::Completed);
    assert_eq!(completed.completed_revision, Some(2));
}

#[test]
fn a_new_collection_supersedes_an_older_pending_attempt() {
    let mut db = Database::new();
    let source = binding(PERSON, "source-1", "allocation-1");
    db.register("registration-1", &source).unwrap();
    let first = db.collect(PERSON, "collection-1").unwrap();
    let second = db.collect(PERSON, "collection-2").unwrap();
    assert_eq!(second.collection_epoch, first.collection_epoch + 1);
    assert_eq!(first.status, CollectionStatus::Pending);
    let observation = missing(&source, "source-evidence", UnavailableReason::NeedsReconciliation);
    assert!(matches!(
        db.finish(&first, "collection-evidence", &[observation]),
        Err(ReconciliationError::AttemptSuperseded)
    ));
    assert!(matches!(
        db.finish(&first, "collection-evidence", &[]),
        Err(ReconciliationError::SourceBatchMismatch)
    ));
    assert_eq!(db.status(&first), "superseded");
    assert_eq!(db.status(&second), "pending");
    assert_eq!(db.collect(PERSON, "collection-2").unwrap(), second);
}

#[test]
fn a_new_source_supersedes_a_pending_collection() {
    let mut db = Database::new();
    let first_source = binding(PERSON, "first", "allocation-first");
    let second_source = binding(PERSON, "second", "allocation-second");
    db.register("registration-first", &first_source).unwrap();
    let ticket = db.collect(PERSON, "pending").unwrap();
    db.register("registration-second", &second_source).unwrap();
    assert_eq!(db.status(&ticket), "superseded");
    let observation =
        missing(&first_source, "source-evidence", UnavailableReason::NeedsReconciliation);
    assert!(matches!(
        db.finish(&ticket, "aggregate-evidence", &[observation]),
        Err(ReconciliationError::AttemptSuperseded)
    ));
}

#[test]
fn completion_first_allows_registration_and_preserves_historical_replay() {
    let mut db = Database::new();
    let first_source = binding(PERSON, "completion-race-first", "completion-race-allocation-first");
    let second_source =
        binding(PERSON, "completion-race-second", "completion-race-allocation-second");
    db.register("completion-race-first-op", &first_source).unwrap();
    let ticket = db.collect(PERSON, "completion-race-pending").unwrap();
    let observations = vec![observed(
        &first_source,
        "completion-race-evidence",
        vec![fact("completion-race-coverage", &first_source.source_id, 0, 100)],
    )];
    let completion = db.finish(&ticket, "completion-race-aggregate", &observations).unwrap();
    let registration = db.register("completion-race-second-op", &second_source).unwrap();
    assert_eq!(completion.revision, 2);
    assert_eq!(completion.outcome, PublicationOutcome::Applied);
    assert_eq!(registration.source_set_generation, 2);
    assert_eq!(registration.projection_revision, Some(3));
    assert_eq!(db.head(PERSON), 3);
    let replay = db.finish(&ticket, "completion-race-aggregate", &observations).unwrap();
    assert_eq!(replay.revision, completion.revision);
    assert_eq!(replay.outcome, PublicationOutcome::AlreadyApplied);
    assert_eq!(db.head(PERSON), 3);
}

#[test]
fn conflicting_completion_waits_then_rolls_back_without_a_loser_revision() {
    let mut db = Database::new();
    let source = binding(PERSON, "conflicting-source", "conflicting-allocation");
    db.register("conflicting-registration", &source).unwrap();
    let ticket = db.collect(PERSON, "conflicting-completion").unwrap();
    let winning = vec![observed(
        &source,
        "winning-source-evidence",
        vec![fact("winning-coverage", &source.source_id, 0, 100)],
    )];
    let losing = vec![observed(
        &source,
        "losing-source-evidence",
        vec![fact("losing-coverage", &source.source_id, 0, 200)],
    )];
    let winner = db.finish(&ticket, "winning-aggregate-evidence", &winning).unwrap();
    assert_eq!(winner.outcome, PublicationOutcome::Applied);
    assert!(matches!(
        db.finish(&ticket, "losing-aggregate-evidence", &losing),
        Err(ReconciliationError::OperationConflict)
    ));
    assert!(matches!(
        db.finish(&ticket, "losing-aggregate-evidence", &winning),
        Err(ReconciliationError::OperationConflict)
    ));
    assert_eq!(db.head(PERSON), winner.revision);
    assert_eq!(db.tables.revisions.len(), 2);
    assert!(db
        .tables
        .revisions
        .iter()
        .all(|row| row.facts.iter().all(|fact| fact.coverage_id != "losing-coverage")));
}

#[test]
fn collection_combines_all_sources_in_canonical_order() {
    let mut db = Database::new();
    let first_source = binding(PERSON, "source-B", "allocation-B");
    let second_source = binding(PERSON, "source-a", "allocation-a");
    db.register("registration-B", &first_source).unwrap();
    db.register("registration-a", &second_source).unwrap();
    let ticket = db.collect(PERSON, "collection-all").unwrap();
    assert_eq!(ticket.source_bindings, [first_source.clone(), second_source.clone()]);
    let observations = vec![
        observed(
            &second_source,
            "evidence-a",
            vec![fact("a", &second_source.source_id, 30, 60)],
        ),
        observed(&first_source, "evidence-B", vec![fact("B", &first_source.source_id, 0, 30)]),
    ];
    let wrong_provenance = vec![
        observed(&second_source, "evidence-a", vec![fact("a", "unregistered-source", 30, 60)]),
        observations[1].clone(),
    ];
    assert!(matches!(
        db.finish(&ticket, "evidence-wrong-provenance", &wrong_provenance),
        Err(ReconciliationError::SourceObservationConflict(detail))
            if detail == "coverage fact source_id does not match its registered source"
    ));
    let conflicting_renewal = vec![
        observed(
            &second_source,
            "evidence-a-renewal",
            vec![renewal(fact("a-renewal", &second_source.source_id, 30, 60), "renewal-shared")],
        ),
        observed(
            &first_source,
            "evidence-B-renewal",
            vec![renewal(fact("B-renewal", &first_source.source_id, 0, 30), "renewal-shared")],
        ),
    ];
    assert!(matches!(
        db.finish(&ticket, "evidence-conflicting-renewal", &conflicting_renewal),
        Err(ReconciliationError::SourceObservationConflict(detail))
            if detail == "failed_renewal_id appears in multiple sources"
    ));
    let conflicting_fact = vec![
        observed(&second_source, "e", vec![fact("x", &second_source.source_id, 30, 60)]),
        observed(&first_source, "e", vec![fact("x", &first_source.source_id, 0, 30)]),
    ];
    assert!(matches!(
        db.finish(&ticket, "evidence-conflicting-fact", &conflicting_fact),
        Err(ReconciliationError::SourceObservationConflict(detail))
            if detail == "coverage_id appears in multiple sources"
    ));
    let mut reversed = observations.clone();
    reversed.reverse();
    let combine = |observations: &[SourceObservation]| {
        canonical_collection(PERSON, &ticket.source_bindings, observations, "evidence-all").unwrap()
    };
    assert_eq!(combine(&observations), combine(&reversed));
    let (result, _) = combine(&observations);
    assert_eq!(combine(&result.sources).0, result);

    db.finish(&ticket, "evidence-all", &observations).unwrap();
    let loaded = load(&db.tables, PERSON).unwrap();
    assert_eq!(
        loaded
            .coverage
            .paid_intervals
            .iter()
            .map(|interval| interval.coverage_id.as_str())
            .collect::<Vec<_>>(),
        ["B", "a"]
    );
    let replay = db.finish(&ticket, "evidence-all", &reversed).unwrap();
    assert_eq!(replay.outcome, PublicationOutcome::AlreadyApplied);
}

#[test]
fn direct_projection_change_rejects_a_stale_collection() {
    let mut db = Database::new();
    let source = binding(PERSON, "source-1", "allocation-1");
    db.register("registration-1", &source).unwrap();
    let ticket = db.collect(PERSON, "collection-stale").unwrap();
    db.publish(
        PERSON,
        ticket.expected_projection_revision,
        "direct-publication",
        &CoverageProjection::Complete { paid_intervals: vec![] },
    );
    let observation = missing(&source, "source-evidence", UnavailableReason::NeedsReconciliation);
    assert!(matches!(
        db.finish(&ticket, "collection-evidence", &[observation]),
        Err(ReconciliationError::Store(StoreError::RevisionConflict {
            expected: Some(1),
            actual: Some(2),
        }))
    ));
}

#[test]
fn incomplete_collection_does_not_publish_and_conflicting_evidence_wins() {
    let mut db = Database::new();
    let source = binding(PERSON, "source-1", "allocation-1");
    db.register("registration-1", &source).unwrap();
    let ticket = db.collect(PERSON, "collection-errors").unwrap();
    assert!(matches!(
        db.finish(&ticket, "evidence-incomplete", &[]),
        Err(ReconciliationError::SourceBatchMismatch)
    ));
    assert!(matches!(
        load(&db.tables, PERSON),
        Err(StoreError::ProjectionUnavailable(UnavailableReason::NeedsReconciliation))
    ));
    let observation =
        missing(&source, "evidence-conflict", UnavailableReason::ConflictingEvidence);
    db.finish(&ticket, "evidence-conflict", &[observation]).unwrap();
    assert!(matches!(
        load(&db.tables, PERSON),
        Err(StoreError::ProjectionUnavailable(UnavailableReason::ConflictingEvidence))
    ));
}

#[test]
fn mixed_source_results_publish_no_known_subset_and_prefer_conflicting_evidence() {
    let mut db = Database::new();
    let complete_source = binding(PERSON, "complete", "allocation-complete");
    let unavailable_source = binding(PERSON, "unavailable", "allocation-unavailable");
    db.register("registration-complete", &complete_source).unwrap();
    db.register("registration-unavailable", &unavailable_source).unwrap();
    let ticket = db.collect(PERSON, "mixed").unwrap();
    let observations = [
        observed(
            &complete_source,
            "complete-evidence",
            vec![fact("known", &complete_source.source_id, 0, 100)],
        ),
        missing(
            &unavailable_source,
            "unavailable-evidence",
            UnavailableReason::ConflictingEvidence,
        ),
    ];
    db.finish(&ticket, "aggregate-evidence", &observations).unwrap();
    assert!(matches!(
        load(&db.tables, PERSON),
        Err(StoreError::ProjectionUnavailable(UnavailableReason::ConflictingEvidence))
    ));
    let last = db.tables.revisions.last().unwrap();
    assert_eq!(last.fact_count, 0);
    assert!(last.facts.is_empty());
}

#[test]
fn conflicting_evidence_wins_over_a_source_that_waits() {
    let mut db = Database::new();
    let complete_source = binding(PERSON, "complete", "allocation-complete");
    let unavailable_source = binding(PERSON, "unavailable", "allocation-unavailable");
    let waiting_source = binding(PERSON, "waiting", "allocation-waiting");
    db.register("registration-complete", &complete_source).unwrap();
    db.register("registration-unavailable", &unavailable_source).unwrap();
    db.register("registration-waiting", &waiting_source).unwrap();
    let ticket = db.collect(PERSON, "mixed").unwrap();
    let observations = [
        observed(
            &complete_source,
            "complete-evidence",
            vec![fact("known", &complete_source.source_id, 0, 100)],
        ),
        missing(
            &unavailable_source,
            "unavailable-evidence",
            UnavailableReason::ConflictingEvidence,
        ),
        missing(&waiting_source, "waiting-evidence", UnavailableReason::NeedsReconciliation),
    ];
    db.finish(&ticket, "aggregate-evidence", &observations).unwrap();
    assert!(matches!(
        load(&db.tables, PERSON),
        Err(StoreError::ProjectionUnavailable(UnavailableReason::ConflictingEvidence))
    ));
    let last = db.tables.revisions.last().unwrap();
    assert_eq!(last.fact_count, 0);
    assert!(last.facts.is_empty());
}

#[test]
fn collecting_ignores_the_order_of_sources_observations_and_facts() {
    let first = binding(PERSON, "first", "allocation-first");
    let second = binding(PERSON, "second", "allocation-second");
    let early = fact("early", &first.source_id, 0, 100);
    let late = fact("late", &first.source_id, 100, 200);
    let own = fact("own", &second.source_id, 50, 150);
    let one = canonical_collection(
        PERSON,
        &[first.clone(), second.clone()],
        &[
            observed(&first, "first-evidence", vec![early.clone(), late.clone()]),
            observed(&second, "second-evidence", vec![own.clone()]),
        ],
        "aggregate",
    )
    .unwrap();
    let other = canonical_collection(
        PERSON,
        &[second.clone(), first.clone()],
        &[
            observed(&second, "second-evidence", vec![own.clone(), own.clone()]),
            observed(&first, "first-evidence", vec![late.clone(), early.clone(), late.clone()]),
        ],
        "aggregate",
    )
    .unwrap();
    assert!(one.0 == other.0);
    assert!(one.1 == other.1);
    assert!(one.1 == (CoverageProjection::Complete { paid_intervals: vec![early, late, own] }));
}

#[test]
fn a_repeated_beginning_tells_how_far_the_attempt_has_come() {
    let mut db = Database::new();
    let source = binding(PERSON, "source-1", "allocation-1");
    db.register("registration-1", &source).unwrap();
    let ticket = db.collect(PERSON, "attempt-1").unwrap();
    db.finish(&ticket, "evidence", &[observed(&source, "source-evidence", vec![])]).unwrap();
    db.register("registration-2", &binding(PERSON, "source-2", "allocation-2")).unwrap();
    let again = db.collect(PERSON, "attempt-1").unwrap();
    assert_eq!(again.status, CollectionStatus::Completed);
    assert_eq!(again.completed_revision, Some(2));
    assert_eq!(again.collection_epoch, ticket.collection_epoch);
    assert_eq!(again.source_set_generation, ticket.source_set_generation);
    assert_eq!(again.expected_projection_revision, ticket.expected_projection_revision);
    assert!(again.source_bindings == ticket.source_bindings);
}

#[test]
fn publications_are_named_after_their_requests() {
    assert_eq!(registration_publication_id("op-1"), "source-registration:op-1");
    assert_eq!(collection_publication_id("attempt-1"), "collection:attempt-1");
    let mut db = Database::new();
    let source = binding(PERSON, "source-1", "allocation-1");
    db.register("op-1", &source).unwrap();
    let ticket = db.collect(PERSON, "attempt-1").unwrap();
    db.finish(&ticket, "evidence", &[observed(&source, "source-evidence", vec![])]).unwrap();
    let names: Vec<&str> =
        db.tables.revisions.iter().map(|row| row.operation_id.as_str()).collect();
    assert_eq!(names, ["source-registration:op-1", "collection:attempt-1"]);
}

#[test]
fn rolling_back_a_finish_keeps_the_ticket_retryable() {
    let mut db = Database::new();
    let source = binding(PERSON, "source-1", "allocation-1");
    db.register("registration-1", &source).unwrap();
    let ticket = db.collect(PERSON, "collection-rollback").unwrap();
    let observations = vec![observed(&source, "source-evidence", vec![])];
    let mut tx = db.begin();
    finish_collection(&mut tx, &ticket, "evidence-rollback", &observations).unwrap();
    drop(tx);
    assert!(matches!(
        load(&db.tables, PERSON),
        Err(StoreError::ProjectionUnavailable(UnavailableReason::NeedsReconciliation))
    ));
    let receipt = db.finish(&ticket, "evidence-rollback", &observations).unwrap();
    assert_eq!(receipt.revision, 2);
}

#[test]
fn every_refusal_of_a_registration_is_reported() {
    let mut db = Database::new();
    let source = binding(PERSON, "source", "allocation");
    assert!(matches!(db.register(" ", &source), Err(ReconciliationError::EmptyOperationId)));
    let blanked: [(&str, fn(&mut SourceBinding)); 5] = [
        ("beneficiary_id", |b| b.beneficiary_id = " ".into()),
        ("source_id", |b| b.source_id = "".into()),
        ("provider_namespace", |b| b.provider_namespace = "\t".into()),
        ("external_allocation_reference", |b| b.external_allocation_reference = "".into()),
        ("ownership_evidence_reference", |b| b.ownership_evidence_reference = "".into()),
    ];
    for (name, blank) in blanked {
        let mut changed = source.clone();
        blank(&mut changed);
        let error = db.register("op", &changed).unwrap_err();
        assert!(matches!(error, ReconciliationError::InvalidSource(_)));
        assert_eq!(
            error.message(),
            format!("invalid source binding: {name} must not be empty")
        );
    }
    db.register("op", &source).unwrap();
    db.tables.coordinators[0].source_set_generation = i64::MAX;
    assert!(matches!(
        db.register("op-2", &binding(PERSON, "other", "other")),
        Err(ReconciliationError::GenerationOverflow)
    ));
    db.tables.coordinators[0].source_set_generation = 1;
    db.tables.heads[0].current_revision = Some(i64::MAX);
    let error = db.register("op-2", &binding(PERSON, "other", "other")).unwrap_err();
    assert_eq!(error.message(), "coverage store error: projection revision is exhausted");
}

#[test]
fn every_refusal_of_a_collection_is_reported() {
    let mut db = Database::new();
    assert!(matches!(db.collect(" ", "a"), Err(ReconciliationError::InvalidSource(_))));
    assert!(matches!(db.collect(PERSON, ""), Err(ReconciliationError::EmptyAttemptId)));
    assert!(matches!(db.collect(PERSON, "a"), Err(ReconciliationError::NoSources)));
    let source = binding(PERSON, "source", "allocation");
    db.register("op", &source).unwrap();
    db.tables.coordinators[0].collection_epoch = i64::MAX;
    assert!(matches!(db.collect(PERSON, "a"), Err(ReconciliationError::EpochOverflow)));
    db.tables.coordinators[0].collection_epoch = 0;
    let ticket = db.collect(PERSON, "a").unwrap();
    assert_eq!(ticket.collection_epoch, 1);
    assert_eq!(ticket.expected_projection_revision, Some(1));

    let batch = vec![observed(&source, "e", vec![])];
    let elsewhere = CollectionTicket { beneficiary_id: "other".into(), ..ticket.clone() };
    assert!(matches!(
        db.finish(&elsewhere, "e", &batch),
        Err(ReconciliationError::NoSources)
    ));
    let unknown = CollectionTicket { attempt_id: "b".into(), ..ticket.clone() };
    assert!(matches!(
        db.finish(&unknown, "e", &batch),
        Err(ReconciliationError::AttemptMissing)
    ));
    let blank_person = CollectionTicket { beneficiary_id: "".into(), ..ticket.clone() };
    assert!(matches!(
        db.finish(&blank_person, "e", &batch),
        Err(ReconciliationError::InvalidSource(_))
    ));
    let blank_attempt = CollectionTicket { attempt_id: " ".into(), ..ticket.clone() };
    assert!(matches!(
        db.finish(&blank_attempt, "e", &batch),
        Err(ReconciliationError::EmptyAttemptId)
    ));
    assert_eq!(
        db.finish(&ticket, " ", &batch).unwrap_err().message(),
        "invalid source binding: aggregate_evidence_reference must not be empty"
    );
    for changed in [
        CollectionTicket { collection_epoch: 2, ..ticket.clone() },
        CollectionTicket { source_set_generation: 2, ..ticket.clone() },
        CollectionTicket { expected_projection_revision: None, ..ticket.clone() },
        CollectionTicket { source_bindings: vec![], ..ticket.clone() },
    ] {
        assert!(matches!(
            db.finish(&changed, "e", &batch),
            Err(ReconciliationError::CollectionConflict)
        ));
    }
    let invalid = vec![observed(&source, "e", vec![fact("a", &source.source_id, 1, 1)])];
    assert!(matches!(
        db.finish(&ticket, "e", &invalid),
        Err(ReconciliationError::InvalidObservation(InvalidCoverage::InvalidInterval))
    ));
    for mismatch in [
        vec![observed(&source, " ", vec![])],
        vec![observed(&binding(PERSON, "other", "other"), "e", vec![])],
    ] {
        assert!(matches!(
            db.finish(&ticket, "e", &mismatch),
            Err(ReconciliationError::SourceBatchMismatch)
        ));
    }
    db.tables.coordinators[0].current_attempt_id = None;
    assert!(matches!(
        db.finish(&ticket, "e", &batch),
        Err(ReconciliationError::CollectionConflict)
    ));
}

#[test]
fn repeated_sources_in_a_batch_are_refused() {
    let first = binding(PERSON, "a", "a");
    let second = binding(PERSON, "b", "b");
    let batch = [observed(&first, "e", vec![]), observed(&first, "e", vec![])];
    assert!(matches!(
        canonical_collection(PERSON, &[first, second], &batch, "e"),
        Err(ReconciliationError::SourceBatchMismatch)
    ));
}

#[test]
fn statuses_round_trip_through_their_names() {
    for status in
        [CollectionStatus::Pending, CollectionStatus::Superseded, CollectionStatus::Completed]
    {
        assert_eq!(CollectionStatus::parse(status.as_str()), Some(status));
    }
    assert_eq!(CollectionStatus::parse("Pending"), None);
}

#[test]
fn failures_are_described() {
    assert_eq!(
        ReconciliationError::CorruptAttempt(CorruptAttemptReason::BindingShape).message(),
        "stored collection attempt is corrupt: source bindings are malformed"
    );
    assert_eq!(
        ReconciliationError::NoSources.message(),
        "no registered coverage sources exist for this beneficiary"
    );
    assert_eq!(
        ReconciliationError::InvalidObservation(InvalidCoverage::EmptySourceId).message(),
        "invalid source observation: source_id must not be empty"
    );
    assert_eq!(
        ReconciliationError::Serialization("x".into()).message(),
        "serialised reconciliation value is invalid: x"
    );
}
