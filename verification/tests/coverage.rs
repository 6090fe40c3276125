use sotto::cloud_coverage::{
    evaluate, normalise_confirmed_intervals, ConfirmedPaidInterval, CoverageDecision,
    CoverageState, InvalidCoverage, PersonCoverage, EXPORT_WINDOW_SECONDS,
    RENEWAL_RECOVERY_SECONDS,
};

const DAY: i64 = 24 * 60 * 60;

fn paid(id: &str, source: &str, starts_at: i64, paid_until: i64) -> ConfirmedPaidInterval {
    ConfirmedPaidInterval {
        coverage_id: id.into(),
        source_id: source.into(),
        starts_at,
        paid_until,
        failed_renewal_id: None,
    }
}

fn failed(
    id: &str,
    source: &str,
    starts_at: i64,
    paid_until: i64,
    renewal: &str,
) -> ConfirmedPaidInterval {
    ConfirmedPaidInterval {
        failed_renewal_id: Some(renewal.into()),
        ..paid(id, source, starts_at, paid_until)
    }
}

fn person(paid_intervals: Vec<ConfirmedPaidInterval>) -> PersonCoverage {
    PersonCoverage { beneficiary_id: "person".into(), paid_intervals }
}

fn decision(
    state: CoverageState,
    active_until: Option<i64>,
    recovery_until: Option<i64>,
    export_until: Option<i64>,
) -> CoverageDecision {
    CoverageDecision { state, active_until, recovery_until, export_until }
}

#[test]
fn periods_are_fourteen_and_thirty_days() {
    assert_eq!(RENEWAL_RECOVERY_SECONDS, 14 * DAY);
    assert_eq!(EXPORT_WINDOW_SECONDS, 30 * DAY);
}

#[test]
fn a_person_without_coverage_is_free() {
    assert_eq!(
        evaluate(&person(vec![]), 0),
        Ok(decision(CoverageState::Free, None, None, None))
    );
    let future = person(vec![paid("a", "s", 10 * DAY, 20 * DAY)]);
    assert_eq!(
        evaluate(&future, 10 * DAY - 1),
        Ok(decision(CoverageState::Free, None, None, None))
    );
}

#[test]
fn paid_intervals_are_half_open() {
    let coverage = person(vec![paid("a", "s", 0, 30 * DAY)]);
    let active = Ok(decision(CoverageState::Paid, Some(30 * DAY), None, None));
    assert_eq!(evaluate(&coverage, 0), active);
    assert_eq!(evaluate(&coverage, 30 * DAY - 1), active);
    assert_eq!(
        evaluate(&coverage, 30 * DAY),
        Ok(decision(CoverageState::ExportOnly, None, None, Some(60 * DAY)))
    );
    assert_eq!(
        evaluate(&coverage, 60 * DAY - 1),
        Ok(decision(CoverageState::ExportOnly, None, None, Some(60 * DAY)))
    );
    assert_eq!(
        evaluate(&coverage, 60 * DAY),
        Ok(decision(CoverageState::Expired, None, None, Some(60 * DAY)))
    );
}

#[test]
fn a_failed_renewal_adds_a_recovery_period() {
    let coverage = person(vec![failed("a", "s", 0, 30 * DAY, "r")]);
    assert_eq!(
        evaluate(&coverage, 29 * DAY),
        Ok(decision(CoverageState::Paid, Some(44 * DAY), None, None))
    );
    assert_eq!(
        evaluate(&coverage, 30 * DAY),
        Ok(decision(CoverageState::RenewalRecovery, Some(44 * DAY), Some(44 * DAY), None))
    );
    assert_eq!(
        evaluate(&coverage, 44 * DAY),
        Ok(decision(CoverageState::ExportOnly, None, None, Some(74 * DAY)))
    );
}

#[test]
fn overlapping_and_adjacent_intervals_form_one_episode() {
    let coverage = person(vec![
        paid("a", "personal", 0, 30 * DAY),
        paid("b", "sponsor", 20 * DAY, 50 * DAY),
        paid("c", "sponsor", 50 * DAY, 60 * DAY),
        paid("d", "sponsor", 61 * DAY, 70 * DAY),
    ]);
    assert_eq!(
        evaluate(&coverage, 5 * DAY),
        Ok(decision(CoverageState::Paid, Some(60 * DAY), None, None))
    );
    assert_eq!(
        evaluate(&coverage, 60 * DAY),
        Ok(decision(CoverageState::ExportOnly, None, None, Some(90 * DAY)))
    );
    assert_eq!(
        evaluate(&coverage, 65 * DAY),
        Ok(decision(CoverageState::Paid, Some(70 * DAY), None, None))
    );
}

#[test]
fn another_payer_overrides_recovery_and_the_longest_recovery_counts() {
    let coverage = person(vec![
        failed("a", "personal", 0, 30 * DAY, "r1"),
        failed("b", "sponsor", 0, 32 * DAY, "r2"),
        paid("c", "other", 33 * DAY, 34 * DAY),
    ]);
    assert_eq!(
        evaluate(&coverage, 31 * DAY),
        Ok(decision(CoverageState::Paid, Some(46 * DAY), None, None))
    );
    assert_eq!(
        evaluate(&coverage, 32 * DAY),
        Ok(decision(CoverageState::RenewalRecovery, Some(46 * DAY), Some(46 * DAY), None))
    );
    assert_eq!(
        evaluate(&coverage, 33 * DAY),
        Ok(decision(CoverageState::Paid, Some(46 * DAY), None, None))
    );
}

#[test]
fn order_and_repetition_do_not_matter() {
    let a = failed("a", "personal", 0, 30 * DAY, "r1");
    let b = paid("b", "sponsor", 40 * DAY, 70 * DAY);
    let one = person(vec![a.clone(), b.clone()]);
    let other = person(vec![b.clone(), a.clone(), b.clone(), a.clone()]);
    for now in [-1, 0, 35 * DAY, 44 * DAY, 50 * DAY, 70 * DAY, 200 * DAY] {
        assert_eq!(evaluate(&one, now), evaluate(&other, now));
    }
    let list = normalise_confirmed_intervals(&other).unwrap();
    assert_eq!(list, vec![a, b]);
    let again = PersonCoverage { beneficiary_id: "person".into(), paid_intervals: list.clone() };
    assert_eq!(normalise_confirmed_intervals(&again).unwrap(), list);
}

#[test]
fn facts_are_ordered_by_bytes() {
    let list = normalise_confirmed_intervals(&person(vec![
        paid("a", "s", 0, 1),
        paid("é", "s", 0, 1),
        paid("B", "s", 0, 1),
        paid("aa", "s", 0, 1),
        paid("z", "s", 0, 1),
    ]))
    .unwrap();
    let ids: Vec<&str> = list.iter().map(|i| i.coverage_id.as_str()).collect();
    assert_eq!(ids, ["B", "a", "aa", "z", "é"]);
}

#[test]
fn each_fault_is_reported() {
    let blank = PersonCoverage { beneficiary_id: " \u{2003}".into(), paid_intervals: vec![] };
    assert_eq!(evaluate(&blank, 0), Err(InvalidCoverage::EmptyBeneficiary));
    let fault = |facts: Vec<ConfirmedPaidInterval>| evaluate(&person(facts), 0).unwrap_err();
    assert_eq!(fault(vec![paid("", "s", 0, 1)]), InvalidCoverage::EmptyCoverageId);
    assert_eq!(fault(vec![paid("a", "\t", 0, 1)]), InvalidCoverage::EmptySourceId);
    assert_eq!(fault(vec![paid("a", "s", 1, 1)]), InvalidCoverage::InvalidInterval);
    assert_eq!(fault(vec![failed("a", "s", 0, 1, " ")]), InvalidCoverage::EmptyRenewalId);
    assert_eq!(
        fault(vec![failed("a", "s", 0, i64::MAX, "r")]),
        InvalidCoverage::RecoveryDeadlineOverflow
    );
    assert_eq!(
        fault(vec![paid("a", "s", 0, 1), paid("a", "s", 0, 2)]),
        InvalidCoverage::ConflictingCoverage
    );
    assert_eq!(
        fault(vec![failed("a", "s", 0, 1, "r"), failed("b", "s", 0, 1, "r")]),
        InvalidCoverage::ConflictingRenewal
    );
}

#[test]
fn the_export_deadline_can_overflow_only_once_it_counts() {
    let coverage = person(vec![paid("a", "s", i64::MAX - 2, i64::MAX - 1)]);
    assert_eq!(evaluate(&coverage, 0).unwrap().state, CoverageState::Free);
    assert_eq!(evaluate(&coverage, i64::MAX - 2).unwrap().state, CoverageState::Paid);
    assert_eq!(
        evaluate(&coverage, i64::MAX),
        Err(InvalidCoverage::ExportDeadlineOverflow)
    );
}

#[test]
fn faults_are_described() {
    for (fault, sentence) in [
        (InvalidCoverage::EmptyBeneficiary, "beneficiary_id must not be empty"),
        (InvalidCoverage::EmptyCoverageId, "coverage_id must not be empty"),
        (InvalidCoverage::EmptySourceId, "source_id must not be empty"),
        (
            InvalidCoverage::InvalidInterval,
            "coverage interval must have starts_at before paid_until",
        ),
        (InvalidCoverage::EmptyRenewalId, "failed_renewal_id must not be empty"),
        (
            InvalidCoverage::ConflictingCoverage,
            "duplicate coverage_id has conflicting contents",
        ),
        (
            InvalidCoverage::ExportDeadlineOverflow,
            "export deadline overflows the timestamp range",
        ),
    ] {
        assert_eq!(fault.message(), sentence);
    }
}
