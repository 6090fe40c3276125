//! The rules that a set of coverage facts keeps, and its canonical order.

use crate::cloud_coverage::{Coverage, InvalidCoverage, PaidFact, RENEWAL_RECOVERY_SECONDS};
use crate::ordered::{arranged, ascending, is_arranged, same_members};
use crate::text::blank;
use vstd::prelude::*;

verus! {

/// Whether a failed renewal that both facts carry is attached to the same paid interval.
pub open spec fn same_paid_interval(a: PaidFact, b: PaidFact) -> bool {
    &&& a.coverage_id == b.coverage_id
    &&& a.source_id == b.source_id
    &&& a.starts_at == b.starts_at
    &&& a.paid_until == b.paid_until
}

/// Whether the failed renewal of fact `i` is attached to another interval by an earlier fact.
pub open spec fn renewal_conflict(facts: Seq<PaidFact>, i: int) -> bool {
    exists|j: int|
        0 <= j < i && facts[i].failed_renewal_id is Some && (#[trigger] facts[j]).failed_renewal_id
            == facts[i].failed_renewal_id && !same_paid_interval(facts[j], facts[i])
}

/// Whether an earlier fact has the identity of fact `i` and other contents.
pub open spec fn coverage_conflict(facts: Seq<PaidFact>, i: int) -> bool {
    exists|j: int|
        0 <= j < i && (#[trigger] facts[j]).coverage_id == facts[i].coverage_id && facts[j]
            != facts[i]
}

/// What is wrong with fact `i`, given the facts before it.
pub open spec fn fault_at(facts: Seq<PaidFact>, i: int) -> Option<InvalidCoverage> {
    let fact = facts[i];
    if blank(fact.coverage_id) {
        Some(InvalidCoverage::EmptyCoverageId)
    } else if blank(fact.source_id) {
        Some(InvalidCoverage::EmptySourceId)
    } else if fact.starts_at >= fact.paid_until {
        Some(InvalidCoverage::InvalidInterval)
    } else if fact.failed_renewal_id matches Some(renewal) && blank(renewal) {
        Some(InvalidCoverage::EmptyRenewalId)
    } else if renewal_conflict(facts, i) {
        Some(InvalidCoverage::ConflictingRenewal)
    } else if fact.failed_renewal_id is Some && fact.paid_until + RENEWAL_RECOVERY_SECONDS
        > i64::MAX {
        Some(InvalidCoverage::RecoveryDeadlineOverflow)
    } else if coverage_conflict(facts, i) {
        Some(InvalidCoverage::ConflictingCoverage)
    } else {
        None
    }
}

/// The fault of the first faulty fact among the first `n`.
pub open spec fn first_fault(facts: Seq<PaidFact>, n: int) -> Option<InvalidCoverage>
    decreases n,
{
    if n <= 0 {
        None
    } else {
        match first_fault(facts, n - 1) {
            Some(fault) => Some(fault),
            None => fault_at(facts, n - 1),
        }
    }
}

/// What is wrong with a person's coverage, if anything.
pub open spec fn fault(coverage: Coverage) -> Option<InvalidCoverage> {
    if blank(coverage.beneficiary_id) {
        Some(InvalidCoverage::EmptyBeneficiary)
    } else {
        first_fault(coverage.facts, coverage.facts.len() as int)
    }
}

/// The identity by which facts are ordered.
pub open spec fn fact_id() -> spec_fn(PaidFact) -> Seq<char> {
    |fact: PaidFact| fact.coverage_id
}

/// Whether facts stand in strictly ascending byte order of their identities.
pub open spec fn in_order(facts: Seq<PaidFact>) -> bool {
    ascending(facts, fact_id())
}

/// Whether two lists hold the same facts, whatever their order and repetitions.
pub open spec fn same_facts(a: Seq<PaidFact>, b: Seq<PaidFact>) -> bool {
    same_members(a, b)
}

/// Whether `list` holds the facts of `facts`, each once, in ascending order of their identities.
pub open spec fn is_canonical(list: Seq<PaidFact>, facts: Seq<PaidFact>) -> bool {
    is_arranged(list, facts, fact_id())
}

/// The facts of `facts`, each once, in ascending order of their identities.
pub open spec fn canonical(facts: Seq<PaidFact>) -> Seq<PaidFact> {
    arranged(facts, fact_id())
}

} // verus!
