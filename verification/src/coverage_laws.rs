//! What holds of coverage as a whole.

use crate::cloud_coverage::{
    Coverage, CoverageDecision, CoverageState, InvalidCoverage, PaidFact, EXPORT_WINDOW_SECONDS,
};
use crate::coverage_facts::{
    canonical, coverage_conflict, fact_id, fault, fault_at, first_fault, is_canonical,
    renewal_conflict, same_facts, same_paid_interval,
};
use crate::coverage_spans::{
    decides, eligible_at, ended, episode_end, last_recovery_end, last_span_end,
    lemma_same_facts_same_times, paid_at, recovering_at, span_end,
};
use crate::ordered::{lemma_arranged_exists, lemma_arranged_is, one_item_per_key};
use vstd::prelude::*;

verus! {

/// No fact of a faultless list is faulty.
pub proof fn lemma_no_fault_anywhere(facts: Seq<PaidFact>, n: int)
    requires
        first_fault(facts, n) is None,
    ensures
        forall|i: int| 0 <= i < n ==> #[trigger] fault_at(facts, i) is None,
    decreases n,
{
    if n > 0 {
        lemma_no_fault_anywhere(facts, n - 1);
    }
}

/// A list none of whose facts is faulty is faultless.
pub proof fn lemma_faultless(facts: Seq<PaidFact>, n: int)
    requires
        forall|i: int| 0 <= i < n ==> #[trigger] fault_at(facts, i) is None,
    ensures
        first_fault(facts, n) is None,
    decreases n,
{
    if n > 0 {
        lemma_faultless(facts, n - 1);
    }
}

/// Two facts of a faultless list neither share an identity with different contents nor a failed
/// renewal with different intervals.
pub proof fn lemma_pairwise(facts: Seq<PaidFact>, a: PaidFact, b: PaidFact)
    requires
        first_fault(facts, facts.len() as int) is None,
        facts.contains(a),
        facts.contains(b),
    ensures
        a.coverage_id == b.coverage_id ==> a == b,
        a.failed_renewal_id is Some && a.failed_renewal_id == b.failed_renewal_id
            ==> same_paid_interval(a, b),
{
    lemma_no_fault_anywhere(facts, facts.len() as int);
    let i = choose|i: int| 0 <= i < facts.len() && facts[i] == a;
    let j = choose|j: int| 0 <= j < facts.len() && facts[j] == b;
    assert(fault_at(facts, i) is None);
    assert(fault_at(facts, j) is None);
    if i < j {
        assert(!renewal_conflict(facts, j));
        assert(!coverage_conflict(facts, j));
    } else if j < i {
        assert(!renewal_conflict(facts, i));
        assert(!coverage_conflict(facts, i));
    }
}

proof fn lemma_faultless_carries_over(a: Seq<PaidFact>, b: Seq<PaidFact>)
    requires
        same_facts(a, b),
        first_fault(a, a.len() as int) is None,
    ensures
        first_fault(b, b.len() as int) is None,
        is_canonical(canonical(a), a),
        canonical(a) == canonical(b),
{
    lemma_no_fault_anywhere(a, a.len() as int);
    assert forall|j: int| 0 <= j < b.len() implies #[trigger] fault_at(b, j) is None by {
        let fact = b[j];
        assert(b.contains(fact));
        assert(a.contains(fact));
        let i = choose|i: int| 0 <= i < a.len() && a[i] == fact;
        assert(fault_at(a, i) is None);
        assert forall|k: int| 0 <= k < j implies {
            &&& (#[trigger] b[k]).coverage_id == fact.coverage_id ==> b[k] == fact
            &&& fact.failed_renewal_id is Some && b[k].failed_renewal_id == fact.failed_renewal_id
                ==> same_paid_interval(b[k], fact)
        } by {
            assert(b.contains(b[k]));
            assert(a.contains(b[k]));
            lemma_pairwise(a, b[k], fact);
        }
        assert(!renewal_conflict(b, j));
        assert(!coverage_conflict(b, j));
    }
    lemma_faultless(b, b.len() as int);
    lemma_canonical_of_faultless(a);
    lemma_arranged_is(canonical(a), b, fact_id());
}

/// A faultless list has a canonical order.
pub proof fn lemma_canonical_of_faultless(facts: Seq<PaidFact>)
    requires
        first_fault(facts, facts.len() as int) is None,
    ensures
        is_canonical(canonical(facts), facts),
{
    assert(one_item_per_key(facts, fact_id())) by {
        assert forall|a: PaidFact, b: PaidFact|
            #![trigger facts.contains(a), facts.contains(b)]
            facts.contains(a) && facts.contains(b) && (fact_id())(a) == (fact_id())(
                b,
            ) implies a == b by {
            lemma_pairwise(facts, a, b);
        }
    }
    lemma_arranged_exists(facts, fact_id());
}

/// Whether facts are accepted, and what they are stored as, depends neither on their order nor on
/// repetitions.
pub proof fn law_normalising_ignores_order_and_repetition(
    beneficiary_id: Seq<char>,
    a: Seq<PaidFact>,
    b: Seq<PaidFact>,
)
    requires
        same_facts(a, b),
    ensures
        fault(Coverage { beneficiary_id, facts: a }) is None <==> fault(
            Coverage { beneficiary_id, facts: b },
        ) is None,
        fault(Coverage { beneficiary_id, facts: a }) is None ==> canonical(a) == canonical(b),
{
    if first_fault(a, a.len() as int) is None {
        lemma_faultless_carries_over(a, b);
    }
    if first_fault(b, b.len() as int) is None {
        lemma_faultless_carries_over(b, a);
    }
}

/// Normalising twice is normalising once.
pub proof fn law_normalising_is_idempotent(beneficiary_id: Seq<char>, facts: Seq<PaidFact>)
    requires
        fault(Coverage { beneficiary_id, facts }) is None,
    ensures
        fault(Coverage { beneficiary_id, facts: canonical(facts) }) is None,
        canonical(canonical(facts)) == canonical(facts),
{
    lemma_canonical_of_faultless(facts);
    law_normalising_ignores_order_and_repetition(beneficiary_id, facts, canonical(facts));
}

/// Facts in another order, or with repetitions, decide the same at every instant.
pub proof fn law_evaluation_ignores_order_and_repetition(
    a: Seq<PaidFact>,
    b: Seq<PaidFact>,
    now: int,
    outcome: Result<CoverageDecision, InvalidCoverage>,
)
    requires
        same_facts(a, b),
    ensures
        decides(a, now, outcome) <==> decides(b, now, outcome),
{
    if decides(a, now, outcome) {
        lemma_decision_carries_over(a, b, now, outcome);
    }
    if decides(b, now, outcome) {
        lemma_decision_carries_over(b, a, now, outcome);
    }
}

proof fn lemma_decision_carries_over(
    a: Seq<PaidFact>,
    b: Seq<PaidFact>,
    now: int,
    outcome: Result<CoverageDecision, InvalidCoverage>,
)
    requires
        same_facts(a, b),
        decides(a, now, outcome),
    ensures
        decides(b, now, outcome),
{
    lemma_same_facts_same_times(a, b);
    lemma_same_facts_same_times(b, a);
    assert forall|end: int| #[trigger] last_span_end(a, now, end) == last_span_end(
        b,
        now,
        end,
    ) by {}
    assert forall|end: int| #[trigger] last_recovery_end(a, now, end) == last_recovery_end(
        b,
        now,
        end,
    ) by {}
    assert forall|end: int| #[trigger] episode_end(a, now, end) == episode_end(b, now, end) by {}
    assert(eligible_at(a, now) == eligible_at(b, now));
    assert(paid_at(a, now) == paid_at(b, now));
    if !eligible_at(a, now) {
        if exists|end: int| last_span_end(a, now, end) {
            let end = choose|end: int| last_span_end(a, now, end);
            assert(last_span_end(b, now, end));
        }
        if exists|end: int| last_span_end(b, now, end) {
            let end = choose|end: int| last_span_end(b, now, end);
            assert(last_span_end(a, now, end));
        }
    }
}

/// Facts decide one thing at an instant.
pub proof fn law_evaluation_is_a_function(
    facts: Seq<PaidFact>,
    now: int,
    x: Result<CoverageDecision, InvalidCoverage>,
    y: Result<CoverageDecision, InvalidCoverage>,
)
    requires
        decides(facts, now, x),
        decides(facts, now, y),
    ensures
        x == y,
{
    if eligible_at(facts, now) {
        let p = x->Ok_0.active_until->0;
        let q = y->Ok_0.active_until->0;
        assert(episode_end(facts, now, p as int));
        assert(episode_end(facts, now, q as int));
        if p < q {
            assert(eligible_at(facts, p as int));
        } else if q < p {
            assert(eligible_at(facts, q as int));
        }
    } else if exists|end: int| last_span_end(facts, now, end) {
        let p = choose|end: int| #[trigger]
            last_span_end(facts, now, end) && x == if end
                + EXPORT_WINDOW_SECONDS > i64::MAX {
                Err::<CoverageDecision, InvalidCoverage>(InvalidCoverage::ExportDeadlineOverflow)
            } else {
                Ok(
                    ended(
                        now,
                        (end + EXPORT_WINDOW_SECONDS) as i64,
                    ),
                )
            };
        assert forall|end: int| last_span_end(facts, now, end) implies end == p by {
            assert(span_end(facts, end));
            assert(span_end(facts, p));
        }
    }
}

/// The state at an instant, in terms of what the instant lies in: paid time comes before recovery,
/// recovery before the export window, and a person without any coverage up to now is free.
pub proof fn law_states(
    facts: Seq<PaidFact>,
    now: int,
    outcome: Result<CoverageDecision, InvalidCoverage>,
)
    requires
        decides(facts, now, outcome),
    ensures
        outcome matches Ok(decision) ==> {
            &&& decision.state == CoverageState::Paid <==> paid_at(facts, now)
            &&& decision.state == CoverageState::RenewalRecovery <==> !paid_at(facts, now)
                && recovering_at(facts, now)
            &&& decision.state == CoverageState::Free <==> !eligible_at(facts, now) && !exists|
                end: int,
            |
                last_span_end(facts, now, end)
            &&& decision.state == CoverageState::ExportOnly ==> (decision.export_until matches Some(
                until,
            ) && now < until)
            &&& decision.state == CoverageState::Expired ==> (decision.export_until matches Some(
                until,
            ) && until <= now)
            &&& decision.active_until is Some <==> eligible_at(facts, now)
        },
        outcome is Err ==> !eligible_at(facts, now),
{
}

} // verus!
