//! What coverage is accepted, how it is normalised and what it decides, said of the facts
//! themselves.

use crate::cloud_coverage::{
    episodes_apart, episodes_cover, spans_cover, Coverage, CoverageDecision, CoverageState, Episode,
    InvalidCoverage, PaidFact,
};
use crate::coverage_facts::{
    canonical, coverage_conflict, fault, fault_at, first_fault, renewal_conflict,
};
use crate::coverage_laws::{
    lemma_canonical_of_faultless, lemma_faultless, lemma_no_fault_anywhere, lemma_pairwise,
};
use crate::coverage_spans::{
    decides, eligible_at, eligible_span, episode_end, last_recovery_end, last_span_end, paid_at,
    recovering_at, recovery_ending, span_before, span_end, span_of, spans_in_order, Span,
};
use crate::text::{before, before_irreflexive, blank};
use vstd::prelude::*;

verus! {

/// Whether nothing is wrong with a fact by itself: it has identities, lasts for some time, however
/// long, and a failed renewal of it has an identity and a recovery period of fourteen days that
/// ends within the range of timestamps.
pub open spec fn is_sound(fact: PaidFact) -> bool {
    &&& !blank(fact.coverage_id)
    &&& !blank(fact.source_id)
    &&& fact.starts_at < fact.paid_until
    &&& fact.failed_renewal_id matches Some(renewal) ==> !blank(renewal) && fact.paid_until
        + 1_209_600 <= i64::MAX
}

/// Whether two facts can stand together: one identity has one content, and one failed renewal
/// belongs to one paid interval.
pub open spec fn agree(a: PaidFact, b: PaidFact) -> bool {
    &&& a.coverage_id == b.coverage_id ==> a == b
    &&& a.failed_renewal_id is Some && a.failed_renewal_id == b.failed_renewal_id ==> {
        &&& a.coverage_id == b.coverage_id
        &&& a.source_id == b.source_id
        &&& a.starts_at == b.starts_at
        &&& a.paid_until == b.paid_until
    }
}

/// Coverage is accepted exactly if its beneficiary has an identity, each of its facts is sound, and
/// any two of them agree.
pub proof fn law_coverage_is_accepted_if_its_facts_are_sound_and_agree(coverage: Coverage)
    ensures
        fault(coverage) is None <==> {
            &&& !blank(coverage.beneficiary_id)
            &&& forall|i: int|
                0 <= i < coverage.facts.len() ==> is_sound(#[trigger] coverage.facts[i])
            &&& forall|i: int, j: int|
                0 <= i < coverage.facts.len() && 0 <= j < coverage.facts.len() ==> agree(
                    #[trigger] coverage.facts[i],
                    #[trigger] coverage.facts[j],
                )
        },
{
    let facts = coverage.facts;
    let n = facts.len() as int;
    if fault(coverage) is None {
        lemma_no_fault_anywhere(facts, n);
        assert forall|i: int| 0 <= i < n implies is_sound(#[trigger] facts[i]) by {
            assert(fault_at(facts, i) is None);
        }
        assert forall|i: int, j: int| 0 <= i < n && 0 <= j < n implies agree(
            #[trigger] facts[i],
            #[trigger] facts[j],
        ) by {
            assert(facts.contains(facts[i]));
            assert(facts.contains(facts[j]));
            lemma_pairwise(facts, facts[i], facts[j]);
        }
    } else if !blank(coverage.beneficiary_id) {
        if (forall|i: int| 0 <= i < n ==> is_sound(#[trigger] facts[i])) && (forall|
            i: int,
            j: int,
        |
            0 <= i < n && 0 <= j < n ==> agree(#[trigger] facts[i], #[trigger] facts[j])) {
            assert forall|i: int| 0 <= i < n implies #[trigger] fault_at(facts, i) is None by {
                assert(is_sound(facts[i]));
                assert(!renewal_conflict(facts, i)) by {
                    assert forall|j: int| 0 <= j < i implies agree(
                        #[trigger] facts[j],
                        facts[i],
                    ) by {
                    }
                }
                assert(!coverage_conflict(facts, i)) by {
                    assert forall|j: int| 0 <= j < i implies agree(
                        #[trigger] facts[j],
                        facts[i],
                    ) by {
                    }
                }
            }
            lemma_faultless(facts, n);
        }
    }
}

/// Whether a fault is that of fact `i`, of which nothing is wrong that is looked for earlier.
pub open spec fn is_fault_of(f: InvalidCoverage, facts: Seq<PaidFact>, i: int) -> bool {
    let fact = facts[i];
    let named = !blank(fact.coverage_id) && !blank(fact.source_id);
    let lasting = named && fact.starts_at < fact.paid_until;
    let nameable = lasting && (fact.failed_renewal_id matches Some(renewal) ==> !blank(renewal));
    let shared_renewal = exists|j: int|
        0 <= j < i && fact.failed_renewal_id is Some && (#[trigger] facts[j]).failed_renewal_id
            == fact.failed_renewal_id && !(facts[j].coverage_id == fact.coverage_id
            && facts[j].source_id == fact.source_id && facts[j].starts_at == fact.starts_at
            && facts[j].paid_until == fact.paid_until);
    let late = fact.failed_renewal_id is Some && fact.paid_until + 1_209_600 > i64::MAX;
    match f {
        InvalidCoverage::EmptyCoverageId => blank(fact.coverage_id),
        InvalidCoverage::EmptySourceId => !blank(fact.coverage_id) && blank(fact.source_id),
        InvalidCoverage::InvalidInterval => named && fact.starts_at >= fact.paid_until,
        InvalidCoverage::EmptyRenewalId => lasting && fact.failed_renewal_id is Some && blank(
            fact.failed_renewal_id->0,
        ),
        InvalidCoverage::ConflictingRenewal => nameable && shared_renewal,
        InvalidCoverage::RecoveryDeadlineOverflow => nameable && !shared_renewal && late,
        InvalidCoverage::ConflictingCoverage => nameable && !shared_renewal && !late && exists|
            j: int,
        |
            0 <= j < i && (#[trigger] facts[j]).coverage_id == fact.coverage_id && facts[j] != fact,
        InvalidCoverage::EmptyBeneficiary => false,
        InvalidCoverage::ExportDeadlineOverflow => false,
    }
}

/// Refused coverage is refused for a reason that it has: the beneficiary has no identity, or the
/// fault is that of the first fact without which the facts before it are accepted.
pub proof fn law_every_fault_has_its_cause(coverage: Coverage)
    ensures
        blank(coverage.beneficiary_id) <==> fault(coverage) == Some(
            InvalidCoverage::EmptyBeneficiary,
        ),
        fault(coverage) matches Some(f) ==> !blank(coverage.beneficiary_id) ==> exists|i: int|
            0 <= i < coverage.facts.len() && #[trigger] is_fault_of(f, coverage.facts, i) && fault(
                Coverage { facts: coverage.facts.take(i), ..coverage },
            ) is None,
{
    let facts = coverage.facts;
    if !blank(coverage.beneficiary_id) {
        lemma_no_empty_beneficiary(facts, facts.len() as int);
        if fault(coverage) is Some {
            let i = lemma_first_faulty(facts, facts.len() as int);
            lemma_prefix(facts, i, i);
            assert(is_fault_of(fault(coverage)->0, facts, i));
        }
    }
}

proof fn lemma_no_empty_beneficiary(facts: Seq<PaidFact>, n: int)
    ensures
        first_fault(facts, n) != Some(InvalidCoverage::EmptyBeneficiary),
    decreases n,
{
    if n > 0 {
        lemma_no_empty_beneficiary(facts, n - 1);
    }
}

proof fn lemma_first_faulty(facts: Seq<PaidFact>, n: int) -> (i: int)
    requires
        first_fault(facts, n) is Some,
    ensures
        0 <= i < n,
        first_fault(facts, i) is None,
        fault_at(facts, i) == first_fault(facts, n),
    decreases n,
{
    if first_fault(facts, n - 1) is Some {
        lemma_first_faulty(facts, n - 1)
    } else {
        n - 1
    }
}

proof fn lemma_prefix(facts: Seq<PaidFact>, m: int, n: int)
    requires
        0 <= n <= m <= facts.len(),
    ensures
        first_fault(facts.take(m), n) == first_fault(facts, n),
    decreases n,
{
    if n > 0 {
        lemma_prefix(facts, m, n - 1);
        let front = facts.take(m);
        let i = n - 1;
        assert(front[i] == facts[i]);
        assert(forall|j: int| 0 <= j < i ==> #[trigger] front[j] == facts[j]);
        assert(forall|j: int| 0 <= j < i ==> #[trigger] facts[j] == front[j]);
        assert(renewal_conflict(front, i) == renewal_conflict(facts, i));
        assert(coverage_conflict(front, i) == coverage_conflict(facts, i));
    }
}

/// Accepted facts are normalised to a list of exactly those facts, in strictly ascending byte order
/// of their identities: each stands there once, and none is added, changed or lost.
pub proof fn law_normalising_keeps_every_fact_once(coverage: Coverage)
    requires
        fault(coverage) is None,
    ensures
        forall|fact: PaidFact| #[trigger]
            canonical(coverage.facts).contains(fact) <==> coverage.facts.contains(fact),
        forall|i: int, j: int|
            0 <= i < j < canonical(coverage.facts).len() ==> before(
                (#[trigger] canonical(coverage.facts)[i]).coverage_id,
                (#[trigger] canonical(coverage.facts)[j]).coverage_id,
            ),
{
    lemma_canonical_of_faultless(coverage.facts);
}

/// Whether an instant lies in a paid interval of one of the facts.
pub open spec fn is_paid(facts: Seq<PaidFact>, t: int) -> bool {
    exists|i: int|
        0 <= i < facts.len() && (#[trigger] facts[i]).starts_at <= t && t < facts[i].paid_until
}

/// Whether an instant lies in the fourteen days after a paid interval whose renewal failed, and
/// those days end at `end`.
pub open spec fn recovers_until(facts: Seq<PaidFact>, t: int, end: int) -> bool {
    exists|i: int|
        0 <= i < facts.len() && (#[trigger] facts[i]).failed_renewal_id is Some
            && facts[i].paid_until <= t && t < end && end == facts[i].paid_until + 1_209_600
}

/// Whether an instant is paid for or in recovery.
pub open spec fn is_covered(facts: Seq<PaidFact>, t: int) -> bool {
    is_paid(facts, t) || exists|end: int| recovers_until(facts, t, end)
}

/// Whether paid time or a recovery period ends at `end`.
pub open spec fn ends_at(facts: Seq<PaidFact>, end: int) -> bool {
    exists|i: int|
        0 <= i < facts.len() && ((#[trigger] facts[i]).paid_until == end || (
        facts[i].failed_renewal_id is Some && facts[i].paid_until + 1_209_600 == end))
}

/// Whether coverage goes on without a gap from `now` and stops at `end`.
pub open spec fn covered_until(facts: Seq<PaidFact>, now: int, end: int) -> bool {
    &&& now < end
    &&& !is_covered(facts, end)
    &&& forall|t: int| now <= t < end ==> #[trigger] is_covered(facts, t)
}

/// Whether `end` is the latest instant up to `now` at which paid time or a recovery period ends.
pub open spec fn ended_last_at(facts: Seq<PaidFact>, now: int, end: int) -> bool {
    &&& ends_at(facts, end)
    &&& end <= now
    &&& forall|e: int| #[trigger] ends_at(facts, e) && e <= now ==> e <= end
}

/// What a person is told at an instant.
///
/// Within paid time the state is paid. Within the recovery of a failed renewal alone it is
/// recovery, until the latest of the recoveries that are under way ends. Either lasts as long as
/// coverage goes on without a gap. After that a window of thirty days for export begins where
/// coverage last ended, and once it has passed the person has expired. A person without any
/// coverage up to now is free.
pub proof fn law_decisions_follow_from_the_facts(
    facts: Seq<PaidFact>,
    now: int,
    outcome: Result<CoverageDecision, InvalidCoverage>,
)
    requires
        decides(facts, now, outcome),
    ensures
        is_covered(facts, now) ==> {
            &&& outcome matches Ok(d)
            &&& d.active_until matches Some(end)
            &&& covered_until(facts, now, end as int)
            &&& d.export_until is None
            &&& is_paid(facts, now) ==> d.state == CoverageState::Paid && d.recovery_until is None
            &&& !is_paid(facts, now) ==> {
                &&& d.state == CoverageState::RenewalRecovery
                &&& d.recovery_until matches Some(until)
                &&& recovers_until(facts, now, until as int)
                &&& forall|e: int| #[trigger] recovers_until(facts, now, e) ==> e <= until
            }
        },
        !is_covered(facts, now) && (forall|e: int| #[trigger] ends_at(facts, e) ==> e > now) ==> {
            &&& outcome matches Ok(d)
            &&& d.state == CoverageState::Free
            &&& d.active_until is None
            &&& d.recovery_until is None
            &&& d.export_until is None
        },
        !is_covered(facts, now) && (exists|e: int| #[trigger] ends_at(facts, e) && e <= now)
            ==> exists|end: int| #[trigger]
            ended_last_at(facts, now, end) && (if end + 2_592_000 > i64::MAX {
                outcome == Err::<CoverageDecision, InvalidCoverage>(
                    InvalidCoverage::ExportDeadlineOverflow,
                )
            } else {
                &&& outcome matches Ok(d)
                &&& d.export_until matches Some(until)
                &&& until == end + 2_592_000
                &&& now < until ==> d.state == CoverageState::ExportOnly
                &&& now >= until ==> d.state == CoverageState::Expired
                &&& d.active_until is None
                &&& d.recovery_until is None
            }),
{
    lemma_times(facts);
    assert(is_covered(facts, now) == eligible_at(facts, now));
    if is_covered(facts, now) {
        let d = outcome->Ok_0;
        let end = d.active_until->0 as int;
        assert(episode_end(facts, now, end));
        assert(!is_covered(facts, end)) by {
            assert(!eligible_at(facts, end));
        }
        assert forall|t: int| now <= t < end implies #[trigger] is_covered(facts, t) by {
            assert(eligible_at(facts, t));
        }
        if !is_paid(facts, now) {
            let until = d.recovery_until->0 as int;
            assert(last_recovery_end(facts, now, until));
            assert(recovery_ending(facts, now, until));
        }
    } else if exists|e: int| #[trigger] ends_at(facts, e) && e <= now {
        let last = lemma_some_end_is_last(facts, now);
        assert(last_span_end(facts, now, last)) by {
            assert(span_end(facts, last));
            assert forall|e: int| #[trigger] span_end(facts, e) && e <= now implies e <= last by {
                assert(ends_at(facts, e));
            }
        }
        assert forall|end: int| #[trigger] last_span_end(facts, now, end) implies end == last by {
            assert(span_end(facts, end));
            assert(span_end(facts, last));
        }
        assert(ended_last_at(facts, now, last));
    } else {
        assert forall|end: int| !last_span_end(facts, now, end) by {
            assert(span_end(facts, end) == ends_at(facts, end));
        }
    }
}

/// The eligible spans of facts are the paid time of each, and the fourteen days after it where a
/// renewal failed, under the identity of the fact.
pub proof fn law_eligible_spans_are_those_of_the_facts(facts: Seq<PaidFact>, span: Span)
    requires
        forall|i: int|
            0 <= i < facts.len() && (#[trigger] facts[i]).failed_renewal_id is Some
                ==> facts[i].paid_until + 1_209_600 <= i64::MAX,
    ensures
        eligible_span(facts, span) <==> exists|i: int|
            0 <= i < facts.len() && (#[trigger] facts[i]).coverage_id == span.coverage_id && {
                ||| span.kind is Paid && span.starts_at == facts[i].starts_at && span.ends_at
                    == facts[i].paid_until
                ||| span.kind is Recovery && facts[i].failed_renewal_id is Some && span.starts_at
                    == facts[i].paid_until && span.ends_at == facts[i].paid_until + 1_209_600
            },
{
    if eligible_span(facts, span) {
        let i = choose|i: int| 0 <= i < facts.len() && span_of(#[trigger] facts[i], span);
        assert(facts[i].coverage_id == span.coverage_id);
    }
    if exists|i: int|
        0 <= i < facts.len() && (#[trigger] facts[i]).coverage_id == span.coverage_id && {
            ||| span.kind is Paid && span.starts_at == facts[i].starts_at && span.ends_at
                == facts[i].paid_until
            ||| span.kind is Recovery && facts[i].failed_renewal_id is Some && span.starts_at
                == facts[i].paid_until && span.ends_at == facts[i].paid_until + 1_209_600
        } {
        let i = choose|i: int|
            0 <= i < facts.len() && (#[trigger] facts[i]).coverage_id == span.coverage_id && {
                ||| span.kind is Paid && span.starts_at == facts[i].starts_at && span.ends_at
                    == facts[i].paid_until
                ||| span.kind is Recovery && facts[i].failed_renewal_id is Some && span.starts_at
                    == facts[i].paid_until && span.ends_at == facts[i].paid_until + 1_209_600
            };
        assert(span_of(facts[i], span));
    }
}

/// Ordered spans start in ascending order. Of those that start together the one that ends first
/// comes first, of those that end together too the paid one, and of those of one kind the one whose
/// identity comes first.
pub proof fn law_spans_are_ordered_by_time(spans: Seq<Span>, i: int, j: int)
    requires
        spans_in_order(spans),
        0 <= i < j < spans.len(),
    ensures
        spans[i] != spans[j],
        spans[i].starts_at <= spans[j].starts_at,
        spans[i].starts_at == spans[j].starts_at ==> {
            &&& spans[i].ends_at <= spans[j].ends_at
            &&& spans[i].ends_at == spans[j].ends_at ==> {
                &&& spans[j].kind is Paid ==> spans[i].kind is Paid
                &&& spans[i].kind == spans[j].kind ==> before(
                    spans[i].coverage_id,
                    spans[j].coverage_id,
                )
            }
        },
{
    assert(span_before(spans[i], spans[j]));
    before_irreflexive(spans[i].coverage_id);
}

/// Episodes that stand apart and cover what spans cover have no gap within and one between any two:
/// an instant lies in an episode exactly if it lies in a span.
pub proof fn law_episodes_join_the_spans(episodes: Seq<Episode>, spans: Seq<Span>)
    requires
        episodes_apart(episodes),
        forall|t: int| #[trigger] episodes_cover(episodes, t) <==> spans_cover(spans, t),
    ensures
        forall|k: int|
            0 <= k < episodes.len() ==> (#[trigger] episodes[k]).starts_at < episodes[k].ends_at,
        forall|j: int, k: int|
            0 <= j < k < episodes.len() ==> (#[trigger] episodes[j]).ends_at < (
            #[trigger] episodes[k]).starts_at,
        forall|k: int, t: int|
            0 <= k < episodes.len() && (#[trigger] episodes[k]).starts_at <= t
                < episodes[k].ends_at ==> #[trigger] lies_in_a_span(spans, t),
        forall|t: int| #[trigger]
            lies_in_a_span(spans, t) ==> exists|k: int|
                0 <= k < episodes.len() && (#[trigger] episodes[k]).starts_at <= t
                    < episodes[k].ends_at,
{
    assert forall|k: int, t: int|
        0 <= k < episodes.len() && (#[trigger] episodes[k]).starts_at <= t
            < episodes[k].ends_at implies #[trigger] lies_in_a_span(spans, t) by {
        assert(episodes_cover(episodes, t));
    }
    assert forall|t: int| #[trigger] lies_in_a_span(spans, t) implies exists|k: int|
        0 <= k < episodes.len() && (#[trigger] episodes[k]).starts_at <= t
            < episodes[k].ends_at by {
        assert(spans_cover(spans, t));
        assert(episodes_cover(episodes, t));
    }
}

/// Whether an instant lies in one of the spans.
pub open spec fn lies_in_a_span(spans: Seq<Span>, t: int) -> bool {
    exists|k: int| 0 <= k < spans.len() && (#[trigger] spans[k]).starts_at <= t < spans[k].ends_at
}

proof fn lemma_times(facts: Seq<PaidFact>)
    ensures
        forall|t: int| #[trigger] is_paid(facts, t) == paid_at(facts, t),
        forall|t: int, end: int| #[trigger]
            recovers_until(facts, t, end) == recovery_ending(facts, t, end),
        forall|t: int, end: int| #[trigger]
            recovery_ending(facts, t, end) == recovers_until(facts, t, end),
        forall|t: int| #[trigger] is_covered(facts, t) == eligible_at(facts, t),
        forall|t: int| #[trigger] eligible_at(facts, t) == is_covered(facts, t),
        forall|end: int| #[trigger] ends_at(facts, end) == span_end(facts, end),
        forall|end: int| #[trigger] span_end(facts, end) == ends_at(facts, end),
{
    assert forall|t: int, end: int| #[trigger]
        recovers_until(facts, t, end) == recovery_ending(facts, t, end) by {}
    assert forall|t: int, end: int| #[trigger]
        recovery_ending(facts, t, end) == recovers_until(facts, t, end) by {}
    assert forall|t: int| #[trigger] is_covered(facts, t) == eligible_at(facts, t) by {
        assert(is_paid(facts, t) == paid_at(facts, t));
        if recovering_at(facts, t) {
            let end = choose|end: int| recovery_ending(facts, t, end);
            assert(recovers_until(facts, t, end));
        }
        if exists|end: int| recovers_until(facts, t, end) {
            let end = choose|end: int| recovers_until(facts, t, end);
            assert(recovery_ending(facts, t, end));
        }
    }
    assert forall|end: int| #[trigger] ends_at(facts, end) == span_end(facts, end) by {}
}

proof fn lemma_some_end_is_last(facts: Seq<PaidFact>, now: int) -> (end: int)
    requires
        exists|e: int| #[trigger] ends_at(facts, e) && e <= now,
    ensures
        ended_last_at(facts, now, end),
    decreases facts.len(),
{
    let e = choose|e: int| #[trigger] ends_at(facts, e) && e <= now;
    let front = facts.drop_last();
    let fact = facts.last();
    let n = facts.len() - 1;
    assert forall|x: int| #[trigger] ends_at(facts, x) implies ends_at(front, x) || fact.paid_until
        == x || (fact.failed_renewal_id is Some && fact.paid_until + 1_209_600 == x) by {
        let i = choose|i: int|
            0 <= i < facts.len() && ((#[trigger] facts[i]).paid_until == x || (
            facts[i].failed_renewal_id is Some && facts[i].paid_until + 1_209_600 == x));
        if i < n {
            assert(front[i] == facts[i]);
        }
    }
    assert forall|x: int| #[trigger] ends_at(front, x) implies ends_at(facts, x) by {
        let i = choose|i: int|
            0 <= i < front.len() && ((#[trigger] front[i]).paid_until == x || (
            front[i].failed_renewal_id is Some && front[i].paid_until + 1_209_600 == x));
        assert(facts[i] == front[i]);
    }
    assert(facts[n] == fact);
    assert(ends_at(facts, fact.paid_until as int));
    assert(fact.failed_renewal_id is Some ==> ends_at(facts, fact.paid_until + 1_209_600));
    let own = if fact.failed_renewal_id is Some && fact.paid_until + 1_209_600 <= now {
        fact.paid_until + 1_209_600
    } else {
        fact.paid_until as int
    };
    if exists|x: int| #[trigger] ends_at(front, x) && x <= now {
        let last = lemma_some_end_is_last(front, now);
        assert(ends_at(front, last));
        if own <= now && own > last {
            own
        } else {
            last
        }
    } else {
        own
    }
}

} // verus!
