//! The eligible spans of coverage facts, their order, and what they decide at an instant.

use crate::cloud_coverage::{
    CoverageDecision, CoverageState, InvalidCoverage, PaidFact, EXPORT_WINDOW_SECONDS,
    RENEWAL_RECOVERY_SECONDS,
};
use crate::coverage_facts::same_facts;
use crate::text::{before, before_irreflexive, before_total, before_transitive};
use vstd::prelude::*;

verus! {

/// What makes a span eligible. Paid spans come before recovery spans.
#[derive(Debug, Clone, Copy, PartialEq, Eq, Structural)]
pub enum IntervalKind {
    Paid,
    Recovery,
}

/// A half-open span of time in which a person is eligible.
pub struct Span {
    pub starts_at: i64,
    pub ends_at: i64,
    pub kind: IntervalKind,
    pub coverage_id: Seq<char>,
}

/// The span that a fact has been paid for.
pub open spec fn paid_span(fact: PaidFact) -> Span {
    Span {
        starts_at: fact.starts_at,
        ends_at: fact.paid_until,
        kind: IntervalKind::Paid,
        coverage_id: fact.coverage_id,
    }
}

/// The recovery span that follows a failed renewal of a fact.
pub open spec fn recovery_span(fact: PaidFact) -> Span {
    Span {
        starts_at: fact.paid_until,
        ends_at: (fact.paid_until + RENEWAL_RECOVERY_SECONDS) as i64,
        kind: IntervalKind::Recovery,
        coverage_id: fact.coverage_id,
    }
}

/// Whether `span` is one of the eligible spans of `fact`.
pub open spec fn span_of(fact: PaidFact, span: Span) -> bool {
    ||| span == paid_span(fact)
    ||| fact.failed_renewal_id is Some && span == recovery_span(fact)
}

/// Whether `span` is one of the eligible spans of `facts`.
pub open spec fn eligible_span(facts: Seq<PaidFact>, span: Span) -> bool {
    exists|i: int| 0 <= i < facts.len() && span_of(#[trigger] facts[i], span)
}

/// The order of spans: by start, then end, then kind, then identity.
pub open spec fn span_before(a: Span, b: Span) -> bool {
    if a.starts_at != b.starts_at {
        a.starts_at < b.starts_at
    } else if a.ends_at != b.ends_at {
        a.ends_at < b.ends_at
    } else if a.kind != b.kind {
        a.kind is Paid
    } else {
        before(a.coverage_id, b.coverage_id)
    }
}

/// Whether spans stand in strictly ascending order.
pub open spec fn spans_in_order(spans: Seq<Span>) -> bool {
    forall|i: int, j: int|
        0 <= i < j < spans.len() ==> span_before(#[trigger] spans[i], #[trigger] spans[j])
}

/// The order of spans is transitive.
pub proof fn lemma_span_before_transitive(a: Span, b: Span, c: Span)
    requires
        span_before(a, b),
        span_before(b, c),
    ensures
        span_before(a, c),
{
    if a.starts_at == b.starts_at && b.starts_at == c.starts_at && a.ends_at == b.ends_at
        && b.ends_at == c.ends_at && a.kind == b.kind && b.kind == c.kind {
        before_transitive(a.coverage_id, b.coverage_id, c.coverage_id);
    }
}

/// Of two different spans, one comes before the other, and none before itself.
pub proof fn lemma_span_before_total(a: Span, b: Span)
    ensures
        a == b || span_before(a, b) || span_before(b, a),
        !span_before(a, a),
{
    before_total(a.coverage_id, b.coverage_id);
    before_irreflexive(a.coverage_id);
}

/// Inserting a span where it belongs keeps the order.
pub proof fn lemma_insert_span(spans: Seq<Span>, at: int, span: Span)
    requires
        spans_in_order(spans),
        !spans.contains(span),
        0 <= at <= spans.len(),
        forall|i: int| 0 <= i < at ==> span_before(#[trigger] spans[i], span),
        at < spans.len() ==> !span_before(spans[at], span),
    ensures
        spans_in_order(spans.insert(at, span)),
        forall|x: Span| #[trigger]
            spans.insert(at, span).contains(x) <==> spans.contains(x) || x == span,
{
    let longer = spans.insert(at, span);
    assert forall|i: int| at <= i < spans.len() implies span_before(span, #[trigger] spans[i]) by {
        lemma_span_before_total(span, spans[at]);
        assert(spans.contains(spans[at]));
        if i > at {
            lemma_span_before_transitive(span, spans[at], spans[i]);
        }
    }
    assert forall|i: int, j: int| 0 <= i < j < longer.len() implies span_before(
        #[trigger] longer[i],
        #[trigger] longer[j],
    ) by {
        if i < at && j < at {
            assert(span_before(spans[i], spans[j]));
        } else if i < at && j == at {
            assert(span_before(spans[i], span));
        } else if i < at {
            assert(span_before(spans[i], spans[j - 1]));
        } else if i == at {
            assert(span_before(span, spans[j - 1]));
        } else {
            assert(span_before(spans[i - 1], spans[j - 1]));
        }
    }
    assert forall|x: Span| #[trigger] longer.contains(x) implies spans.contains(x) || x
        == span by {
        let k = choose|k: int| 0 <= k < longer.len() && longer[k] == x;
        if k < at {
            assert(spans[k] == x);
        } else if k > at {
            assert(spans[k - 1] == x);
        }
    }
    assert forall|x: Span| spans.contains(x) || x == span implies #[trigger] longer.contains(
        x,
    ) by {
        if x == span {
            assert(longer[at] == x);
        } else {
            let k = choose|k: int| 0 <= k < spans.len() && spans[k] == x;
            if k < at {
                assert(longer[k] == x);
            } else {
                assert(longer[k + 1] == x);
            }
        }
    }
}

/// Whether a paid interval contains instant `t`.
pub open spec fn paid_at(facts: Seq<PaidFact>, t: int) -> bool {
    exists|i: int|
        0 <= i < facts.len() && (#[trigger] facts[i]).starts_at <= t < facts[i].paid_until
}

/// Whether `end` is the end of a recovery period, and the period contains instant `t`.
pub open spec fn recovery_ending(facts: Seq<PaidFact>, t: int, end: int) -> bool {
    exists|i: int|
        0 <= i < facts.len() && (#[trigger] facts[i]).failed_renewal_id is Some
            && facts[i].paid_until <= t < end && end == facts[i].paid_until
            + RENEWAL_RECOVERY_SECONDS
}

/// Whether a recovery period contains instant `t`.
pub open spec fn recovering_at(facts: Seq<PaidFact>, t: int) -> bool {
    exists|end: int| recovery_ending(facts, t, end)
}

/// Whether instant `t` is paid for or lies in a recovery period.
pub open spec fn eligible_at(facts: Seq<PaidFact>, t: int) -> bool {
    paid_at(facts, t) || recovering_at(facts, t)
}

/// Whether `end` is the end of a paid interval or of a recovery period.
pub open spec fn span_end(facts: Seq<PaidFact>, end: int) -> bool {
    exists|i: int|
        0 <= i < facts.len() && (end == (#[trigger] facts[i]).paid_until || (
        facts[i].failed_renewal_id is Some && end == facts[i].paid_until
            + RENEWAL_RECOVERY_SECONDS))
}

/// Whether `end` is the end of the eligible episode that contains `now`: the first instant from
/// `now` on that is not eligible.
pub open spec fn episode_end(facts: Seq<PaidFact>, now: int, end: int) -> bool {
    &&& now < end
    &&& !eligible_at(facts, end)
    &&& forall|t: int| now <= t < end ==> #[trigger] eligible_at(facts, t)
}

/// Whether `end` is the latest end of the recovery periods that contain `now`.
pub open spec fn last_recovery_end(facts: Seq<PaidFact>, now: int, end: int) -> bool {
    &&& recovery_ending(facts, now, end)
    &&& forall|e: int| #[trigger] recovery_ending(facts, now, e) ==> e <= end
}

/// Whether `end` is the latest end of coverage up to `now`.
pub open spec fn last_span_end(facts: Seq<PaidFact>, now: int, end: int) -> bool {
    &&& span_end(facts, end)
    &&& end <= now
    &&& forall|e: int| #[trigger] span_end(facts, e) && e <= now ==> e <= end
}

/// The decision of a person that has had no coverage up to now.
pub open spec fn free() -> CoverageDecision {
    CoverageDecision {
        state: CoverageState::Free,
        active_until: None,
        recovery_until: None,
        export_until: None,
    }
}

/// The decision of a person whose coverage ended, with `export_until` as the end of the window.
pub open spec fn ended(now: int, export_until: i64) -> CoverageDecision {
    CoverageDecision {
        state: if now < export_until {
            CoverageState::ExportOnly
        } else {
            CoverageState::Expired
        },
        active_until: None,
        recovery_until: None,
        export_until: Some(export_until),
    }
}

/// Whether `decision` is what `facts` decide at an instant `now` that is eligible.
pub open spec fn active(facts: Seq<PaidFact>, now: int, decision: CoverageDecision) -> bool {
    &&& decision.active_until matches Some(end) && episode_end(facts, now, end as int)
    &&& decision.export_until is None
    &&& if paid_at(facts, now) {
        &&& decision.state == CoverageState::Paid
        &&& decision.recovery_until is None
    } else {
        &&& decision.state == CoverageState::RenewalRecovery
        &&& decision.recovery_until matches Some(end) && last_recovery_end(facts, now, end as int)
    }
}

/// Whether `outcome` is what valid `facts` decide at `now`.
pub open spec fn decides(
    facts: Seq<PaidFact>,
    now: int,
    outcome: Result<CoverageDecision, InvalidCoverage>,
) -> bool {
    if eligible_at(facts, now) {
        outcome matches Ok(decision) && active(facts, now, decision)
    } else if exists|end: int| last_span_end(facts, now, end) {
        exists|end: int| #[trigger]
            last_span_end(facts, now, end) && outcome == if end + EXPORT_WINDOW_SECONDS
                > i64::MAX {
                Err::<CoverageDecision, InvalidCoverage>(InvalidCoverage::ExportDeadlineOverflow)
            } else {
                Ok(ended(now, (end + EXPORT_WINDOW_SECONDS) as i64))
            }
    } else {
        outcome == Ok::<CoverageDecision, InvalidCoverage>(free())
    }
}

/// The same facts in another order, or repeated, are paid for and recover at the same instants.
pub proof fn lemma_same_facts_same_times(a: Seq<PaidFact>, b: Seq<PaidFact>)
    requires
        same_facts(a, b),
    ensures
        forall|t: int| #[trigger] paid_at(a, t) <==> paid_at(b, t),
        forall|t: int, end: int| #[trigger]
            recovery_ending(a, t, end) <==> recovery_ending(b, t, end),
        forall|t: int| #[trigger] recovering_at(a, t) <==> recovering_at(b, t),
        forall|t: int| #[trigger] eligible_at(a, t) <==> eligible_at(b, t),
        forall|end: int| #[trigger] span_end(a, end) <==> span_end(b, end),
{
    lemma_times_carry_over(a, b);
    lemma_times_carry_over(b, a);
    assert forall|t: int| #[trigger] recovering_at(a, t) <==> recovering_at(b, t) by {
        if recovering_at(a, t) {
            let end = choose|end: int| recovery_ending(a, t, end);
            assert(recovery_ending(b, t, end));
        }
        if recovering_at(b, t) {
            let end = choose|end: int| recovery_ending(b, t, end);
            assert(recovery_ending(a, t, end));
        }
    }
}

proof fn lemma_times_carry_over(a: Seq<PaidFact>, b: Seq<PaidFact>)
    requires
        same_facts(a, b),
    ensures
        forall|t: int| #[trigger] paid_at(a, t) ==> paid_at(b, t),
        forall|t: int, end: int| #[trigger]
            recovery_ending(a, t, end) ==> recovery_ending(b, t, end),
        forall|end: int| #[trigger] span_end(a, end) ==> span_end(b, end),
{
    assert forall|i: int| 0 <= i < a.len() implies exists|j: int|
        0 <= j < b.len() && #[trigger] b[j] == #[trigger] a[i] by {
        assert(a.contains(a[i]));
        assert(b.contains(a[i]));
    }
    assert forall|t: int| #[trigger] paid_at(a, t) implies paid_at(b, t) by {
        let i = choose|i: int|
            0 <= i < a.len() && (#[trigger] a[i]).starts_at <= t < a[i].paid_until;
        let j = choose|j: int| 0 <= j < b.len() && #[trigger] b[j] == a[i];
    }
    assert forall|t: int, end: int| #[trigger] recovery_ending(a, t, end) implies recovery_ending(
        b,
        t,
        end,
    ) by {
        let i = choose|i: int|
            0 <= i < a.len() && (#[trigger] a[i]).failed_renewal_id is Some && a[i].paid_until <= t
                < end && end == a[i].paid_until + RENEWAL_RECOVERY_SECONDS;
        let j = choose|j: int| 0 <= j < b.len() && #[trigger] b[j] == a[i];
    }
    assert forall|end: int| #[trigger] span_end(a, end) implies span_end(b, end) by {
        let i = choose|i: int|
            0 <= i < a.len() && (end == (#[trigger] a[i]).paid_until || (a[i].failed_renewal_id
                is Some && end == a[i].paid_until + RENEWAL_RECOVERY_SECONDS));
        let j = choose|j: int| 0 <= j < b.len() && #[trigger] b[j] == a[i];
    }
}

} // verus!
