//! Person-level Cloud coverage: what a set of confirmed paid intervals entitles a person to at a
//! given instant.
//!
//! The module consumes facts that are already verified. It does not talk to a payment provider, a
//! database or the clock, and it does not grant access to a secret.

use crate::coverage_facts::{
    canonical, coverage_conflict, fact_id, fault, fault_at, first_fault, in_order, is_canonical,
    renewal_conflict, same_facts, same_paid_interval,
};
use crate::coverage_spans::{
    active, decides, eligible_at, eligible_span, episode_end, last_span_end, lemma_insert_span,
    paid_at, paid_span, recovering_at, recovery_ending, recovery_span, span_before, span_end,
    span_of, spans_in_order, IntervalKind, Span,
};
use crate::ordered::{
    lemma_arranged_is, lemma_ascending_keys, lemma_insert_ascending, lemma_take_members,
};
use crate::text;
use crate::text::{before, blank};
use vstd::prelude::*;

verus! {

/// Timestamp precision used by the coverage domain: Unix seconds in UTC.
pub type Timestamp = i64;

/// The failed-renewal recovery period: fourteen days.
pub const RENEWAL_RECOVERY_SECONDS: Timestamp = 14 * 24 * 60 * 60;

/// The read/export period after the last eligible coverage episode: thirty days.
pub const EXPORT_WINDOW_SECONDS: Timestamp = 30 * 24 * 60 * 60;

/// A person whose Cloud coverage is being evaluated.
#[derive(Debug)]
pub struct PersonCoverage {
    /// Opaque account identifier for the beneficiary.
    pub beneficiary_id: String,
    /// Confirmed paid intervals from one or more payer/allocation sources.
    pub paid_intervals: Vec<ConfirmedPaidInterval>,
}

/// A paid interval that has already been verified by the billing projection.
#[derive(Debug)]
pub struct ConfirmedPaidInterval {
    /// Stable identity for this coverage fact. Retries must reuse this identity.
    pub coverage_id: String,
    /// Opaque payer or allocation provenance identifier.
    pub source_id: String,
    /// Inclusive start of the half-open paid interval.
    pub starts_at: Timestamp,
    /// Exclusive end of the half-open paid interval.
    pub paid_until: Timestamp,
    /// Stable identity of a failed renewal attached to this paid interval, if any.
    pub failed_renewal_id: Option<String>,
}

/// The account-level Cloud service state at a supplied instant.
#[derive(Debug, Clone, Copy, PartialEq, Eq, Structural)]
pub enum CoverageState {
    Free,
    Paid,
    RenewalRecovery,
    ExportOnly,
    Expired,
}

/// Coverage state and dates needed by later policy and customer-facing layers.
#[derive(Debug, Clone, Copy, PartialEq, Eq, Structural)]
pub struct CoverageDecision {
    pub state: CoverageState,
    /// End of the connected eligible episode containing the evaluation instant.
    pub active_until: Option<Timestamp>,
    /// End of the recovery interval containing the evaluation instant.
    pub recovery_until: Option<Timestamp>,
    /// End of the thirty-day export window for the most recent ended episode.
    pub export_until: Option<Timestamp>,
}

/// Invalid trusted coverage input. Invalid input fails closed rather than becoming `Free`.
#[derive(Debug, Clone, Copy, PartialEq, Eq, Structural)]
pub enum InvalidCoverage {
    EmptyBeneficiary,
    EmptyCoverageId,
    EmptySourceId,
    InvalidInterval,
    EmptyRenewalId,
    RecoveryDeadlineOverflow,
    ConflictingCoverage,
    ConflictingRenewal,
    ExportDeadlineOverflow,
}

impl InvalidCoverage {
    /// The sentence that describes the fault.
    pub open spec fn sentence(self) -> Seq<char> {
        match self {
            InvalidCoverage::EmptyBeneficiary => "beneficiary_id must not be empty"@,
            InvalidCoverage::EmptyCoverageId => "coverage_id must not be empty"@,
            InvalidCoverage::EmptySourceId => "source_id must not be empty"@,
            InvalidCoverage::InvalidInterval =>
                "coverage interval must have starts_at before paid_until"@,
            InvalidCoverage::EmptyRenewalId => "failed_renewal_id must not be empty"@,
            InvalidCoverage::RecoveryDeadlineOverflow =>
                "failed renewal recovery deadline overflows the timestamp range"@,
            InvalidCoverage::ConflictingCoverage =>
                "duplicate coverage_id has conflicting contents"@,
            InvalidCoverage::ConflictingRenewal =>
                "the same failed renewal is attached to conflicting paid intervals"@,
            InvalidCoverage::ExportDeadlineOverflow =>
                "export deadline overflows the timestamp range"@,
        }
    }

    /// The sentence that describes the fault.
    pub fn message(&self) -> (r: &'static str)
        ensures
            r@ == self.sentence(),
    {
        match self {
            InvalidCoverage::EmptyBeneficiary => "beneficiary_id must not be empty",
            InvalidCoverage::EmptyCoverageId => "coverage_id must not be empty",
            InvalidCoverage::EmptySourceId => "source_id must not be empty",
            InvalidCoverage::InvalidInterval =>
                "coverage interval must have starts_at before paid_until",
            InvalidCoverage::EmptyRenewalId => "failed_renewal_id must not be empty",
            InvalidCoverage::RecoveryDeadlineOverflow =>
                "failed renewal recovery deadline overflows the timestamp range",
            InvalidCoverage::ConflictingCoverage =>
                "duplicate coverage_id has conflicting contents",
            InvalidCoverage::ConflictingRenewal =>
                "the same failed renewal is attached to conflicting paid intervals",
            InvalidCoverage::ExportDeadlineOverflow =>
                "export deadline overflows the timestamp range",
        }
    }
}

/// What a [`ConfirmedPaidInterval`] says.
pub struct PaidFact {
    pub coverage_id: Seq<char>,
    pub source_id: Seq<char>,
    pub starts_at: i64,
    pub paid_until: i64,
    pub failed_renewal_id: Option<Seq<char>>,
}

/// What a [`PersonCoverage`] says.
pub struct Coverage {
    pub beneficiary_id: Seq<char>,
    pub facts: Seq<PaidFact>,
}

impl View for ConfirmedPaidInterval {
    type V = PaidFact;

    open spec fn view(&self) -> PaidFact {
        PaidFact {
            coverage_id: self.coverage_id@,
            source_id: self.source_id@,
            starts_at: self.starts_at,
            paid_until: self.paid_until,
            failed_renewal_id: text_of(self.failed_renewal_id),
        }
    }
}

impl View for PersonCoverage {
    type V = Coverage;

    open spec fn view(&self) -> Coverage {
        Coverage { beneficiary_id: self.beneficiary_id@, facts: facts_of(self.paid_intervals@) }
    }
}

/// The text of an optional string.
pub open spec fn text_of(s: Option<String>) -> Option<Seq<char>> {
    match s {
        Some(t) => Some(t@),
        None => None,
    }
}

/// What a list of intervals says, in its order.
pub open spec fn facts_of(intervals: Seq<ConfirmedPaidInterval>) -> Seq<PaidFact> {
    intervals.map_values(|i: ConfirmedPaidInterval| i@)
}

impl Clone for ConfirmedPaidInterval {
    fn clone(&self) -> (r: Self)
        ensures
            r@ == self@,
    {
        ConfirmedPaidInterval {
            coverage_id: self.coverage_id.clone(),
            source_id: self.source_id.clone(),
            starts_at: self.starts_at,
            paid_until: self.paid_until,
            failed_renewal_id: clone_text(&self.failed_renewal_id),
        }
    }
}

impl PartialEq for ConfirmedPaidInterval {
    fn eq(&self, other: &Self) -> (r: bool) {
        self.coverage_id == other.coverage_id && self.source_id == other.source_id && self.starts_at
            == other.starts_at && self.paid_until == other.paid_until && same_text(
            &self.failed_renewal_id,
            &other.failed_renewal_id,
        )
    }
}

impl vstd::std_specs::cmp::PartialEqSpecImpl for ConfirmedPaidInterval {
    open spec fn obeys_eq_spec() -> bool {
        true
    }

    open spec fn eq_spec(&self, other: &Self) -> bool {
        self@ == other@
    }
}

impl Eq for ConfirmedPaidInterval {

}

impl Clone for PersonCoverage {
    fn clone(&self) -> (r: Self)
        ensures
            r@ == self@,
    {
        PersonCoverage {
            beneficiary_id: self.beneficiary_id.clone(),
            paid_intervals: clone_intervals(&self.paid_intervals),
        }
    }
}

impl PartialEq for PersonCoverage {
    fn eq(&self, other: &Self) -> (r: bool) {
        self.beneficiary_id == other.beneficiary_id && same_intervals(
            &self.paid_intervals,
            &other.paid_intervals,
        )
    }
}

impl vstd::std_specs::cmp::PartialEqSpecImpl for PersonCoverage {
    open spec fn obeys_eq_spec() -> bool {
        true
    }

    open spec fn eq_spec(&self, other: &Self) -> bool {
        self@ == other@
    }
}

impl Eq for PersonCoverage {

}

/// Copies an optional string.
pub fn clone_text(s: &Option<String>) -> (r: Option<String>)
    ensures
        text_of(r) == text_of(*s),
{
    match s {
        Some(t) => Some(t.clone()),
        None => None,
    }
}

/// Whether two optional strings hold the same text.
pub fn same_text(a: &Option<String>, b: &Option<String>) -> (r: bool)
    ensures
        r == (text_of(*a) == text_of(*b)),
{
    match (a, b) {
        (Some(x), Some(y)) => *x == *y,
        (None, None) => true,
        _ => false,
    }
}

/// Copies a list of intervals.
pub fn clone_intervals(intervals: &Vec<ConfirmedPaidInterval>) -> (r: Vec<ConfirmedPaidInterval>)
    ensures
        facts_of(r@) == facts_of(intervals@),
{
    let mut r: Vec<ConfirmedPaidInterval> = Vec::new();
    for i in 0..intervals.len()
        invariant
            r@.len() == i,
            forall|k: int| 0 <= k < i ==> (#[trigger] r@[k])@ == intervals@[k]@,
    {
        r.push(intervals[i].clone());
    }
    assert(facts_of(r@) =~= facts_of(intervals@));
    r
}

/// Whether two lists of intervals say the same, in the same order.
pub fn same_intervals(
    a: &Vec<ConfirmedPaidInterval>,
    b: &Vec<ConfirmedPaidInterval>,
) -> (r: bool)
    ensures
        r == (facts_of(a@) == facts_of(b@)),
{
    if a.len() != b.len() {
        assert(facts_of(a@).len() != facts_of(b@).len());
        return false;
    }
    for i in 0..a.len()
        invariant
            a@.len() == b@.len(),
            forall|k: int| 0 <= k < i ==> (#[trigger] a@[k])@ == b@[k]@,
    {
        if !(a[i] == b[i]) {
            assert(facts_of(a@)[i as int] != facts_of(b@)[i as int]);
            return false;
        }
    }
    assert(facts_of(a@) =~= facts_of(b@));
    true
}

/// Whether two intervals, one of which carries a failed renewal that the other carries too, are
/// the same paid interval.
fn is_same_paid_interval(a: &ConfirmedPaidInterval, b: &ConfirmedPaidInterval) -> (r: bool)
    ensures
        r == same_paid_interval(a@, b@),
{
    a.coverage_id == b.coverage_id && a.source_id == b.source_id && a.starts_at == b.starts_at
        && a.paid_until == b.paid_until
}

/// Whether the failed renewal of interval `i` is attached to another interval before it.
fn has_renewal_conflict(intervals: &Vec<ConfirmedPaidInterval>, i: usize) -> (r: bool)
    requires
        i < intervals@.len(),
    ensures
        r == renewal_conflict(facts_of(intervals@), i as int),
{
    let ghost facts = facts_of(intervals@);
    if intervals[i].failed_renewal_id.is_none() {
        return false;
    }
    for j in 0..i
        invariant
            i < intervals@.len(),
            facts == facts_of(intervals@),
            facts[i as int].failed_renewal_id is Some,
            forall|k: int|
                0 <= k < j ==> (#[trigger] facts[k]).failed_renewal_id
                    != facts[i as int].failed_renewal_id || same_paid_interval(
                    facts[k],
                    facts[i as int],
                ),
    {
        assert(facts[j as int] == intervals@[j as int]@);
        if same_text(&intervals[j].failed_renewal_id, &intervals[i].failed_renewal_id)
            && !is_same_paid_interval(&intervals[j], &intervals[i]) {
            return true;
        }
    }
    false
}

/// How many of the ordered `unique` come before `id`.
pub(crate) fn position_of(unique: &Vec<ConfirmedPaidInterval>, id: &String) -> (r: usize)
    requires
        in_order(facts_of(unique@)),
    ensures
        r <= unique@.len(),
        forall|k: int| 0 <= k < r ==> before((#[trigger] unique@[k])@.coverage_id, id@),
        r < unique@.len() ==> !before(unique@[r as int]@.coverage_id, id@),
{
    let mut at: usize = 0;
    while at < unique.len() && text::comes_before(unique[at].coverage_id.as_str(), id.as_str())
        invariant
            at <= unique@.len(),
            forall|k: int| 0 <= k < at ==> before((#[trigger] unique@[k])@.coverage_id, id@),
        decreases unique@.len() - at,
    {
        at = at + 1;
    }
    at
}

/// Validates confirmed coverage facts and removes repeated ones.
///
/// The storage projection uses the same function before it writes a snapshot, so the evaluator and
/// the durable loader agree on duplicate coverage and renewal identity rules.
pub fn normalise_confirmed_intervals(coverage: &PersonCoverage) -> (r: Result<
    Vec<ConfirmedPaidInterval>,
    InvalidCoverage,
>)
    ensures
        match fault(coverage@) {
            Some(f) => r == Err::<Vec<ConfirmedPaidInterval>, InvalidCoverage>(f),
            None => r matches Ok(list) && facts_of(list@) == canonical(coverage@.facts)
                && is_canonical(facts_of(list@), coverage@.facts),
        },
{
    if text::is_blank(coverage.beneficiary_id.as_str()) {
        return Err(InvalidCoverage::EmptyBeneficiary);
    }
    let intervals = &coverage.paid_intervals;
    let ghost facts = facts_of(intervals@);
    let mut unique: Vec<ConfirmedPaidInterval> = Vec::new();
    assert(facts.take(0) =~= facts_of(unique@));
    for i in 0..intervals.len()
        invariant
            facts == facts_of(intervals@),
            !blank(coverage@.beneficiary_id),
            facts == coverage@.facts,
            first_fault(facts, i as int) is None,
            is_canonical(facts_of(unique@), facts.take(i as int)),
    {
        let interval = &intervals[i];
        let ghost fact = facts[i as int];
        assert(fact == interval@);
        proof {
            lemma_first_fault_stops(facts, i as int);
        }
        if text::is_blank(interval.coverage_id.as_str()) {
            return Err(InvalidCoverage::EmptyCoverageId);
        }
        if text::is_blank(interval.source_id.as_str()) {
            return Err(InvalidCoverage::EmptySourceId);
        }
        if interval.starts_at >= interval.paid_until {
            return Err(InvalidCoverage::InvalidInterval);
        }
        if let Some(renewal_id) = &interval.failed_renewal_id {
            if text::is_blank(renewal_id.as_str()) {
                return Err(InvalidCoverage::EmptyRenewalId);
            }
            if has_renewal_conflict(intervals, i) {
                return Err(InvalidCoverage::ConflictingRenewal);
            }
            if interval.paid_until.checked_add(RENEWAL_RECOVERY_SECONDS).is_none() {
                return Err(InvalidCoverage::RecoveryDeadlineOverflow);
            }
        }
        let at = position_of(&unique, &interval.coverage_id);
        let ghost list = facts_of(unique@);
        proof {
            lemma_take_members(facts, i as int);
        }
        if at < unique.len() && unique[at].coverage_id == interval.coverage_id {
            assert(list[at as int] == unique@[at as int]@);
            assert(list.contains(list[at as int]));
            assert(facts.take(i as int).contains(list[at as int]));
            if !(unique[at] == *interval) {
                return Err(InvalidCoverage::ConflictingCoverage);
            }
            proof {
                lemma_no_coverage_conflict(list, facts, i as int, at as int);
                assert(is_canonical(list, facts.take(i + 1)));
            }
        } else {
            proof {
                if at < unique@.len() {
                    text::before_total(list[at as int].coverage_id, fact.coverage_id);
                }
                assert forall|k: int| 0 <= k < at implies before(
                    (#[trigger] list[k]).coverage_id,
                    fact.coverage_id,
                ) by {
                    assert(before(unique@[k]@.coverage_id, fact.coverage_id));
                }
                lemma_insert_ascending(list, at as int, fact, fact_id());
                lemma_new_identity(list, facts, i as int, at as int);
            }
            unique.insert(at, interval.clone());
            assert(facts_of(unique@) =~= list.insert(at as int, fact));
            assert(is_canonical(facts_of(unique@), facts.take(i + 1)));
        }
    }
    assert(facts.take(intervals@.len() as int) =~= facts);
    proof {
        lemma_arranged_is(facts_of(unique@), facts, fact_id());
    }
    Ok(unique)
}

/// Once a fact is faulty, its fault is that of every longer prefix.
proof fn lemma_first_fault_stops(facts: Seq<PaidFact>, i: int)
    requires
        0 <= i < facts.len(),
        first_fault(facts, i) is None,
    ensures
        fault_at(facts, i) is Some ==> first_fault(facts, facts.len() as int) == fault_at(facts, i),
        first_fault(facts, i + 1) == fault_at(facts, i),
{
    if fault_at(facts, i) is Some {
        lemma_fault_persists(facts, i + 1, facts.len() as int);
    }
}

proof fn lemma_fault_persists(facts: Seq<PaidFact>, i: int, n: int)
    requires
        i <= n,
        first_fault(facts, i) is Some,
    ensures
        first_fault(facts, n) == first_fault(facts, i),
    decreases n - i,
{
    if i < n {
        lemma_fault_persists(facts, i, n - 1);
    }
}

/// A fact that the ordered list already holds conflicts with no earlier fact.
proof fn lemma_no_coverage_conflict(list: Seq<PaidFact>, facts: Seq<PaidFact>, i: int, at: int)
    requires
        0 <= i < facts.len(),
        0 <= at < list.len(),
        is_canonical(list, facts.take(i)),
        list[at] == facts[i],
    ensures
        !coverage_conflict(facts, i),
{
    lemma_take_members(facts, i);
    lemma_ascending_keys(list, fact_id());
    assert(list.contains(list[at]));
    assert forall|j: int| 0 <= j < i && (#[trigger] facts[j]).coverage_id
        == facts[i].coverage_id implies facts[j] == facts[i] by {
        assert(list.contains(facts[j]));
    }
}

/// A fact that the ordered list has no identity of conflicts with no earlier fact.
proof fn lemma_new_identity(list: Seq<PaidFact>, facts: Seq<PaidFact>, i: int, at: int)
    requires
        0 <= i < facts.len(),
        0 <= at <= list.len(),
        is_canonical(list, facts.take(i)),
        forall|k: int|
            0 <= k < at ==> before((#[trigger] list[k]).coverage_id, facts[i].coverage_id),
        forall|k: int|
            at <= k < list.len() ==> before(facts[i].coverage_id, (#[trigger] list[k]).coverage_id),
    ensures
        !coverage_conflict(facts, i),
{
    lemma_take_members(facts, i);
    text::before_irreflexive(facts[i].coverage_id);
    assert forall|j: int| 0 <= j < i implies (#[trigger] facts[j]).coverage_id
        != facts[i].coverage_id by {
        assert(list.contains(facts[j]));
        let k = choose|k: int| 0 <= k < list.len() && list[k] == facts[j];
        if k < at {
            assert(before(list[k].coverage_id, facts[i].coverage_id));
        } else {
            assert(before(facts[i].coverage_id, list[k].coverage_id));
        }
    }
}

/// One half-open span in which a person is eligible.
#[derive(Debug)]
pub struct EligibleInterval {
    pub starts_at: Timestamp,
    pub ends_at: Timestamp,
    pub kind: IntervalKind,
    pub coverage_id: String,
}

/// A maximal run of eligible spans that overlap or touch.
#[derive(Debug, Clone, Copy, PartialEq, Eq, Structural)]
pub struct Episode {
    pub starts_at: Timestamp,
    pub ends_at: Timestamp,
}

impl View for EligibleInterval {
    type V = Span;

    open spec fn view(&self) -> Span {
        Span {
            starts_at: self.starts_at,
            ends_at: self.ends_at,
            kind: self.kind,
            coverage_id: self.coverage_id@,
        }
    }
}

/// What a list of eligible intervals says, in its order.
pub open spec fn spans_of(intervals: Seq<EligibleInterval>) -> Seq<Span> {
    intervals.map_values(|i: EligibleInterval| i@)
}

/// Whether some span contains instant `t`.
pub open spec fn spans_cover(spans: Seq<Span>, t: int) -> bool {
    exists|k: int| 0 <= k < spans.len() && (#[trigger] spans[k]).starts_at <= t < spans[k].ends_at
}

/// Whether some episode contains instant `t`.
pub open spec fn episodes_cover(episodes: Seq<Episode>, t: int) -> bool {
    exists|k: int|
        0 <= k < episodes.len() && (#[trigger] episodes[k]).starts_at <= t < episodes[k].ends_at
}

/// Whether episodes are not empty and stand in ascending order with a gap between any two.
pub open spec fn episodes_apart(episodes: Seq<Episode>) -> bool {
    &&& forall|k: int|
        0 <= k < episodes.len() ==> (#[trigger] episodes[k]).starts_at < episodes[k].ends_at
    &&& forall|j: int, k: int|
        0 <= j < k < episodes.len() ==> (#[trigger] episodes[j]).ends_at < (
        #[trigger] episodes[k]).starts_at
}

/// Whether spans are not empty and none starts before the one in front of it.
pub open spec fn spans_ascend(spans: Seq<Span>) -> bool {
    &&& forall|k: int| 0 <= k < spans.len() ==> (#[trigger] spans[k]).starts_at < spans[k].ends_at
    &&& forall|j: int, k: int|
        0 <= j < k < spans.len() ==> (#[trigger] spans[j]).starts_at <= (
        #[trigger] spans[k]).starts_at
}

fn interval_comes_before(a: &EligibleInterval, b: &EligibleInterval) -> (r: bool)
    ensures
        r == span_before(a@, b@),
{
    if a.starts_at != b.starts_at {
        a.starts_at < b.starts_at
    } else if a.ends_at != b.ends_at {
        a.ends_at < b.ends_at
    } else {
        match (a.kind, b.kind) {
            (IntervalKind::Paid, IntervalKind::Recovery) => true,
            (IntervalKind::Recovery, IntervalKind::Paid) => false,
            _ => text::comes_before(a.coverage_id.as_str(), b.coverage_id.as_str()),
        }
    }
}

/// Puts a new interval where it belongs in an ordered list.
fn insert_interval(eligible: &mut Vec<EligibleInterval>, interval: EligibleInterval)
    requires
        spans_in_order(spans_of(old(eligible)@)),
        !spans_of(old(eligible)@).contains(interval@),
    ensures
        spans_in_order(spans_of(final(eligible)@)),
        forall|x: Span| #[trigger]
            spans_of(final(eligible)@).contains(x) <==> spans_of(old(eligible)@).contains(x) || x
                == interval@,
{
    let ghost spans = spans_of(eligible@);
    let ghost span = interval@;
    let mut at: usize = 0;
    while at < eligible.len() && interval_comes_before(&eligible[at], &interval)
        invariant
            at <= eligible@.len(),
            spans == spans_of(eligible@),
            span == interval@,
            forall|k: int| 0 <= k < at ==> span_before(#[trigger] spans[k], span),
        decreases eligible@.len() - at,
    {
        assert(spans[at as int] == eligible@[at as int]@);
        at = at + 1;
    }
    proof {
        lemma_insert_span(spans, at as int, span);
    }
    eligible.insert(at, interval);
    assert(spans_of(eligible@) =~= spans.insert(at as int, span));
}

/// The eligible spans of a person's facts: each paid interval, and after each failed renewal its
/// recovery period, ordered by start, end, kind and identity.
pub fn eligible_intervals(coverage: &PersonCoverage) -> (r: Result<
    Vec<EligibleInterval>,
    InvalidCoverage,
>)
    ensures
        match fault(coverage@) {
            Some(f) => r == Err::<Vec<EligibleInterval>, InvalidCoverage>(f),
            None => r matches Ok(list) && spans_in_order(spans_of(list@)) && forall|span: Span|
             #[trigger]
                spans_of(list@).contains(span) <==> eligible_span(coverage@.facts, span),
        },
{
    let unique = match normalise_confirmed_intervals(coverage) {
        Ok(unique) => unique,
        Err(invalid) => {
            return Err(invalid);
        },
    };
    let ghost facts = facts_of(unique@);
    proof {
        lemma_valid_facts(coverage@, facts);
    }
    let mut eligible: Vec<EligibleInterval> = Vec::new();
    for i in 0..unique.len()
        invariant
            fault(coverage@) is None,
            facts == facts_of(unique@),
            in_order(facts),
            same_facts(facts, coverage@.facts),
            forall|k: int|
                0 <= k < facts.len() ==> (#[trigger] facts[k]).failed_renewal_id is Some
                    ==> facts[k].paid_until + RENEWAL_RECOVERY_SECONDS <= i64::MAX,
            spans_in_order(spans_of(eligible@)),
            forall|span: Span| #[trigger]
                spans_of(eligible@).contains(span) <==> eligible_span(facts.take(i as int), span),
    {
        let interval = &unique[i];
        let ghost fact = facts[i as int];
        assert(fact == interval@);
        proof {
            lemma_spans_of_one_more(facts, i as int);
        }
        let paid = EligibleInterval {
            starts_at: interval.starts_at,
            ends_at: interval.paid_until,
            kind: IntervalKind::Paid,
            coverage_id: interval.coverage_id.clone(),
        };
        assert(paid@ == paid_span(fact));
        insert_interval(&mut eligible, paid);
        if interval.failed_renewal_id.is_some() {
            let ends_at = match interval.paid_until.checked_add(RENEWAL_RECOVERY_SECONDS) {
                Some(ends_at) => ends_at,
                None => {
                    assert(false);
                    return Err(InvalidCoverage::RecoveryDeadlineOverflow);
                },
            };
            let recovery = EligibleInterval {
                starts_at: interval.paid_until,
                ends_at,
                kind: IntervalKind::Recovery,
                coverage_id: interval.coverage_id.clone(),
            };
            assert(recovery@ == recovery_span(fact));
            insert_interval(&mut eligible, recovery);
        }
    }
    proof {
        assert(facts.take(unique@.len() as int) =~= facts);
        assert forall|span: Span| #[trigger]
            spans_of(eligible@).contains(span) <==> eligible_span(coverage@.facts, span) by {
            lemma_same_facts_same_spans(facts, coverage@.facts, span);
        }
    }
    Ok(eligible)
}

/// Facts without a fault keep the rules, in any order.
proof fn lemma_valid_facts(coverage: Coverage, facts: Seq<PaidFact>)
    requires
        fault(coverage) is None,
        same_facts(facts, coverage.facts),
    ensures
        forall|k: int|
            0 <= k < facts.len() ==> (#[trigger] facts[k]).starts_at < facts[k].paid_until && (
            facts[k].failed_renewal_id is Some ==> facts[k].paid_until + RENEWAL_RECOVERY_SECONDS
                <= i64::MAX),
{
    assert forall|k: int| 0 <= k < facts.len() implies (#[trigger] facts[k]).starts_at
        < facts[k].paid_until && (facts[k].failed_renewal_id is Some ==> facts[k].paid_until
        + RENEWAL_RECOVERY_SECONDS <= i64::MAX) by {
        assert(facts.contains(facts[k]));
        assert(coverage.facts.contains(facts[k]));
        let i = choose|i: int| 0 <= i < coverage.facts.len() && coverage.facts[i] == facts[k];
        lemma_no_fault_at(coverage.facts, i, coverage.facts.len() as int);
    }
}

/// Where the first `n` facts have no fault, none of them has.
pub proof fn lemma_no_fault_at(facts: Seq<PaidFact>, i: int, n: int)
    requires
        0 <= i < n,
        first_fault(facts, n) is None,
    ensures
        fault_at(facts, i) is None,
    decreases n,
{
    if i < n - 1 {
        lemma_no_fault_at(facts, i, n - 1);
    }
}

/// The spans of one more fact, which are new.
proof fn lemma_spans_of_one_more(facts: Seq<PaidFact>, i: int)
    requires
        0 <= i < facts.len(),
        in_order(facts),
    ensures
        forall|span: Span| #[trigger]
            eligible_span(facts.take(i + 1), span) <==> eligible_span(facts.take(i), span)
                || span_of(facts[i], span),
        !eligible_span(facts.take(i), paid_span(facts[i])),
        !eligible_span(facts.take(i), recovery_span(facts[i])),
{
    let shorter = facts.take(i);
    let longer = facts.take(i + 1);
    assert forall|span: Span| #[trigger]
        eligible_span(longer, span) <==> eligible_span(shorter, span) || span_of(
        facts[i],
        span,
    ) by {
        if eligible_span(longer, span) {
            let k = choose|k: int| 0 <= k < longer.len() && span_of(#[trigger] longer[k], span);
            if k < i {
                assert(span_of(shorter[k], span));
            }
        }
        if eligible_span(shorter, span) {
            let k = choose|k: int| 0 <= k < shorter.len() && span_of(#[trigger] shorter[k], span);
            assert(span_of(longer[k], span));
        }
        if span_of(facts[i], span) {
            assert(span_of(longer[i], span));
        }
    }
    assert forall|span: Span| span.coverage_id == facts[i].coverage_id implies !eligible_span(
        shorter,
        span,
    ) by {
        if eligible_span(shorter, span) {
            let k = choose|k: int| 0 <= k < shorter.len() && span_of(#[trigger] shorter[k], span);
            assert(before(facts[k].coverage_id, facts[i].coverage_id));
            text::before_irreflexive(facts[i].coverage_id);
        }
    }
}

proof fn lemma_same_facts_same_spans(a: Seq<PaidFact>, b: Seq<PaidFact>, span: Span)
    requires
        same_facts(a, b),
    ensures
        eligible_span(a, span) <==> eligible_span(b, span),
{
    if eligible_span(a, span) {
        let k = choose|k: int| 0 <= k < a.len() && span_of(#[trigger] a[k], span);
        assert(a.contains(a[k]));
        assert(b.contains(a[k]));
        let j = choose|j: int| 0 <= j < b.len() && b[j] == a[k];
        assert(span_of(b[j], span));
    }
    if eligible_span(b, span) {
        let k = choose|k: int| 0 <= k < b.len() && span_of(#[trigger] b[k], span);
        assert(b.contains(b[k]));
        assert(a.contains(b[k]));
        let j = choose|j: int| 0 <= j < a.len() && a[j] == b[k];
        assert(span_of(a[j], span));
    }
}

/// Merges spans that overlap or touch into episodes.
pub fn episodes(intervals: &Vec<EligibleInterval>) -> (r: Vec<Episode>)
    requires
        spans_ascend(spans_of(intervals@)),
    ensures
        episodes_apart(r@),
        forall|t: int| #[trigger]
            episodes_cover(r@, t) <==> spans_cover(spans_of(intervals@), t),
{
    let ghost spans = spans_of(intervals@);
    let mut episodes: Vec<Episode> = Vec::new();
    for i in 0..intervals.len()
        invariant
            spans == spans_of(intervals@),
            spans_ascend(spans),
            episodes_apart(episodes@),
            i == 0 ==> episodes@.len() == 0,
            i > 0 ==> episodes@.len() > 0 && episodes@.last().starts_at <= spans[i - 1].starts_at,
            forall|t: int| #[trigger]
                episodes_cover(episodes@, t) <==> spans_cover(spans.take(i as int), t),
    {
        let ghost earlier = episodes@;
        let ghost span = spans[i as int];
        assert(span == intervals@[i as int]@);
        let interval = &intervals[i];
        let n = episodes.len();
        if n > 0 && interval.starts_at <= episodes[n - 1].ends_at {
            let last = episodes[n - 1];
            let ends_at = if interval.ends_at > last.ends_at {
                interval.ends_at
            } else {
                last.ends_at
            };
            episodes.set(n - 1, Episode { starts_at: last.starts_at, ends_at });
            assert(i > 0 ==> spans[i - 1].starts_at <= span.starts_at);
        } else {
            episodes.push(Episode { starts_at: interval.starts_at, ends_at: interval.ends_at });
        }
        proof {
            lemma_one_more_span(spans, i as int, earlier, episodes@);
        }
    }
    assert(spans.take(intervals@.len() as int) =~= spans);
    episodes
}

proof fn lemma_one_more_span(
    spans: Seq<Span>,
    i: int,
    earlier: Seq<Episode>,
    later: Seq<Episode>,
)
    requires
        0 <= i < spans.len(),
        forall|t: int| #[trigger]
            episodes_cover(earlier, t) <==> spans_cover(spans.take(i), t),
        if earlier.len() > 0 && spans[i].starts_at <= earlier.last().ends_at {
            &&& earlier.last().starts_at <= spans[i].starts_at
            &&& later == earlier.update(
                earlier.len() - 1,
                Episode {
                    starts_at: earlier.last().starts_at,
                    ends_at: if spans[i].ends_at > earlier.last().ends_at {
                        spans[i].ends_at
                    } else {
                        earlier.last().ends_at
                    },
                },
            )
        } else {
            later == earlier.push(
                Episode { starts_at: spans[i].starts_at, ends_at: spans[i].ends_at },
            )
        },
    ensures
        forall|t: int| #[trigger]
            episodes_cover(later, t) <==> spans_cover(spans.take(i + 1), t),
{
    let shorter = spans.take(i);
    let longer = spans.take(i + 1);
    let span = spans[i];
    assert forall|t: int| #[trigger] episodes_cover(later, t) <==> spans_cover(longer, t) by {
        assert(spans_cover(longer, t) <==> spans_cover(shorter, t) || span.starts_at <= t
            < span.ends_at) by {
            if spans_cover(longer, t) {
                let k = choose|k: int|
                    0 <= k < longer.len() && (#[trigger] longer[k]).starts_at <= t
                        < longer[k].ends_at;
                if k < i {
                    assert(shorter[k] == longer[k]);
                }
            }
            if spans_cover(shorter, t) {
                let k = choose|k: int|
                    0 <= k < shorter.len() && (#[trigger] shorter[k]).starts_at <= t
                        < shorter[k].ends_at;
                assert(longer[k] == shorter[k]);
            }
            if span.starts_at <= t < span.ends_at {
                assert(longer[i] == span);
            }
        }
        assert(episodes_cover(earlier, t) <==> spans_cover(shorter, t));
        assert(episodes_cover(later, t) <==> episodes_cover(earlier, t) || span.starts_at <= t
            < span.ends_at) by {
            let n = earlier.len() as int;
            if n > 0 && span.starts_at <= earlier.last().ends_at {
                if episodes_cover(later, t) {
                    let k = choose|k: int|
                        0 <= k < later.len() && (#[trigger] later[k]).starts_at <= t
                            < later[k].ends_at;
                    assert(earlier[k].starts_at == later[k].starts_at);
                }
                if episodes_cover(earlier, t) {
                    let k = choose|k: int|
                        0 <= k < earlier.len() && (#[trigger] earlier[k]).starts_at <= t
                            < earlier[k].ends_at;
                    assert(later[k].starts_at == earlier[k].starts_at);
                }
                if span.starts_at <= t < span.ends_at {
                    assert(later[n - 1].starts_at <= t < later[n - 1].ends_at);
                }
            } else {
                if episodes_cover(later, t) {
                    let k = choose|k: int|
                        0 <= k < later.len() && (#[trigger] later[k]).starts_at <= t
                            < later[k].ends_at;
                    if k < n {
                        assert(earlier[k] == later[k]);
                    }
                }
                if episodes_cover(earlier, t) {
                    let k = choose|k: int|
                        0 <= k < earlier.len() && (#[trigger] earlier[k]).starts_at <= t
                            < earlier[k].ends_at;
                    assert(later[k] == earlier[k]);
                }
                if span.starts_at <= t < span.ends_at {
                    assert(later[n].starts_at <= t < later[n].ends_at);
                }
            }
        }
    }
}

/// Evaluates one person's coverage at `now`.
pub fn evaluate(coverage: &PersonCoverage, now: Timestamp) -> (r: Result<
    CoverageDecision,
    InvalidCoverage,
>)
    ensures
        match fault(coverage@) {
            Some(f) => r == Err::<CoverageDecision, InvalidCoverage>(f),
            None => decides(coverage@.facts, now as int, r),
        },
{
    let intervals = match eligible_intervals(coverage) {
        Ok(intervals) => intervals,
        Err(invalid) => {
            return Err(invalid);
        },
    };
    let ghost facts = coverage@.facts;
    let ghost spans = spans_of(intervals@);
    proof {
        lemma_valid_facts(coverage@, facts);
        lemma_spans_tell_times(facts, spans);
    }
    let episodes = episodes(&intervals);
    let ghost runs = episodes@;

    let mut k: usize = 0;
    while k < episodes.len() && !(episodes[k].starts_at <= now && now < episodes[k].ends_at)
        invariant
            k <= episodes@.len(),
            runs == episodes@,
            forall|j: int|
                0 <= j < k ==> !((#[trigger] runs[j]).starts_at <= now < runs[j].ends_at),
        decreases episodes@.len() - k,
    {
        k = k + 1;
    }
    if k < episodes.len() {
        let current = episodes[k];
        proof {
            assert(runs[k as int].starts_at <= now < runs[k as int].ends_at);
            lemma_current_episode(facts, spans, runs, k as int, now as int);
        }
        let paid_now = is_paid_at(&intervals, now);
        let recovery_until = latest_recovery(&intervals, now);
        let decision = CoverageDecision {
            state: if paid_now {
                CoverageState::Paid
            } else {
                CoverageState::RenewalRecovery
            },
            active_until: Some(current.ends_at),
            recovery_until: if paid_now {
                None
            } else {
                recovery_until
            },
            export_until: None,
        };
        proof {
            assert(paid_now == paid_at(facts, now as int));
            assert(eligible_at(facts, now as int));
            if !paid_now {
                assert(recovering_at(facts, now as int));
                let end = choose|end: int| recovery_ending(facts, now as int, end);
                assert(recovery_ending(facts, now as int, end));
                assert(recovery_until is Some);
            }
            assert(active(facts, now as int, decision));
        }
        return Ok(decision);
    }
    proof {
        assert(!episodes_cover(runs, now as int));
        assert(!spans_cover(spans, now as int));
        assert(!eligible_at(facts, now as int));
    }
    match latest_end(&episodes, now) {
        None => {
            proof {
                assert forall|end: int| !last_span_end(facts, now as int, end) by {
                    if last_span_end(facts, now as int, end) {
                        lemma_ended_span_in_episode(facts, spans, runs, now as int, end);
                    }
                }
            }
            Ok(
                CoverageDecision {
                    state: CoverageState::Free,
                    active_until: None,
                    recovery_until: None,
                    export_until: None,
                },
            )
        },
        Some(latest_ended) => {
            proof {
                lemma_last_ended_episode(facts, spans, runs, now as int, latest_ended as int);
            }
            match latest_ended.checked_add(EXPORT_WINDOW_SECONDS) {
                None => Err(InvalidCoverage::ExportDeadlineOverflow),
                Some(export_until) => Ok(
                    CoverageDecision {
                        state: if now < export_until {
                            CoverageState::ExportOnly
                        } else {
                            CoverageState::Expired
                        },
                        active_until: None,
                        recovery_until: None,
                        export_until: Some(export_until),
                    },
                ),
            }
        },
    }
}

/// Whether some paid span contains `t`.
pub open spec fn paid_span_at(spans: Seq<Span>, t: int) -> bool {
    exists|k: int|
        0 <= k < spans.len() && (#[trigger] spans[k]).kind == IntervalKind::Paid
            && spans[k].starts_at <= t < spans[k].ends_at
}

/// Whether some recovery span contains `t` and ends at `end`.
pub open spec fn recovery_span_ending(spans: Seq<Span>, t: int, end: int) -> bool {
    exists|k: int|
        0 <= k < spans.len() && (#[trigger] spans[k]).kind == IntervalKind::Recovery
            && spans[k].starts_at <= t < end && spans[k].ends_at == end
}

/// Whether some span ends at `end`.
pub open spec fn some_span_ends(spans: Seq<Span>, end: int) -> bool {
    exists|k: int| 0 <= k < spans.len() && (#[trigger] spans[k]).ends_at == end
}

fn is_paid_at(intervals: &Vec<EligibleInterval>, now: Timestamp) -> (r: bool)
    ensures
        r == paid_span_at(spans_of(intervals@), now as int),
{
    let ghost spans = spans_of(intervals@);
    for k in 0..intervals.len()
        invariant
            spans == spans_of(intervals@),
            forall|j: int|
                0 <= j < k ==> !((#[trigger] spans[j]).kind == IntervalKind::Paid
                    && spans[j].starts_at <= now < spans[j].ends_at),
    {
        assert(spans[k as int] == intervals@[k as int]@);
        let interval = &intervals[k];
        if interval.kind == IntervalKind::Paid && interval.starts_at <= now && now
            < interval.ends_at {
            return true;
        }
    }
    false
}

fn latest_recovery(intervals: &Vec<EligibleInterval>, now: Timestamp) -> (r: Option<Timestamp>)
    ensures
        match r {
            Some(end) => recovery_span_ending(spans_of(intervals@), now as int, end as int)
                && forall|e: int| #[trigger]
                recovery_span_ending(spans_of(intervals@), now as int, e) ==> e <= end,
            None => forall|e: int| !#[trigger]
                recovery_span_ending(spans_of(intervals@), now as int, e),
        },
{
    let ghost spans = spans_of(intervals@);
    let mut latest: Option<Timestamp> = None;
    for k in 0..intervals.len()
        invariant
            spans == spans_of(intervals@),
            match latest {
                Some(end) => recovery_span_ending(spans, now as int, end as int) && forall|j: int|
                    0 <= j < k && (#[trigger] spans[j]).kind == IntervalKind::Recovery
                        && spans[j].starts_at <= now < spans[j].ends_at ==> spans[j].ends_at <= end,
                None => forall|j: int|
                    0 <= j < k ==> !((#[trigger] spans[j]).kind == IntervalKind::Recovery
                        && spans[j].starts_at <= now < spans[j].ends_at),
            },
    {
        assert(spans[k as int] == intervals@[k as int]@);
        let interval = &intervals[k];
        if interval.kind == IntervalKind::Recovery && interval.starts_at <= now && now
            < interval.ends_at {
            let later = match latest {
                Some(end) => interval.ends_at > end,
                None => true,
            };
            if later {
                latest = Some(interval.ends_at);
            }
        }
    }
    latest
}

fn latest_end(episodes: &Vec<Episode>, now: Timestamp) -> (r: Option<Timestamp>)
    ensures
        match r {
            Some(end) => end <= now && (exists|k: int|
                0 <= k < episodes@.len() && (#[trigger] episodes@[k]).ends_at == end) && forall|
                k: int,
            |
                0 <= k < episodes@.len() && (#[trigger] episodes@[k]).ends_at <= now
                    ==> episodes@[k].ends_at <= end,
            None => forall|k: int|
                0 <= k < episodes@.len() ==> (#[trigger] episodes@[k]).ends_at > now,
        },
{
    let mut latest: Option<Timestamp> = None;
    for i in 0..episodes.len()
        invariant
            match latest {
                Some(end) => end <= now && (exists|k: int|
                    0 <= k < i && (#[trigger] episodes@[k]).ends_at == end) && forall|k: int|
                    0 <= k < i && (#[trigger] episodes@[k]).ends_at <= now ==> episodes@[k].ends_at
                        <= end,
                None => forall|k: int| 0 <= k < i ==> (#[trigger] episodes@[k]).ends_at > now,
            },
    {
        let ends_at = episodes[i].ends_at;
        if ends_at <= now {
            let later = match latest {
                Some(end) => ends_at > end,
                None => true,
            };
            if later {
                latest = Some(ends_at);
            }
        }
    }
    latest
}

/// The fact that a listed span belongs to.
proof fn lemma_fact_of_span(facts: Seq<PaidFact>, spans: Seq<Span>, k: int) -> (i: int)
    requires
        forall|span: Span| #[trigger] spans.contains(span) <==> eligible_span(facts, span),
        0 <= k < spans.len(),
    ensures
        0 <= i < facts.len(),
        span_of(facts[i], spans[k]),
{
    assert(spans.contains(spans[k]));
    assert(eligible_span(facts, spans[k]));
    choose|i: int| 0 <= i < facts.len() && span_of(#[trigger] facts[i], spans[k])
}

/// Where a span of a fact is listed.
proof fn lemma_place_of_span(facts: Seq<PaidFact>, spans: Seq<Span>, i: int, span: Span) -> (k: int)
    requires
        forall|span: Span| #[trigger] spans.contains(span) <==> eligible_span(facts, span),
        0 <= i < facts.len(),
        span_of(facts[i], span),
    ensures
        0 <= k < spans.len(),
        spans[k] == span,
{
    assert(eligible_span(facts, span));
    assert(spans.contains(span));
    choose|k: int| 0 <= k < spans.len() && spans[k] == span
}

/// The spans of valid facts tell at which instants the facts are paid for, recover and end.
proof fn lemma_spans_tell_times(facts: Seq<PaidFact>, spans: Seq<Span>)
    requires
        spans_in_order(spans),
        forall|span: Span| #[trigger] spans.contains(span) <==> eligible_span(facts, span),
        forall|k: int|
            0 <= k < facts.len() ==> (#[trigger] facts[k]).starts_at < facts[k].paid_until && (
            facts[k].failed_renewal_id is Some ==> facts[k].paid_until + RENEWAL_RECOVERY_SECONDS
                <= i64::MAX),
    ensures
        spans_ascend(spans),
        forall|t: int| #[trigger] paid_at(facts, t) <==> paid_span_at(spans, t),
        forall|t: int, end: int| #[trigger]
            recovery_ending(facts, t, end) <==> recovery_span_ending(spans, t, end),
        forall|t: int| #[trigger] eligible_at(facts, t) <==> spans_cover(spans, t),
        forall|end: int| #[trigger] span_end(facts, end) <==> some_span_ends(spans, end),
{
    assert forall|k: int| 0 <= k < spans.len() implies (#[trigger] spans[k]).starts_at
        < spans[k].ends_at by {
        let i = lemma_fact_of_span(facts, spans, k);
    }
    assert forall|j: int, k: int| 0 <= j < k < spans.len() implies (#[trigger] spans[j]).starts_at
        <= (#[trigger] spans[k]).starts_at by {
        assert(span_before(spans[j], spans[k]));
    }
    assert forall|t: int| #[trigger] paid_at(facts, t) <==> paid_span_at(spans, t) by {
        if paid_at(facts, t) {
            let i = choose|i: int|
                0 <= i < facts.len() && (#[trigger] facts[i]).starts_at <= t < facts[i].paid_until;
            let k = lemma_place_of_span(facts, spans, i, paid_span(facts[i]));
        }
        if paid_span_at(spans, t) {
            let k = choose|k: int|
                0 <= k < spans.len() && (#[trigger] spans[k]).kind == IntervalKind::Paid
                    && spans[k].starts_at <= t < spans[k].ends_at;
            let i = lemma_fact_of_span(facts, spans, k);
            assert(facts[i].starts_at <= t < facts[i].paid_until);
        }
    }
    assert forall|t: int, end: int| #[trigger]
        recovery_ending(facts, t, end) <==> recovery_span_ending(spans, t, end) by {
        if recovery_ending(facts, t, end) {
            let i = choose|i: int|
                0 <= i < facts.len() && (#[trigger] facts[i]).failed_renewal_id is Some
                    && facts[i].paid_until <= t < end && end == facts[i].paid_until
                    + RENEWAL_RECOVERY_SECONDS;
            let k = lemma_place_of_span(facts, spans, i, recovery_span(facts[i]));
        }
        if recovery_span_ending(spans, t, end) {
            let k = choose|k: int|
                0 <= k < spans.len() && (#[trigger] spans[k]).kind == IntervalKind::Recovery
                    && spans[k].starts_at <= t < end && spans[k].ends_at == end;
            let i = lemma_fact_of_span(facts, spans, k);
            assert(facts[i].failed_renewal_id is Some);
        }
    }
    assert forall|t: int| #[trigger] eligible_at(facts, t) <==> spans_cover(spans, t) by {
        if paid_at(facts, t) {
            assert(paid_span_at(spans, t));
        } else if recovering_at(facts, t) {
            let end = choose|end: int| recovery_ending(facts, t, end);
            assert(recovery_span_ending(spans, t, end));
        }
        if spans_cover(spans, t) {
            let k = choose|k: int|
                0 <= k < spans.len() && (#[trigger] spans[k]).starts_at <= t < spans[k].ends_at;
            if spans[k].kind == IntervalKind::Paid {
                assert(paid_span_at(spans, t));
                assert(paid_at(facts, t));
            } else {
                assert(recovery_span_ending(spans, t, spans[k].ends_at as int));
                assert(recovery_ending(facts, t, spans[k].ends_at as int));
            }
        }
    }
    assert forall|end: int| #[trigger] span_end(facts, end) <==> some_span_ends(spans, end) by {
        if span_end(facts, end) {
            let i = choose|i: int|
                0 <= i < facts.len() && (end == (#[trigger] facts[i]).paid_until || (
                facts[i].failed_renewal_id is Some && end == facts[i].paid_until
                    + RENEWAL_RECOVERY_SECONDS));
            if end == facts[i].paid_until {
                let k = lemma_place_of_span(facts, spans, i, paid_span(facts[i]));
            } else {
                let k = lemma_place_of_span(facts, spans, i, recovery_span(facts[i]));
            }
        }
        if some_span_ends(spans, end) {
            let k = choose|k: int| 0 <= k < spans.len() && (#[trigger] spans[k]).ends_at == end;
            let i = lemma_fact_of_span(facts, spans, k);
        }
    }
}

/// The episode that contains `now` ends where eligibility next ends.
proof fn lemma_current_episode(
    facts: Seq<PaidFact>,
    spans: Seq<Span>,
    runs: Seq<Episode>,
    k: int,
    now: int,
)
    requires
        episodes_apart(runs),
        forall|t: int| #[trigger] episodes_cover(runs, t) <==> spans_cover(spans, t),
        forall|t: int| #[trigger] eligible_at(facts, t) <==> spans_cover(spans, t),
        0 <= k < runs.len(),
        runs[k].starts_at <= now < runs[k].ends_at,
    ensures
        eligible_at(facts, now),
        episode_end(facts, now, runs[k].ends_at as int),
{
    let end = runs[k].ends_at as int;
    assert forall|t: int| now <= t < end implies #[trigger] eligible_at(facts, t) by {
        assert(episodes_cover(runs, t));
    }
    assert(eligible_at(facts, now));
    if eligible_at(facts, end) {
        assert(episodes_cover(runs, end));
        let j = choose|j: int|
            0 <= j < runs.len() && (#[trigger] runs[j]).starts_at <= end < runs[j].ends_at;
        if j < k {
            assert(runs[j].ends_at < runs[k].starts_at);
        } else if k < j {
            assert(runs[k].ends_at < runs[j].starts_at);
        }
        assert(false);
    }
}

/// A span that ended by an instant that no episode contains lies in an episode that ended too.
proof fn lemma_ended_span_in_episode(
    facts: Seq<PaidFact>,
    spans: Seq<Span>,
    runs: Seq<Episode>,
    now: int,
    end: int,
)
    requires
        spans_ascend(spans),
        forall|t: int| #[trigger] episodes_cover(runs, t) <==> spans_cover(spans, t),
        forall|e: int| #[trigger] span_end(facts, e) <==> some_span_ends(spans, e),
        !episodes_cover(runs, now),
        span_end(facts, end),
        end <= now,
    ensures
        exists|k: int|
            0 <= k < runs.len() && end <= (#[trigger] runs[k]).ends_at && runs[k].ends_at <= now,
{
    assert(some_span_ends(spans, end));
    let j = choose|j: int| 0 <= j < spans.len() && (#[trigger] spans[j]).ends_at == end;
    assert(spans[j].starts_at <= end - 1 < spans[j].ends_at);
    assert(spans_cover(spans, end - 1));
    assert(episodes_cover(runs, end - 1));
    let k = choose|k: int|
        0 <= k < runs.len() && (#[trigger] runs[k]).starts_at <= end - 1 < runs[k].ends_at;
    if runs[k].ends_at > now {
        assert(runs[k].starts_at <= now < runs[k].ends_at);
        assert(false);
    }
}

/// The latest end of the episodes up to `now` is the latest end of the spans up to `now`.
proof fn lemma_last_ended_episode(
    facts: Seq<PaidFact>,
    spans: Seq<Span>,
    runs: Seq<Episode>,
    now: int,
    end: int,
)
    requires
        spans_ascend(spans),
        episodes_apart(runs),
        forall|t: int| #[trigger] episodes_cover(runs, t) <==> spans_cover(spans, t),
        forall|t: int| #[trigger] eligible_at(facts, t) <==> spans_cover(spans, t),
        forall|e: int| #[trigger] span_end(facts, e) <==> some_span_ends(spans, e),
        !episodes_cover(runs, now),
        end <= now,
        exists|k: int| 0 <= k < runs.len() && (#[trigger] runs[k]).ends_at == end,
        forall|k: int|
            0 <= k < runs.len() && (#[trigger] runs[k]).ends_at <= now ==> runs[k].ends_at <= end,
    ensures
        last_span_end(facts, now, end),
{
    let k = choose|k: int| 0 <= k < runs.len() && (#[trigger] runs[k]).ends_at == end;
    assert(runs[k].starts_at <= end - 1 < runs[k].ends_at);
    lemma_current_episode(facts, spans, runs, k, end - 1);
    assert(spans_cover(spans, end - 1));
    let j = choose|j: int|
        0 <= j < spans.len() && (#[trigger] spans[j]).starts_at <= end - 1 < spans[j].ends_at;
    assert(!spans_cover(spans, end));
    if spans[j].ends_at > end {
        assert(spans[j].starts_at <= end < spans[j].ends_at);
        assert(false);
    }
    assert(some_span_ends(spans, end));
    assert forall|e: int| #[trigger] span_end(facts, e) && e <= now implies e <= end by {
        lemma_ended_span_in_episode(facts, spans, runs, now, e);
    }
}

} // verus!
