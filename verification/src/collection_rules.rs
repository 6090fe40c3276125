//! How the observations of one collection combine into a projection.

use crate::cloud_coverage::{Coverage, PaidFact};
use crate::cloud_coverage_reconciliation::{Binding, Collected, Observation, ReconciliationFault};
use crate::cloud_coverage_store::{Projection, UnavailableReason};
use crate::coverage_facts::{canonical, fault};
use crate::ordered::{arranged, lemma_concat_members, same_members};
use crate::text::blank;
use vstd::prelude::*;

verus! {

/// Whether one of the facts has an identity.
pub open spec fn identity_taken(facts: Seq<PaidFact>, coverage_id: Seq<char>) -> bool {
    exists|fact: PaidFact| #[trigger] facts.contains(fact) && fact.coverage_id == coverage_id
}

/// Whether one of the facts carries a failed renewal.
pub open spec fn renewal_taken(facts: Seq<PaidFact>, renewal_id: Seq<char>) -> bool {
    exists|fact: PaidFact| #[trigger]
        facts.contains(fact) && fact.failed_renewal_id == Some(renewal_id)
}

/// Why a fact that a source reports cannot join the facts gathered before it.
pub open spec fn provenance_fault(
    earlier: Seq<PaidFact>,
    fact: PaidFact,
    source_id: Seq<char>,
) -> Option<Seq<char>> {
    if fact.source_id != source_id {
        Some("coverage fact source_id does not match its registered source"@)
    } else if identity_taken(earlier, fact.coverage_id) {
        Some("coverage_id appears in multiple sources"@)
    } else if fact.failed_renewal_id matches Some(renewal_id) && renewal_taken(
        earlier,
        renewal_id,
    ) {
        Some("failed_renewal_id appears in multiple sources"@)
    } else {
        None
    }
}

/// Why the first `n` facts that a source reports cannot all join the facts gathered before them.
pub open spec fn first_provenance_fault(
    earlier: Seq<PaidFact>,
    facts: Seq<PaidFact>,
    n: int,
    source_id: Seq<char>,
) -> Option<Seq<char>>
    decreases n,
{
    if n <= 0 {
        None
    } else {
        match first_provenance_fault(earlier, facts, n - 1, source_id) {
            Some(message) => Some(message),
            None => provenance_fault(earlier + facts.take(n - 1), facts[n - 1], source_id),
        }
    }
}

/// The facts that an observation reports, in canonical order.
pub open spec fn reported(observation: Observation) -> Seq<PaidFact> {
    match observation.result {
        Projection::Complete { facts } => canonical(facts),
        Projection::Unavailable { .. } => Seq::empty(),
    }
}

/// The facts that the first `n` observations report.
pub open spec fn gathered(observations: Seq<Observation>, n: int) -> Seq<PaidFact>
    decreases n,
{
    if n <= 0 {
        Seq::empty()
    } else {
        gathered(observations, n - 1) + reported(observations[n - 1])
    }
}

/// Whether a source is among the bindings.
pub open spec fn is_bound(bindings: Seq<Binding>, source_id: Seq<char>) -> bool {
    exists|k: int| 0 <= k < bindings.len() && (#[trigger] bindings[k]).source_id == source_id
}

/// Whether an earlier observation is of the same source as observation `i`.
pub open spec fn is_repeated(observations: Seq<Observation>, i: int) -> bool {
    exists|j: int|
        0 <= j < i && (#[trigger] observations[j]).source_id == observations[i].source_id
}

/// Why observation `i` is refused, given the observations before it.
pub open spec fn observation_fault(
    beneficiary_id: Seq<char>,
    bindings: Seq<Binding>,
    observations: Seq<Observation>,
    i: int,
) -> Option<ReconciliationFault> {
    let observation = observations[i];
    if blank(observation.evidence_reference) || !is_bound(bindings, observation.source_id)
        || is_repeated(observations, i) {
        Some(ReconciliationFault::SourceBatchMismatch)
    } else {
        match observation.result {
            Projection::Unavailable { .. } => None,
            Projection::Complete { facts } => match fault(Coverage { beneficiary_id, facts }) {
                Some(f) => Some(ReconciliationFault::InvalidObservation(f)),
                None => match first_provenance_fault(
                    gathered(observations, i),
                    canonical(facts),
                    canonical(facts).len() as int,
                    observation.source_id,
                ) {
                    Some(message) => Some(ReconciliationFault::SourceObservationConflict(message)),
                    None => None,
                },
            },
        }
    }
}

/// Why the first refused one of the first `n` observations is refused.
pub open spec fn first_observation_fault(
    beneficiary_id: Seq<char>,
    bindings: Seq<Binding>,
    observations: Seq<Observation>,
    n: int,
) -> Option<ReconciliationFault>
    decreases n,
{
    if n <= 0 {
        None
    } else {
        match first_observation_fault(beneficiary_id, bindings, observations, n - 1) {
            Some(f) => Some(f),
            None => observation_fault(beneficiary_id, bindings, observations, n - 1),
        }
    }
}

/// An observation in canonical form.
pub open spec fn canonical_observation(observation: Observation) -> Observation {
    match observation.result {
        Projection::Complete { facts } => Observation {
            result: Projection::Complete { facts: canonical(facts) },
            ..observation
        },
        Projection::Unavailable { .. } => observation,
    }
}

/// Observations in canonical form, in their order.
pub open spec fn canonical_observations(observations: Seq<Observation>) -> Seq<Observation> {
    observations.map_values(|o: Observation| canonical_observation(o))
}

/// The identity by which observations are ordered.
pub open spec fn observed_source() -> spec_fn(Observation) -> Seq<char> {
    |observation: Observation| observation.source_id
}

/// Whether one of the observations is unavailable for a reason.
pub open spec fn some_unavailable(
    observations: Seq<Observation>,
    reason: UnavailableReason,
) -> bool {
    exists|k: int|
        0 <= k < observations.len() && (#[trigger] observations[k]).result
            == (Projection::Unavailable { reason })
}

/// Why the observations give no complete projection, if they do not. Conflicting evidence is
/// reported before anything else.
pub open spec fn combined_reason(observations: Seq<Observation>) -> Option<UnavailableReason> {
    if some_unavailable(observations, UnavailableReason::ConflictingEvidence) {
        Some(UnavailableReason::ConflictingEvidence)
    } else if some_unavailable(observations, UnavailableReason::NeedsReconciliation) {
        Some(UnavailableReason::NeedsReconciliation)
    } else {
        None
    }
}

/// The projection that accepted observations give.
pub open spec fn combined(observations: Seq<Observation>) -> Projection {
    match combined_reason(observations) {
        Some(reason) => Projection::Unavailable { reason },
        None => Projection::Complete {
            facts: canonical(gathered(observations, observations.len() as int)),
        },
    }
}

/// The result of accepted observations that is stored.
pub open spec fn collected(
    observations: Seq<Observation>,
    aggregate_evidence_reference: Seq<char>,
) -> Collected {
    Collected {
        aggregate_evidence_reference,
        sources: arranged(canonical_observations(observations), observed_source()),
    }
}

/// How one batch of observations of a source set is answered.
pub open spec fn collection(
    beneficiary_id: Seq<char>,
    bindings: Seq<Binding>,
    observations: Seq<Observation>,
    aggregate_evidence_reference: Seq<char>,
) -> Result<(Collected, Projection), ReconciliationFault> {
    if observations.len() != bindings.len() {
        Err(ReconciliationFault::SourceBatchMismatch)
    } else {
        match first_observation_fault(
            beneficiary_id,
            bindings,
            observations,
            observations.len() as int,
        ) {
            Some(f) => Err(f),
            None => Ok(
                (collected(observations, aggregate_evidence_reference), combined(observations)),
            ),
        }
    }
}

/// What can join the gathered facts depends on which facts there are, not on their order.
pub proof fn lemma_provenance_members(
    a: Seq<PaidFact>,
    b: Seq<PaidFact>,
    facts: Seq<PaidFact>,
    n: int,
    source_id: Seq<char>,
)
    requires
        same_members(a, b),
        n <= facts.len(),
    ensures
        first_provenance_fault(a, facts, n, source_id) == first_provenance_fault(
            b,
            facts,
            n,
            source_id,
        ),
    decreases n,
{
    if n > 0 {
        lemma_provenance_members(a, b, facts, n - 1, source_id);
        let x = a + facts.take(n - 1);
        let y = b + facts.take(n - 1);
        lemma_concat_members(a, facts.take(n - 1));
        lemma_concat_members(b, facts.take(n - 1));
        assert(same_members(x, y));
        let fact = facts[n - 1];
        assert(identity_taken(x, fact.coverage_id) == identity_taken(y, fact.coverage_id));
        if let Some(renewal_id) = fact.failed_renewal_id {
            assert(renewal_taken(x, renewal_id) == renewal_taken(y, renewal_id));
        }
    }
}

/// Once a fact cannot join, its fault is that of every longer prefix.
pub proof fn lemma_provenance_persists(
    earlier: Seq<PaidFact>,
    facts: Seq<PaidFact>,
    i: int,
    n: int,
    source_id: Seq<char>,
)
    requires
        i <= n,
        first_provenance_fault(earlier, facts, i, source_id) is Some,
    ensures
        first_provenance_fault(earlier, facts, n, source_id) == first_provenance_fault(
            earlier,
            facts,
            i,
            source_id,
        ),
    decreases n - i,
{
    if i < n {
        lemma_provenance_persists(earlier, facts, i, n - 1, source_id);
    }
}

/// Once an observation is refused, its fault is that of every longer prefix.
pub proof fn lemma_observation_fault_persists(
    beneficiary_id: Seq<char>,
    bindings: Seq<Binding>,
    observations: Seq<Observation>,
    i: int,
    n: int,
)
    requires
        i <= n,
        first_observation_fault(beneficiary_id, bindings, observations, i) is Some,
    ensures
        first_observation_fault(beneficiary_id, bindings, observations, n)
            == first_observation_fault(beneficiary_id, bindings, observations, i),
    decreases n - i,
{
    if i < n {
        lemma_observation_fault_persists(beneficiary_id, bindings, observations, i, n - 1);
    }
}

} // verus!
