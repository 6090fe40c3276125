//! How the observations of a collection are answered, said of the observations themselves.

use crate::cloud_coverage::{Coverage, PaidFact};
use crate::cloud_coverage_reconciliation::{Binding, Collected, Observation, ReconciliationFault};
use crate::cloud_coverage_store::{Projection, UnavailableReason};
use crate::collection_laws::{
    acceptable, apart, compatible, lemma_accepted, lemma_gathered_identities,
    lemma_gathered_members, lemma_identities_of_canonical, lemma_observation_accepted,
};
use crate::collection_rules::{
    canonical_observation, canonical_observations, collection, first_observation_fault,
    first_provenance_fault, gathered, identity_taken, is_bound, is_repeated, observation_fault,
    observed_source, provenance_fault, renewal_taken, reported, some_unavailable,
};
use crate::coverage_facts::{canonical, fact_id, fault};
use crate::coverage_laws::{lemma_canonical_of_faultless, lemma_pairwise};
use crate::ordered::{arranged, lemma_arranged_exists, lemma_concat_members, lemma_take_members};
use crate::text::{before, before_irreflexive, before_transitive, blank};
use vstd::prelude::*;

verus! {

/// The facts that an observation carries.
pub open spec fn facts_in(observation: Observation) -> Seq<PaidFact> {
    match observation.result {
        Projection::Complete { facts } => facts,
        Projection::Unavailable { .. } => Seq::empty(),
    }
}

/// Whether a source is one of the source set.
pub open spec fn is_registered(bindings: Seq<Binding>, source_id: Seq<char>) -> bool {
    exists|k: int| 0 <= k < bindings.len() && (#[trigger] bindings[k]).source_id == source_id
}

/// Whether an observation can be accepted by itself: it has evidence, it is of a registered source,
/// and the facts that it carries are sound, agree and are that source's.
pub open spec fn is_admissible(
    beneficiary_id: Seq<char>,
    bindings: Seq<Binding>,
    observation: Observation,
) -> bool {
    &&& !blank(observation.evidence_reference)
    &&& is_registered(bindings, observation.source_id)
    &&& observation.result is Complete ==> fault(
        Coverage { beneficiary_id, facts: facts_in(observation) },
    ) is None
    &&& forall|fact: PaidFact| #[trigger]
        facts_in(observation).contains(fact) ==> fact.source_id == observation.source_id
}

/// Whether two observations can be accepted together: they are of two sources, and no fact or
/// failed renewal is in both.
pub open spec fn are_independent(a: Observation, b: Observation) -> bool {
    &&& a.source_id != b.source_id
    &&& forall|x: PaidFact, y: PaidFact|
        #![trigger facts_in(a).contains(x), facts_in(b).contains(y)]
        facts_in(a).contains(x) && facts_in(b).contains(y) ==> x.coverage_id != y.coverage_id && !(
        x.failed_renewal_id is Some && x.failed_renewal_id == y.failed_renewal_id)
}

/// What an acceptable observation reports are the facts that it carries.
proof fn lemma_reported(beneficiary_id: Seq<char>, observation: Observation)
    requires
        observation.result is Complete ==> fault(
            Coverage { beneficiary_id, facts: facts_in(observation) },
        ) is None,
    ensures
        forall|fact: PaidFact| #[trigger]
            reported(observation).contains(fact) <==> facts_in(observation).contains(fact),
        forall|fact: PaidFact| #[trigger]
            facts_in(observation).contains(fact) <==> reported(observation).contains(fact),
        forall|i: int, j: int|
            0 <= i < j < reported(observation).len() ==> before(
                (#[trigger] reported(observation)[i]).coverage_id,
                (#[trigger] reported(observation)[j]).coverage_id,
            ),
{
    if observation.result is Complete {
        lemma_canonical_of_faultless(facts_in(observation));
    }
}

proof fn lemma_acceptable(
    beneficiary_id: Seq<char>,
    bindings: Seq<Binding>,
    observation: Observation,
)
    ensures
        acceptable(beneficiary_id, bindings, observation) <==> is_admissible(
            beneficiary_id,
            bindings,
            observation,
        ),
{
    assert(is_bound(bindings, observation.source_id) == is_registered(
        bindings,
        observation.source_id,
    ));
    if observation.result is Complete ==> fault(
        Coverage { beneficiary_id, facts: facts_in(observation) },
    ) is None {
        lemma_reported(beneficiary_id, observation);
    }
}

proof fn lemma_compatible(
    beneficiary_id: Seq<char>,
    bindings: Seq<Binding>,
    a: Observation,
    b: Observation,
)
    requires
        is_admissible(beneficiary_id, bindings, a),
        is_admissible(beneficiary_id, bindings, b),
    ensures
        compatible(a, b) <==> are_independent(a, b),
{
    lemma_reported(beneficiary_id, a);
    lemma_reported(beneficiary_id, b);
    if compatible(a, b) {
        assert forall|x: PaidFact, y: PaidFact|
            #![trigger facts_in(a).contains(x), facts_in(b).contains(y)]
            facts_in(a).contains(x) && facts_in(b).contains(y) implies x.coverage_id
            != y.coverage_id && !(x.failed_renewal_id is Some && x.failed_renewal_id
            == y.failed_renewal_id) by {
            assert(reported(a).contains(x) && reported(b).contains(y));
            assert(apart(x, y));
        }
    }
    if are_independent(a, b) {
        assert forall|x: PaidFact, y: PaidFact|
            #![trigger reported(a).contains(x), reported(b).contains(y)]
            reported(a).contains(x) && reported(b).contains(y) implies apart(x, y) by {
            assert(facts_in(a).contains(x) && facts_in(b).contains(y));
        }
    }
}

/// A batch of observations is accepted exactly if there are as many as there are sources, each is
/// admissible, and any two are independent.
pub proof fn law_batches_are_accepted_if_admissible_and_independent(
    beneficiary_id: Seq<char>,
    bindings: Seq<Binding>,
    observations: Seq<Observation>,
    aggregate_evidence_reference: Seq<char>,
)
    ensures
        collection(beneficiary_id, bindings, observations, aggregate_evidence_reference) is Ok
            <==> {
            &&& observations.len() == bindings.len()
            &&& forall|i: int|
                0 <= i < observations.len() ==> is_admissible(
                    beneficiary_id,
                    bindings,
                    #[trigger] observations[i],
                )
            &&& forall|i: int, j: int|
                0 <= i < observations.len() && 0 <= j < observations.len() && i != j
                    ==> are_independent(#[trigger] observations[i], #[trigger] observations[j])
        },
{
    lemma_accepted(beneficiary_id, bindings, observations);
    assert forall|i: int| 0 <= i < observations.len() implies acceptable(
        beneficiary_id,
        bindings,
        #[trigger] observations[i],
    ) == is_admissible(beneficiary_id, bindings, observations[i]) by {
        lemma_acceptable(beneficiary_id, bindings, observations[i]);
    }
    if forall|i: int|
        0 <= i < observations.len() ==> is_admissible(
            beneficiary_id,
            bindings,
            #[trigger] observations[i],
        ) {
        assert forall|i: int, j: int|
            0 <= i < observations.len() && 0 <= j < observations.len() && i != j implies compatible(
            #[trigger] observations[i],
            #[trigger] observations[j],
        ) == are_independent(observations[i], observations[j]) by {
            lemma_compatible(beneficiary_id, bindings, observations[i], observations[j]);
        }
    }
}

/// Whether an observation is unavailable for a reason.
pub open spec fn is_unavailable(observation: Observation, reason: UnavailableReason) -> bool {
    observation.result == (Projection::Unavailable { reason })
}

/// Whether facts stand in strictly ascending byte order of their identities.
pub open spec fn are_ascending(facts: Seq<PaidFact>) -> bool {
    forall|i: int, j: int|
        0 <= i < j < facts.len() ==> before(
            (#[trigger] facts[i]).coverage_id,
            (#[trigger] facts[j]).coverage_id,
        )
}

/// Whether `entry` says of a source what `observation` does, with its facts in order and once each.
pub open spec fn restates(entry: Observation, observation: Observation) -> bool {
    &&& entry.source_id == observation.source_id
    &&& entry.evidence_reference == observation.evidence_reference
    &&& match observation.result {
        Projection::Unavailable { reason } => is_unavailable(entry, reason),
        Projection::Complete { facts } => {
            &&& entry.result is Complete
            &&& are_ascending(facts_in(entry))
            &&& forall|fact: PaidFact| #[trigger]
                facts_in(entry).contains(fact) <==> facts.contains(fact)
        },
    }
}

/// What an accepted batch publishes.
///
/// Conflicting evidence is published exactly if some source reports conflicting evidence. Otherwise
/// coverage needs reconciliation exactly if some source is unavailable. Otherwise it is complete,
/// and holds exactly the facts of all sources, in order and once each.
pub proof fn law_accepted_batches_combine_all_sources(
    beneficiary_id: Seq<char>,
    bindings: Seq<Binding>,
    observations: Seq<Observation>,
    aggregate_evidence_reference: Seq<char>,
)
    requires
        collection(beneficiary_id, bindings, observations, aggregate_evidence_reference) is Ok,
    ensures
        ({
            let projection = collection(
                beneficiary_id,
                bindings,
                observations,
                aggregate_evidence_reference,
            )->Ok_0.1;
            let conflicting = exists|i: int|
                0 <= i < observations.len() && is_unavailable(
                    #[trigger] observations[i],
                    UnavailableReason::ConflictingEvidence,
                );
            let unavailable = exists|i: int|
                0 <= i < observations.len() && (#[trigger] observations[i]).result is Unavailable;
            &&& conflicting ==> projection == (Projection::Unavailable {
                reason: UnavailableReason::ConflictingEvidence,
            })
            &&& unavailable && !conflicting ==> projection == (Projection::Unavailable {
                reason: UnavailableReason::NeedsReconciliation,
            })
            &&& !unavailable ==> {
                &&& projection matches Projection::Complete { facts }
                &&& are_ascending(facts)
                &&& forall|fact: PaidFact| #[trigger]
                    facts.contains(fact) <==> exists|i: int|
                        0 <= i < observations.len() && facts_in(
                            #[trigger] observations[i],
                        ).contains(fact)
            }
        }),
{
    let b = beneficiary_id;
    let n = observations.len() as int;
    let conflicting = exists|i: int|
        0 <= i < n && is_unavailable(
            #[trigger] observations[i],
            UnavailableReason::ConflictingEvidence,
        );
    let unavailable = exists|i: int|
        0 <= i < n && (#[trigger] observations[i]).result is Unavailable;
    law_batches_are_accepted_if_admissible_and_independent(
        b,
        bindings,
        observations,
        aggregate_evidence_reference,
    );
    lemma_accepted(b, bindings, observations);
    assert(conflicting == some_unavailable(observations, UnavailableReason::ConflictingEvidence));
    if unavailable && !conflicting {
        let i = choose|i: int| 0 <= i < n && (#[trigger] observations[i]).result is Unavailable;
        let reason = observations[i].result->reason;
        assert(is_unavailable(observations[i], reason));
        assert(reason == UnavailableReason::NeedsReconciliation);
        assert(some_unavailable(observations, UnavailableReason::NeedsReconciliation));
    }
    if !unavailable {
        let all = gathered(observations, n);
        let facts = canonical(all);
        lemma_gathered_identities(b, bindings, observations);
        lemma_arranged_exists(all, fact_id());
        assert forall|fact: PaidFact| #[trigger] facts.contains(fact) <==> exists|i: int|
            0 <= i < n && facts_in(#[trigger] observations[i]).contains(fact) by {
            lemma_gathered_members(observations, n, fact);
            if all.contains(fact) {
                let i = choose|i: int|
                    0 <= i < n && reported(#[trigger] observations[i]).contains(fact);
                lemma_reported(b, observations[i]);
                assert(facts_in(observations[i]).contains(fact));
            }
            if exists|i: int| 0 <= i < n && facts_in(#[trigger] observations[i]).contains(fact) {
                let i = choose|i: int|
                    0 <= i < n && facts_in(#[trigger] observations[i]).contains(fact);
                assert(is_admissible(b, bindings, observations[i]));
                lemma_reported(b, observations[i]);
                assert(reported(observations[i]).contains(fact));
            }
        }
    }
}

/// Whether one of the entries restates an observation.
pub open spec fn is_restated(observation: Observation, entries: Seq<Observation>) -> bool {
    exists|j: int| 0 <= j < entries.len() && restates(#[trigger] entries[j], observation)
}

/// Whether an entry restates one of the observations.
pub open spec fn is_restatement(entry: Observation, observations: Seq<Observation>) -> bool {
    exists|i: int| 0 <= i < observations.len() && restates(entry, #[trigger] observations[i])
}

/// What is stored of an accepted batch: the evidence of the whole, and for each observation exactly
/// one entry that restates it, in strictly ascending byte order of the sources.
pub proof fn law_results_restate_every_observation(
    beneficiary_id: Seq<char>,
    bindings: Seq<Binding>,
    observations: Seq<Observation>,
    aggregate_evidence_reference: Seq<char>,
)
    requires
        collection(beneficiary_id, bindings, observations, aggregate_evidence_reference) is Ok,
    ensures
        ({
            let result = collection(
                beneficiary_id,
                bindings,
                observations,
                aggregate_evidence_reference,
            )->Ok_0.0;
            &&& result.aggregate_evidence_reference == aggregate_evidence_reference
            &&& forall|i: int|
                0 <= i < observations.len() ==> is_restated(
                    #[trigger] observations[i],
                    result.sources,
                )
            &&& forall|j: int|
                0 <= j < result.sources.len() ==> is_restatement(
                    #[trigger] result.sources[j],
                    observations,
                )
            &&& forall|i: int, j: int|
                0 <= i < j < result.sources.len() ==> before(
                    (#[trigger] result.sources[i]).source_id,
                    (#[trigger] result.sources[j]).source_id,
                )
        }),
{
    let b = beneficiary_id;
    let n = observations.len() as int;
    let forms = canonical_observations(observations);
    let list = arranged(forms, observed_source());
    law_batches_are_accepted_if_admissible_and_independent(
        b,
        bindings,
        observations,
        aggregate_evidence_reference,
    );
    lemma_accepted(b, bindings, observations);
    lemma_identities_of_canonical(b, bindings, observations);
    lemma_arranged_exists(forms, observed_source());
    assert forall|i: int| 0 <= i < n implies restates(
        #[trigger] canonical_observation(observations[i]),
        observations[i],
    ) by {
        assert(is_admissible(b, bindings, observations[i]));
        lemma_reported(b, observations[i]);
    }
    assert forall|i: int| 0 <= i < n implies is_restated(#[trigger] observations[i], list) by {
        let form = canonical_observation(observations[i]);
        assert(forms[i] == form);
        assert(forms.contains(form));
        assert(list.contains(form));
        let j = choose|j: int| 0 <= j < list.len() && list[j] == form;
        assert(restates(list[j], observations[i]));
    }
    assert forall|j: int| 0 <= j < list.len() implies is_restatement(
        #[trigger] list[j],
        observations,
    ) by {
        assert(list.contains(list[j]));
        assert(forms.contains(list[j]));
        let i = choose|i: int| 0 <= i < forms.len() && forms[i] == list[j];
        assert(forms[i] == canonical_observation(observations[i]));
        assert(restates(list[j], observations[i]));
    }
    let result = collection(b, bindings, observations, aggregate_evidence_reference)->Ok_0.0;
    assert(result.sources == list);
    assert forall|i: int, j: int| 0 <= i < j < list.len() implies before(
        (#[trigger] list[i]).source_id,
        (#[trigger] list[j]).source_id,
    ) by {
        assert(before((observed_source())(list[i]), (observed_source())(list[j])));
    }
}

/// Whether a fact of a later observation of `source_id` can join those before observation `n`.
pub open spec fn can_join(
    observations: Seq<Observation>,
    n: int,
    fact: PaidFact,
    source_id: Seq<char>,
) -> bool {
    &&& fact.source_id == source_id
    &&& !is_known_fact(observations, n, fact.coverage_id)
    &&& fact.failed_renewal_id matches Some(renewal) ==> !is_known_renewal(observations, n, renewal)
}

/// Whether one of the first `n` observations carries a fact with an identity.
pub open spec fn is_known_fact(
    observations: Seq<Observation>,
    n: int,
    coverage_id: Seq<char>,
) -> bool {
    exists|j: int, x: PaidFact|
        0 <= j < n && #[trigger] facts_in(observations[j]).contains(x) && x.coverage_id
            == coverage_id
}

/// Whether one of the first `n` observations carries a failed renewal.
pub open spec fn is_known_renewal(
    observations: Seq<Observation>,
    n: int,
    renewal: Seq<char>,
) -> bool {
    exists|j: int, x: PaidFact|
        0 <= j < n && #[trigger] facts_in(observations[j]).contains(x) && x.failed_renewal_id
            == Some(renewal)
}

/// Whether a fault is that of observation `i`, of which nothing is wrong that is looked for
/// earlier. Of the facts that it carries, the first in byte order that cannot join those before
/// decides.
pub open spec fn is_refusal_of(
    f: ReconciliationFault,
    beneficiary_id: Seq<char>,
    bindings: Seq<Binding>,
    observations: Seq<Observation>,
    i: int,
) -> bool {
    let o = observations[i];
    let mismatched = blank(o.evidence_reference) || !is_registered(bindings, o.source_id)
        || exists|j: int| 0 <= j < i && (#[trigger] observations[j]).source_id == o.source_id;
    let invalid = o.result is Complete && fault(
        Coverage { beneficiary_id, facts: facts_in(o) },
    ) is Some;
    if mismatched {
        f == ReconciliationFault::SourceBatchMismatch
    } else if invalid {
        f == ReconciliationFault::InvalidObservation(
            fault(Coverage { beneficiary_id, facts: facts_in(o) })->0,
        )
    } else {
        exists|x: PaidFact|
            #![trigger facts_in(o).contains(x)]
            {
                &&& facts_in(o).contains(x)
                &&& forall|y: PaidFact| #[trigger]
                    facts_in(o).contains(y) && before(y.coverage_id, x.coverage_id) ==> can_join(
                        observations,
                        i,
                        y,
                        o.source_id,
                    )
                &&& f == ReconciliationFault::SourceObservationConflict(
                    if x.source_id != o.source_id {
                        "coverage fact source_id does not match its registered source"@
                    } else if is_known_fact(observations, i, x.coverage_id) {
                        "coverage_id appears in multiple sources"@
                    } else {
                        "failed_renewal_id appears in multiple sources"@
                    },
                )
                &&& !can_join(observations, i, x, o.source_id)
            }
    }
}

/// Whether each of some observations is admissible, and any two are independent.
pub open spec fn can_stand_together(
    beneficiary_id: Seq<char>,
    bindings: Seq<Binding>,
    observations: Seq<Observation>,
) -> bool {
    &&& forall|k: int|
        0 <= k < observations.len() ==> is_admissible(
            beneficiary_id,
            bindings,
            #[trigger] observations[k],
        )
    &&& forall|j: int, k: int|
        0 <= j < k < observations.len() ==> are_independent(
            #[trigger] observations[j],
            #[trigger] observations[k],
        )
}

/// A refused batch is refused for a reason that it has: there are more or fewer observations than
/// sources, or the fault is that of the first observation that cannot join those before it.
pub proof fn law_every_refusal_of_a_batch_has_its_cause(
    beneficiary_id: Seq<char>,
    bindings: Seq<Binding>,
    observations: Seq<Observation>,
    aggregate_evidence_reference: Seq<char>,
)
    ensures
        ({
            let answer = collection(
                beneficiary_id,
                bindings,
                observations,
                aggregate_evidence_reference,
            );
            &&& observations.len() != bindings.len() ==> answer == Err::<
                (Collected, Projection),
                ReconciliationFault,
            >(ReconciliationFault::SourceBatchMismatch)
            &&& observations.len() == bindings.len() && answer is Err ==> exists|i: int| #[trigger]
                is_refusal_of(answer->Err_0, beneficiary_id, bindings, observations, i) && 0 <= i
                    < observations.len() && can_stand_together(
                    beneficiary_id,
                    bindings,
                    observations.take(i),
                )
        }),
{
    let b = beneficiary_id;
    let n = observations.len() as int;
    if observations.len() == bindings.len() && collection(
        b,
        bindings,
        observations,
        aggregate_evidence_reference,
    ) is Err {
        let i = lemma_first_refused(b, bindings, observations, n);
        lemma_earlier_admissible(b, bindings, observations, i);
        let front = observations.take(i);
        assert(forall|k: int| 0 <= k < i ==> #[trigger] front[k] == observations[k]);
        assert(can_stand_together(b, bindings, front));
        lemma_refusal(b, bindings, observations, i);
        let f = collection(b, bindings, observations, aggregate_evidence_reference)->Err_0;
        assert(f == observation_fault(b, bindings, observations, i)->0);
        assert(is_refusal_of(f, b, bindings, observations, i));
    }
}

proof fn lemma_first_refused(
    beneficiary_id: Seq<char>,
    bindings: Seq<Binding>,
    observations: Seq<Observation>,
    n: int,
) -> (i: int)
    requires
        first_observation_fault(beneficiary_id, bindings, observations, n) is Some,
    ensures
        0 <= i < n,
        first_observation_fault(beneficiary_id, bindings, observations, i) is None,
        observation_fault(beneficiary_id, bindings, observations, i) == first_observation_fault(
            beneficiary_id,
            bindings,
            observations,
            n,
        ),
    decreases n,
{
    if first_observation_fault(beneficiary_id, bindings, observations, n - 1) is Some {
        lemma_first_refused(beneficiary_id, bindings, observations, n - 1)
    } else {
        n - 1
    }
}

proof fn lemma_earlier_admissible(
    beneficiary_id: Seq<char>,
    bindings: Seq<Binding>,
    observations: Seq<Observation>,
    n: int,
)
    requires
        0 <= n <= observations.len(),
        first_observation_fault(beneficiary_id, bindings, observations, n) is None,
    ensures
        forall|k: int|
            0 <= k < n ==> is_admissible(beneficiary_id, bindings, #[trigger] observations[k]),
        forall|j: int, k: int|
            0 <= j < k < n ==> are_independent(
                #[trigger] observations[j],
                #[trigger] observations[k],
            ),
    decreases n,
{
    if n > 0 {
        lemma_earlier_admissible(beneficiary_id, bindings, observations, n - 1);
        lemma_observation_accepted(beneficiary_id, bindings, observations, n - 1);
        lemma_acceptable(beneficiary_id, bindings, observations[n - 1]);
        assert forall|j: int| 0 <= j < n - 1 implies are_independent(
            #[trigger] observations[j],
            observations[n - 1],
        ) by {
            assert(compatible(observations[j], observations[n - 1]));
            lemma_compatible(beneficiary_id, bindings, observations[j], observations[n - 1]);
        }
    }
}

proof fn lemma_refusal(
    beneficiary_id: Seq<char>,
    bindings: Seq<Binding>,
    observations: Seq<Observation>,
    i: int,
)
    requires
        0 <= i < observations.len(),
        observation_fault(beneficiary_id, bindings, observations, i) is Some,
        forall|k: int|
            0 <= k < i ==> is_admissible(beneficiary_id, bindings, #[trigger] observations[k]),
    ensures
        is_refusal_of(
            observation_fault(beneficiary_id, bindings, observations, i)->0,
            beneficiary_id,
            bindings,
            observations,
            i,
        ),
{
    let o = observations[i];
    assert(is_bound(bindings, o.source_id) == is_registered(bindings, o.source_id));
    assert(is_repeated(observations, i) == exists|j: int|
        0 <= j < i && (#[trigger] observations[j]).source_id == o.source_id);
    if !blank(o.evidence_reference) && is_bound(bindings, o.source_id) && !is_repeated(
        observations,
        i,
    ) && o.result is Complete && fault(
        Coverage { beneficiary_id, facts: facts_in(o) },
    ) is None {
        let own = reported(o);
        let earlier = gathered(observations, i);
        lemma_reported(beneficiary_id, o);
        let m = lemma_first_unjoinable(earlier, own, own.len() as int, o.source_id);
        let x = own[m];
        assert(own.contains(x));
        assert(facts_in(o).contains(x));
        assert forall|k: int| 0 <= k <= m implies {
            &&& identity_taken(earlier + own.take(k), (#[trigger] own[k]).coverage_id)
                == is_known_fact(observations, i, own[k].coverage_id)
            &&& own[k].failed_renewal_id matches Some(renewal) ==> renewal_taken(
                earlier + own.take(k),
                renewal,
            ) == is_known_renewal(observations, i, renewal)
        } by {
            lemma_taken(beneficiary_id, bindings, observations, i, k);
        }
        assert forall|y: PaidFact| #[trigger]
            facts_in(o).contains(y) && before(y.coverage_id, x.coverage_id) implies can_join(
            observations,
            i,
            y,
            o.source_id,
        ) by {
            assert(own.contains(y));
            let k = choose|k: int| 0 <= k < own.len() && own[k] == y;
            if k >= m {
                if k > m {
                    assert(before(own[m].coverage_id, own[k].coverage_id));
                    before_transitive(x.coverage_id, y.coverage_id, x.coverage_id);
                }
                before_irreflexive(x.coverage_id);
            }
            assert(provenance_fault(earlier + own.take(k), own[k], o.source_id) is None);
        }
    }
}

proof fn lemma_first_unjoinable(
    earlier: Seq<PaidFact>,
    facts: Seq<PaidFact>,
    n: int,
    source_id: Seq<char>,
) -> (m: int)
    requires
        first_provenance_fault(earlier, facts, n, source_id) is Some,
    ensures
        0 <= m < n,
        provenance_fault(earlier + facts.take(m), facts[m], source_id) == first_provenance_fault(
            earlier,
            facts,
            n,
            source_id,
        ),
        forall|k: int|
            0 <= k < m ==> provenance_fault(
                earlier + facts.take(k),
                #[trigger] facts[k],
                source_id,
            ) is None,
    decreases n,
{
    if first_provenance_fault(earlier, facts, n - 1, source_id) is Some {
        lemma_first_unjoinable(earlier, facts, n - 1, source_id)
    } else {
        lemma_all_join(earlier, facts, n - 1, source_id);
        n - 1
    }
}

proof fn lemma_all_join(
    earlier: Seq<PaidFact>,
    facts: Seq<PaidFact>,
    n: int,
    source_id: Seq<char>,
)
    requires
        first_provenance_fault(earlier, facts, n, source_id) is None,
    ensures
        forall|k: int|
            0 <= k < n ==> provenance_fault(
                earlier + facts.take(k),
                #[trigger] facts[k],
                source_id,
            ) is None,
    decreases n,
{
    if n > 0 {
        lemma_all_join(earlier, facts, n - 1, source_id);
    }
}

/// What is taken when a fact is to join is what earlier observations carry: the facts of its own
/// observation before it share neither its identity nor its failed renewal.
proof fn lemma_taken(
    beneficiary_id: Seq<char>,
    bindings: Seq<Binding>,
    observations: Seq<Observation>,
    i: int,
    k: int,
)
    requires
        0 <= i < observations.len(),
        observations[i].result is Complete,
        fault(Coverage { beneficiary_id, facts: facts_in(observations[i]) }) is None,
        0 <= k < reported(observations[i]).len(),
        forall|j: int|
            0 <= j < i ==> is_admissible(beneficiary_id, bindings, #[trigger] observations[j]),
    ensures
        ({
            let own = reported(observations[i]);
            let so_far = gathered(observations, i) + own.take(k);
            &&& identity_taken(so_far, own[k].coverage_id) == is_known_fact(
                observations,
                i,
                own[k].coverage_id,
            )
            &&& own[k].failed_renewal_id matches Some(renewal) ==> renewal_taken(so_far, renewal)
                == is_known_renewal(observations, i, renewal)
        }),
{
    let o = observations[i];
    let own = reported(o);
    let fact = own[k];
    let earlier = gathered(observations, i);
    let so_far = earlier + own.take(k);
    lemma_reported(beneficiary_id, o);
    lemma_concat_members(earlier, own.take(k));
    lemma_take_members(own, k);
    assert(own.contains(fact));
    assert(facts_in(o).contains(fact));
    assert forall|x: PaidFact| #[trigger] own.take(k).contains(x) implies x.coverage_id
        != fact.coverage_id && !(fact.failed_renewal_id is Some && x.failed_renewal_id
        == fact.failed_renewal_id) by {
        let m = choose|m: int| 0 <= m < k && #[trigger] own[m] == x;
        assert(own.contains(x));
        assert(facts_in(o).contains(x));
        assert(before(own[m].coverage_id, own[k].coverage_id));
        before_irreflexive(fact.coverage_id);
        lemma_pairwise(facts_in(o), x, fact);
    }
    assert forall|x: PaidFact| #[trigger] earlier.contains(x) <==> exists|j: int|
        0 <= j < i && #[trigger] facts_in(observations[j]).contains(x) by {
        lemma_gathered_members(observations, i, x);
        if earlier.contains(x) {
            let j = choose|j: int| 0 <= j < i && reported(#[trigger] observations[j]).contains(x);
            lemma_reported(beneficiary_id, observations[j]);
            assert(facts_in(observations[j]).contains(x));
        }
        if exists|j: int| 0 <= j < i && #[trigger] facts_in(observations[j]).contains(x) {
            let j = choose|j: int| 0 <= j < i && #[trigger] facts_in(observations[j]).contains(x);
            assert(is_admissible(beneficiary_id, bindings, observations[j]));
            lemma_reported(beneficiary_id, observations[j]);
            assert(reported(observations[j]).contains(x));
        }
    }
    if identity_taken(so_far, fact.coverage_id) {
        let x = choose|x: PaidFact| #[trigger]
            so_far.contains(x) && x.coverage_id == fact.coverage_id;
        assert(earlier.contains(x));
    }
    if is_known_fact(observations, i, fact.coverage_id) {
        let (j, x) = choose|j: int, x: PaidFact|
            0 <= j < i && #[trigger] facts_in(observations[j]).contains(x) && x.coverage_id
                == fact.coverage_id;
        assert(earlier.contains(x));
        assert(so_far.contains(x));
    }
    if let Some(renewal) = fact.failed_renewal_id {
        if renewal_taken(so_far, renewal) {
            let x = choose|x: PaidFact| #[trigger]
                so_far.contains(x) && x.failed_renewal_id == Some(renewal);
            assert(earlier.contains(x));
        }
        if is_known_renewal(observations, i, renewal) {
            let (j, x) = choose|j: int, x: PaidFact|
                0 <= j < i && #[trigger] facts_in(observations[j]).contains(x)
                    && x.failed_renewal_id == Some(renewal);
            assert(earlier.contains(x));
            assert(so_far.contains(x));
        }
    }
}

} // verus!
