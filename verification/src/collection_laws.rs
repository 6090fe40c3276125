//! What holds of collections as a whole.

use crate::cloud_coverage::{Coverage, PaidFact, RENEWAL_RECOVERY_SECONDS};
use crate::cloud_coverage_reconciliation::{Binding, Observation};
use crate::cloud_coverage_store::{Projection, UnavailableReason};
use crate::collection_rules::{
    canonical_observation, canonical_observations, collected, collection, combined,
    first_observation_fault, first_provenance_fault, gathered, identity_taken, is_bound,
    observation_fault, observed_source, provenance_fault, renewal_taken, reported, some_unavailable,
};
use crate::coverage_facts::{
    canonical, coverage_conflict, fact_id, fault, fault_at, renewal_conflict,
};
use crate::coverage_laws::{
    law_normalising_ignores_order_and_repetition, law_normalising_is_idempotent,
    lemma_canonical_of_faultless, lemma_faultless, lemma_no_fault_anywhere, lemma_pairwise,
};
use crate::ordered::{
    arranged, lemma_arranged_exists, lemma_arranged_is, lemma_concat_members, lemma_take_members,
    one_item_per_key, same_members,
};
use crate::store_laws::same_projection;
use crate::text::{before_irreflexive, blank};
use vstd::prelude::*;

verus! {

/// Whether an observation can be accepted on its own.
pub open spec fn acceptable(
    beneficiary_id: Seq<char>,
    bindings: Seq<Binding>,
    observation: Observation,
) -> bool {
    &&& !blank(observation.evidence_reference)
    &&& is_bound(bindings, observation.source_id)
    &&& observation.result matches Projection::Complete { facts } ==> fault(
        Coverage { beneficiary_id, facts },
    ) is None
    &&& forall|fact: PaidFact| #[trigger]
        reported(observation).contains(fact) ==> fact.source_id == observation.source_id
}

/// Whether two facts can be reported by two sources.
pub open spec fn apart(a: PaidFact, b: PaidFact) -> bool {
    &&& a.coverage_id != b.coverage_id
    &&& a.failed_renewal_id is Some ==> a.failed_renewal_id != b.failed_renewal_id
}

/// Whether two observations can be accepted together.
pub open spec fn compatible(a: Observation, b: Observation) -> bool {
    &&& a.source_id != b.source_id
    &&& forall|x: PaidFact, y: PaidFact|
        #![trigger reported(a).contains(x), reported(b).contains(y)]
        reported(a).contains(x) && reported(b).contains(y) ==> apart(x, y)
}

/// Whether a batch of observations is accepted, said without regard to its order.
pub open spec fn accepted(
    beneficiary_id: Seq<char>,
    bindings: Seq<Binding>,
    observations: Seq<Observation>,
) -> bool {
    &&& forall|i: int|
        0 <= i < observations.len() ==> acceptable(
            beneficiary_id,
            bindings,
            #[trigger] observations[i],
        )
    &&& forall|i: int, j: int|
        0 <= i < observations.len() && 0 <= j < observations.len() && i != j ==> compatible(
            #[trigger] observations[i],
            #[trigger] observations[j],
        )
}

/// The gathered facts are those that the observations report.
pub proof fn lemma_gathered_members(observations: Seq<Observation>, n: int, fact: PaidFact)
    requires
        0 <= n <= observations.len(),
    ensures
        gathered(observations, n).contains(fact) <==> exists|j: int|
            0 <= j < n && reported(#[trigger] observations[j]).contains(fact),
    decreases n,
{
    if n > 0 {
        lemma_gathered_members(observations, n - 1, fact);
        lemma_concat_members(gathered(observations, n - 1), reported(observations[n - 1]));
    }
}

proof fn lemma_no_provenance_fault(
    earlier: Seq<PaidFact>,
    facts: Seq<PaidFact>,
    n: int,
    source_id: Seq<char>,
)
    requires
        n <= facts.len(),
    ensures
        first_provenance_fault(earlier, facts, n, source_id) is None <==> forall|k: int|
            0 <= k < n ==> provenance_fault(
                earlier + facts.take(k),
                #[trigger] facts[k],
                source_id,
            ) is None,
    decreases n,
{
    if n > 0 {
        lemma_no_provenance_fault(earlier, facts, n - 1, source_id);
    }
}

/// An observation is accepted after earlier ones if it is acceptable and compatible with each.
pub proof fn lemma_observation_accepted(
    beneficiary_id: Seq<char>,
    bindings: Seq<Binding>,
    observations: Seq<Observation>,
    i: int,
)
    requires
        0 <= i < observations.len(),
        observation_fault(beneficiary_id, bindings, observations, i) is None,
    ensures
        acceptable(beneficiary_id, bindings, observations[i]),
        forall|j: int| 0 <= j < i ==> compatible(#[trigger] observations[j], observations[i]),
{
    let o = observations[i];
    let own = reported(o);
    let earlier = gathered(observations, i);
    if let Projection::Complete { facts } = o.result {
        lemma_no_provenance_fault(earlier, own, own.len() as int, o.source_id);
        assert forall|fact: PaidFact| #[trigger] own.contains(fact) implies fact.source_id
            == o.source_id by {
            let k = choose|k: int| 0 <= k < own.len() && own[k] == fact;
            assert(provenance_fault(earlier + own.take(k), own[k], o.source_id) is None);
        }
    }
    assert forall|j: int| 0 <= j < i implies compatible(#[trigger] observations[j], o) by {
        assert forall|x: PaidFact, y: PaidFact|
            #![trigger reported(observations[j]).contains(x), own.contains(y)]
            reported(observations[j]).contains(x) && own.contains(y) implies apart(x, y) by {
            lemma_gathered_members(observations, i, x);
            assert(earlier.contains(x));
            let k = choose|k: int| 0 <= k < own.len() && own[k] == y;
            lemma_concat_members(earlier, own.take(k));
            assert((earlier + own.take(k)).contains(x));
            assert(provenance_fault(earlier + own.take(k), own[k], o.source_id) is None);
            assert(!identity_taken(earlier + own.take(k), y.coverage_id));
            if y.failed_renewal_id is Some {
                assert(!renewal_taken(earlier + own.take(k), y.failed_renewal_id->0));
            }
        }
    }
}

/// An acceptable observation that is compatible with each earlier one is accepted after them.
proof fn lemma_accepted_observation(
    beneficiary_id: Seq<char>,
    bindings: Seq<Binding>,
    observations: Seq<Observation>,
    i: int,
)
    requires
        0 <= i < observations.len(),
        acceptable(beneficiary_id, bindings, observations[i]),
        forall|j: int| 0 <= j < i ==> compatible(#[trigger] observations[j], observations[i]),
    ensures
        observation_fault(beneficiary_id, bindings, observations, i) is None,
{
    let o = observations[i];
    let own = reported(o);
    let earlier = gathered(observations, i);
    if let Projection::Complete { facts } = o.result {
        lemma_canonical_of_faultless(facts);
        assert forall|k: int| 0 <= k < own.len() implies provenance_fault(
            earlier + own.take(k),
            #[trigger] own[k],
            o.source_id,
        ) is None by {
            let fact = own[k];
            let so_far = earlier + own.take(k);
            assert(own.contains(fact));
            assert(facts.contains(fact));
            lemma_concat_members(earlier, own.take(k));
            lemma_take_members(own, k);
            assert forall|x: PaidFact| #[trigger] so_far.contains(x) implies x.coverage_id
                != fact.coverage_id && (fact.failed_renewal_id is Some ==> x.failed_renewal_id
                != fact.failed_renewal_id) by {
                if earlier.contains(x) {
                    lemma_gathered_members(observations, i, x);
                    let j = choose|j: int|
                        0 <= j < i && reported(#[trigger] observations[j]).contains(x);
                    assert(compatible(observations[j], o));
                    assert(apart(x, fact));
                } else {
                    let m = choose|m: int| 0 <= m < k && #[trigger] own[m] == x;
                    assert(own.contains(x));
                    assert(facts.contains(x));
                    before_irreflexive(fact.coverage_id);
                    assert(x.coverage_id != fact.coverage_id);
                    lemma_pairwise(facts, x, fact);
                }
            }
        }
        lemma_no_provenance_fault(earlier, own, own.len() as int, o.source_id);
    }
}

/// A batch is accepted as the rules say, one observation after the other, exactly where it is
/// accepted without regard to its order.
pub proof fn lemma_accepted(
    beneficiary_id: Seq<char>,
    bindings: Seq<Binding>,
    observations: Seq<Observation>,
)
    ensures
        first_observation_fault(
            beneficiary_id,
            bindings,
            observations,
            observations.len() as int,
        ) is None <==> accepted(beneficiary_id, bindings, observations),
{
    let n = observations.len() as int;
    lemma_none_faulty(beneficiary_id, bindings, observations, n);
    if first_observation_fault(beneficiary_id, bindings, observations, n) is None {
        assert forall|i: int| 0 <= i < n implies acceptable(
            beneficiary_id,
            bindings,
            #[trigger] observations[i],
        ) by {
            lemma_observation_accepted(beneficiary_id, bindings, observations, i);
        }
        assert forall|i: int, j: int| 0 <= i < n && 0 <= j < n && i != j implies compatible(
            #[trigger] observations[i],
            #[trigger] observations[j],
        ) by {
            if i < j {
                lemma_observation_accepted(beneficiary_id, bindings, observations, j);
            } else {
                lemma_observation_accepted(beneficiary_id, bindings, observations, i);
                assert(compatible(observations[j], observations[i]));
                lemma_compatible_is_symmetric(observations[j], observations[i]);
            }
        }
    }
    if accepted(beneficiary_id, bindings, observations) {
        assert forall|i: int| 0 <= i < n implies #[trigger] observation_fault(
            beneficiary_id,
            bindings,
            observations,
            i,
        ) is None by {
            lemma_accepted_observation(beneficiary_id, bindings, observations, i);
        }
    }
}

proof fn lemma_compatible_is_symmetric(a: Observation, b: Observation)
    requires
        compatible(a, b),
    ensures
        compatible(b, a),
{
    assert forall|x: PaidFact, y: PaidFact|
        #![trigger reported(b).contains(x), reported(a).contains(y)]
        reported(b).contains(x) && reported(a).contains(y) implies apart(x, y) by {
        assert(apart(y, x));
    }
}

proof fn lemma_none_faulty(
    beneficiary_id: Seq<char>,
    bindings: Seq<Binding>,
    observations: Seq<Observation>,
    n: int,
)
    ensures
        first_observation_fault(beneficiary_id, bindings, observations, n) is None <==> forall|
            i: int,
        |
            0 <= i < n ==> #[trigger] observation_fault(
                beneficiary_id,
                bindings,
                observations,
                i,
            ) is None,
    decreases n,
{
    if n > 0 {
        lemma_none_faulty(beneficiary_id, bindings, observations, n - 1);
    }
}

/// An acceptable observation in canonical form is acceptable, reports the same and stays as it is.
proof fn lemma_canonical_form(
    beneficiary_id: Seq<char>,
    bindings: Seq<Binding>,
    observation: Observation,
)
    requires
        acceptable(beneficiary_id, bindings, observation),
    ensures
        ({
            let form = canonical_observation(observation);
            &&& acceptable(beneficiary_id, bindings, form)
            &&& reported(form) == reported(observation)
            &&& canonical_observation(form) == form
            &&& same_observation(form, observation)
        }),
{
    if let Projection::Complete { facts } = observation.result {
        law_normalising_is_idempotent(beneficiary_id, facts);
        lemma_canonical_of_faultless(facts);
    }
    assert(reported(canonical_observation(observation)) == reported(observation));
}

/// Whether two observations say the same of a source, whatever the order and repetitions of their
/// facts.
pub open spec fn same_observation(a: Observation, b: Observation) -> bool {
    &&& a.source_id == b.source_id
    &&& a.evidence_reference == b.evidence_reference
    &&& same_projection(a.result, b.result)
}

/// Whether `o` says the same as one of the observations.
pub open spec fn stems_from(o: Observation, observations: Seq<Observation>) -> bool {
    exists|i: int| 0 <= i < observations.len() && same_observation(o, #[trigger] observations[i])
}

/// The observation that `o` stems from.
proof fn lemma_stem(
    beneficiary_id: Seq<char>,
    bindings: Seq<Binding>,
    observations: Seq<Observation>,
    o: Observation,
) -> (i: int)
    requires
        accepted(beneficiary_id, bindings, observations),
        stems_from(o, observations),
    ensures
        0 <= i < observations.len(),
        o.source_id == observations[i].source_id,
        acceptable(beneficiary_id, bindings, o),
        reported(o) == reported(observations[i]),
        canonical_observation(o) == canonical_observation(observations[i]),
        o.result is Unavailable ==> o.result == observations[i].result,
        observations[i].result is Unavailable ==> o.result == observations[i].result,
{
    let i = choose|i: int|
        0 <= i < observations.len() && same_observation(o, #[trigger] observations[i]);
    if let Projection::Complete { facts: x } = observations[i].result {
        if let Projection::Complete { facts: y } = o.result {
            law_normalising_ignores_order_and_repetition(beneficiary_id, x, y);
        }
    }
    assert(reported(o) == reported(observations[i]));
    i
}

/// A batch that stems from an accepted one, and has one observation of each of its sources, is
/// accepted.
proof fn lemma_stemming_is_accepted(
    beneficiary_id: Seq<char>,
    bindings: Seq<Binding>,
    x: Seq<Observation>,
    y: Seq<Observation>,
)
    requires
        accepted(beneficiary_id, bindings, x),
        forall|j: int| 0 <= j < y.len() ==> stems_from(#[trigger] y[j], x),
        forall|i: int, j: int|
            0 <= i < y.len() && 0 <= j < y.len() && i != j ==> (#[trigger] y[i]).source_id != (
            #[trigger] y[j]).source_id,
    ensures
        accepted(beneficiary_id, bindings, y),
{
    assert forall|j: int| 0 <= j < y.len() implies acceptable(
        beneficiary_id,
        bindings,
        #[trigger] y[j],
    ) by {
        let i = lemma_stem(beneficiary_id, bindings, x, y[j]);
    }
    assert forall|i: int, j: int| 0 <= i < y.len() && 0 <= j < y.len() && i != j implies compatible(
        #[trigger] y[i],
        #[trigger] y[j],
    ) by {
        let p = lemma_stem(beneficiary_id, bindings, x, y[i]);
        let q = lemma_stem(beneficiary_id, bindings, x, y[j]);
        assert(compatible(x[p], x[q]));
    }
}

/// Gathered facts of an accepted batch that share an identity are the same.
pub proof fn lemma_gathered_identities(
    beneficiary_id: Seq<char>,
    bindings: Seq<Binding>,
    observations: Seq<Observation>,
)
    requires
        accepted(beneficiary_id, bindings, observations),
    ensures
        one_item_per_key(gathered(observations, observations.len() as int), fact_id()),
{
    let n = observations.len() as int;
    let all = gathered(observations, n);
    assert forall|a: PaidFact, b: PaidFact|
        #![trigger all.contains(a), all.contains(b)]
        all.contains(a) && all.contains(b) && (fact_id())(a) == (fact_id())(b) implies a == b by {
        let i = lemma_reporter(observations, a);
        let j = lemma_reporter(observations, b);
        if i == j {
            assert(acceptable(beneficiary_id, bindings, observations[i]));
            let facts = observations[i].result->facts;
            lemma_canonical_of_faultless(facts);
            lemma_pairwise(facts, a, b);
        } else {
            assert(compatible(observations[i], observations[j]));
            assert(apart(a, b));
        }
    }
}

/// An observation that reports a gathered fact.
proof fn lemma_reporter(observations: Seq<Observation>, fact: PaidFact) -> (i: int)
    requires
        gathered(observations, observations.len() as int).contains(fact),
    ensures
        0 <= i < observations.len(),
        reported(observations[i]).contains(fact),
        observations[i].result is Complete,
{
    lemma_gathered_members(observations, observations.len() as int, fact);
    choose|i: int|
        0 <= i < observations.len() && reported(#[trigger] observations[i]).contains(fact)
}

/// Observations of an accepted batch in canonical form that share a source are the same.
pub proof fn lemma_identities_of_canonical(
    beneficiary_id: Seq<char>,
    bindings: Seq<Binding>,
    x: Seq<Observation>,
)
    requires
        accepted(beneficiary_id, bindings, x),
    ensures
        one_item_per_key(canonical_observations(x), observed_source()),
{
    let cx = canonical_observations(x);
    assert(one_item_per_key(cx, observed_source())) by {
        assert forall|a: Observation, b: Observation|
            #![trigger cx.contains(a), cx.contains(b)]
            cx.contains(a) && cx.contains(b) && (observed_source())(a) == (observed_source())(
                b,
            ) implies a == b by {
            let i = choose|i: int| 0 <= i < cx.len() && cx[i] == a;
            let j = choose|j: int| 0 <= j < cx.len() && cx[j] == b;
            if i != j {
                assert(compatible(x[i], x[j]));
            }
        }
    }
}

/// Two accepted batches that stem from each other combine to the same.
proof fn lemma_stemming_combines(
    beneficiary_id: Seq<char>,
    bindings: Seq<Binding>,
    x: Seq<Observation>,
    y: Seq<Observation>,
    aggregate_evidence_reference: Seq<char>,
)
    requires
        accepted(beneficiary_id, bindings, x),
        accepted(beneficiary_id, bindings, y),
        forall|j: int| 0 <= j < y.len() ==> stems_from(#[trigger] y[j], x),
        forall|i: int| 0 <= i < x.len() ==> stems_from(#[trigger] x[i], y),
    ensures
        collected(y, aggregate_evidence_reference) == collected(x, aggregate_evidence_reference),
        combined(y) == combined(x),
{
    let cx = canonical_observations(x);
    let cy = canonical_observations(y);
    assert(same_members(cx, cy)) by {
        assert forall|o: Observation| #[trigger] cy.contains(o) implies cx.contains(o) by {
            let j = choose|j: int| 0 <= j < cy.len() && cy[j] == o;
            let i = lemma_stem(beneficiary_id, bindings, x, y[j]);
            assert(cx[i] == o);
        }
        assert forall|o: Observation| #[trigger] cx.contains(o) implies cy.contains(o) by {
            let i = choose|i: int| 0 <= i < cx.len() && cx[i] == o;
            let j = lemma_stem(beneficiary_id, bindings, y, x[i]);
            assert(cy[j] == o);
        }
    }
    lemma_identities_of_canonical(beneficiary_id, bindings, x);
    lemma_arranged_exists(cx, observed_source());
    lemma_arranged_is(arranged(cx, observed_source()), cy, observed_source());
    assert forall|reason: UnavailableReason| #[trigger] some_unavailable(x, reason)
        == some_unavailable(y, reason) by {
        let wanted = Projection::Unavailable { reason };
        if some_unavailable(x, reason) {
            let i = choose|i: int| 0 <= i < x.len() && (#[trigger] x[i]).result == wanted;
            let j = lemma_stem(beneficiary_id, bindings, y, x[i]);
            assert(y[j].result == wanted);
        }
        if some_unavailable(y, reason) {
            let j = choose|j: int| 0 <= j < y.len() && (#[trigger] y[j]).result == wanted;
            let i = lemma_stem(beneficiary_id, bindings, x, y[j]);
            assert(x[i].result == wanted);
        }
    }
    let gx = gathered(x, x.len() as int);
    let gy = gathered(y, y.len() as int);
    assert(same_members(gx, gy)) by {
        assert forall|fact: PaidFact| #[trigger] gx.contains(fact) implies gy.contains(fact) by {
            let i = lemma_reporter(x, fact);
            let j = lemma_stem(beneficiary_id, bindings, y, x[i]);
            assert(reported(y[j]).contains(fact));
            lemma_gathered_members(y, y.len() as int, fact);
        }
        assert forall|fact: PaidFact| #[trigger] gy.contains(fact) implies gx.contains(fact) by {
            let j = lemma_reporter(y, fact);
            let i = lemma_stem(beneficiary_id, bindings, x, y[j]);
            assert(reported(x[i]).contains(fact));
            lemma_gathered_members(x, x.len() as int, fact);
        }
    }
    lemma_gathered_identities(beneficiary_id, bindings, x);
    lemma_arranged_exists(gx, fact_id());
    lemma_arranged_is(canonical(gx), gy, fact_id());
}

/// A batch that is accepted for a source set is accepted for it in any order.
proof fn lemma_accepted_for_the_same_sources(
    beneficiary_id: Seq<char>,
    bindings: Seq<Binding>,
    other: Seq<Binding>,
    observations: Seq<Observation>,
)
    requires
        same_members(bindings, other),
        accepted(beneficiary_id, bindings, observations),
    ensures
        accepted(beneficiary_id, other, observations),
{
    assert forall|i: int| 0 <= i < observations.len() implies acceptable(
        beneficiary_id,
        other,
        #[trigger] observations[i],
    ) by {
        let source_id = observations[i].source_id;
        assert(acceptable(beneficiary_id, bindings, observations[i]));
        let k = choose|k: int|
            0 <= k < bindings.len() && (#[trigger] bindings[k]).source_id == source_id;
        let m = lemma_place_of(bindings, other, k);
        assert(other[m].source_id == source_id);
    }
}

/// The sources of observations, in their order.
spec fn sources_of(observations: Seq<Observation>) -> Seq<Seq<char>> {
    observations.map_values(|o: Observation| o.source_id)
}

/// The result and the projection of an accepted batch depend neither on the order of the source
/// set, nor on that of the observations, nor on the order and repetitions of the facts in them.
pub proof fn law_collecting_ignores_order(
    beneficiary_id: Seq<char>,
    bindings: Seq<Binding>,
    other_bindings: Seq<Binding>,
    a: Seq<Observation>,
    b: Seq<Observation>,
    aggregate_evidence_reference: Seq<char>,
)
    requires
        same_members(bindings, other_bindings),
        bindings.len() == other_bindings.len(),
        forall|i: int| 0 <= i < a.len() ==> stems_from(#[trigger] a[i], b),
        forall|j: int| 0 <= j < b.len() ==> stems_from(#[trigger] b[j], a),
        a.len() == b.len(),
        collection(beneficiary_id, bindings, a, aggregate_evidence_reference) is Ok,
    ensures
        collection(beneficiary_id, other_bindings, b, aggregate_evidence_reference) == collection(
            beneficiary_id,
            bindings,
            a,
            aggregate_evidence_reference,
        ),
{
    lemma_accepted(beneficiary_id, bindings, a);
    lemma_accepted(beneficiary_id, other_bindings, b);
    let sa = sources_of(a);
    let sb = sources_of(b);
    assert(sa.no_duplicates()) by {
        assert forall|i: int, j: int| 0 <= i < sa.len() && 0 <= j < sa.len() && i != j implies sa[i]
            != sa[j] by {
            assert(compatible(a[i], a[j]));
        }
    }
    assert(same_members(sa, sb)) by {
        assert forall|s: Seq<char>| #[trigger] sa.contains(s) implies sb.contains(s) by {
            let i = choose|i: int| 0 <= i < sa.len() && sa[i] == s;
            assert(stems_from(a[i], b));
            let j = choose|j: int| 0 <= j < b.len() && same_observation(a[i], #[trigger] b[j]);
            assert(sb[j] == s);
        }
        assert forall|s: Seq<char>| #[trigger] sb.contains(s) implies sa.contains(s) by {
            let j = choose|j: int| 0 <= j < sb.len() && sb[j] == s;
            assert(stems_from(b[j], a));
            let i = choose|i: int| 0 <= i < a.len() && same_observation(b[j], #[trigger] a[i]);
            assert(sa[i] == s);
        }
    }
    sa.unique_seq_to_set();
    assert(sa.to_set() =~= sb.to_set());
    sb.lemma_no_dup_set_cardinality();
    assert forall|i: int, j: int| 0 <= i < b.len() && 0 <= j < b.len() && i != j implies (
    #[trigger] b[i]).source_id != (#[trigger] b[j]).source_id by {
        assert(sb[i] != sb[j]);
    }
    lemma_stemming_is_accepted(beneficiary_id, bindings, a, b);
    lemma_accepted_for_the_same_sources(beneficiary_id, bindings, other_bindings, b);
    lemma_stemming_combines(beneficiary_id, bindings, a, b, aggregate_evidence_reference);
}

/// Where the `i`-th item of one list stands in another list of the same items.
proof fn lemma_place_of<T>(from: Seq<T>, to: Seq<T>, i: int) -> (j: int)
    requires
        same_members(from, to),
        0 <= i < from.len(),
    ensures
        0 <= j < to.len(),
        to[j] == from[i],
{
    assert(from.contains(from[i]));
    assert(to.contains(from[i]));
    choose|j: int| 0 <= j < to.len() && to[j] == from[i]
}

/// Collecting the sources of a result again gives that result: what is stored of a collection can
/// be checked against itself.
pub proof fn law_results_are_their_own_collection(
    beneficiary_id: Seq<char>,
    bindings: Seq<Binding>,
    observations: Seq<Observation>,
    aggregate_evidence_reference: Seq<char>,
)
    requires
        collection(beneficiary_id, bindings, observations, aggregate_evidence_reference) is Ok,
    ensures
        ({
            let answer = collection(
                beneficiary_id,
                bindings,
                observations,
                aggregate_evidence_reference,
            );
            collection(
                beneficiary_id,
                bindings,
                answer->Ok_0.0.sources,
                aggregate_evidence_reference,
            ) == answer
        }),
{
    let x = observations;
    let cx = canonical_observations(x);
    let y = collected(x, aggregate_evidence_reference).sources;
    lemma_accepted(beneficiary_id, bindings, x);
    lemma_identities_of_canonical(beneficiary_id, bindings, x);
    lemma_arranged_exists(cx, observed_source());
    assert(cx.no_duplicates()) by {
        assert forall|i: int, j: int| 0 <= i < cx.len() && 0 <= j < cx.len() && i != j implies cx[i]
            != cx[j] by {
            assert(compatible(x[i], x[j]));
        }
    }
    assert forall|i: int, j: int| 0 <= i < y.len() && 0 <= j < y.len() && i != j implies (
    #[trigger] y[i]).source_id != (#[trigger] y[j]).source_id by {
        before_irreflexive(y[i].source_id);
    }
    assert(y.no_duplicates());
    cx.unique_seq_to_set();
    y.unique_seq_to_set();
    assert(cx.to_set() =~= y.to_set());
    assert forall|j: int| 0 <= j < y.len() implies stems_from(#[trigger] y[j], x) by {
        let i = lemma_place_of(y, cx, j);
        lemma_canonical_form(beneficiary_id, bindings, x[i]);
        assert(same_observation(y[j], x[i]));
    }
    lemma_stemming_is_accepted(beneficiary_id, bindings, x, y);
    lemma_accepted(beneficiary_id, bindings, y);
    assert forall|i: int| 0 <= i < x.len() implies stems_from(#[trigger] x[i], y) by {
        let j = lemma_place_of(cx, y, i);
        assert(cx[i] == canonical_observation(x[i]));
        lemma_canonical_form(beneficiary_id, bindings, x[i]);
        assert(same_observation(x[i], y[j]));
    }
    lemma_stemming_combines(beneficiary_id, bindings, x, y, aggregate_evidence_reference);
}

/// The facts of an accepted batch are valid together, so that they can be published.
pub proof fn law_collected_facts_are_valid(
    beneficiary_id: Seq<char>,
    bindings: Seq<Binding>,
    observations: Seq<Observation>,
    aggregate_evidence_reference: Seq<char>,
)
    requires
        !blank(beneficiary_id),
        collection(beneficiary_id, bindings, observations, aggregate_evidence_reference) is Ok,
    ensures
        combined(observations) matches Projection::Complete { facts } ==> {
            &&& fault(Coverage { beneficiary_id, facts }) is None
            &&& canonical(facts) == facts
            &&& forall|fact: PaidFact| #[trigger]
                facts.contains(fact) <==> gathered(
                    observations,
                    observations.len() as int,
                ).contains(fact)
            &&& forall|fact: PaidFact| #[trigger]
                facts.contains(fact) ==> is_bound(bindings, fact.source_id)
        },
{
    lemma_accepted(beneficiary_id, bindings, observations);
    lemma_gathered_identities(beneficiary_id, bindings, observations);
    let all = gathered(observations, observations.len() as int);
    lemma_arranged_exists(all, fact_id());
    let facts = canonical(all);
    assert forall|m: int| 0 <= m < facts.len() implies #[trigger] fault_at(facts, m) is None by {
        let fact = facts[m];
        assert(facts.contains(fact));
        lemma_valid_alone(beneficiary_id, bindings, observations, fact);
        assert forall|k: int| 0 <= k < m implies !((#[trigger] facts[k]).coverage_id
            == fact.coverage_id) && (fact.failed_renewal_id is Some && facts[k].failed_renewal_id
            == fact.failed_renewal_id ==> false) by {
            assert(facts.contains(facts[k]));
            before_irreflexive(fact.coverage_id);
            lemma_renewals_apart(beneficiary_id, bindings, observations, facts[k], fact);
        }
        assert(!renewal_conflict(facts, m));
        assert(!coverage_conflict(facts, m));
    }
    lemma_faultless(facts, facts.len() as int);
    lemma_arranged_is(facts, facts, fact_id());
    assert forall|fact: PaidFact| #[trigger] facts.contains(fact) implies is_bound(
        bindings,
        fact.source_id,
    ) by {
        let i = lemma_reporter(observations, fact);
        assert(acceptable(beneficiary_id, bindings, observations[i]));
    }
}

/// A gathered fact has nothing wrong with itself.
proof fn lemma_valid_alone(
    beneficiary_id: Seq<char>,
    bindings: Seq<Binding>,
    observations: Seq<Observation>,
    fact: PaidFact,
)
    requires
        accepted(beneficiary_id, bindings, observations),
        gathered(observations, observations.len() as int).contains(fact),
    ensures
        !blank(fact.coverage_id),
        !blank(fact.source_id),
        fact.starts_at < fact.paid_until,
        fact.failed_renewal_id matches Some(renewal) ==> !blank(renewal) && fact.paid_until
            + RENEWAL_RECOVERY_SECONDS <= i64::MAX,
{
    let i = lemma_reporter(observations, fact);
    assert(acceptable(beneficiary_id, bindings, observations[i]));
    let facts = observations[i].result->facts;
    lemma_canonical_of_faultless(facts);
    assert(facts.contains(fact));
    lemma_no_fault_anywhere(facts, facts.len() as int);
    let m = choose|m: int| 0 <= m < facts.len() && facts[m] == fact;
    assert(fault_at(facts, m) is None);
}

/// Two gathered facts with different identities carry different failed renewals.
proof fn lemma_renewals_apart(
    beneficiary_id: Seq<char>,
    bindings: Seq<Binding>,
    observations: Seq<Observation>,
    a: PaidFact,
    b: PaidFact,
)
    requires
        accepted(beneficiary_id, bindings, observations),
        gathered(observations, observations.len() as int).contains(a),
        gathered(observations, observations.len() as int).contains(b),
        a.coverage_id != b.coverage_id,
    ensures
        b.failed_renewal_id is Some ==> a.failed_renewal_id != b.failed_renewal_id,
{
    let i = lemma_reporter(observations, a);
    let j = lemma_reporter(observations, b);
    if i == j {
        assert(acceptable(beneficiary_id, bindings, observations[i]));
        let facts = observations[i].result->facts;
        lemma_canonical_of_faultless(facts);
        lemma_pairwise(facts, a, b);
    } else {
        assert(compatible(observations[j], observations[i]));
        assert(apart(b, a));
    }
}

/// A batch with an unavailable source gives no facts at all, and conflicting evidence is what it
/// reports before anything else.
pub proof fn law_unavailability_wins(observations: Seq<Observation>, i: int)
    requires
        0 <= i < observations.len(),
        observations[i].result is Unavailable,
    ensures
        combined(observations) is Unavailable,
        observations[i].result == (Projection::Unavailable {
            reason: UnavailableReason::ConflictingEvidence,
        }) ==> combined(observations) == (Projection::Unavailable {
            reason: UnavailableReason::ConflictingEvidence,
        }),
{
    let reason = observations[i].result->reason;
    assert(some_unavailable(observations, reason));
}

} // verus!
