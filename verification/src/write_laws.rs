//! What the writes of a transaction do to each row, and to none beside it.

use crate::coverage_tables::{
    applied, applied_all, staged, Attempt, Coordinator, Head, Source, Staged, Tables, Write,
};
use vstd::prelude::*;

verus! {

/// Whether no head differs.
pub open spec fn same_heads(before: Tables, after: Tables) -> bool {
    before.heads == after.heads
}

/// Whether only heads differ.
pub open spec fn only_heads(before: Tables, after: Tables) -> bool {
    &&& after.revisions == before.revisions
    &&& after.coordinators == before.coordinators
    &&& after.sources == before.sources
    &&& after.attempts == before.attempts
}

/// Whether only revisions differ.
pub open spec fn only_revisions(before: Tables, after: Tables) -> bool {
    &&& same_heads(before, after)
    &&& after.coordinators == before.coordinators
    &&& after.sources == before.sources
    &&& after.attempts == before.attempts
}

/// Whether only coordinators differ.
pub open spec fn only_coordinators(before: Tables, after: Tables) -> bool {
    &&& same_heads(before, after)
    &&& after.revisions == before.revisions
    &&& after.sources == before.sources
    &&& after.attempts == before.attempts
}

/// Whether only sources differ.
pub open spec fn only_sources(before: Tables, after: Tables) -> bool {
    &&& same_heads(before, after)
    &&& after.revisions == before.revisions
    &&& after.coordinators == before.coordinators
    &&& after.attempts == before.attempts
}

/// Whether only attempts differ.
pub open spec fn only_attempts(before: Tables, after: Tables) -> bool {
    &&& same_heads(before, after)
    &&& after.revisions == before.revisions
    &&& after.coordinators == before.coordinators
    &&& after.sources == before.sources
}

/// A write that inserts puts its row behind those that are there, and changes nothing else. A new
/// head has no revision, and a new coordinator has neither sources, collections nor a current
/// attempt.
pub proof fn law_inserts_add_one_row(tables: Tables, write: Write)
    ensures
        ({
            let after = applied(tables, write);
            match write {
                Write::InsertHead { beneficiary_id } => {
                    &&& only_heads(tables, after)
                    &&& after.heads.len() == tables.heads.len() + 1
                    &&& after.heads.drop_last() == tables.heads
                    &&& after.heads.last().beneficiary_id == beneficiary_id
                    &&& after.heads.last().current_revision is None
                },
                Write::InsertRevision(row) => {
                    &&& only_revisions(tables, after)
                    &&& after.revisions.len() == tables.revisions.len() + 1
                    &&& after.revisions.drop_last() == tables.revisions
                    &&& after.revisions.last() == row
                },
                Write::InsertCoordinator { beneficiary_id } => {
                    &&& only_coordinators(tables, after)
                    &&& after.coordinators.len() == tables.coordinators.len() + 1
                    &&& after.coordinators.drop_last() == tables.coordinators
                    &&& after.coordinators.last().beneficiary_id == beneficiary_id
                    &&& after.coordinators.last().source_set_generation == 0
                    &&& after.coordinators.last().collection_epoch == 0
                    &&& after.coordinators.last().current_attempt_id is None
                },
                Write::InsertSource(row) => {
                    &&& only_sources(tables, after)
                    &&& after.sources.len() == tables.sources.len() + 1
                    &&& after.sources.drop_last() == tables.sources
                    &&& after.sources.last() == row
                },
                Write::InsertAttempt(row) => {
                    &&& only_attempts(tables, after)
                    &&& after.attempts.len() == tables.attempts.len() + 1
                    &&& after.attempts.drop_last() == tables.attempts
                    &&& after.attempts.last() == row
                },
                _ => true,
            }
        }),
{
}

/// Pointing a head to a revision sets the revision of the beneficiary's heads, and changes nothing
/// else.
pub proof fn law_heads_are_pointed_to_a_revision(
    tables: Tables,
    beneficiary_id: Seq<char>,
    revision: i64,
)
    ensures
        ({
            let after = applied(tables, Write::SetHead { beneficiary_id, revision });
            &&& only_heads(tables, after)
            &&& after.heads.len() == tables.heads.len()
            &&& forall|k: int|
                0 <= k < tables.heads.len() ==> #[trigger] after.heads[k] == (
                if tables.heads[k].beneficiary_id == beneficiary_id {
                    Head { beneficiary_id, current_revision: Some(revision) }
                } else {
                    tables.heads[k]
                })
        }),
{
}

/// A coordinator's row changes as the write says and for the write's beneficiary alone: a new
/// generation ends the current attempt and leaves the epoch, a new collection sets the epoch and
/// the current attempt and leaves the generation, and an attempt is cleared only where it is the
/// current one.
pub proof fn law_coordinators_change_as_written(tables: Tables, write: Write, k: int)
    requires
        0 <= k < tables.coordinators.len(),
    ensures
        ({
            let after = applied(tables, write);
            let row = tables.coordinators[k];
            match write {
                Write::AdvanceGeneration { beneficiary_id, source_set_generation } => {
                    &&& only_coordinators(tables, after)
                    &&& after.coordinators.len() == tables.coordinators.len()
                    &&& after.coordinators[k] == (if row.beneficiary_id == beneficiary_id {
                        Coordinator {
                            beneficiary_id,
                            source_set_generation,
                            collection_epoch: row.collection_epoch,
                            current_attempt_id: None,
                        }
                    } else {
                        row
                    })
                },
                Write::StartCollection { beneficiary_id, collection_epoch, attempt_id } => {
                    &&& only_coordinators(tables, after)
                    &&& after.coordinators.len() == tables.coordinators.len()
                    &&& after.coordinators[k] == (if row.beneficiary_id == beneficiary_id {
                        Coordinator {
                            beneficiary_id,
                            source_set_generation: row.source_set_generation,
                            collection_epoch,
                            current_attempt_id: Some(attempt_id),
                        }
                    } else {
                        row
                    })
                },
                Write::ClearCurrentAttempt { beneficiary_id, attempt_id } => {
                    &&& only_coordinators(tables, after)
                    &&& after.coordinators.len() == tables.coordinators.len()
                    &&& after.coordinators[k] == (if row.beneficiary_id == beneficiary_id
                        && row.current_attempt_id == Some(attempt_id) {
                        Coordinator {
                            beneficiary_id,
                            source_set_generation: row.source_set_generation,
                            collection_epoch: row.collection_epoch,
                            current_attempt_id: None,
                        }
                    } else {
                        row
                    })
                },
                _ => true,
            }
        }),
{
}

/// Recording the revision of a registration sets that of the source with the identity, and changes
/// nothing else.
pub proof fn law_registrations_are_recorded(
    tables: Tables,
    source_id: Seq<char>,
    projection_revision: i64,
)
    ensures
        ({
            let after = applied(
                tables,
                Write::RecordRegistration { source_id, projection_revision },
            );
            &&& only_sources(tables, after)
            &&& after.sources.len() == tables.sources.len()
            &&& forall|k: int|
                0 <= k < tables.sources.len() ==> #[trigger] after.sources[k] == (
                if tables.sources[k].binding.source_id == source_id {
                    Source {
                        binding: tables.sources[k].binding,
                        registration_operation_id: tables.sources[k].registration_operation_id,
                        registration_source_set_generation:
                            tables.sources[k].registration_source_set_generation,
                        registration_projection_revision: Some(projection_revision),
                    }
                } else {
                    tables.sources[k]
                })
        }),
{
}

/// Whether two attempts agree in all that is set when a collection begins.
pub open spec fn begun_alike(a: Attempt, b: Attempt) -> bool {
    &&& a.beneficiary_id == b.beneficiary_id
    &&& a.attempt_id == b.attempt_id
    &&& a.collection_epoch == b.collection_epoch
    &&& a.source_set_generation == b.source_set_generation
    &&& a.expected_projection_revision == b.expected_projection_revision
    &&& a.source_bindings == b.source_bindings
}

/// An attempt's row changes as the write says, only while it is pending, and only in its status
/// and result: superseding sets the status alone, and completing stores what was collected and the
/// revision that it was published as.
pub proof fn law_attempts_change_as_written(tables: Tables, write: Write, k: int)
    requires
        0 <= k < tables.attempts.len(),
    ensures
        ({
            let after = applied(tables, write);
            let row = tables.attempts[k];
            let new = after.attempts[k];
            let superseded = {
                &&& begun_alike(row, new)
                &&& new.status == "superseded"@
                &&& new.aggregate_evidence_reference == row.aggregate_evidence_reference
                &&& new.canonical_result == row.canonical_result
                &&& new.projection_revision == row.projection_revision
            };
            match write {
                Write::SupersedePending { beneficiary_id } => {
                    &&& only_attempts(tables, after)
                    &&& after.attempts.len() == tables.attempts.len()
                    &&& if row.beneficiary_id == beneficiary_id && row.status == "pending"@ {
                        superseded
                    } else {
                        new == row
                    }
                },
                Write::SupersedeAttempt { beneficiary_id, attempt_id } => {
                    &&& only_attempts(tables, after)
                    &&& after.attempts.len() == tables.attempts.len()
                    &&& if row.beneficiary_id == beneficiary_id && row.attempt_id == attempt_id
                        && row.status == "pending"@ {
                        superseded
                    } else {
                        new == row
                    }
                },
                Write::CompleteAttempt {
                    beneficiary_id,
                    attempt_id,
                    canonical_result,
                    projection_revision,
                } => {
                    &&& only_attempts(tables, after)
                    &&& after.attempts.len() == tables.attempts.len()
                    &&& if row.beneficiary_id == beneficiary_id && row.attempt_id == attempt_id
                        && row.status == "pending"@ {
                        &&& begun_alike(row, new)
                        &&& new.status == "completed"@
                        &&& new.aggregate_evidence_reference == Some(
                            canonical_result.aggregate_evidence_reference,
                        )
                        &&& new.canonical_result == Some(canonical_result)
                        &&& new.projection_revision == Some(projection_revision)
                    } else {
                        new == row
                    }
                },
                _ => true,
            }
        }),
{
}

/// Writes are made one after the other: none leaves the tables as they are, and one more is made
/// of the tables that those before it left.
pub proof fn law_writes_are_made_in_order(tables: Tables, writes: Seq<Write>, write: Write)
    ensures
        applied_all(tables, Seq::empty()) == tables,
        applied_all(tables, seq![write]) == applied(tables, write),
        applied_all(tables, writes.push(write)) == applied(applied_all(tables, writes), write),
{
    reveal_with_fuel(applied_all, 2);
    assert(writes.push(write).drop_last() =~= writes);
    assert(seq![write].drop_last() =~= Seq::empty());
}

/// A transaction lists every write that it makes, behind those before, and its tables are those
/// that the list makes of the tables it began with.
pub proof fn law_transactions_list_their_writes(tables: Tables, first: Seq<Write>, more: Seq<Write>)
    ensures
        ({
            let begun = Staged { tables, writes: Seq::empty() };
            let after = staged(staged(begun, first), more);
            &&& after.writes == first + more
            &&& after.tables == applied_all(tables, first + more)
            &&& staged(begun, Seq::empty()) == begun
        }),
    decreases more.len(),
{
    let begun = Staged { tables, writes: Seq::empty() };
    assert(Seq::<Write>::empty() + first =~= first);
    assert(Seq::<Write>::empty() + Seq::<Write>::empty() =~= Seq::<Write>::empty());
    if more.len() == 0 {
        assert(first + more =~= first);
    } else {
        law_transactions_list_their_writes(tables, first, more.drop_last());
        assert((first + more).drop_last() =~= first + more.drop_last());
    }
}

} // verus!
