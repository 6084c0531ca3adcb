//! What writes and checks leave behind.

use crate::engine::GroundOutcome;
use crate::number::Real;
use crate::resolve::ReadResult;
use crate::schema::{Element, Fact, FactValue, GeneratorRef, GroundBinding, GroundSource, Outcome};
use crate::store::apply::{Circumstances, Staged};
use crate::time::Timestamp;
use crate::write::WriteOp;
use vstd::prelude::*;

verus! {

// ---------------------------------------------------------------------------
// Writes
// ---------------------------------------------------------------------------

/// What is ingested has the value, the half-life and the claim it came with, in
/// normalized spelling; it is seen now and by whoever writes; it is ungrounded, counts
/// for one, and waits for no one. A source that came with it is kept as a hint, as
/// something that was never checked.
pub proof fn law_ingested_facts_start_fresh(
    staged: Staged,
    op: WriteOp,
    fact: Option<Fact>,
    circumstances: Circumstances,
)
    requires
        op is Ingest,
        crate::store::apply::is_staged(staged, op, fact, circumstances),
    ensures
        staged.fact.value == op->Ingest_value,
        staged.fact.claim.entity.0@ == crate::schema::nfc_form(op->Ingest_claim.entity.0@),
        staged.fact.claim.relation@ == crate::schema::nfc_form(op->Ingest_claim.relation@),
        staged.fact.claim.nl == op->Ingest_claim.nl,
        staged.id == staged.fact.id,
        staged.fact.id.0@ == super::searching::key_of(staged.fact),
        staged.fact.epistemics.groundedness matches crate::schema::Groundedness::Ungrounded {
            source,
        } && source == op->Ingest_triage,
        op->Ingest_triage is Ingest ==> staged.fact.epistemics.confidence.bits
            == 0x3fd9_9999_9999_999a,
        op->Ingest_triage is Manual ==> staged.fact.epistemics.confidence.bits
            == 0x3fe0_0000_0000_0000,
        staged.fact.schedule.half_life == op->Ingest_half_life,
        staged.fact.schedule.last_verified == circumstances.now,
        staged.fact.schedule.centrality.bits == 0x3ff0_0000_0000_0000,
        staged.fact.schedule.variance_at_verify.bits == 0x3fd0_0000_0000_0000,
        staged.fact.schedule.priority.bits == 0,
        staged.fact.provenance.ingested_by == circumstances.who,
        staged.fact.provenance.ingested_at == circumstances.now,
        staged.fact.grounds@.len() == 0,
        match (op->Ingest_draft_ground, staged.fact.source_hint) {
            (None, None) => true,
            (Some(draft), Some(hint)) => hint.source == draft.source && hint.locator
                == draft.locator && hint.predicate == draft.predicate && hint.last is None,
            _ => false,
        },
        staged.tag@ == "Ingest"@,
        staged.detail@ == super::searching::key_of(staged.fact),
        staged.sample is None,
        staged.cost is None,
        staged.moves_centrality,
{
}

/// Whether only the grounds and the hint of a fact may differ from those of another.
pub open spec fn differs_in_grounds(new: Fact, old: Fact) -> bool {
    &&& new.id == old.id
    &&& new.claim == old.claim
    &&& new.value == old.value
    &&& new.epistemics == old.epistemics
    &&& new.schedule == old.schedule
    &&& new.provenance == old.provenance
}

/// Binding a ground adds it behind the others, takes the hint away, and touches nothing
/// else.
pub proof fn law_grounding_adds_a_ground(
    staged: Staged,
    op: WriteOp,
    fact: Fact,
    circumstances: Circumstances,
)
    requires
        op is Ground,
        crate::store::apply::is_staged(staged, op, Some(fact), circumstances),
    ensures
        differs_in_grounds(staged.fact, fact),
        staged.fact.source_hint is None,
        staged.fact.grounds@.len() == fact.grounds@.len() + 1,
        forall|i: int|
            0 <= i < fact.grounds@.len() ==> #[trigger] staged.fact.grounds@[i]
                == fact.grounds@[i],
        staged.fact.grounds@.last() == op->Ground_binding,
        staged.id == op->Ground_fact,
        staged.tag@ == "Ground"@,
        staged.sample is None,
        staged.cost is None,
        !staged.moves_centrality,
{
}

/// A verdict sets confidence and variance to what the check made of them, and the time of
/// verification to now; anything else that a check comes to leaves them. Either way the
/// half-life, the centrality, the priority, the claim and the hint stay.
pub proof fn law_verdicts_move_belief(
    staged: Staged,
    op: WriteOp,
    fact: Fact,
    circumstances: Circumstances,
)
    requires
        op is GroundCheck,
        crate::store::apply::is_staged(staged, op, Some(fact), circumstances),
    ensures
        ({
            let outcome = op->GroundCheck_outcome;
            let verdict = outcome == Outcome::Confirmed || outcome == Outcome::Refuted;
            let new = staged.fact;
            &&& verdict ==> new.epistemics.confidence == circumstances.belief.confidence
                && new.schedule.variance_at_verify == circumstances.belief.variance
                && new.schedule.last_verified == circumstances.now
            &&& !verdict ==> new.epistemics.confidence == fact.epistemics.confidence
                && new.schedule.variance_at_verify == fact.schedule.variance_at_verify
                && new.schedule.last_verified == fact.schedule.last_verified
            &&& new.schedule.half_life == fact.schedule.half_life
            &&& new.schedule.centrality == fact.schedule.centrality
            &&& new.schedule.priority == fact.schedule.priority
            &&& new.id == fact.id && new.claim == fact.claim && new.provenance
                == fact.provenance && new.source_hint == fact.source_hint
            &&& verdict ==> (staged.sample matches Some(sample) && sample.prior
                == circumstances.belief.prior && (sample.grounded_outcome <==> outcome
                == Outcome::Confirmed))
            &&& !verdict ==> staged.sample is None
            &&& staged.tag@ == "GroundCheck:"@ + super::naming::outcome_name(outcome)
            &&& staged.moves_centrality
        }),
{
}

/// A check that came to something is recorded with the ground that was checked, and with
/// no other; the ground itself stays what it was. Where the check brings the elements of
/// a set, they are the value. A run time is kept for a generator that was measured.
pub proof fn law_checks_are_recorded_with_their_ground(
    staged: Staged,
    op: WriteOp,
    fact: Fact,
    circumstances: Circumstances,
)
    requires
        op is GroundCheck,
        crate::store::apply::is_staged(staged, op, Some(fact), circumstances),
    ensures
        ({
            let at = op->GroundCheck_ground as int;
            let new = staged.fact.grounds@;
            let old = fact.grounds@;
            &&& new.len() == old.len()
            &&& forall|i: int|
                0 <= i < old.len() ==> (#[trigger] new[i]).source == old[i].source && new[i].locator
                    == old[i].locator && new[i].predicate == old[i].predicate
            &&& forall|i: int|
                0 <= i < old.len() && i != at ==> (#[trigger] new[i]).last == old[i].last
            &&& at < old.len() && op->GroundCheck_resolved is Some ==> new[at].last
                == op->GroundCheck_resolved
            &&& at < old.len() && op->GroundCheck_resolved is None ==> new[at].last == old[at].last
        }),
        op->GroundCheck_set_update matches Some(elements) ==> (
        staged.fact.value matches FactValue::Elements { elements: now } && now == elements),
        op->GroundCheck_set_update is None ==> staged.fact.value == fact.value,
        match (op->GroundCheck_by, op->GroundCheck_observed_cost) {
            (Some(hash), Some(secs)) => staged.cost == Some((hash, secs)),
            _ => staged.cost is None,
        },
{
}

/// Rescheduling sets the priority, and overriding the belief; nothing else changes.
pub proof fn law_the_rest_stays(
    staged: Staged,
    op: WriteOp,
    fact: Fact,
    circumstances: Circumstances,
)
    requires
        op is Reschedule || op is ManualOverride,
        crate::store::apply::is_staged(staged, op, Some(fact), circumstances),
    ensures
        ({
            let new = staged.fact;
            &&& new.id == fact.id && new.claim == fact.claim && new.value == fact.value
            &&& new.grounds == fact.grounds && new.source_hint == fact.source_hint
                && new.provenance == fact.provenance
            &&& new.schedule.half_life == fact.schedule.half_life && new.schedule.centrality
                == fact.schedule.centrality && new.schedule.last_verified
                == fact.schedule.last_verified && new.schedule.variance_at_verify
                == fact.schedule.variance_at_verify
            &&& op is Reschedule ==> new.schedule.priority == op->Reschedule_new_priority
                && new.epistemics == fact.epistemics
            &&& op is ManualOverride ==> new.schedule.priority == fact.schedule.priority
                && new.epistemics == op->ManualOverride_set
            &&& staged.sample is None && staged.cost is None && !staged.moves_centrality
        }),
{
}

// ---------------------------------------------------------------------------
// Checks
// ---------------------------------------------------------------------------

/// The hash of the generator or handler that reads a ground.
pub open spec fn run_by(binding: GroundBinding) -> Option<Seq<char>> {
    match binding.source {
        GroundSource::Generator(g) => Some(g.hash.0@),
        GroundSource::Handler(h) => Some(h.handler.hash.0@),
        GroundSource::File(_) => None,
        GroundSource::Command(_) => None,
    }
}

/// What could not be read is an error, and what could not be read for now is
/// inconclusive; neither leaves anything behind. Where nothing is found at the locator,
/// the check refutes. What is found confirms where the predicate holds of it, and refutes
/// where it does not; the check is kept with its revision, the hash of its span, the time,
/// and who ran it. A run time is kept only where code ran.
pub proof fn law_reads_come_to_outcomes(
    check: GroundOutcome,
    fact: Fact,
    ground: int,
    read: ReadResult,
    number: Option<Real>,
    close: bool,
    now: Timestamp,
    elapsed: Real,
    bumped: Seq<Real>,
)
    requires
        crate::engine::is_outcome(
            check,
            fact,
            ground,
            read,
            number,
            close,
            now,
            elapsed,
            bumped,
        ),
    ensures
        read is Errored ==> check.outcome == Outcome::Errored,
        read is Transient ==> check.outcome == Outcome::Inconclusive,
        read is Unresolved ==> check.outcome == Outcome::Refuted,
        read matches ReadResult::Resolved(span) ==> check.outcome == (if crate::predicate::is_yes(
            super::judging::found(
                fact.grounds@[ground].predicate,
                fact.value.env_spec(),
                span.text@,
            ),
            number,
            close,
        ) {
            Outcome::Confirmed
        } else {
            Outcome::Refuted
        }),
        read is Errored || read is Transient ==> check.resolved is None && check.set_update is None
            && check.observed_cost is None,
        read is Unresolved ==> check.set_update is None && (check.resolved matches Some(last)
            && last.rev@.len() == 0 && last.span_hash@.len() == 0),
        read matches ReadResult::Resolved(span) ==> (check.resolved matches Some(last) && last.rev@
            == span.rev@ && last.span_hash@ == span.span_hash@),
        check.resolved matches Some(last) ==> last.at == now && last.outcome == check.outcome
            && crate::engine::hash_text(last.by) == run_by(fact.grounds@[ground]),
        check.outcome != Outcome::Confirmed ==> check.set_update is None,
        (read is Unresolved || read is Resolved) && run_by(fact.grounds@[ground]) is Some
            ==> check.observed_cost == Some(elapsed),
        run_by(fact.grounds@[ground]) is None ==> check.observed_cost is None,
{
}

/// The operation that records a check says what the check came to, of which ground of
/// which fact, and by whom.
pub proof fn law_records_say_what_was_found(
    op: WriteOp,
    fact: Fact,
    ground: int,
    check: GroundOutcome,
)
    requires
        crate::engine::records(op, fact, ground, check),
    ensures
        op is GroundCheck,
        op->GroundCheck_fact.0@ == super::searching::key_of(fact),
        op->GroundCheck_ground == ground,
        op->GroundCheck_outcome == check.outcome,
        op->GroundCheck_resolved == check.resolved,
        op->GroundCheck_set_update == check.set_update,
        op->GroundCheck_observed_cost == check.observed_cost,
        crate::engine::hash_text(op->GroundCheck_by) == run_by(fact.grounds@[ground]),
{
}

// ---------------------------------------------------------------------------
// Sets
// ---------------------------------------------------------------------------

/// Whether an element is the first of some that equals a value.
pub open spec fn is_first_equal(elements: Seq<Element>, value: Seq<char>, i: int) -> bool {
    &&& 0 <= i < elements.len()
    &&& crate::json::json_equal(elements[i].value.text@, value)
    &&& forall|k: int|
        0 <= k < i ==> !crate::json::json_equal((#[trigger] elements[k]).value.text@, value)
}

/// Whether a value equals none of some elements.
pub open spec fn is_new_to(elements: Seq<Element>, value: Seq<char>) -> bool {
    forall|k: int|
        0 <= k < elements.len() ==> !crate::json::json_equal(
            (#[trigger] elements[k]).value.text@,
            value,
        )
}

proof fn lemma_element_at(elements: Seq<Element>, value: Seq<char>, from: int)
    requires
        0 <= from <= elements.len(),
        forall|k: int|
            0 <= k < from ==> !crate::json::json_equal((#[trigger] elements[k]).value.text@, value),
    ensures
        ({
            let at = crate::engine::element_at(elements, value, from);
            &&& at < elements.len() ==> is_first_equal(elements, value, at)
            &&& at >= elements.len() ==> is_new_to(elements, value)
        }),
    decreases elements.len() - from,
{
    if from < elements.len() && !crate::json::json_equal(elements[from].value.text@, value) {
        lemma_element_at(elements, value, from + 1);
    }
}

/// A set that is confirmed holds what was returned for it, value by value. One that was
/// there stays as it was written, with the confidence that it has earned by now; one that
/// was not comes in at three fifths. All were seen now, and none is in conflict.
pub proof fn law_confirmed_sets_hold_what_was_returned(
    update: Option<Vec<Element>>,
    value: FactValue,
    span: Seq<char>,
    now: Timestamp,
    bumped: Seq<Real>,
    k: int,
    i: int,
)
    requires
        crate::engine::is_diff(update, value, span, now, bumped),
    ensures
        value is Scalar ==> update is None,
        crate::json::json_elements(crate::text::trim(span)) is None ==> update is None,
        value is Elements && crate::json::json_elements(crate::text::trim(span)) is Some
            ==> update is Some && update->Some_0@.len() == crate::json::json_elements(
            crate::text::trim(span),
        )->Some_0.len(),
        update matches Some(merged) && 0 <= k < merged@.len() ==> {
            let returned = crate::json::json_elements(crate::text::trim(span))->Some_0[k];
            let element = update->Some_0@[k];
            &&& element.seen == now
            &&& element.conflict is None
            &&& is_first_equal(value->elements@, returned, i) ==> element.value
                == value->elements@[i].value && element.confidence == Some(bumped[i])
            &&& is_new_to(value->elements@, returned) ==> element.value.text@ == returned && (
            element.confidence matches Some(c) && c.bits == 0x3fe3_3333_3333_3333)
        },
{
    if let Some(merged) = update {
        if 0 <= k < merged@.len() {
            let returned = crate::json::json_elements(crate::text::trim(span))->Some_0[k];
            let elements = value->elements@;
            assert(crate::engine::is_merged(merged@[k], elements, returned, now, bumped));
            lemma_element_at(elements, returned, 0);
            let at = crate::engine::element_at(elements, returned, 0);
            if is_first_equal(elements, returned, i) && at < elements.len() {
                if at < i {
                    assert(crate::json::json_equal(elements[at].value.text@, returned));
                } else if i < at {
                    assert(crate::json::json_equal(elements[i].value.text@, returned));
                }
                assert(at == i);
            }
            if is_first_equal(elements, returned, i) && at >= elements.len() {
                assert(crate::json::json_equal(elements[i].value.text@, returned));
            }
        }
    }
}

// ---------------------------------------------------------------------------
// Grants
// ---------------------------------------------------------------------------

/// A grant re-points every ground that reads the generator of that name to it, with its
/// new hash and capabilities, and leaves each other ground and the rest of the fact alone.
/// What was read so far stays.
pub proof fn law_grants_repoint_grounds(new: Fact, old: Fact, to: GeneratorRef, k: int)
    requires
        crate::engine::is_regranted(new, old, to),
        0 <= k < old.grounds@.len(),
    ensures
        new.id == old.id && new.claim == old.claim && new.value == old.value && new.epistemics
            == old.epistemics && new.schedule == old.schedule && new.source_hint
            == old.source_hint && new.provenance == old.provenance,
        new.grounds@.len() == old.grounds@.len(),
        new.grounds@[k].locator == old.grounds@[k].locator,
        new.grounds@[k].predicate == old.grounds@[k].predicate,
        new.grounds@[k].last == old.grounds@[k].last,
        old.grounds@[k].source matches GroundSource::Generator(was) && was.name@ == to.name@ ==> (
        new.grounds@[k].source matches GroundSource::Generator(is) && is.hash == to.hash
            && is.name == to.name && is.src_path == to.src_path && is.caps.net@ == to.caps.net@
            && is.caps.read@ == to.caps.read@ && is.caps.env@ == to.caps.env@ && is.cost_estimate
            == to.cost_estimate),
        !(old.grounds@[k].source matches GroundSource::Generator(was) && was.name@ == to.name@)
            ==> new.grounds@[k].source == old.grounds@[k].source,
{
    assert(crate::engine::is_repointed(new.grounds@[k], old.grounds@[k], to));
}

} // verus!
