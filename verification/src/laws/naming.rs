//! What things are called, how values are shown, and what weighs how much.

use crate::number::Real;
use crate::schema::{Element, FactValue, GroundSource, Groundedness, Outcome, TriageSource};
use crate::write::WriteOp;
use vstd::prelude::*;

verus! {

// ---------------------------------------------------------------------------
// Values
// ---------------------------------------------------------------------------

/// A string is shown, and handed to a verifier, without its quotes; any other single
/// value as its compact text.
pub proof fn law_single_values_are_shown_plain(value: FactValue)
    requires
        value is Scalar,
    ensures
        crate::json::json_string(value->value.text@) matches Some(s) ==> value.render_spec() == s
            && value.env_spec() == s,
        crate::json::json_string(value->value.text@) is None ==> value.render_spec()
            == value->value.text@ && value.env_spec() == value->value.text@,
{
}

/// A set is shown in brackets: with nothing in them where it is empty, with the one text
/// where it has one element, and with one more text behind a comma for each further
/// element; for a person a space follows the comma.
pub proof fn law_sets_are_shown_in_brackets(fewer: FactValue, more: FactValue, element: Element)
    requires
        fewer is Elements,
        more is Elements,
        more->elements@ == fewer->elements@.push(element),
    ensures
        fewer->elements@.len() == 0 ==> fewer.render_spec() == seq!['[', ']'] && fewer.env_spec()
            == seq!['[', ']'],
        fewer->elements@.len() == 0 ==> more.render_spec() == seq!['['] + element.value.text@ + seq![
            ']',
        ] && more.env_spec() == seq!['['] + element.value.text@ + seq![']'],
        fewer->elements@.len() > 0 ==> more.render_spec() == fewer.render_spec().drop_last() + seq![
            ',',
            ' ',
        ] + element.value.text@ + seq![']'],
        fewer->elements@.len() > 0 ==> more.env_spec() == fewer.env_spec().drop_last() + seq![','] +
        element.value.text@ + seq![']'],
{
    let before = crate::schema::element_texts(fewer->elements@);
    let after = crate::schema::element_texts(more->elements@);
    assert(after =~= before.push(element.value.text@));
    lemma_joined_push(before, element.value.text@, seq![',', ' ']);
    lemma_joined_push(before, element.value.text@, seq![',']);
    if before.len() == 0 {
        assert(crate::text::joined(before, seq![',', ' ']) =~= Seq::<char>::empty());
        assert(crate::text::joined(before, seq![',']) =~= Seq::<char>::empty());
    }
    assert(fewer.render_spec().drop_last() =~= seq!['['] + crate::text::joined(
        before,
        seq![',', ' '],
    ));
    assert(fewer.env_spec().drop_last() =~= seq!['['] + crate::text::joined(before, seq![',']));
}

proof fn lemma_joined_push(parts: Seq<Seq<char>>, part: Seq<char>, separator: Seq<char>)
    ensures
        crate::text::joined(parts.push(part), separator) == (if parts.len() == 0 {
            part
        } else {
            crate::text::joined(parts, separator) + separator + part
        }),
{
    let all = parts.push(part);
    assert(all.drop_last() =~= parts);
    assert(all.last() == part);
}

// ---------------------------------------------------------------------------
// Names
// ---------------------------------------------------------------------------

/// The name of an outcome.
pub open spec fn outcome_name(outcome: Outcome) -> Seq<char> {
    match outcome {
        Outcome::Confirmed => "confirmed"@,
        Outcome::Refuted => "refuted"@,
        Outcome::Errored => "errored"@,
        Outcome::Inconclusive => "inconclusive"@,
    }
}

/// States and outcomes are called by their names, and no two outcomes by the same.
pub proof fn law_states_and_outcomes_are_named(
    groundedness: Groundedness,
    outcome: Outcome,
    other: Outcome,
)
    ensures
        groundedness.label_spec() == super::searching::state_name(groundedness),
        outcome.label_spec() == outcome_name(outcome),
        outcome.label_spec() == other.label_spec() ==> outcome == other,
{
    reveal_strlit("confirmed");
    reveal_strlit("refuted");
    reveal_strlit("errored");
    reveal_strlit("inconclusive");
    assert("refuted"@[0] == 'r' && "errored"@[0] == 'e');
    assert("confirmed"@.len() == 9 && "inconclusive"@.len() == 12 && "refuted"@.len() == 7
        && "errored"@.len() == 7);
}

/// A log record is tagged with the kind of the operation, and a check with its outcome
/// too. It is about the fact that the operation names, or the key of the claim that is
/// ingested.
pub proof fn law_operations_are_tagged(op: WriteOp)
    ensures
        op is Ingest ==> op.tag_spec() == "Ingest"@ && op.key_spec() == op->Ingest_claim.entity.0@
            + seq!['.'] + op->Ingest_claim.relation@,
        op is Ground ==> op.tag_spec() == "Ground"@ && op.key_spec() == op->Ground_fact.0@,
        op is GroundCheck ==> op.tag_spec() == "GroundCheck:"@ + outcome_name(
            op->GroundCheck_outcome,
        ) && op.key_spec() == op->GroundCheck_fact.0@,
        op is Reschedule ==> op.tag_spec() == "Reschedule"@ && op.key_spec()
            == op->Reschedule_fact.0@,
        op is ManualOverride ==> op.tag_spec() == "ManualOverride"@ && op.key_spec()
            == op->ManualOverride_fact.0@,
{
}

/// A file, a command and a generator are called so; a handler is called by its scheme.
pub proof fn law_sources_are_called(source: GroundSource)
    ensures
        source is File ==> source.kind_spec() == "FILE"@,
        source is Command ==> source.kind_spec() == "CMD"@,
        source is Generator ==> source.kind_spec() == "GEN"@,
        source matches GroundSource::Handler(h) ==> source.kind_spec() == crate::text::upper_form(
            h.handler.scheme@,
        ),
{
}

// ---------------------------------------------------------------------------
// Weights
// ---------------------------------------------------------------------------

/// What is verified counts in full, what is in conflict by half, anything else not at
/// all.
pub proof fn law_only_verified_facts_count_in_full(groundedness: Groundedness)
    ensures
        groundedness is Verified ==> groundedness.weight_bits() == 0x3ff0_0000_0000_0000,
        groundedness is Conflicted ==> groundedness.weight_bits() == 0x3fe0_0000_0000_0000,
        groundedness is Ungrounded || groundedness is Refuted ==> groundedness.weight_bits() == 0,
{
}

/// Only what confirms or refutes moves a belief.
pub proof fn law_only_verdicts_move_belief(outcome: Outcome)
    ensures
        outcome.moves_belief() <==> outcome == Outcome::Confirmed || outcome == Outcome::Refuted,
{
}

/// A file counts in full and cannot go over a network. A generator or handler counts nine
/// tenths where it may not reach a network, and half where it may. A command counts seven
/// tenths and may always reach one.
pub proof fn law_channels_are_weighed(source: GroundSource)
    ensures
        source is File ==> !source.net_spec() && source.weight_bits() == 0x3ff0_0000_0000_0000,
        source is Command ==> source.net_spec() && source.weight_bits() == 0x3fe6_6666_6666_6666,
        source matches GroundSource::Generator(g) ==> (source.net_spec() <==> g.caps.net@.len()
            > 0),
        source matches GroundSource::Handler(h) ==> (source.net_spec()
            <==> h.handler.caps.net@.len() > 0),
        source is Generator || source is Handler ==> source.weight_bits() == (
        if source.net_spec() {
            0x3fe0_0000_0000_0000u64
        } else {
            0x3fec_cccc_cccc_cccdu64
        }),
{
}

/// What is ingested lands at two fifths, by hand at a half, and from an LLM at its
/// recalibrated confidence, between zero and a half.
pub proof fn law_ingests_land_low(triage: TriageSource, recalibrated: Real)
    ensures
        triage is Ingest ==> crate::write::landed(triage, recalibrated).bits
            == 0x3fd9_9999_9999_999a,
        triage is Manual ==> crate::write::landed(triage, recalibrated).bits
            == 0x3fe0_0000_0000_0000,
        triage is Llm && recalibrated.bits <= 0x3fe0_0000_0000_0000 ==> crate::write::landed(
            triage,
            recalibrated,
        ) == recalibrated,
        triage is Llm && 0x3fe0_0000_0000_0000 < recalibrated.bits <= 0x7ff0_0000_0000_0000
            ==> crate::write::landed(triage, recalibrated).bits == 0x3fe0_0000_0000_0000,
        triage is Llm && 0x8000_0000_0000_0000 < recalibrated.bits <= 0xfff0_0000_0000_0000
            ==> crate::write::landed(triage, recalibrated).bits == 0,
{
}

} // verus!
