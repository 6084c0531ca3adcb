//! Write authority. Every mutation is one [`WriteOp`] and becomes one op-log
//! record, tagged in the description so the invariant is auditable.
//!
//! The control-plane constructors live in [`crate::verify::authority`] and
//! require a [`ControlToken`], whose only field is private to that module.
//! Untrusted/data-plane callers can therefore construct [`WriteOp::Ingest`] and
//! nothing else — enforced by the compiler, not by convention.

use crate::duration::HalfLife;
use crate::number::{Real, HALF, TWO_FIFTHS, ZERO};
use crate::schema::{
    Claim, Element, Epistemics, FactId, FactValue, GeneratorHash, GroundBinding, Outcome, Resolved,
    TriageSource,
};
use crate::verify::ControlToken;
use vstd::prelude::*;

verus! {

/// The bits of the most confidence an ungrounded ingest may land at. The data
/// plane cannot assert certainty; only a ground check can move confidence above
/// this.
pub const INGEST_CONFIDENCE_CEILING: u64 = HALF;

/// The bits of the confidence a bare ingest (neither LLM-scored nor manual)
/// lands at: a weak prior, well under the ceiling, pending its first ground
/// check.
pub const INGEST_DEFAULT_CONFIDENCE: u64 = TWO_FIFTHS;

/// Every mutation of the store. Each becomes one tagged op-log record.
#[derive(Debug, Clone)]
pub enum WriteOp {
    /// Data plane. The ONLY op untrusted ingestion may construct. Always lands
    /// `Ungrounded` and cannot exceed [`INGEST_CONFIDENCE_CEILING`]. May carry a
    /// *draft* grounding (a source hint): a source + locator with no verifier,
    /// which does not count until the control plane grounds it.
    Ingest {
        claim: Claim,
        value: FactValue,
        triage: TriageSource,
        half_life: HalfLife,
        draft_ground: Option<GroundBinding>,
    },
    /// Control plane. Bind an independent ground source to a fact.
    /// A privilege escalation, logged loudly.
    Ground { fact: FactId, binding: GroundBinding, _auth: ControlToken },
    /// Control plane. Record the result of one ground check. The only path that
    /// can move `groundedness`. `by` is the generator hash for a `Generator`
    /// source, else `None`.
    GroundCheck {
        fact: FactId,
        ground: usize,
        outcome: Outcome,
        by: Option<GeneratorHash>,
        resolved: Option<Resolved>,
        /// For set-valued facts: the merged element list after diffing the
        /// returned set. `None` for scalar facts.
        set_update: Option<Vec<Element>>,
        /// Wall-clock seconds the read took, folded into the generator's cost
        /// sketch. `None` when there is nothing to measure.
        observed_cost: Option<Real>,
        _auth: ControlToken,
    },
    /// Control plane. Scheduler-only. Adjusts ordering, never truth.
    Reschedule { fact: FactId, new_priority: Real, _auth: ControlToken },
    /// Control plane. Human override, always logged loudly.
    ManualOverride { fact: FactId, set: Epistemics, reason: String, _auth: ControlToken },
}

impl WriteOp {
    /// Data-plane constructor. Available to anyone; lands `Ungrounded`.
    pub fn ingest(
        claim: Claim,
        value: FactValue,
        triage: TriageSource,
        half_life: HalfLife,
        draft_ground: Option<GroundBinding>,
    ) -> (r: WriteOp)
        ensures
            r == (WriteOp::Ingest { claim, value, triage, half_life, draft_ground }),
    {
        WriteOp::Ingest { claim, value, triage, half_life, draft_ground }
    }

    /// The tag of an operation's log record.
    pub open spec fn tag_spec(&self) -> Seq<char> {
        match *self {
            WriteOp::Ingest { .. } => "Ingest"@,
            WriteOp::Ground { .. } => "Ground"@,
            WriteOp::GroundCheck { outcome, .. } => "GroundCheck:"@ + outcome.label_spec(),
            WriteOp::Reschedule { .. } => "Reschedule"@,
            WriteOp::ManualOverride { .. } => "ManualOverride"@,
        }
    }

    /// The variant name, used to tag the op-log record so the audit is greppable.
    pub fn tag(&self) -> (r: String)
        ensures
            r@ == self.tag_spec(),
    {
        match self {
            WriteOp::Ingest { .. } => "Ingest".to_owned(),
            WriteOp::Ground { .. } => "Ground".to_owned(),
            WriteOp::GroundCheck { outcome, .. } => "GroundCheck:".to_owned().concat(
                outcome.label(),
            ),
            WriteOp::Reschedule { .. } => "Reschedule".to_owned(),
            WriteOp::ManualOverride { .. } => "ManualOverride".to_owned(),
        }
    }

    /// The key of the fact an operation is about.
    pub open spec fn key_spec(&self) -> Seq<char> {
        match *self {
            WriteOp::Ingest { claim, .. } => claim.key_spec(),
            WriteOp::Ground { fact, .. } => fact.0@,
            WriteOp::GroundCheck { fact, .. } => fact.0@,
            WriteOp::Reschedule { fact, .. } => fact.0@,
            WriteOp::ManualOverride { fact, .. } => fact.0@,
        }
    }

    /// The key of the fact the operation is about.
    pub fn fact_key(&self) -> (r: String)
        ensures
            r@ == self.key_spec(),
    {
        match self {
            WriteOp::Ingest { claim, .. } => claim.key(),
            WriteOp::Ground { fact, .. } => fact.0.clone(),
            WriteOp::GroundCheck { fact, .. } => fact.0.clone(),
            WriteOp::Reschedule { fact, .. } => fact.0.clone(),
            WriteOp::ManualOverride { fact, .. } => fact.0.clone(),
        }
    }
}

/// The confidence an ingest asks for. `recalibrated` is the meta-confidence of
/// an LLM triage behind the recalibration map.
pub open spec fn requested(triage: TriageSource, recalibrated: Real) -> Real {
    match triage {
        TriageSource::Llm { .. } => recalibrated,
        TriageSource::Ingest => Real { bits: INGEST_DEFAULT_CONFIDENCE },
        TriageSource::Manual => Real { bits: INGEST_CONFIDENCE_CEILING },
    }
}

/// The confidence an ingest lands at.
pub open spec fn landed(triage: TriageSource, recalibrated: Real) -> Real {
    requested(triage, recalibrated).clamped(
        Real { bits: ZERO },
        Real { bits: INGEST_CONFIDENCE_CEILING },
    )
}

/// Confidence an ingest lands at, clamped to the triage ceiling. The data plane
/// cannot exceed this no matter what confidence it requests. The recalibration
/// map grades the triage, never the ground truth: bare ingests and manual triage
/// are not LLM claims, so it does not touch them.
pub fn landed_confidence_with(triage: &TriageSource, recalibrated: Real) -> (r: Real)
    ensures
        r == landed(*triage, recalibrated),
{
    let asked = match triage {
        TriageSource::Llm { .. } => recalibrated,
        TriageSource::Ingest => Real { bits: INGEST_DEFAULT_CONFIDENCE },
        TriageSource::Manual => Real { bits: INGEST_CONFIDENCE_CEILING },
    };
    asked.clamp(Real { bits: ZERO }, Real { bits: INGEST_CONFIDENCE_CEILING })
}

/// Whatever an ingest asks for, it lands at no less than zero and no more than
/// the ceiling.
pub proof fn law_ingest_stays_under_ceiling(triage: TriageSource, recalibrated: Real)
    ensures
        !(Real { bits: INGEST_CONFIDENCE_CEILING }).less(&landed(triage, recalibrated)),
        !landed(triage, recalibrated).less(&Real { bits: ZERO }),
{
    crate::number::law_clamped_within(
        requested(triage, recalibrated),
        Real { bits: ZERO },
        Real { bits: INGEST_CONFIDENCE_CEILING },
    );
}

/// Recalibration does not touch a triage that no LLM made.
pub proof fn law_recalibration_leaves_others_alone(triage: TriageSource, a: Real, b: Real)
    requires
        !(triage is Llm),
    ensures
        landed(triage, a) == landed(triage, b),
{
}

} // verus!
