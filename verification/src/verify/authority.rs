//! The only place control-plane [`WriteOp`]s can be constructed. Each function
//! mints a [`ControlToken`], which untrusted callers cannot obtain.

use super::ControlToken;
use crate::number::Real;
use crate::schema::{Element, Epistemics, FactId, GeneratorHash, GroundBinding, Outcome, Resolved};
use crate::write::WriteOp;
use vstd::prelude::*;

verus! {

/// Binds an independent ground source to a fact. A privilege escalation, logged
/// loudly.
pub fn ground(fact: FactId, binding: GroundBinding) -> (r: WriteOp)
    ensures
        r matches WriteOp::Ground { fact: f, binding: b, .. } && f == fact && b == binding,
{
    WriteOp::Ground { fact, binding, _auth: ControlToken::mint() }
}

/// Records the result of one ground check. The only path that can move
/// `groundedness`; a verifier is just the tier-3 case.
pub fn ground_check(
    fact: FactId,
    ground: usize,
    outcome: Outcome,
    by: Option<GeneratorHash>,
    resolved: Option<Resolved>,
    set_update: Option<Vec<Element>>,
    observed_cost: Option<Real>,
) -> (r: WriteOp)
    ensures
        r matches WriteOp::GroundCheck {
            fact: f,
            ground: g,
            outcome: o,
            by: b,
            resolved: s,
            set_update: u,
            observed_cost: c,
            ..
        } && f == fact && g == ground && o == outcome && b == by && s == resolved && u == set_update
            && c == observed_cost,
{
    WriteOp::GroundCheck {
        fact,
        ground,
        outcome,
        by,
        resolved,
        set_update,
        observed_cost,
        _auth: ControlToken::mint(),
    }
}

/// Adjusts scheduling priority. Never touches truth.
pub fn reschedule(fact: FactId, new_priority: Real) -> (r: WriteOp)
    ensures
        r matches WriteOp::Reschedule { fact: f, new_priority: p, .. } && f == fact && p
            == new_priority,
{
    WriteOp::Reschedule { fact, new_priority, _auth: ControlToken::mint() }
}

/// Human override of belief, always logged loudly.
pub fn manual_override(fact: FactId, set: Epistemics, reason: String) -> (r: WriteOp)
    ensures
        r matches WriteOp::ManualOverride { fact: f, set: e, reason: t, .. } && f == fact && e
            == set && t == reason,
{
    WriteOp::ManualOverride { fact, set, reason, _auth: ControlToken::mint() }
}

} // verus!
