//! What one write does to one fact.

use crate::duration::HalfLife;
use crate::error::Error;
use crate::locator::render_ground;
use crate::number::{Real, ONE, ZERO};
use crate::schema::{Claim, Element, Epistemics, Fact, FactId, FactValue, GeneratorHash};
use crate::schema::{GroundBinding, Groundedness, Outcome, Provenance, Resolved, ScheduleMeta};
use crate::schema::TriageSource;
use crate::store::files::FactFile;
use crate::store::placement::{move_fact, FactWrite};
use crate::store::JishukenStore;
use crate::text::{decimal_text, same};
use crate::time::Timestamp;
use crate::write::{landed_confidence_with, WriteOp};
use vstd::prelude::*;

verus! {

/// The bits of a fresh ingest's variance, one quarter: it knows nothing yet.
pub const INGEST_VARIANCE: u64 = 0x3fd0_0000_0000_0000;

/// A single training pair, produced only by a ground check.
#[derive(Debug, Clone, Copy, PartialEq, Eq, Structural)]
pub struct CalibrationSample {
    pub prior: Real,
    pub grounded_outcome: bool,
}

// ---------------------------------------------------------------------------
// Groundedness
// ---------------------------------------------------------------------------

/// What the grounds of a fact say, with its texts as characters.
pub enum Standing {
    Ungrounded { source: TriageSource },
    Verified { at: Timestamp, by: Seq<char> },
    Refuted { at: Timestamp, by: Seq<char> },
    Conflicted { verifiers: Seq<Seq<char>> },
}

/// Verifier identities, as characters.
pub open spec fn hashes(verifiers: Seq<GeneratorHash>) -> Seq<Seq<char>> {
    verifiers.map_values(|h: GeneratorHash| h.0@)
}

impl View for Groundedness {
    type V = Standing;

    open spec fn view(&self) -> Standing {
        match *self {
            Groundedness::Ungrounded { source } => Standing::Ungrounded { source },
            Groundedness::Verified { at, by } => Standing::Verified { at, by: by.0@ },
            Groundedness::Refuted { at, by } => Standing::Refuted { at, by: by.0@ },
            Groundedness::Conflicted { verifiers } => Standing::Conflicted {
                verifiers: hashes(verifiers@),
            },
        }
    }
}

fn copy_hashes(verifiers: &Vec<GeneratorHash>) -> (r: Vec<GeneratorHash>)
    ensures
        hashes(r@) == hashes(verifiers@),
{
    let mut out: Vec<GeneratorHash> = Vec::new();
    let mut i: usize = 0;
    while i < verifiers.len()
        invariant
            i <= verifiers.len(),
            out@.len() == i,
            forall|k: int| 0 <= k < i ==> (#[trigger] out@[k]).0@ == verifiers@[k].0@,
        decreases verifiers.len() - i,
    {
        out.push(verifiers[i].clone());
        i = i + 1;
    }
    assert(hashes(out@) =~= hashes(verifiers@));
    out
}

impl Groundedness {
    /// A copy of the belief.
    pub fn copy(&self) -> (r: Groundedness)
        ensures
            r@ == self@,
    {
        match self {
            Groundedness::Ungrounded { source } => Groundedness::Ungrounded { source: *source },
            Groundedness::Verified { at, by } => Groundedness::Verified { at: *at, by: by.clone() },
            Groundedness::Refuted { at, by } => Groundedness::Refuted { at: *at, by: by.clone() },
            Groundedness::Conflicted { verifiers } => Groundedness::Conflicted {
                verifiers: copy_hashes(verifiers),
            },
        }
    }
}

/// Who checked a ground: a generator's hash, or `existence` for a source that runs
/// none.
pub open spec fn checked_by(last: Resolved) -> Seq<char> {
    match last.by {
        Some(hash) => hash.0@,
        None => "existence"@,
    }
}

fn verifier_of(last: &Resolved) -> (r: GeneratorHash)
    ensures
        r.0@ == checked_by(*last),
{
    match &last.by {
        Some(hash) => hash.clone(),
        None => GeneratorHash("existence".to_owned()),
    }
}

/// Whether a ground confirmed or refuted when it was last checked.
pub open spec fn has_verdict(ground: GroundBinding) -> bool {
    ground.last matches Some(last) && last.outcome.moves_belief()
}

/// Whether some ground last came to an outcome.
pub open spec fn any_came_to(grounds: Seq<GroundBinding>, outcome: Outcome) -> bool {
    exists|i: int|
        0 <= i < grounds.len() && ((#[trigger] grounds[i]).last matches Some(last) && last.outcome
            == outcome)
}

/// The verifiers with a verdict, in the order of the grounds.
pub open spec fn verdict_makers(grounds: Seq<GroundBinding>) -> Seq<Seq<char>>
    decreases grounds.len(),
{
    if grounds.len() == 0 {
        Seq::empty()
    } else if has_verdict(grounds.last()) {
        verdict_makers(grounds.drop_last()).push(checked_by(grounds.last().last->Some_0))
    } else {
        verdict_makers(grounds.drop_last())
    }
}

/// The newest verdict, the first of those made at the same instant; `None` where no
/// ground has a verdict.
pub open spec fn newest_verdict(grounds: Seq<GroundBinding>) -> Option<Resolved>
    decreases grounds.len(),
{
    if grounds.len() == 0 {
        None
    } else {
        let before = newest_verdict(grounds.drop_last());
        if !has_verdict(grounds.last()) {
            before
        } else {
            let last = grounds.last().last->Some_0;
            match before {
                Some(newest) => if last.at.later_than(&newest.at) {
                    Some(last)
                } else {
                    before
                },
                None => Some(last),
            }
        }
    }
}

/// What the grounds of a fact say together. Where independent grounds split between
/// confirm and refute, the fact holds two answers. Where none has a verdict, the
/// belief stays what it was.
pub open spec fn aggregate(grounds: Seq<GroundBinding>, prior: Standing) -> Standing {
    let confirmed = any_came_to(grounds, Outcome::Confirmed);
    let refuted = any_came_to(grounds, Outcome::Refuted);
    let newest = newest_verdict(grounds)->Some_0;
    if confirmed && refuted {
        Standing::Conflicted { verifiers: verdict_makers(grounds) }
    } else if confirmed {
        Standing::Verified { at: newest.at, by: checked_by(newest) }
    } else if refuted {
        Standing::Refuted { at: newest.at, by: checked_by(newest) }
    } else {
        prior
    }
}

/// Recomputes a fact's groundedness from all its grounds. A ground that last
/// confirmed or refuted counts as checked; if independent grounds split between
/// confirm and refute, the fact holds two answers and is `Conflicted`. If all
/// checked grounds refute the claim, it is `Refuted`. With no checked ground it
/// stays what it was.
pub fn aggregate_groundedness(fact: &Fact) -> (r: Groundedness)
    ensures
        r@ == aggregate(fact.grounds@, fact.epistemics.groundedness@),
{
    let ghost all = fact.grounds@;
    let mut confirmed = false;
    let mut refuted = false;
    let mut newest: Option<(Timestamp, GeneratorHash)> = None;
    let mut verifiers: Vec<GeneratorHash> = Vec::new();
    let mut i: usize = 0;
    assert(all.take(0) =~= Seq::<GroundBinding>::empty());
    assert(hashes(verifiers@) =~= Seq::<Seq<char>>::empty());
    while i < fact.grounds.len()
        invariant
            i <= fact.grounds.len(),
            all == fact.grounds@,
            confirmed == any_came_to(all.take(i as int), Outcome::Confirmed),
            refuted == any_came_to(all.take(i as int), Outcome::Refuted),
            hashes(verifiers@) == verdict_makers(all.take(i as int)),
            newest is Some <==> confirmed || refuted,
            match newest_verdict(all.take(i as int)) {
                Some(last) => newest matches Some((at, by)) && at == last.at && by.0@ == checked_by(
                    last,
                ),
                None => newest is None,
            },
        decreases fact.grounds.len() - i,
    {
        let ghost seen = all.take(i as int);
        let ghost next = all.take(i + 1);
        proof {
            assert(next.drop_last() =~= seen);
            assert(next.last() == all[i as int]);
            lemma_came_to(seen, next, Outcome::Confirmed);
            lemma_came_to(seen, next, Outcome::Refuted);
        }
        if let Some(last) = &fact.grounds[i].last {
            if last.outcome.updates_belief() {
                let by = verifier_of(last);
                if last.outcome == Outcome::Confirmed {
                    confirmed = true;
                } else {
                    refuted = true;
                }
                let ghost before = hashes(verifiers@);
                verifiers.push(by.clone());
                assert(hashes(verifiers@) =~= before.push(by.0@));
                let later = match &newest {
                    Some((at, _)) => last.at.after(at),
                    None => true,
                };
                if later {
                    newest = Some((last.at, by));
                }
            }
        }
        i = i + 1;
    }
    assert(all.take(i as int) =~= all);
    if confirmed && refuted {
        return Groundedness::Conflicted { verifiers };
    }
    match newest {
        Some((at, by)) => {
            if confirmed {
                Groundedness::Verified { at, by }
            } else {
                Groundedness::Refuted { at, by }
            }
        },
        None => fact.epistemics.groundedness.copy(),
    }
}

/// One more ground counts where it came to the outcome itself.
proof fn lemma_came_to(seen: Seq<GroundBinding>, next: Seq<GroundBinding>, outcome: Outcome)
    requires
        next.len() == seen.len() + 1,
        next.drop_last() == seen,
    ensures
        any_came_to(next, outcome) == (any_came_to(seen, outcome) || (next.last().last matches Some(
            last,
        ) && last.outcome == outcome)),
{
    if any_came_to(seen, outcome) {
        let i = choose|i: int|
            0 <= i < seen.len() && ((#[trigger] seen[i]).last matches Some(last) && last.outcome
                == outcome);
        assert(next[i] == seen[i]);
    }
    if any_came_to(next, outcome) {
        let i = choose|i: int|
            0 <= i < next.len() && ((#[trigger] next[i]).last matches Some(last) && last.outcome
                == outcome);
        if i < seen.len() {
            assert(next[i] == seen[i]);
        }
    }
    assert(next[next.len() - 1] == next.last());
}

// ---------------------------------------------------------------------------
// One write
// ---------------------------------------------------------------------------

/// A belief behind a ground check: what it had decayed to, and what the check made
/// of it.
#[derive(Debug, Clone, Copy, PartialEq, Eq, Structural)]
pub struct Belief {
    pub prior: Real,
    pub confidence: Real,
    pub variance: Real,
}

/// What a write takes from its surroundings.
pub struct Circumstances {
    pub now: Timestamp,
    /// Who writes.
    pub who: String,
    /// An LLM's confidence behind the recalibration map.
    pub recalibrated: Real,
    /// The belief behind a ground check.
    pub belief: Belief,
}

/// What a write stages, and how it is logged.
pub struct Staged {
    pub id: FactId,
    pub fact: Fact,
    pub tag: String,
    pub detail: String,
    /// A sample to calibrate triage by.
    pub sample: Option<CalibrationSample>,
    /// The run time of a generator, in seconds.
    pub cost: Option<(GeneratorHash, Real)>,
    /// Whether the write can move centrality.
    pub moves_centrality: bool,
}

/// Whether the parts of a fact that no control-plane write touches are the same.
pub open spec fn same_subject(new: Fact, old: Fact) -> bool {
    &&& new.id == old.id
    &&& new.claim == old.claim
    &&& new.provenance == old.provenance
}

/// Whether a fact is freshly ingested: ungrounded, weakly believed, with no ground,
/// and the draft ground kept as a hint that was never checked.
pub open spec fn is_ingested(
    fact: Fact,
    claim: Claim,
    value: FactValue,
    triage: TriageSource,
    half_life: HalfLife,
    draft_ground: Option<GroundBinding>,
    circumstances: Circumstances,
) -> bool {
    &&& fact.claim.entity.0@ == crate::schema::nfc_form(claim.entity.0@)
    &&& fact.claim.relation@ == crate::schema::nfc_form(claim.relation@)
    &&& fact.claim.nl == claim.nl
    &&& crate::store::files::is_settled(fact)
    &&& fact.value == value
    &&& fact.epistemics == (Epistemics {
        confidence: crate::write::landed(triage, circumstances.recalibrated),
        groundedness: Groundedness::Ungrounded { source: triage },
    })
    &&& fact.schedule == (ScheduleMeta {
        half_life,
        centrality: Real { bits: ONE },
        last_verified: circumstances.now,
        variance_at_verify: Real { bits: INGEST_VARIANCE },
        priority: Real { bits: ZERO },
    })
    &&& fact.source_hint == (match draft_ground {
        Some(hint) => Some(crate::store::files::unchecked(hint)),
        None => None,
    })
    &&& fact.grounds@.len() == 0
    &&& fact.provenance == (Provenance {
        ingested_by: circumstances.who,
        ingested_at: circumstances.now,
    })
}

/// Whether a ground was bound: it is the last of the grounds, and the hint is gone.
pub open spec fn is_grounded(new: Fact, old: Fact, binding: GroundBinding) -> bool {
    &&& same_subject(new, old)
    &&& new.value == old.value
    &&& new.epistemics == old.epistemics
    &&& new.schedule == old.schedule
    &&& new.source_hint is None
    &&& new.grounds@ == old.grounds@.push(binding)
}

/// The grounds once one was checked: it holds what the check resolved to.
pub open spec fn checked(
    grounds: Seq<GroundBinding>,
    ground: int,
    resolved: Option<Resolved>,
) -> Seq<GroundBinding> {
    if ground < grounds.len() && resolved is Some {
        grounds.update(ground, GroundBinding { last: resolved, ..grounds[ground] })
    } else {
        grounds
    }
}

/// Whether a ground check was recorded. Only a verdict moves confidence, variance
/// and the time of verification; groundedness is what all grounds say together.
pub open spec fn is_checked(
    new: Fact,
    old: Fact,
    ground: int,
    outcome: Outcome,
    resolved: Option<Resolved>,
    set_update: Option<Vec<Element>>,
    circumstances: Circumstances,
) -> bool {
    &&& same_subject(new, old)
    &&& new.value == (match set_update {
        Some(elements) => FactValue::Elements { elements },
        None => old.value,
    })
    &&& new.source_hint == old.source_hint
    &&& new.grounds@ == checked(old.grounds@, ground, resolved)
    &&& new.epistemics.groundedness@ == aggregate(new.grounds@, old.epistemics.groundedness@)
    &&& if outcome.moves_belief() {
        &&& new.epistemics.confidence == circumstances.belief.confidence
        &&& new.schedule == (ScheduleMeta {
            last_verified: circumstances.now,
            variance_at_verify: circumstances.belief.variance,
            ..old.schedule
        })
    } else {
        &&& new.epistemics.confidence == old.epistemics.confidence
        &&& new.schedule == old.schedule
    }
}

/// Whether a fact was rescheduled: its priority is new, and nothing else.
pub open spec fn is_rescheduled(new: Fact, old: Fact, priority: Real) -> bool {
    new == (Fact { schedule: ScheduleMeta { priority, ..old.schedule }, ..old })
}

/// Whether belief was overridden: it is new, and nothing else.
pub open spec fn is_overridden(new: Fact, old: Fact, set: Epistemics) -> bool {
    new == (Fact { epistemics: set, ..old })
}

/// Whether what is staged is what an operation does to a fact.
pub open spec fn is_staged(
    staged: Staged,
    op: WriteOp,
    fact: Option<Fact>,
    circumstances: Circumstances,
) -> bool {
    let key = staged.fact.claim.key_spec();
    &&& staged.tag@ == op.tag_spec()
    &&& staged.moves_centrality == (op is Ingest || op is GroundCheck)
    &&& match op {
        WriteOp::Ingest { claim, value, triage, half_life, draft_ground } => {
            &&& is_ingested(
                staged.fact,
                claim,
                value,
                triage,
                half_life,
                draft_ground,
                circumstances,
            )
            &&& staged.id == staged.fact.id
            &&& staged.detail@ == key
        },
        WriteOp::Ground { fact: id, binding, .. } => {
            &&& is_grounded(staged.fact, fact->Some_0, binding)
            &&& staged.id == id
            &&& staged.detail@ == key + " <- "@ + crate::locator::ground_text(binding)
        },
        WriteOp::GroundCheck { fact: id, ground, outcome, resolved, set_update, .. } => {
            &&& is_checked(
                staged.fact,
                fact->Some_0,
                ground as int,
                outcome,
                resolved,
                set_update,
                circumstances,
            )
            &&& staged.id == id
            &&& staged.detail@ == key + " #"@ + crate::text::digits_of(ground as nat) + " "@ + (
            match resolved {
                Some(last) => checked_by(last),
                None => "existence"@,
            })
        },
        WriteOp::Reschedule { fact: id, new_priority, .. } => {
            &&& is_rescheduled(staged.fact, fact->Some_0, new_priority)
            &&& staged.id == id
            &&& staged.detail@ == key
        },
        WriteOp::ManualOverride { fact: id, set, reason, .. } => {
            &&& is_overridden(staged.fact, fact->Some_0, set)
            &&& staged.id == id
            &&& staged.detail@ == key + " :: "@ + reason@
        },
    }
    // Only a verdict is a sample of calibration, and only a measured generator
    // has a cost.
    &&& match op {
        WriteOp::GroundCheck { outcome, by, observed_cost, .. } => {
            &&& staged.sample == (if outcome.moves_belief() {
                Some(
                    CalibrationSample {
                        prior: circumstances.belief.prior,
                        grounded_outcome: outcome == Outcome::Confirmed,
                    },
                )
            } else {
                None
            })
            &&& staged.cost == (match (by, observed_cost) {
                (Some(hash), Some(secs)) => Some((hash, secs)),
                _ => None,
            })
        },
        _ => staged.sample is None && staged.cost is None,
    }
}

fn ingested(
    claim: Claim,
    value: FactValue,
    triage: TriageSource,
    half_life: HalfLife,
    draft_ground: Option<GroundBinding>,
    circumstances: Circumstances,
) -> (r: Fact)
    ensures
        is_ingested(r, claim, value, triage, half_life, draft_ground, circumstances),
{
    let mut claim = claim;
    claim.normalize();
    let confidence = landed_confidence_with(&triage, circumstances.recalibrated);
    let source_hint = match draft_ground {
        Some(hint) => {
            let mut hint = hint;
            hint.last = None;
            Some(hint)
        },
        None => None,
    };
    Fact {
        id: FactId::for_claim(&claim),
        claim,
        value,
        epistemics: Epistemics {
            confidence,
            groundedness: Groundedness::Ungrounded { source: triage },
        },
        schedule: ScheduleMeta {
            half_life,
            centrality: Real { bits: ONE },
            last_verified: circumstances.now,
            variance_at_verify: Real { bits: INGEST_VARIANCE },
            priority: Real { bits: ZERO },
        },
        source_hint,
        grounds: Vec::new(),
        provenance: Provenance {
            ingested_by: circumstances.who,
            ingested_at: circumstances.now,
        },
    }
}

fn record_check(
    fact: Fact,
    ground: usize,
    outcome: Outcome,
    resolved: Option<Resolved>,
    set_update: Option<Vec<Element>>,
    circumstances: &Circumstances,
) -> (r: Fact)
    ensures
        is_checked(r, fact, ground as int, outcome, resolved, set_update, *circumstances),
{
    let mut fact = fact;
    let ghost grounds = fact.grounds@;
    // Record the replay state on the ground that was checked.
    if ground < fact.grounds.len() && resolved.is_some() {
        let mut binding = fact.grounds.remove(ground);
        binding.last = resolved;
        fact.grounds.insert(ground, binding);
        assert(fact.grounds@ =~= checked(grounds, ground as int, resolved));
    }
    // Set-valued facts: replace elements with the diffed set.
    if let Some(elements) = set_update {
        fact.value = FactValue::Elements { elements };
    }
    if outcome.updates_belief() {
        fact.epistemics.confidence = circumstances.belief.confidence;
        fact.schedule.last_verified = circumstances.now;
        fact.schedule.variance_at_verify = circumstances.belief.variance;
    }
    // Recompute groundedness from all grounds.
    fact.epistemics.groundedness = aggregate_groundedness(&fact);
    fact
}

/// What a write does to the fact it is about: the fact it leaves, and how it is logged.
fn staged_on(op: WriteOp, fact: Fact, circumstances: Circumstances) -> (r: Staged)
    requires
        !(op is Ingest),
        op matches WriteOp::Ground { binding, .. } ==> (
        binding.source matches crate::schema::GroundSource::Generator(g) ==> crate::schema::can_cut(
            g.hash.0@,
            6,
        )),
    ensures
        is_staged(r, op, Some(fact), circumstances),
        same_subject(r.fact, fact),
{
    let tag = op.tag();
    let mut fact = fact;
    match op {
        WriteOp::Ground { fact: id, binding, .. } => {
            let detail = fact.claim.key().concat(" <- ").concat(render_ground(&binding).as_str());
            fact.grounds.push(binding);
            fact.source_hint = None;
            Staged { id, fact, tag, detail, sample: None, cost: None, moves_centrality: false }
        },
        WriteOp::GroundCheck {
            fact: id,
            ground,
            outcome,
            by,
            resolved,
            set_update,
            observed_cost,
            ..
        } => {
            let who = match &resolved {
                Some(last) => verifier_of(last),
                None => GeneratorHash("existence".to_owned()),
            };
            let detail = fact.claim.key().concat(" #").concat(
                decimal_text(ground as u128).as_str(),
            ).concat(" ").concat(who.0.as_str());
            let fact = record_check(fact, ground, outcome, resolved, set_update, &circumstances);
            let sample = if outcome.updates_belief() {
                Some(
                    CalibrationSample {
                        prior: circumstances.belief.prior,
                        grounded_outcome: outcome == Outcome::Confirmed,
                    },
                )
            } else {
                None
            };
            // Record the measured run time for the generator that produced this
            // check. Only generator and handler sources carry a hash.
            let cost = match (by, observed_cost) {
                (Some(hash), Some(secs)) => Some((hash, secs)),
                _ => None,
            };
            Staged { id, fact, tag, detail, sample, cost, moves_centrality: true }
        },
        WriteOp::Reschedule { fact: id, new_priority, .. } => {
            fact.schedule.priority = new_priority;
            let detail = fact.claim.key();
            Staged { id, fact, tag, detail, sample: None, cost: None, moves_centrality: false }
        },
        WriteOp::ManualOverride { fact: id, set, reason, .. } => {
            fact.epistemics = set;
            let detail = fact.claim.key().concat(" :: ").concat(reason.as_str());
            Staged { id, fact, tag, detail, sample: None, cost: None, moves_centrality: false }
        },
        WriteOp::Ingest { .. } => {
            assert(false);
            let id = fact.id.clone();
            let detail = fact.claim.key();
            Staged { id, fact, tag, detail, sample: None, cost: None, moves_centrality: true }
        },
    }
}

/// What a write comes to before it is placed: what it does, the fact files without the
/// one that holds the fact it is about, and that file's path. An ingest is about no
/// fact that is there.
pub struct Taken {
    pub staged: Staged,
    pub files: Vec<FactFile>,
    pub path: Option<String>,
}

/// Whether a fact's identity is that of its claim.
pub open spec fn is_own(fact: Fact) -> bool {
    fact.id.0@ == crate::store::files::normalized_key(fact.claim)
}

/// Whether a result is what a write comes to: the fact it is about is found among the
/// files by its key, or there is a reason why it cannot be.
pub open spec fn is_taken(
    r: Result<Taken, Error>,
    op: WriteOp,
    files: Seq<crate::store::files::Filed>,
    circumstances: Circumstances,
) -> bool {
    if op is Ingest {
        &&& r matches Ok(taken)
        &&& is_staged(taken.staged, op, None, circumstances)
        &&& crate::store::files::filed(taken.files@) == files
        &&& taken.path is None
    } else {
        match crate::store::files::found_at(files, op.key_spec()) {
            None => crate::store::files::is_not_found(r, files, op.key_spec()),
            Some(at) => if is_own(files[at].fact) {
                &&& r matches Ok(taken)
                &&& is_staged(taken.staged, op, Some(files[at].fact), circumstances)
                &&& same_subject(taken.staged.fact, files[at].fact)
                &&& crate::store::files::filed(taken.files@) == files.remove(at)
                &&& taken.path matches Some(path) && path@ == files[at].path
            } else {
                crate::error::is_store(r, "fact ID does not match its claim"@)
            },
        }
    }
}

impl JishukenStore {
    /// What one write does to the fact that its key names, found among the fact files.
    pub fn apply_staged(op: WriteOp, files: Vec<FactFile>, circumstances: Circumstances) -> (r:
        Result<Taken, Error>)
        requires
            op matches WriteOp::Ground { binding, .. } ==> (
            binding.source matches crate::schema::GroundSource::Generator(g) ==> crate::schema::can_cut(
                g.hash.0@,
                6,
            )),
        ensures
            is_taken(r, op, crate::store::files::filed(files@), circumstances),
    {
        let tag = op.tag();
        if let WriteOp::Ingest { claim, value, triage, half_life, draft_ground } = op {
            let fact = ingested(claim, value, triage, half_life, draft_ground, circumstances);
            let staged = Staged {
                id: fact.id.clone(),
                detail: fact.claim.key(),
                fact,
                tag,
                sample: None,
                cost: None,
                moves_centrality: true,
            };
            return Ok(Taken { staged, files, path: None });
        }
        let at: usize = match JishukenStore::read_fact_by_key(&files, op.fact_key().as_str()) {
            Ok(at) => at,
            Err(error) => {
                return Err(error);
            },
        };
        let ghost fs = crate::store::files::filed(files@);
        assert(fs[at as int] == files@[at as int]@);
        let mut claim = files[at].fact.claim.clone();
        claim.normalize();
        if !same(claim.key().as_str(), files[at].fact.id.0.as_str()) {
            return Err(Error::Store("fact ID does not match its claim".to_owned()));
        }
        let mut files = files;
        let file = files.remove(at);
        assert(crate::store::files::filed(files@) =~= fs.remove(at as int));
        Ok(
            Taken {
                staged: staged_on(op, file.fact, circumstances),
                files,
                path: Some(file.path),
            },
        )
    }
}

// ---------------------------------------------------------------------------
// Landing a write
// ---------------------------------------------------------------------------

/// A write that is to land: the files to stage, and how it is logged.
pub struct Applied {
    pub id: FactId,
    pub writes: Vec<FactWrite>,
    pub tag: String,
    pub detail: String,
    /// A sample to calibrate triage by.
    pub sample: Option<CalibrationSample>,
    /// The run time of a generator, in seconds.
    pub cost: Option<(GeneratorHash, Real)>,
    /// Whether the write can move centrality.
    pub moves_centrality: bool,
}

/// Whether a result lands what an operation staged: its fact goes to its path, or
/// there is a reason why it cannot.
pub open spec fn is_applied(
    r: Result<Applied, Error>,
    staged: Staged,
    files: Seq<crate::store::files::Filed>,
) -> bool {
    exists|kept: Fact| #[trigger]
        crate::store::files::is_normalized(kept, staged.fact) && crate::store::files::is_settled(
            kept,
        ) && match crate::store::placement::placing(files, kept) {
            Ok(filings) => {
                &&& r matches Ok(applied)
                &&& crate::store::placement::filings(applied.writes@) == filings
                &&& applied.id == staged.id
                &&& applied.tag == staged.tag
                &&& applied.detail == staged.detail
                &&& applied.sample == staged.sample
                &&& applied.cost == staged.cost
                &&& applied.moves_centrality == staged.moves_centrality
            },
            Err(message) => crate::error::is_store(r, message),
        }
}

/// Whether a result is what a write does to the store: what it does to the fact that
/// its key names, and the files to stage for it.
pub open spec fn is_written(
    r: Result<Applied, Error>,
    op: WriteOp,
    files: Seq<crate::store::files::Filed>,
    circumstances: Circumstances,
) -> bool {
    if op is Ingest {
        exists|staged: Staged| #[trigger]
            is_staged(staged, op, None, circumstances) && is_applied(r, staged, files)
    } else {
        match crate::store::files::found_at(files, op.key_spec()) {
            None => crate::store::files::is_not_found(r, files, op.key_spec()),
            Some(at) => if is_own(files[at].fact) {
                exists|staged: Staged| #[trigger]
                    is_staged(staged, op, Some(files[at].fact), circumstances) && is_applied(
                        r,
                        staged,
                        files,
                    )
            } else {
                crate::error::is_store(r, "fact ID does not match its claim"@)
            },
        }
    }
}

impl JishukenStore {
    /// Applies one write: what it does to the fact that its key names, and the files to
    /// stage for it. `files` are the fact files as they would be with what is staged so
    /// far. Where the write fails, nothing stays staged.
    pub fn apply(&mut self, op: WriteOp, files: Vec<FactFile>, circumstances: Circumstances) -> (r:
        Result<Applied, Error>)
        requires
            op matches WriteOp::Ground { binding, .. } ==> (
            binding.source matches crate::schema::GroundSource::Generator(g) ==> crate::schema::can_cut(
                g.hash.0@,
                6,
            )),
        ensures
            is_written(r, op, crate::store::files::filed(files@), circumstances),
            r is Ok ==> final(self).pending@ == old(self).pending@,
            r is Err ==> final(self).pending@.len() == 0,
            final(self).root == old(self).root,
            final(self).config == old(self).config,
    {
        let ghost fs = crate::store::files::filed(files@);
        let ghost found = crate::store::files::found_at(fs, op.key_spec());
        proof {
            crate::store::files::lemma_found_at(fs, op.key_spec());
        }
        let taken = match JishukenStore::apply_staged(op, files, circumstances) {
            Ok(taken) => taken,
            Err(error) => {
                self.pending.discard_pending();
                return Err(error);
            },
        };
        let staged = taken.staged;
        let ghost whole = staged;
        let ghost about = if op is Ingest {
            None
        } else {
            Some(fs[found->Some_0].fact)
        };
        assert(is_staged(whole, op, about, circumstances));
        let placed = match taken.path {
            None => JishukenStore::write_fact(taken.files, staged.fact),
            Some(path) => move_fact(
                taken.files,
                path,
                staged.fact,
                Ghost(fs),
                Ghost(found->Some_0),
            ),
        };
        match placed {
            Ok(writes) => Ok(
                Applied {
                    id: staged.id,
                    writes,
                    tag: staged.tag,
                    detail: staged.detail,
                    sample: staged.sample,
                    cost: staged.cost,
                    moves_centrality: staged.moves_centrality,
                },
            ),
            Err(error) => {
                self.pending.discard_pending();
                Err(error)
            },
        }
    }
}

/// A fact with another centrality.
pub open spec fn with_centrality(fact: Fact, centrality: Real) -> Fact {
    Fact { schedule: ScheduleMeta { centrality, ..fact.schedule }, ..fact }
}

/// Which of some facts moved.
pub open spec fn has_moved(moved: Seq<bool>) -> spec_fn(int) -> bool {
    |i: int| moved[i]
}

impl JishukenStore {
    /// The facts whose centrality moved, with the centrality that was found for them.
    /// Nothing else of a fact changes.
    pub fn recompute_centrality(facts: Vec<Fact>, found: &Vec<Real>, moved: &Vec<bool>) -> (r: Vec<
        Fact,
    >)
        requires
            found@.len() == facts@.len(),
            moved@.len() == facts@.len(),
        ensures
            r@ == crate::rank::picked(facts@.len(), has_moved(moved@)).map_values(
                |i: int| with_centrality(facts@[i], found@[i]),
            ),
    {
        let ghost all = facts@;
        let ghost test = has_moved(moved@);
        let ghost set = |i: int| with_centrality(all[i], found@[i]);
        let mut rest = facts;
        let mut out: Vec<Fact> = Vec::new();
        let mut i: usize = 0;
        while rest.len() > 0
            invariant
                rest@.len() + i == all.len(),
                found@.len() == all.len(),
                moved@.len() == all.len(),
                test == has_moved(moved@),
                set == (|i: int| with_centrality(all[i], found@[i])),
                forall|k: int| 0 <= k < rest@.len() ==> rest@[k] == all[i + k],
                out@ == crate::rank::picked(i as nat, test).map_values(set),
            decreases rest.len(),
        {
            let mut fact = rest.remove(0);
            let ghost before = crate::rank::picked(i as nat, test);
            assert(fact == all[i as int] && i < moved.len());
            if moved[i] {
                fact.schedule.centrality = found[i];
                out.push(fact);
                assert(test(i as int));
                assert(crate::rank::picked((i + 1) as nat, test) =~= before.push(i as int));
                assert(before.push(i as int).map_values(set) =~= before.map_values(set).push(
                    set(i as int),
                ));
            } else {
                assert(!test(i as int));
            }
            i = i + 1;
        }
        out
    }
}

// ---------------------------------------------------------------------------
// Laws
// ---------------------------------------------------------------------------

/// The data plane cannot assert certainty: an ingest always lands ungrounded, with
/// no ground, and believed no more than the ceiling.
pub proof fn law_ingest_lands_ungrounded(
    staged: Staged,
    op: WriteOp,
    fact: Option<Fact>,
    circumstances: Circumstances,
)
    requires
        op is Ingest,
        is_staged(staged, op, fact, circumstances),
    ensures
        staged.fact.epistemics.groundedness is Ungrounded,
        staged.fact.grounds@.len() == 0,
        !(Real { bits: crate::write::INGEST_CONFIDENCE_CEILING }).less(
            &staged.fact.epistemics.confidence,
        ),
{
    crate::write::law_ingest_stays_under_ceiling(op->triage, circumstances.recalibrated);
}

/// Binding a ground and rescheduling never touch truth: value and belief stay what
/// they were.
pub proof fn law_ordering_never_touches_truth(
    staged: Staged,
    op: WriteOp,
    fact: Fact,
    circumstances: Circumstances,
)
    requires
        op is Ground || op is Reschedule,
        is_staged(staged, op, Some(fact), circumstances),
    ensures
        staged.fact.value == fact.value,
        staged.fact.epistemics == fact.epistemics,
{
}

/// A write that is about a fact changes that fact alone: afterwards the fact that its
/// key names lies at its path as the write left it, every other fact still lies
/// somewhere as it was, and nothing else does.
pub proof fn law_only_the_named_fact_changes(
    files: Seq<crate::store::files::Filed>,
    op: WriteOp,
    staged: Staged,
    kept: Fact,
    circumstances: Circumstances,
)
    requires
        crate::store::placement::places_differ(files),
        crate::store::placement::all_settled(files),
        !(op is Ingest),
        crate::store::files::found_at(files, op.key_spec()) is Some,
        is_staged(
            staged,
            op,
            Some(files[crate::store::files::found_at(files, op.key_spec())->Some_0].fact),
            circumstances,
        ),
        crate::store::files::is_normalized(kept, staged.fact),
        crate::store::files::is_settled(kept),
    ensures
        crate::store::placement::placing(files, kept) is Ok,
        ({
            let at = crate::store::files::found_at(files, op.key_spec())->Some_0;
            let after = crate::store::placement::staged(
                crate::store::placement::held(files),
                crate::store::placement::placing(files, kept)->Ok_0,
            );
            &&& crate::store::files::normal_key(op.key_spec()) == Some(kept.claim.key_spec())
            &&& after.contains_key(crate::store::placement::home(kept))
            &&& after[crate::store::placement::home(kept)] == kept
            &&& forall|i: int|
                0 <= i < files.len() && i != at ==> exists|path: Seq<char>| #[trigger]
                    after.contains_key(path) && after[path] == (#[trigger] files[i]).fact
            &&& forall|path: Seq<char>| #[trigger]
                after.contains_key(path) ==> after[path] == kept || exists|i: int|
                    0 <= i < files.len() && i != at && (#[trigger] files[i]).fact == after[path]
        }),
{
    crate::store::files::lemma_found_at(files, op.key_spec());
    let at = crate::store::files::found_at(files, op.key_spec())->Some_0;
    let old = files[at].fact;
    assert(same_subject(staged.fact, old));
    assert(kept.claim.key_spec() =~= old.claim.key_spec());
    crate::store::placement::lemma_placed_alone(files, at, kept);
}

/// What all grounds say together depends on the grounds alone once one of them has
/// a verdict; saying it again changes nothing.
pub proof fn law_aggregate_is_stable(grounds: Seq<GroundBinding>, prior: Standing)
    ensures
        aggregate(grounds, aggregate(grounds, prior)) == aggregate(grounds, prior),
{
}

/// A check that came to no verdict leaves belief alone. Confidence, variance and
/// the time of verification stay, and so does groundedness, where it was what the
/// grounds say.
pub proof fn law_no_verdict_leaves_belief_alone(
    new: Fact,
    old: Fact,
    ground: int,
    outcome: Outcome,
    set_update: Option<Vec<Element>>,
    circumstances: Circumstances,
)
    requires
        outcome is Errored || outcome is Inconclusive,
        is_checked(new, old, ground, outcome, None, set_update, circumstances),
        old.epistemics.groundedness@ == aggregate(old.grounds@, old.epistemics.groundedness@),
    ensures
        new.epistemics.confidence == old.epistemics.confidence,
        new.epistemics.groundedness@ == old.epistemics.groundedness@,
        new.schedule == old.schedule,
{
}

/// After a check, groundedness is what the grounds say: every check keeps that true,
/// whatever it was before.
pub proof fn law_check_settles_groundedness(
    new: Fact,
    old: Fact,
    ground: int,
    outcome: Outcome,
    resolved: Option<Resolved>,
    set_update: Option<Vec<Element>>,
    circumstances: Circumstances,
)
    requires
        is_checked(new, old, ground, outcome, resolved, set_update, circumstances),
    ensures
        new.epistemics.groundedness@ == aggregate(new.grounds@, new.epistemics.groundedness@),
{
    law_aggregate_is_stable(new.grounds@, old.epistemics.groundedness@);
}

} // verus!
