//! The control-plane engine: judge what was read of a fact's grounds with their
//! pure predicates, and say which operation records it. Reading is done by the
//! caller; judging is a pure [`Predicate`]. The data plane never reaches this.

use crate::config::Budget;
use crate::error::Error;
use crate::json::{parse_elements, Json};
use crate::number::{Real, HALF};
use crate::predicate::{Judgment, Predicate};
use crate::resolve::ReadResult;
use crate::scheduler::{ground_hash, select_audits, select_tick};
use crate::schema::{Element, Fact, FactId, FactValue, GeneratorHash, GeneratorRef};
use crate::schema::{GroundBinding, GroundSource, Outcome, Resolved};
use crate::text::{join, same, trimmed};
use crate::time::Timestamp;
use crate::verify::authority;
use crate::write::WriteOp;
use vstd::prelude::*;

verus! {

/// The bits of the confidence assumed for a re-appearing set element that carries
/// none yet.
pub const ELEMENT_PRIOR: u64 = HALF;

/// The bits of the confidence of a set element observed for the first time, three
/// fifths.
pub const NEW_ELEMENT_CONFIDENCE: u64 = 0x3fe3_3333_3333_3333;

// ---------------------------------------------------------------------------
// Verifying
// ---------------------------------------------------------------------------

/// Starts a check of every ground of a fact: the fact's identity, and how many
/// grounds there are. A fact without grounds cannot be verified.
pub fn verify_fact(fact: &Fact, key: &str) -> (r: Result<(FactId, usize), Error>)
    ensures
        if fact.grounds@.len() == 0 {
            r matches Err(Error::Verifier(s)) && s@ == "fact "@ + key@
                + " has no grounds; bind one with `ken ground`"@
        } else {
            r matches Ok((id, n)) && id.0@ == fact.claim.key_spec() && n == fact.grounds@.len()
        },
{
    if fact.grounds.len() == 0 {
        return Err(
            Error::Verifier(
                "fact ".to_owned().concat(key).concat(
                    " has no grounds; bind one with `ken ground`",
                ),
            ),
        );
    }
    Ok((FactId::for_claim(&fact.claim), fact.grounds.len()))
}

/// Judges a span with a ground's predicate. No code of a source runs here.
pub fn judge(fact: &Fact, ground: usize, span: &str) -> (r: Judgment)
    requires
        ground < fact.grounds@.len(),
    ensures
        r@ == crate::predicate::judged(
            crate::predicate::question(fact.grounds@[ground as int].predicate),
            fact.value.env_spec(),
            span@,
        ),
{
    fact.grounds[ground].predicate.eval(fact.value.as_env().as_str(), span)
}

/// Whether a ground's predicate holds of a span. `number` and `close` say what the text
/// stands for that is to be compared, where there is one.
pub open spec fn confirms(
    fact: Fact,
    ground: int,
    span: Seq<char>,
    number: Option<Real>,
    close: bool,
) -> bool {
    crate::predicate::is_yes(
        crate::predicate::judged(
            crate::predicate::question(fact.grounds@[ground].predicate),
            fact.value.env_spec(),
            span,
        ),
        number,
        close,
    )
}

/// The product of reading and judging one ground: the verdict, the replay state to
/// record, any set-diff update, and the measured read cost in seconds.
pub struct GroundOutcome {
    pub outcome: Outcome,
    pub resolved: Option<Resolved>,
    pub set_update: Option<Vec<Element>>,
    pub observed_cost: Option<Real>,
}

/// A verifier's hash that may be missing, as characters.
pub open spec fn hash_text(by: Option<GeneratorHash>) -> Option<Seq<char>> {
    match by {
        Some(hash) => Some(hash.0@),
        None => None,
    }
}

/// Whether a replay state is what a check came to.
pub open spec fn resolves_to(
    resolved: Option<Resolved>,
    rev: Seq<char>,
    span_hash: Seq<char>,
    at: Timestamp,
    outcome: Outcome,
    by: Option<Seq<char>>,
) -> bool {
    &&& resolved matches Some(r)
    &&& r.rev@ == rev
    &&& r.span_hash@ == span_hash
    &&& r.at == at
    &&& r.outcome == outcome
    &&& hash_text(r.by) == by
}

/// The cost of a check that is worth recording: only a generator's or handler's
/// that came to a verdict.
pub open spec fn observed(by: Option<Seq<char>>, elapsed: Real) -> Option<Real> {
    if by is Some {
        Some(elapsed)
    } else {
        None
    }
}

/// Whether a check came to what was read and judged. What could not be read moves
/// nothing; a locator that no longer resolves refutes.
pub open spec fn is_outcome(
    r: GroundOutcome,
    fact: Fact,
    ground: int,
    read: ReadResult,
    number: Option<Real>,
    close: bool,
    now: Timestamp,
    elapsed: Real,
    bumped: Seq<Real>,
) -> bool {
    let by = crate::scheduler::source_hash(fact.grounds[ground].source);
    match read {
        ReadResult::Errored(_) => {
            &&& r.outcome is Errored
            &&& r.resolved is None
            &&& r.set_update is None
            &&& r.observed_cost is None
        },
        ReadResult::Transient => {
            &&& r.outcome is Inconclusive
            &&& r.resolved is None
            &&& r.set_update is None
            &&& r.observed_cost is None
        },
        ReadResult::Unresolved => {
            &&& r.outcome is Refuted
            &&& resolves_to(r.resolved, Seq::empty(), Seq::empty(), now, Outcome::Refuted, by)
            &&& r.set_update is None
            &&& r.observed_cost == observed(by, elapsed)
        },
        ReadResult::Resolved(span) => {
            let holds = confirms(fact, ground, span.text@, number, close);
            let outcome = if holds {
                Outcome::Confirmed
            } else {
                Outcome::Refuted
            };
            &&& r.outcome == outcome
            &&& resolves_to(r.resolved, span.rev@, span.span_hash@, now, outcome, by)
            &&& if holds {
                is_diff(r.set_update, fact.value, span.text@, now, bumped)
            } else {
                r.set_update is None
            }
            &&& r.observed_cost == observed(by, elapsed)
        },
    }
}

/// What one ground check came to: what was read is judged with the ground's predicate.
/// `number` is what the text that the predicate compares stands for, `None` where it
/// is no number or there is none, and `close` says whether it lies next to the value it
/// is held against; `bumped` is, for each element of a set-valued fact, its confidence
/// once confirmed again; `elapsed` is how long the read took, in seconds.
pub fn check_ground(
    fact: &Fact,
    ground: usize,
    read: ReadResult,
    number: Option<Real>,
    close: bool,
    now: Timestamp,
    elapsed: Real,
    bumped: &Vec<Real>,
) -> (r: GroundOutcome)
    requires
        ground < fact.grounds@.len(),
        fact.value matches FactValue::Elements { elements } ==> bumped@.len() == elements@.len(),
    ensures
        is_outcome(r, *fact, ground as int, read, number, close, now, elapsed, bumped@),
{
    let by = ground_hash(&fact.grounds[ground]);
    let observed_cost = match &by {
        Some(_) => Some(elapsed),
        None => None,
    };
    match read {
        ReadResult::Errored(_) => GroundOutcome {
            outcome: Outcome::Errored,
            resolved: None,
            set_update: None,
            observed_cost: None,
        },
        ReadResult::Transient => GroundOutcome {
            outcome: Outcome::Inconclusive,
            resolved: None,
            set_update: None,
            observed_cost: None,
        },
        // The locator no longer resolves: an existence failure, the fact moved.
        ReadResult::Unresolved => {
            let resolved = Resolved {
                rev: String::new(),
                span_hash: String::new(),
                at: now,
                outcome: Outcome::Refuted,
                by,
            };
            assert(resolved.rev@ =~= Seq::<char>::empty());
            assert(resolved.span_hash@ =~= Seq::<char>::empty());
            GroundOutcome {
                outcome: Outcome::Refuted,
                resolved: Some(resolved),
                set_update: None,
                observed_cost,
            }
        },
        ReadResult::Resolved(span) => {
            let holds = judge(fact, ground, span.text.as_str()).holds(number, close);
            let outcome = if holds {
                Outcome::Confirmed
            } else {
                Outcome::Refuted
            };
            let set_update = if holds {
                diff_set(&fact.value, span.text.as_str(), now, bumped)
            } else {
                None
            };
            let resolved = Resolved {
                rev: span.rev,
                span_hash: span.span_hash,
                at: now,
                outcome,
                by,
            };
            GroundOutcome { outcome, resolved: Some(resolved), set_update, observed_cost }
        },
    }
}

/// Whether an operation records a check.
pub open spec fn records(op: WriteOp, fact: Fact, ground: int, check: GroundOutcome) -> bool {
    &&& op matches WriteOp::GroundCheck {
        fact: id,
        ground: at,
        outcome,
        by,
        resolved,
        set_update,
        observed_cost,
        ..
    }
    &&& id.0@ == fact.claim.key_spec()
    &&& at == ground
    &&& outcome == check.outcome
    &&& hash_text(by) == crate::scheduler::source_hash(fact.grounds[ground].source)
    &&& resolved == check.resolved
    &&& set_update == check.set_update
    &&& observed_cost == check.observed_cost
}

/// The operation that records a check.
pub fn check_op(fact: &Fact, ground: usize, check: GroundOutcome) -> (r: WriteOp)
    requires
        ground < fact.grounds@.len(),
    ensures
        records(r, *fact, ground as int, check),
{
    authority::ground_check(
        FactId::for_claim(&fact.claim),
        ground,
        check.outcome,
        ground_hash(&fact.grounds[ground]),
        check.resolved,
        check.set_update,
        check.observed_cost,
    )
}

/// The facts a tick checks: the best ones by score within the budget, and then the
/// audits. `scores`, `drawn` and `probabilities` hold, for each fact, the value of
/// checking it, whether its audit draw fell, and its audit probability.
pub fn tick(
    facts: &Vec<Fact>,
    scores: &Vec<Real>,
    drawn: &Vec<bool>,
    probabilities: &Vec<Real>,
    budget: &Budget,
) -> (r: Vec<usize>)
    requires
        scores@.len() == facts@.len(),
        drawn@.len() == facts@.len(),
        probabilities@.len() == facts@.len(),
    ensures
        exists|selected: Seq<usize>| #[trigger]
            crate::rank::indices(selected) == crate::scheduler::tick_of(
                facts@,
                scores@,
                budget.per_tick as int,
            ) && crate::rank::indices(r@) == crate::rank::indices(selected)
                + crate::scheduler::audits_of(
                facts@,
                selected,
                drawn@,
                probabilities@,
                budget.audit_per_tick as int,
            ),
        forall|i: int| 0 <= i < r@.len() ==> #[trigger] r@[i] < facts@.len(),
{
    let mut out = select_tick(facts, scores, budget.per_tick);
    let ghost selected = out@;
    let mut audits = select_audits(facts, &out, drawn, probabilities, budget.audit_per_tick);
    let ghost more = audits@;
    proof {
        crate::scheduler::law_audits_are_bounded(
            facts@,
            selected,
            drawn@,
            probabilities@,
            budget.audit_per_tick as int,
        );
        assert forall|i: int| 0 <= i < more.len() implies #[trigger] more[i] < facts@.len() by {
            assert(crate::rank::indices(more)[i] == more[i]);
        }
    }
    out.append(&mut audits);
    assert(out@ =~= selected + more);
    assert(crate::rank::indices(out@) =~= crate::rank::indices(selected) + crate::rank::indices(
        more,
    ));
    out
}

// ---------------------------------------------------------------------------
// Sets
// ---------------------------------------------------------------------------

/// The confidence a set element is confirmed from.
pub fn element_prior(element: &Element) -> (r: Real)
    ensures
        r == (match element.confidence {
            Some(confidence) => confidence,
            None => Real { bits: ELEMENT_PRIOR },
        }),
{
    match element.confidence {
        Some(confidence) => confidence,
        None => Real { bits: ELEMENT_PRIOR },
    }
}

/// The first element with a value; the number of elements where there is none.
pub open spec fn element_at(elements: Seq<Element>, value: Seq<char>, from: int) -> int
    decreases elements.len() - from,
{
    if from >= elements.len() {
        elements.len() as int
    } else if crate::json::json_equal(elements[from].value.text@, value) {
        from
    } else {
        element_at(elements, value, from + 1)
    }
}

/// Whether an element is what a returned value makes of a set: one that is there is
/// seen again, with more confidence and no conflict; any other is new.
pub open spec fn is_merged(
    element: Element,
    elements: Seq<Element>,
    value: Seq<char>,
    now: Timestamp,
    bumped: Seq<Real>,
) -> bool {
    let at = element_at(elements, value, 0);
    &&& element.seen == now
    &&& element.conflict is None
    &&& if at < elements.len() {
        element.value == elements[at].value && element.confidence == Some(bumped[at])
    } else {
        element.value.text@ == value && element.confidence == Some(
            Real { bits: NEW_ELEMENT_CONFIDENCE },
        )
    }
}

/// Whether an update is the difference between a set and what was returned for it:
/// one element for each returned value, in that order; nothing where the fact is no
/// set or the span is no JSON array.
pub open spec fn is_diff(
    update: Option<Vec<Element>>,
    value: FactValue,
    span: Seq<char>,
    now: Timestamp,
    bumped: Seq<Real>,
) -> bool {
    match value {
        FactValue::Scalar { .. } => update is None,
        FactValue::Elements { elements } => match crate::json::json_elements(
            crate::text::trim(span),
        ) {
            None => update is None,
            Some(returned) => {
                &&& update matches Some(merged)
                &&& merged@.len() == returned.len()
                &&& forall|k: int|
                    0 <= k < returned.len() ==> is_merged(
                        #[trigger] merged@[k],
                        elements@,
                        returned[k],
                        now,
                        bumped,
                    )
            },
        },
    }
}

/// Diffs a returned ground-truth set (the resolved span, a JSON array) against the
/// stored elements. Per-element so confirming the list does not smear credit. `None`
/// if the fact is not a set or the span is not a JSON array.
pub fn diff_set(value: &FactValue, span: &str, now: Timestamp, bumped: &Vec<Real>) -> (r: Option<
    Vec<Element>,
>)
    requires
        value matches FactValue::Elements { elements } ==> bumped@.len() == elements@.len(),
    ensures
        is_diff(r, *value, span@, now, bumped@),
{
    let elements = match value {
        FactValue::Elements { elements } => elements,
        FactValue::Scalar { .. } => {
            return None;
        },
    };
    let returned = match parse_elements(trimmed(span).as_str()) {
        Some(returned) => returned,
        None => {
            return None;
        },
    };
    Some(merge_set(elements, returned, now, bumped))
}

/// Merges the values that were returned for a set into its elements.
pub fn merge_set(
    elements: &Vec<Element>,
    returned: Vec<String>,
    now: Timestamp,
    bumped: &Vec<Real>,
) -> (r: Vec<Element>)
    requires
        bumped@.len() == elements@.len(),
    ensures
        r@.len() == returned@.len(),
        forall|k: int|
            0 <= k < returned@.len() ==> is_merged(
                #[trigger] r@[k],
                elements@,
                returned@[k]@,
                now,
                bumped@,
            ),
{
    let mut merged: Vec<Element> = Vec::new();
    let mut k: usize = 0;
    while k < returned.len()
        invariant
            k <= returned.len(),
            bumped@.len() == elements@.len(),
            merged@.len() == k,
            forall|j: int|
                0 <= j < k ==> is_merged(
                    #[trigger] merged@[j],
                    elements@,
                    returned@[j]@,
                    now,
                    bumped@,
                ),
        decreases returned.len() - k,
    {
        let value = Json { text: returned[k].clone() };
        let mut i: usize = 0;
        while i < elements.len() && !elements[i].value.equals(&value)
            invariant
                i <= elements.len(),
                element_at(elements@, value.text@, 0) == element_at(
                    elements@,
                    value.text@,
                    i as int,
                ),
            decreases elements.len() - i,
        {
            i = i + 1;
        }
        if i < elements.len() {
            merged.push(
                Element {
                    value: elements[i].value.clone(),
                    seen: now,
                    confidence: Some(bumped[i]),
                    conflict: None,
                },
            );
        } else {
            merged.push(
                Element {
                    value,
                    seen: now,
                    confidence: Some(Real { bits: NEW_ELEMENT_CONFIDENCE }),
                    conflict: None,
                },
            );
        }
        k = k + 1;
    }
    merged
}

// ---------------------------------------------------------------------------
// Grants
// ---------------------------------------------------------------------------

/// Whether a ground reads a generator of a name.
pub open spec fn reads(ground: GroundBinding, name: Seq<char>) -> bool {
    ground.source matches GroundSource::Generator(g) && g.name@ == name
}

/// Whether some ground of a fact reads a generator of a name.
pub open spec fn any_reads(facts: Seq<Fact>, name: Seq<char>) -> spec_fn(int) -> bool {
    |i: int|
        exists|k: int| 0 <= k < facts[i].grounds@.len() && reads(#[trigger] facts[i].grounds@[k], name)
}

/// Whether a ground is another, re-pointed to a generator where it reads the one of
/// that name.
pub open spec fn is_repointed(new: GroundBinding, old: GroundBinding, to: GeneratorRef) -> bool {
    &&& new.locator == old.locator
    &&& new.predicate == old.predicate
    &&& new.last == old.last
    &&& if reads(old, to.name@) {
        new.source matches GroundSource::Generator(g) && g.same_as(&to)
    } else {
        new.source == old.source
    }
}

/// Whether a fact is another with its grounds re-pointed.
pub open spec fn is_regranted(new: Fact, old: Fact, to: GeneratorRef) -> bool {
    &&& new.id == old.id
    &&& new.claim == old.claim
    &&& new.value == old.value
    &&& new.epistemics == old.epistemics
    &&& new.schedule == old.schedule
    &&& new.source_hint == old.source_hint
    &&& new.provenance == old.provenance
    &&& new.grounds@.len() == old.grounds@.len()
    &&& forall|k: int|
        0 <= k < old.grounds@.len() ==> is_repointed(
            #[trigger] new.grounds@[k],
            old.grounds@[k],
            to,
        )
}

/// Re-points the grounds of a fact, and says whether there was one to re-point.
fn repoint(fact: Fact, to: &GeneratorRef) -> (r: (Fact, bool))
    ensures
        is_regranted(r.0, fact, *to),
        r.1 == exists|k: int|
            0 <= k < fact.grounds@.len() && reads(#[trigger] fact.grounds@[k], to.name@),
{
    let ghost old_grounds = fact.grounds@;
    let mut fact = fact;
    let mut rest: Vec<GroundBinding> = Vec::new();
    std::mem::swap(&mut rest, &mut fact.grounds);
    let mut grounds: Vec<GroundBinding> = Vec::new();
    let mut touched = false;
    while rest.len() > 0
        invariant
            rest@.len() + grounds@.len() == old_grounds.len(),
            forall|k: int| 0 <= k < rest@.len() ==> rest@[k] == old_grounds[grounds@.len() + k],
            forall|k: int|
                0 <= k < grounds@.len() ==> is_repointed(
                    #[trigger] grounds@[k],
                    old_grounds[k],
                    *to,
                ),
            touched == exists|k: int|
                0 <= k < grounds@.len() && reads(#[trigger] old_grounds[k], to.name@),
        decreases rest.len(),
    {
        let mut ground = rest.remove(0);
        assert(ground == old_grounds[grounds@.len() as int]);
        let points = match &ground.source {
            GroundSource::Generator(g) => same(g.name.as_str(), to.name.as_str()),
            _ => false,
        };
        if points {
            ground.source = GroundSource::Generator(to.copy());
            touched = true;
        }
        grounds.push(ground);
    }
    fact.grounds = grounds;
    (fact, touched)
}

/// Entitles a generator with new capabilities: re-points the `Generator` grounds
/// that use it to its new content hash. Gives the facts that changed, and what the
/// log says of it.
pub fn grant(facts: Vec<Fact>, to: &GeneratorRef, net: &Vec<String>, read: &Vec<String>) -> (r: (
    Vec<Fact>,
    String,
))
    ensures
        ({
            let touched = crate::rank::picked(facts@.len(), any_reads(facts@, to.name@));
            &&& r.0@.len() == touched.len()
            &&& forall|k: int|
                0 <= k < touched.len() ==> is_regranted(#[trigger] r.0@[k], facts@[touched[k]], *to)
        }),
        r.1@ == to.name@ + " net=["@ + crate::text::joined(crate::text::texts(net@), ","@)
            + "] read=["@ + crate::text::joined(crate::text::texts(read@), ","@) + "]"@,
{
    let ghost all = facts@;
    let ghost test = any_reads(all, to.name@);
    let mut rest = facts;
    let mut out: Vec<Fact> = Vec::new();
    let ghost mut done: nat = 0;
    while rest.len() > 0
        invariant
            rest@.len() + done == all.len(),
            test == any_reads(all, to.name@),
            forall|k: int| 0 <= k < rest@.len() ==> rest@[k] == all[done + k],
            out@.len() == crate::rank::picked(done, test).len(),
            forall|k: int|
                0 <= k < out@.len() ==> is_regranted(
                    #[trigger] out@[k],
                    all[crate::rank::picked(done, test)[k]],
                    *to,
                ),
        decreases rest.len(),
    {
        let fact = rest.remove(0);
        assert(fact == all[done as int]);
        let ghost before = crate::rank::picked(done, test);
        let (fact, touched) = repoint(fact, to);
        proof {
            assert(touched == test(done as int));
            done = done + 1;
            if touched {
                assert(crate::rank::picked(done, test) =~= before.push(done - 1));
            }
        }
        if touched {
            out.push(fact);
        }
    }
    let detail = to.name.clone().concat(" net=[").concat(join(net, ",").as_str()).concat(
        "] read=[",
    ).concat(join(read, ",").as_str()).concat("]");
    (out, detail)
}

// ---------------------------------------------------------------------------
// Laws
// ---------------------------------------------------------------------------

/// A source that could not be read, for good or for now, leaves the fact alone:
/// recording the check changes neither value nor belief, grounds nor schedule, where
/// groundedness was what the grounds say.
pub proof fn law_unreadable_source_changes_nothing(
    check: GroundOutcome,
    old: Fact,
    ground: int,
    read: ReadResult,
    number: Option<Real>,
    close: bool,
    now: Timestamp,
    elapsed: Real,
    bumped: Seq<Real>,
    new: Fact,
    circumstances: crate::store::apply::Circumstances,
)
    requires
        read is Errored || read is Transient,
        is_outcome(check, old, ground, read, number, close, now, elapsed, bumped),
        crate::store::apply::is_checked(
            new,
            old,
            ground,
            check.outcome,
            check.resolved,
            check.set_update,
            circumstances,
        ),
        old.epistemics.groundedness@ == crate::store::apply::aggregate(
            old.grounds@,
            old.epistemics.groundedness@,
        ),
    ensures
        new.value == old.value,
        new.grounds@ == old.grounds@,
        new.epistemics.confidence == old.epistemics.confidence,
        new.epistemics.groundedness@ == old.epistemics.groundedness@,
        new.schedule == old.schedule,
{
}

/// A single ground that was never checked decides by itself: once it is checked, the
/// fact is verified where the predicate holds of the span, and refuted where it does
/// not or where nothing is found there.
pub proof fn law_lone_ground_decides(
    check: GroundOutcome,
    old: Fact,
    read: ReadResult,
    number: Option<Real>,
    close: bool,
    now: Timestamp,
    elapsed: Real,
    bumped: Seq<Real>,
    new: Fact,
    circumstances: crate::store::apply::Circumstances,
)
    requires
        old.grounds@.len() == 1,
        read is Resolved || read is Unresolved,
        is_outcome(check, old, 0, read, number, close, now, elapsed, bumped),
        crate::store::apply::is_checked(
            new,
            old,
            0,
            check.outcome,
            check.resolved,
            check.set_update,
            circumstances,
        ),
    ensures
        ({
            let holds = read matches ReadResult::Resolved(span) && confirms(
                old,
                0,
                span.text@,
                number,
                close,
            );
            &&& holds ==> new.epistemics.groundedness is Verified
            &&& !holds ==> new.epistemics.groundedness is Refuted
        }),
{
    let grounds = new.grounds@;
    assert(grounds[0].last == check.resolved);
    assert(crate::store::apply::any_came_to(grounds, Outcome::Confirmed) == (check.outcome
        is Confirmed));
    assert(crate::store::apply::any_came_to(grounds, Outcome::Refuted) == (check.outcome
        is Refuted));
}

/// A span confirms exactly where the ground's predicate holds of it, and refutes where
/// it does not; what the caller says of numbers matters only to a predicate that
/// compares one.
pub proof fn law_predicate_decides(
    check: GroundOutcome,
    fact: Fact,
    ground: int,
    span: crate::resolve::ResolvedSpan,
    number: Option<Real>,
    close: bool,
    now: Timestamp,
    elapsed: Real,
    bumped: Seq<Real>,
)
    requires
        is_outcome(
            check,
            fact,
            ground,
            ReadResult::Resolved(span),
            number,
            close,
            now,
            elapsed,
            bumped,
        ),
    ensures
        check.outcome is Confirmed <==> confirms(fact, ground, span.text@, number, close),
        check.outcome is Refuted <==> !confirms(fact, ground, span.text@, number, close),
        crate::predicate::number_in(
            crate::predicate::question(fact.grounds@[ground].predicate),
        ) is None ==> forall|other: Option<Real>, near: bool| #[trigger]
            confirms(fact, ground, span.text@, other, near) == confirms(
                fact,
                ground,
                span.text@,
                number,
                close,
            ),
{
    let q = crate::predicate::question(fact.grounds@[ground].predicate);
    if crate::predicate::number_in(q) is None {
        crate::predicate::law_judged_without_numbers(q, fact.value.env_spec(), span.text@);
    }
}

/// Verification does not replace a scalar value with a new answer.
pub proof fn law_verification_keeps_a_scalar(
    check: GroundOutcome,
    old: Fact,
    ground: int,
    read: ReadResult,
    number: Option<Real>,
    close: bool,
    now: Timestamp,
    elapsed: Real,
    bumped: Seq<Real>,
    new: Fact,
    circumstances: crate::store::apply::Circumstances,
)
    requires
        old.value is Scalar,
        is_outcome(check, old, ground, read, number, close, now, elapsed, bumped),
        crate::store::apply::is_checked(
            new,
            old,
            ground,
            check.outcome,
            check.resolved,
            check.set_update,
            circumstances,
        ),
    ensures
        new.value == old.value,
{
}

/// A confirmation is bound to the exact span it saw: the hash that is recorded is
/// that of the text which the locator selected.
pub proof fn law_verdict_is_bound_to_its_span(
    check: GroundOutcome,
    fact: Fact,
    ground: int,
    span: crate::resolve::ResolvedSpan,
    number: Option<Real>,
    close: bool,
    now: Timestamp,
    elapsed: Real,
    bumped: Seq<Real>,
)
    requires
        span.span_hash@ == crate::digest::text_hash(span.text@),
        is_outcome(
            check,
            fact,
            ground,
            ReadResult::Resolved(span),
            number,
            close,
            now,
            elapsed,
            bumped,
        ),
    ensures
        check.resolved matches Some(last) && last.span_hash@ == crate::digest::text_hash(span.text@)
            && last.at == now,
{
}

} // verus!
