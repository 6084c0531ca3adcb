//! What agents are shown: facts with the epistemics that decide whether to trust
//! them, disagreements, provenance, and the prompts.

use crate::json::{in_brackets, Json};
use crate::locator::render_ground;
use crate::number::Real;
use crate::scheduler::rank;
use crate::schema::{Element, Fact, FactValue, GeneratorHash, GroundBinding, Groundedness, Outcome};
use crate::store::history::Operation;
use crate::text::{begins_with, chars_of, contains_text, same, split_first, string_of};
use crate::time::{rfc3339, Timestamp};
use vstd::prelude::*;

verus! {

// ---------------------------------------------------------------------------
// Recall
// ---------------------------------------------------------------------------

/// A fact with the epistemics that decide whether to trust it.
#[derive(Debug)]
pub struct RecallOutput {
    /// `entity.relation`.
    pub key: String,
    /// The stored value: a scalar, or the array of a set-valued fact.
    pub value: Json,
    /// How much to believe it after time decay. Not a measure of whether it was
    /// ever checked; read `groundedness` for that.
    pub confidence: Real,
    pub groundedness: GroundednessOut,
    /// Independent groundings bound to this fact.
    pub grounds: Vec<GroundOut>,
    /// When the fact was last confirmed or refuted (RFC 3339).
    pub last_verified: String,
    /// When it next falls due for a re-check (RFC 3339); absent if it never decays.
    pub due: Option<String>,
}

#[derive(Debug)]
pub struct GroundednessOut {
    /// `ungrounded` (a guess), `verified` (confirmed), `refuted`, or `conflicted`.
    pub state: String,
    /// The verifier that confirmed or refuted it.
    pub verifier: Option<String>,
    /// When it was confirmed or refuted (RFC 3339).
    pub at: Option<String>,
    /// The disagreeing verifiers, when `conflicted`.
    pub verifiers: Option<Vec<String>>,
}

#[derive(Debug)]
pub struct GroundOut {
    /// The rendered source-and-locator, e.g. `src/auth.rs#L40-58`.
    pub source: String,
    /// `FILE` | `CMD` | `GEN` | a mount scheme.
    pub kind: String,
    /// How the span is judged, e.g. `exists`, `equals`, `ptr:/owner:equals`.
    pub predicate: String,
    /// The outcome of the last check against this ground, if any.
    pub last_outcome: Option<String>,
    /// When that check ran (RFC 3339).
    pub last_at: Option<String>,
}

/// The value of a fact as JSON.
pub open spec fn value_text(value: FactValue) -> Seq<char> {
    match value {
        FactValue::Scalar { value } => value.text@,
        FactValue::Elements { elements } => crate::json::bracketed(
            crate::schema::element_texts(elements@),
            ","@,
        ),
    }
}

fn element_values(elements: &Vec<Element>) -> (r: Vec<String>)
    ensures
        crate::text::texts(r@) == crate::schema::element_texts(elements@),
{
    let mut out: Vec<String> = Vec::new();
    let mut i: usize = 0;
    while i < elements.len()
        invariant
            i <= elements.len(),
            out@.len() == i,
            forall|k: int| 0 <= k < i ==> (#[trigger] out@[k])@ == elements@[k].value.text@,
        decreases elements.len() - i,
    {
        out.push(elements[i].value.text.clone());
        i = i + 1;
    }
    assert(crate::text::texts(out@) =~= crate::schema::element_texts(elements@));
    out
}

/// The value of a fact as JSON: a scalar, or the array of a set.
pub fn value_of(value: &FactValue) -> (r: Json)
    ensures
        r.text@ == value_text(*value),
{
    match value {
        FactValue::Scalar { value } => value.clone(),
        FactValue::Elements { elements } => Json {
            text: in_brackets(&element_values(elements), ","),
        },
    }
}

/// Whether the instants in a belief are representable.
pub open spec fn belief_is_sound(g: Groundedness) -> bool {
    match g {
        Groundedness::Verified { at, .. } => at.wf(),
        Groundedness::Refuted { at, .. } => at.wf(),
        _ => true,
    }
}

/// Whether what is shown of a belief is what it holds.
pub open spec fn shows_belief(out: GroundednessOut, g: Groundedness) -> bool {
    &&& out.state@ == g.label_spec()
    &&& match g {
        Groundedness::Ungrounded { .. } => out.verifier is None && out.at is None && out.verifiers
            is None,
        Groundedness::Verified { at, by } => crate::text::option_text(out.verifier) == Some(by.0@)
            && crate::text::option_text(out.at) == Some(at.text()) && out.verifiers is None,
        Groundedness::Refuted { at, by } => crate::text::option_text(out.verifier) == Some(by.0@)
            && crate::text::option_text(out.at) == Some(at.text()) && out.verifiers is None,
        Groundedness::Conflicted { verifiers } => out.verifier is None && out.at is None && (
        out.verifiers matches Some(v) && crate::text::texts(v@) == crate::store::apply::hashes(
            verifiers@,
        )),
    }
}

fn hash_texts(verifiers: &Vec<GeneratorHash>) -> (r: Vec<String>)
    ensures
        crate::text::texts(r@) == crate::store::apply::hashes(verifiers@),
{
    let mut out: Vec<String> = Vec::new();
    let mut i: usize = 0;
    while i < verifiers.len()
        invariant
            i <= verifiers.len(),
            out@.len() == i,
            forall|k: int| 0 <= k < i ==> (#[trigger] out@[k])@ == verifiers@[k].0@,
        decreases verifiers.len() - i,
    {
        out.push(verifiers[i].0.clone());
        i = i + 1;
    }
    assert(crate::text::texts(out@) =~= crate::store::apply::hashes(verifiers@));
    out
}

/// What is shown of a belief.
pub fn groundedness_out(g: &Groundedness) -> (r: GroundednessOut)
    requires
        belief_is_sound(*g),
    ensures
        shows_belief(r, *g),
{
    let state = g.label().to_owned();
    match g {
        Groundedness::Ungrounded { .. } => GroundednessOut {
            state,
            verifier: None,
            at: None,
            verifiers: None,
        },
        Groundedness::Verified { at, by } => GroundednessOut {
            state,
            verifier: Some(by.0.clone()),
            at: Some(rfc3339(*at)),
            verifiers: None,
        },
        Groundedness::Refuted { at, by } => GroundednessOut {
            state,
            verifier: Some(by.0.clone()),
            at: Some(rfc3339(*at)),
            verifiers: None,
        },
        Groundedness::Conflicted { verifiers } => GroundednessOut {
            state,
            verifier: None,
            at: None,
            verifiers: Some(hash_texts(verifiers)),
        },
    }
}

/// Whether a ground can be shown: its generator's hash can be cut, and its last
/// check is at a representable instant.
pub open spec fn ground_is_sound(ground: GroundBinding) -> bool {
    &&& ground.source matches crate::schema::GroundSource::Generator(g) ==> crate::schema::can_cut(
        g.hash.0@,
        6,
    )
    &&& ground.last matches Some(last) ==> last.at.wf()
}

/// Whether what is shown of a ground is what it holds; `shown` is the number its
/// predicate compares with, as shown to people.
pub open spec fn shows_ground(out: GroundOut, ground: GroundBinding, shown: Seq<char>) -> bool {
    &&& out.source@ == crate::locator::ground_text(ground)
    &&& out.kind@ == ground.source.kind_spec()
    &&& out.predicate@ == crate::predicate::label_of(
        crate::predicate::question(ground.predicate),
        shown,
    )
    &&& match ground.last {
        Some(last) => crate::text::option_text(out.last_outcome) == Some(last.outcome.label_spec())
            && crate::text::option_text(out.last_at) == Some(last.at.text()),
        None => out.last_outcome is None && out.last_at is None,
    }
}

fn ground_out(ground: &GroundBinding, shown: &str) -> (r: GroundOut)
    requires
        ground_is_sound(*ground),
    ensures
        shows_ground(r, *ground, shown@),
{
    let (last_outcome, last_at) = match &ground.last {
        Some(last) => (Some(last.outcome.label().to_owned()), Some(rfc3339(last.at))),
        None => (None, None),
    };
    GroundOut {
        source: render_ground(ground),
        kind: ground.source.kind_label(),
        predicate: ground.predicate.label(shown),
        last_outcome,
        last_at,
    }
}

/// What is shown of a fact's grounds. `shown` holds, for each ground, the number its
/// predicate compares with, as shown to people.
pub fn grounds_out(fact: &Fact, shown: &Vec<String>) -> (r: Vec<GroundOut>)
    requires
        shown@.len() == fact.grounds@.len(),
        forall|i: int| 0 <= i < fact.grounds@.len() ==> ground_is_sound(#[trigger] fact.grounds@[i]),
    ensures
        r@.len() == fact.grounds@.len(),
        forall|i: int|
            0 <= i < r@.len() ==> shows_ground(#[trigger] r@[i], fact.grounds@[i], shown@[i]@),
{
    let mut out: Vec<GroundOut> = Vec::new();
    let mut i: usize = 0;
    while i < fact.grounds.len()
        invariant
            i <= fact.grounds.len(),
            shown@.len() == fact.grounds@.len(),
            forall|i: int|
                0 <= i < fact.grounds@.len() ==> ground_is_sound(#[trigger] fact.grounds@[i]),
            out@.len() == i,
            forall|k: int|
                0 <= k < i ==> shows_ground(#[trigger] out@[k], fact.grounds@[k], shown@[k]@),
        decreases fact.grounds.len() - i,
    {
        out.push(ground_out(&fact.grounds[i], shown[i].as_str()));
        i = i + 1;
    }
    out
}

/// Recalls a fact: its value, and the epistemics that decide whether to trust it.
/// `confidence` is its decayed confidence.
pub fn recall_output(fact: &Fact, key: &str, confidence: Real, shown: &Vec<String>) -> (r:
    RecallOutput)
    requires
        shown@.len() == fact.grounds@.len(),
        forall|i: int| 0 <= i < fact.grounds@.len() ==> ground_is_sound(#[trigger] fact.grounds@[i]),
        belief_is_sound(fact.epistemics.groundedness),
        fact.schedule.last_verified.wf(),
    ensures
        r.key@ == key@,
        r.value.text@ == value_text(fact.value),
        r.confidence == confidence,
        shows_belief(r.groundedness, fact.epistemics.groundedness),
        r.grounds@.len() == fact.grounds@.len(),
        forall|i: int|
            0 <= i < r.grounds@.len() ==> shows_ground(
                #[trigger] r.grounds@[i],
                fact.grounds@[i],
                shown@[i]@,
            ),
        r.last_verified@ == fact.schedule.last_verified.text(),
        is_due_text(r.due, fact.schedule.half_life, fact.schedule.last_verified),
{
    let due = match fact.schedule.half_life.deadline(fact.schedule.last_verified) {
        Some(end) => Some(rfc3339(end)),
        None => None,
    };
    RecallOutput {
        key: key.to_owned(),
        value: value_of(&fact.value),
        confidence,
        groundedness: groundedness_out(&fact.epistemics.groundedness),
        grounds: grounds_out(fact, shown),
        last_verified: rfc3339(fact.schedule.last_verified),
        due,
    }
}

/// Whether a text says when a fact falls due: one half-life behind its last
/// verification. There is none for a fact that never decays, or that falls due
/// behind the last representable day.
pub open spec fn is_due_text(
    due: Option<String>,
    half_life: crate::duration::HalfLife,
    last_verified: Timestamp,
) -> bool {
    match half_life {
        crate::duration::HalfLife::Never => due is None,
        crate::duration::HalfLife::After(d) => {
            let end = last_verified.total() + crate::duration::elapsed_nanos(d@, last_verified);
            match due {
                Some(text) => exists|t: Timestamp|
                    t.wf() && #[trigger] t.total() == end && text@ == t.text(),
                None => end >= (crate::time::LAST_SECOND + 1) * crate::time::NANOS,
            }
        },
    }
}

/// A text of at most `max` characters: a longer one is cut, and ends in an ellipsis.
pub open spec fn truncated(s: Seq<char>, max: int) -> Seq<char> {
    if s.len() <= max {
        s
    } else if max <= 1 {
        seq!['\u{2026}']
    } else {
        s.take(max - 1).push('\u{2026}')
    }
}

/// Cuts a text to at most `max` characters.
pub fn truncate(s: &str, max: usize) -> (r: String)
    ensures
        r@ == truncated(s@, max as int),
{
    let v = chars_of(s);
    if v.len() <= max {
        return s.to_owned();
    }
    let keep: usize = if max == 0 {
        0
    } else {
        max - 1
    };
    let mut out = string_of(&v, 0, keep);
    out.push('\u{2026}');
    assert(out@ =~= truncated(s@, max as int));
    out
}

/// What a link to a fact says of it: the start of its value, and its belief.
pub fn link_text(fact: &Fact) -> (r: String)
    ensures
        r@ == truncated(fact.value.render_spec(), 60) + " ("@
            + fact.epistemics.groundedness.label_spec() + ")"@,
{
    truncate(fact.value.render().as_str(), 60).concat(" (").concat(
        fact.epistemics.groundedness.label(),
    ).concat(")")
}

// ---------------------------------------------------------------------------
// Disagreements
// ---------------------------------------------------------------------------

/// A fact that holds two answers.
#[derive(Debug)]
pub struct Conflict {
    pub key: String,
    pub value: String,
}

/// A fact with a refuted ground that holds no two answers yet.
#[derive(Debug)]
pub struct Distrusted {
    pub key: String,
    pub value: String,
    pub refuted_grounds: Vec<String>,
}

/// Whether a ground was refuted when it was last checked.
pub open spec fn is_refuted(ground: GroundBinding) -> bool {
    ground.last matches Some(last) && last.outcome is Refuted
}

/// The refuted grounds of a fact, as shown to people.
pub open spec fn refuted_texts(grounds: Seq<GroundBinding>) -> Seq<Seq<char>>
    decreases grounds.len(),
{
    if grounds.len() == 0 {
        Seq::empty()
    } else if is_refuted(grounds.last()) {
        refuted_texts(grounds.drop_last()).push(crate::locator::ground_text(grounds.last()))
    } else {
        refuted_texts(grounds.drop_last())
    }
}

fn refuted_grounds(fact: &Fact) -> (r: Vec<String>)
    requires
        forall|i: int| 0 <= i < fact.grounds@.len() ==> ground_is_sound(#[trigger] fact.grounds@[i]),
    ensures
        crate::text::texts(r@) == refuted_texts(fact.grounds@),
{
    let ghost all = fact.grounds@;
    let mut out: Vec<String> = Vec::new();
    let mut i: usize = 0;
    assert(all.take(0) =~= Seq::<GroundBinding>::empty());
    assert(crate::text::texts(out@) =~= refuted_texts(all.take(0)));
    while i < fact.grounds.len()
        invariant
            i <= fact.grounds.len(),
            all == fact.grounds@,
            forall|i: int| 0 <= i < all.len() ==> ground_is_sound(#[trigger] all[i]),
            crate::text::texts(out@) == refuted_texts(all.take(i as int)),
        decreases fact.grounds.len() - i,
    {
        proof {
            assert(all.take(i + 1).drop_last() =~= all.take(i as int));
            assert(all.take(i + 1).last() == all[i as int]);
            assert(ground_is_sound(all[i as int]));
        }
        let refuted = match &fact.grounds[i].last {
            Some(last) => last.outcome == Outcome::Refuted,
            None => false,
        };
        if refuted {
            let ghost before = crate::text::texts(out@);
            let text = render_ground(&fact.grounds[i]);
            out.push(text);
            assert(crate::text::texts(out@) =~= before.push(text@));
        }
        i = i + 1;
    }
    assert(all.take(i as int) =~= all);
    out
}

/// Whether the fact at a place holds two answers.
pub open spec fn is_conflicted(facts: Seq<Fact>) -> spec_fn(int) -> bool {
    |i: int| facts[i].epistemics.groundedness is Conflicted
}

/// Whether the fact at a place is distrusted: a ground was refuted, and it holds no
/// two answers.
pub open spec fn is_distrusted(facts: Seq<Fact>) -> spec_fn(int) -> bool {
    |i: int|
        !(facts[i].epistemics.groundedness is Conflicted) && refuted_texts(
            facts[i].grounds@,
        ).len() > 0
}

/// Whether a conflict shows a fact.
pub open spec fn shows_conflict(out: Conflict, fact: Fact) -> bool {
    out.key@ == fact.claim.key_spec() && out.value@ == fact.value.render_spec()
}

/// Whether a distrusted entry shows a fact.
pub open spec fn shows_distrusted(out: Distrusted, fact: Fact) -> bool {
    &&& out.key@ == fact.claim.key_spec()
    &&& out.value@ == fact.value.render_spec()
    &&& crate::text::texts(out.refuted_grounds@) == refuted_texts(fact.grounds@)
}

/// The facts whose grounds disagree, and those with a refuted ground that has not
/// aggregated to full conflict, so that a half-checked disagreement is not invisible.
pub fn conflicts(facts: &Vec<Fact>) -> (r: (Vec<Conflict>, Vec<Distrusted>))
    requires
        forall|i: int, k: int|
            0 <= i < facts@.len() && 0 <= k < facts@[i].grounds@.len() ==> ground_is_sound(
                #[trigger] facts@[i].grounds@[k],
            ),
    ensures
        ({
            let places = crate::rank::picked(facts@.len(), is_conflicted(facts@));
            &&& r.0@.len() == places.len()
            &&& forall|k: int|
                0 <= k < places.len() ==> shows_conflict(#[trigger] r.0@[k], facts@[places[k]])
        }),
        ({
            let places = crate::rank::picked(facts@.len(), is_distrusted(facts@));
            &&& r.1@.len() == places.len()
            &&& forall|k: int|
                0 <= k < places.len() ==> shows_distrusted(#[trigger] r.1@[k], facts@[places[k]])
        }),
{
    let ghost two = is_conflicted(facts@);
    let ghost half = is_distrusted(facts@);
    let mut both: Vec<Conflict> = Vec::new();
    let mut some: Vec<Distrusted> = Vec::new();
    let mut i: usize = 0;
    while i < facts.len()
        invariant
            i <= facts.len(),
            two == is_conflicted(facts@),
            half == is_distrusted(facts@),
            forall|i: int, k: int|
                0 <= i < facts@.len() && 0 <= k < facts@[i].grounds@.len() ==> ground_is_sound(
                    #[trigger] facts@[i].grounds@[k],
                ),
            both@.len() == crate::rank::picked(i as nat, two).len(),
            forall|k: int|
                0 <= k < both@.len() ==> shows_conflict(
                    #[trigger] both@[k],
                    facts@[crate::rank::picked(i as nat, two)[k]],
                ),
            some@.len() == crate::rank::picked(i as nat, half).len(),
            forall|k: int|
                0 <= k < some@.len() ==> shows_distrusted(
                    #[trigger] some@[k],
                    facts@[crate::rank::picked(i as nat, half)[k]],
                ),
        decreases facts.len() - i,
    {
        let ghost before_two = crate::rank::picked(i as nat, two);
        let ghost before_half = crate::rank::picked(i as nat, half);
        let ghost next = (i + 1) as nat;
        proof {
            assert(two(i as int) ==> crate::rank::picked(next, two) == before_two.push(i as int));
            assert(!two(i as int) ==> crate::rank::picked(next, two) == before_two);
            assert(half(i as int) ==> crate::rank::picked(next, half) == before_half.push(
                i as int,
            ));
            assert(!half(i as int) ==> crate::rank::picked(next, half) == before_half);
        }
        if let Groundedness::Conflicted { .. } = &facts[i].epistemics.groundedness {
            assert(two(i as int) && !half(i as int));
            both.push(Conflict { key: facts[i].claim.key(), value: facts[i].value.render() });
        } else {
            let refuted = refuted_grounds(&facts[i]);
            assert(refuted@.len() == crate::text::texts(refuted@).len());
            assert(!two(i as int));
            if refuted.len() > 0 {
                assert(half(i as int));
                some.push(
                    Distrusted {
                        key: facts[i].claim.key(),
                        value: facts[i].value.render(),
                        refuted_grounds: refuted,
                    },
                );
            } else {
                assert(!half(i as int));
            }
        }
        i = i + 1;
    }
    (both, some)
}

/// How many stale facts are shown.
pub const MOST_STALE: usize = 20;

/// The facts most worth re-checking, by their scores, best first.
pub fn stale(scores: &Vec<Real>) -> (r: Vec<usize>)
    ensures
        crate::rank::indices(r@) == crate::rank::at_most(
            crate::rank::best_first(crate::scheduler::orders(scores@)),
            MOST_STALE as int,
        ),
        r@.len() <= MOST_STALE,
        forall|i: int| 0 <= i < r@.len() ==> #[trigger] r@[i] < scores@.len(),
{
    let mut order = rank(scores);
    let ghost all = order@;
    if order.len() > MOST_STALE {
        order.truncate(MOST_STALE);
    }
    assert(crate::rank::indices(order@) =~= crate::rank::at_most(
        crate::rank::indices(all),
        MOST_STALE as int,
    ));
    order
}

// ---------------------------------------------------------------------------
// Provenance
// ---------------------------------------------------------------------------

/// A ground check in the history of a fact.
#[derive(Debug)]
pub struct Check {
    pub at: String,
    pub outcome: String,
    pub op: String,
}

/// The part of a text before a character; all of it where the character is not
/// there.
pub open spec fn before_char(s: Seq<char>, c: char) -> Seq<char> {
    match crate::text::split_once(s, c) {
        Some((before, _)) => before,
        None => s,
    }
}

/// The outcome that a log entry of a check names.
pub open spec fn outcome_in(description: Seq<char>) -> Seq<char> {
    match crate::text::split_once(description, ':') {
        Some((_, rest)) => before_char(before_char(rest, ':'), ']'),
        None => "?"@,
    }
}

/// Whether a log entry is a check of a key.
pub open spec fn is_check_of(operation: Operation, key: Seq<char>) -> bool {
    crate::text::holds_text(operation.description@, "[GroundCheck"@) && crate::text::holds_text(
        operation.description@,
        key,
    )
}

/// Whether what is shown of a check is what its log entry says.
pub open spec fn shows_check(check: Check, operation: Operation) -> bool {
    &&& check.at@ == operation.time@
    &&& check.outcome@ == outcome_in(operation.description@)
    &&& check.op@ == operation.id@
}

fn cut_at(s: String, c: char) -> (r: String)
    ensures
        r@ == before_char(s@, c),
{
    match split_first(s.as_str(), c) {
        Some((before, _)) => before,
        None => s,
    }
}

fn outcome_of(description: &str) -> (r: String)
    ensures
        r@ == outcome_in(description@),
{
    match split_first(description, ':') {
        Some((_, rest)) => cut_at(cut_at(rest, ':'), ']'),
        None => "?".to_owned(),
    }
}

/// The checks of a key among log entries, oldest first.
pub open spec fn checks_of(log: Seq<Operation>, key: Seq<char>) -> Seq<int> {
    crate::rank::picked(log.len(), |i: int| is_check_of(log[log.len() - 1 - i], key))
}

/// The ground checks of a fact in the operation log (newest first), oldest first.
pub fn checks(log: &Vec<Operation>, key: &str) -> (r: Vec<Check>)
    ensures
        ({
            let places = checks_of(log@, key@);
            &&& r@.len() == places.len()
            &&& forall|k: int|
                0 <= k < places.len() ==> shows_check(
                    #[trigger] r@[k],
                    log@[log@.len() - 1 - places[k]],
                )
        }),
{
    let ghost test = |i: int| is_check_of(log@[log@.len() - 1 - i], key@);
    let mut out: Vec<Check> = Vec::new();
    let mut i: usize = 0;
    while i < log.len()
        invariant
            i <= log.len(),
            test == (|i: int| is_check_of(log@[log@.len() - 1 - i], key@)),
            out@.len() == crate::rank::picked(i as nat, test).len(),
            forall|k: int|
                0 <= k < out@.len() ==> shows_check(
                    #[trigger] out@[k],
                    log@[log@.len() - 1 - crate::rank::picked(i as nat, test)[k]],
                ),
        decreases log.len() - i,
    {
        let ghost before = crate::rank::picked(i as nat, test);
        let entry = &log[log.len() - 1 - i];
        let hit = contains_text(entry.description.as_str(), "[GroundCheck") && contains_text(
            entry.description.as_str(),
            key,
        );
        assert(hit == test(i as int));
        if hit {
            out.push(
                Check {
                    at: entry.time.clone(),
                    outcome: outcome_of(entry.description.as_str()),
                    op: entry.id.clone(),
                },
            );
            assert(crate::rank::picked((i + 1) as nat, test) =~= before.push(i as int));
        }
        i = i + 1;
    }
    out
}

// ---------------------------------------------------------------------------
// Resources and prompts
// ---------------------------------------------------------------------------

/// What a resource address asks for.
#[derive(Debug, PartialEq, Eq)]
pub enum Resource {
    Conflicts,
    Stale,
    Fact(String),
    Why(String),
    Unknown,
}

/// What a resource address asks for, with its key as characters.
pub enum Asked {
    Conflicts,
    Stale,
    Fact(Seq<char>),
    Why(Seq<char>),
    Unknown,
}

impl View for Resource {
    type V = Asked;

    open spec fn view(&self) -> Asked {
        match *self {
            Resource::Conflicts => Asked::Conflicts,
            Resource::Stale => Asked::Stale,
            Resource::Fact(key) => Asked::Fact(key@),
            Resource::Why(key) => Asked::Why(key@),
            Resource::Unknown => Asked::Unknown,
        }
    }
}

/// What an address asks for.
pub open spec fn asked(uri: Seq<char>) -> Asked {
    if uri == "ken://conflicts"@ {
        Asked::Conflicts
    } else if uri == "ken://stale"@ {
        Asked::Stale
    } else if crate::text::starts_with(uri, "ken://fact/"@) {
        Asked::Fact(uri.skip("ken://fact/"@.len() as int))
    } else if crate::text::starts_with(uri, "ken://why/"@) {
        Asked::Why(uri.skip("ken://why/"@.len() as int))
    } else {
        Asked::Unknown
    }
}

/// Reads a resource address.
pub fn resource(uri: &str) -> (r: Resource)
    ensures
        r@ == asked(uri@),
{
    if same(uri, "ken://conflicts") {
        Resource::Conflicts
    } else if same(uri, "ken://stale") {
        Resource::Stale
    } else if begins_with(uri, "ken://fact/") {
        proof {
            reveal_strlit("ken://fact/");
        }
        let v = chars_of(uri);
        let key = string_of(&v, 11, v.len());
        assert(key@ =~= uri@.skip(11));
        Resource::Fact(key)
    } else if begins_with(uri, "ken://why/") {
        proof {
            reveal_strlit("ken://why/");
        }
        let v = chars_of(uri);
        let key = string_of(&v, 10, v.len());
        assert(key@ =~= uri@.skip(10));
        Resource::Why(key)
    } else {
        Resource::Unknown
    }
}

/// The start of the prompt to remember.
pub const REMEMBER_START: &'static str = "Identify the durable, checkable facts in ";

/// The rest of the prompt to remember.
pub const REMEMBER_REST: &'static str = " that an agent would regret forgetting: things that were true when written but go stale as the world moves (a file a function lives in, a release owner, a staging URL, a dependency version). For each, call `ken_ingest` with key `entity.relation`, a `volatility` of immutable/slow/days/hours, and a `ground` hint naming where it can be checked (a file path, a command, or a `scheme:reference`). Skip anything that is a transient detail, an opinion, or belongs in a RAG corpus rather than as a verifiable claim. Every ingested fact lands ungrounded; the ground hint is what lets the scheduler verify it later.";

/// The start of the prompt to check memory.
pub const CHECK_START: &'static str = "Before acting on ";

/// The rest of the prompt to check memory.
pub const CHECK_REST: &'static str = ", recall what ken already knows: use `ken_search` to find related facts, then `ken_recall` (or the `ken://fact/...` resource) for each one that matters. Weigh every value by its epistemics, not its text: an ungrounded fact is a guess regardless of confidence, a verified fact was confirmed against a real source, and a refuted fact was rejected by its checked grounds. Do not rely on a refuted value. A conflicted fact has both confirming and refuting grounds; surface that disagreement. Prefer recently verified, high-confidence facts; treat stale or ungrounded ones as leads to confirm, not as settled truth. If you confirm against a live source that a stored value has changed, re-ingest the corrected value with a ground hint so the scheduler re-verifies it; you cannot mark it verified yourself.";

/// An argument, or what stands in for it.
pub open spec fn argument_or(argument: Option<String>, fallback: Seq<char>) -> Seq<char> {
    match argument {
        Some(text) => text@,
        None => fallback,
    }
}

/// The text of a prompt. `content` and `topic` are its arguments; `None` for a
/// prompt that there is not.
pub fn prompt_text(name: &str, content: Option<String>, topic: Option<String>) -> (r: Option<
    String,
>)
    ensures
        if name@ == "remember"@ {
            r matches Some(text) && text@ == REMEMBER_START@ + argument_or(
                content,
                "the current conversation and working context"@,
            ) + REMEMBER_REST@
        } else if name@ == "check-memory"@ {
            r matches Some(text) && text@ == CHECK_START@ + argument_or(topic, "the task at hand"@)
                + CHECK_REST@
        } else {
            r is None
        },
{
    if same(name, "remember") {
        let content = match content {
            Some(content) => content,
            None => "the current conversation and working context".to_owned(),
        };
        Some(REMEMBER_START.to_owned().concat(content.as_str()).concat(REMEMBER_REST))
    } else if same(name, "check-memory") {
        let topic = match topic {
            Some(topic) => topic,
            None => "the task at hand".to_owned(),
        };
        Some(CHECK_START.to_owned().concat(topic.as_str()).concat(CHECK_REST))
    } else {
        None
    }
}

} // verus!
