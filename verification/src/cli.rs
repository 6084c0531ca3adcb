//! What the command line decides and says.

use crate::config::{require_duration, Config};
use crate::digest::hash_text;
use crate::duration::HalfLife;
use crate::error::Error;
use crate::json::{parse_elements, Json};
use crate::locator::render_ground;
use crate::mcp::ingest::{class_half_life, draft, triage};
use crate::mcp::report::checks;
use crate::mcp::{tokens_of, SearchParams, TokenKind};
use crate::number::{Real, ONE, ZERO};
use crate::scheduler::rank;
use crate::schema::{Element, Epistemics, Fact, FactValue, GroundBinding, Groundedness, Outcome};
use crate::schema::{nfc, short_hash, Claim, TriageSource, Volatility};
use crate::store::history::Operation;
use crate::text::{chars_of, contains_text, decimal_text, join, lower, split_first, string_of};
use crate::time::{at_least_a_second, Elapsed, Timestamp, NANOS};
use crate::write::WriteOp;
use vstd::prelude::*;

verus! {

/// The bits of the confidence of a doubt, one tenth.
pub const STRONG_DOUBT: u64 = 0x3fb9_9999_9999_999a;

// ---------------------------------------------------------------------------
// Time
// ---------------------------------------------------------------------------

/// A count of seconds in the unit that suits it.
pub open spec fn human(secs: int) -> Seq<char> {
    if secs < 90 {
        crate::text::digits_of(secs as nat) + "s"@
    } else if secs < 5400 {
        crate::text::digits_of((secs / 60) as nat) + "m"@
    } else if secs < 172_800 {
        crate::text::digits_of((secs / 3600) as nat) + "h"@
    } else {
        crate::text::digits_of((secs / 86_400) as nat) + "d"@
    }
}

/// Says a count of seconds in the unit that suits it.
pub fn humanize(secs: u64) -> (r: String)
    ensures
        r@ == human(secs as int),
{
    let (n, unit): (u64, &str) = if secs < 90 {
        (secs, "s")
    } else if secs < 5400 {
        (secs / 60, "m")
    } else if secs < 172_800 {
        (secs / 3600, "h")
    } else {
        (secs / 86_400, "d")
    };
    decimal_text(n as u128).concat(unit)
}

/// Whole seconds from one instant to a later one; none where it is not later.
pub open spec fn seconds_until(from: Timestamp, to: Timestamp) -> int {
    if to.total() > from.total() {
        (to.total() - from.total()) / (NANOS as int)
    } else {
        0
    }
}

fn seconds_to(from: Timestamp, to: Timestamp) -> (r: u64)
    requires
        from.wf(),
        to.wf(),
    ensures
        r == seconds_until(from, to),
{
    let secs: i64 = to.seconds_since(&from);
    proof {
        if to.total() < from.total() {
            assert((from.total() - to.total()) / (NANOS as int) >= 0) by (nonlinear_arith)
                requires
                    from.total() - to.total() >= 0,
            ;
        } else {
            assert((to.total() - from.total()) / (NANOS as int) >= 0) by (nonlinear_arith)
                requires
                    to.total() - from.total() >= 0,
            ;
        }
    }
    if secs > 0 {
        proof {
            if to.total() <= from.total() {
                assert((to.total() - from.total()) / (NANOS as int) <= 0);
            }
        }
        secs as u64
    } else {
        0
    }
}

/// How long ago something was.
pub fn relative(before: Timestamp, now: Timestamp) -> (r: String)
    requires
        before.wf(),
        now.wf(),
    ensures
        r@ == human(seconds_until(before, now)) + " ago"@,
{
    humanize(seconds_to(before, now)).concat(" ago")
}

/// When something will be.
pub fn relative_future(moment: Timestamp, now: Timestamp) -> (r: String)
    requires
        moment.wf(),
        now.wf(),
    ensures
        r@ == (if seconds_until(now, moment) == 0 {
            "overdue"@
        } else {
            "in "@ + human(seconds_until(now, moment))
        }),
{
    let secs = seconds_to(now, moment);
    if secs == 0 {
        "overdue".to_owned()
    } else {
        "in ".to_owned().concat(humanize(secs).as_str())
    }
}

/// When a fact falls due: one half-life behind its last verification; `None` where it
/// never does.
pub fn due_at(fact: &Fact) -> (r: Option<Timestamp>)
    requires
        fact.schedule.last_verified.wf(),
    ensures
        is_due_time(r, *fact),
{
    fact.schedule.half_life.deadline(fact.schedule.last_verified)
}

/// Whether an instant is when a fact falls due.
pub open spec fn is_due_time(r: Option<Timestamp>, fact: Fact) -> bool {
    match fact.schedule.half_life {
        crate::duration::HalfLife::Never => r is None,
        crate::duration::HalfLife::After(d) => {
            let end = fact.schedule.last_verified.total() + crate::duration::elapsed_nanos(
                d@,
                fact.schedule.last_verified,
            );
            match r {
                Some(moment) => moment.wf() && moment.total() == end,
                None => end >= (crate::time::LAST_SECOND + 1) * NANOS,
            }
        },
    }
}

/// Whether a fact has fallen due.
pub open spec fn has_fallen_due(fact: Fact, now: Timestamp) -> bool {
    fact.schedule.half_life matches crate::duration::HalfLife::After(d)
        && fact.schedule.last_verified.total() + crate::duration::elapsed_nanos(
        d@,
        fact.schedule.last_verified,
    ) <= now.total()
}

/// Whether a fact is due for a re-check.
pub fn is_due(fact: &Fact, now: Timestamp) -> (r: bool)
    requires
        fact.schedule.last_verified.wf(),
        now.wf(),
    ensures
        r == has_fallen_due(*fact, now),
{
    match due_at(fact) {
        Some(moment) => !moment.after(&now),
        None => {
            proof {
                if let crate::duration::HalfLife::After(d) = fact.schedule.half_life {
                    assert(now.total() < (crate::time::LAST_SECOND + 1) * NANOS);
                }
            }
            false
        },
    }
}

/// A wait of so many nanoseconds, and of a second at least.
pub open spec fn least(nanos: nat) -> nat {
    if nanos < NANOS {
        NANOS as nat
    } else {
        nanos
    }
}

/// Whether a result is how long the daemon waits, or why it cannot tell.
pub open spec fn is_wait(
    r: Result<Elapsed, Error>,
    interval: Option<String>,
    configured: Elapsed,
) -> bool {
    match interval {
        Some(text) => match crate::config::fixed_nanos(text@) {
            Some(nanos) => r matches Ok(time) && time.wf() && time.total() == least(nanos),
            None => crate::error::is_config(
                r,
                "bad duration `"@ + text@ + "`: "@ + crate::config::fixed_fault(
                    text@,
                ).message_spec(),
            ),
        },
        None => r matches Ok(time) && time.wf() && time.total() == least(configured.total()),
    }
}

/// How long the daemon waits between ticks: the interval asked for, or the one
/// configured where none is, and at least a second. Fails where the interval
/// asked for is no elapsed time.
pub fn wait_between(interval: Option<String>, configured: Elapsed) -> (r: Result<Elapsed, Error>)
    requires
        configured.wf(),
    ensures
        is_wait(r, interval, configured),
{
    match interval {
        Some(text) => match require_duration(text.as_str()) {
            Ok(time) => Ok(at_least_a_second(time)),
            Err(error) => Err(error),
        },
        None => Ok(at_least_a_second(configured)),
    }
}

// ---------------------------------------------------------------------------
// Adding and grounding
// ---------------------------------------------------------------------------

/// Why there is no value to add.
#[derive(Debug, Clone, Copy, PartialEq, Eq, Structural)]
pub enum NoValue {
    /// Neither a value nor a file was given.
    Missing,
    /// The file holds no JSON.
    NotJson,
}

/// Whether elements are those of an array, seen now.
pub open spec fn are_new(elements: Seq<Element>, items: Seq<Seq<char>>, now: Timestamp) -> bool {
    &&& elements.len() == items.len()
    &&& forall|i: int|
        0 <= i < items.len() ==> {
            let e = #[trigger] elements[i];
            e.value.text@ == items[i] && e.seen == now && e.confidence is None && e.conflict
                is None
        }
}

/// Whether a result is the value to add, or why there is none.
pub open spec fn is_value(
    r: Result<FactValue, NoValue>,
    json: Option<String>,
    value: Option<String>,
    now: Timestamp,
) -> bool {
    match (json, value) {
        (Some(text), _) => match crate::json::json_elements(text@) {
            Some(items) => r matches Ok(FactValue::Elements { elements }) && are_new(
                elements@,
                items,
                now,
            ),
            None => match crate::json::json_document(text@) {
                Some(document) => r matches Ok(FactValue::Scalar { value: v }) && v.text@
                    == document,
                None => r == Err::<FactValue, NoValue>(NoValue::NotJson),
            },
        },
        (None, Some(text)) => r matches Ok(v) && v matches FactValue::Scalar { value: json }
            && json.text@ == crate::json::json_quoted(text@) && v.render_spec() == text@,
        (None, None) => r == Err::<FactValue, NoValue>(NoValue::Missing),
    }
}

/// The value to add: a text, or what a JSON file holds, an array being a set. The
/// file wins.
pub fn value_to_add(json: Option<String>, value: Option<String>, now: Timestamp) -> (r: Result<
    FactValue,
    NoValue,
>)
    ensures
        is_value(r, json, value, now),
{
    let text = match (json, value) {
        (Some(text), _) => text,
        (None, Some(text)) => {
            return Ok(FactValue::Scalar { value: Json::of_string(text.as_str()) });
        },
        (None, None) => {
            return Err(NoValue::Missing);
        },
    };
    match parse_elements(text.as_str()) {
        Some(items) => {
            let mut elements: Vec<Element> = Vec::new();
            let mut i: usize = 0;
            while i < items.len()
                invariant
                    i <= items.len(),
                    are_new(elements@, crate::text::texts(items@).take(i as int), now),
                decreases items.len() - i,
            {
                elements.push(
                    Element {
                        value: Json { text: items[i].clone() },
                        seen: now,
                        confidence: None,
                        conflict: None,
                    },
                );
                i = i + 1;
            }
            assert(crate::text::texts(items@).take(i as int) =~= crate::text::texts(items@));
            Ok(FactValue::Elements { elements })
        },
        None => match Json::parse(text.as_str()) {
            Some(value) => Ok(FactValue::Scalar { value }),
            None => Err(NoValue::NotJson),
        },
    }
}

/// What to add.
pub struct AddParams {
    /// `entity.relation`
    pub key: String,
    pub value: Option<String>,
    /// What a JSON file holds.
    pub json: Option<String>,
    pub half_life: Option<HalfLife>,
    pub volatility: Option<Volatility>,
    /// Where the truth should be checked. A hint only.
    pub ground: Option<String>,
    pub meta_confidence: Option<Real>,
}

/// Why nothing is added.
#[derive(Debug)]
pub enum NotAdded {
    Value(NoValue),
    Refused(Error),
}

/// Whether a half-life is the one to add with: the one asked for, else that of the
/// class asked for, else the one configured.
pub open spec fn is_half_life_to_add(
    half_life: HalfLife,
    params: AddParams,
    config: Config,
) -> bool {
    match (params.half_life, params.volatility) {
        (Some(asked), _) => half_life == asked,
        (None, Some(class)) => config.is_class_half_life(
            Ok(half_life),
            crate::mcp::ingest::class_name(class),
        ),
        (None, None) => half_life == config.decay.default_half_life,
    }
}

/// Whether an operation ingests what is to be added, with a value.
pub open spec fn ingests_value(
    op: WriteOp,
    added: FactValue,
    params: AddParams,
    config: Config,
    module: Option<String>,
) -> bool {
    &&& op matches WriteOp::Ingest { claim, value, triage, half_life, draft_ground }
    &&& Claim::key_parts(params.key@) == Some((claim.entity.0@, claim.relation@))
    &&& claim.nl is None
    &&& value == added
    &&& triage == crate::mcp::ingest::triage_of(params.meta_confidence)
    &&& is_half_life_to_add(half_life, params, config)
    &&& match params.ground {
        Some(text) => {
            let (reference, place) = crate::locator::source_reading(text@, None)->Ok_0;
            crate::mcp::ingest::is_draft(draft_ground, config, reference, place, module)
        },
        None => draft_ground is None,
    }
}

/// Whether a result is what comes of adding, once the value is known.
pub open spec fn is_addition(
    r: Result<WriteOp, NotAdded>,
    value: Result<FactValue, NoValue>,
    params: AddParams,
    config: Config,
    module: Option<String>,
) -> bool {
    match value {
        Err(why) => r matches Err(NotAdded::Value(w)) && w == why,
        Ok(added) => match params.ground {
            Some(text) => match crate::locator::source_reading(text@, None) {
                Err(fault) => r matches Err(NotAdded::Refused(Error::Config(s))) && s@ == fault,
                Ok(_) => r matches Ok(op) && ingests_value(op, added, params, config, module),
            },
            None => r matches Ok(op) && ingests_value(op, added, params, config, module),
        },
    }
}

/// Makes the operation that adds a fact. `module` is the source of the handler module
/// that the hint needs.
pub fn add_fact(params: AddParams, config: &Config, module: Option<String>, now: Timestamp) -> (r:
    Result<WriteOp, NotAdded>)
    requires
        crate::mcp::ingest::needed_module(*config, params.ground) is Some ==> module is Some,
    ensures
        match Claim::key_parts(params.key@) {
            None => r matches Err(NotAdded::Refused(Error::Key(_))),
            Some(_) => exists|value: Result<FactValue, NoValue>| #[trigger]
                is_value(value, params.json, params.value, now) && is_addition(
                    r,
                    value,
                    params,
                    *config,
                    module,
                ),
        },
{
    let claim = match Claim::parse_key(params.key.as_str()) {
        Ok(claim) => claim,
        Err(error) => {
            return Err(NotAdded::Refused(Error::Key(error)));
        },
    };
    let half_life = match (params.half_life, params.volatility) {
        (Some(asked), _) => asked,
        (None, Some(class)) => class_half_life(config, class),
        (None, None) => config.decay.default_half_life,
    };
    let ghost asked = params;
    let found = value_to_add(params.json, params.value, now);
    let ghost known = found;
    assert(is_value(known, asked.json, asked.value, now));
    let value = match found {
        Ok(value) => value,
        Err(why) => {
            assert(is_addition(Err(NotAdded::Value(why)), known, asked, *config, module));
            return Err(NotAdded::Value(why));
        },
    };
    match draft(&params.ground, config, module) {
        Ok(draft_ground) => {
            let op = WriteOp::ingest(
                claim,
                value,
                triage(params.meta_confidence),
                half_life,
                draft_ground,
            );
            assert(is_addition(Ok(op), known, asked, *config, module));
            Ok(op)
        },
        Err(error) => {
            assert(is_addition(Err(NotAdded::Refused(error)), known, asked, *config, module));
            Err(NotAdded::Refused(error))
        },
    }
}

/// The kind of source that a ground is bound to.
#[derive(Debug, PartialEq, Eq)]
pub enum Choice {
    Source(String),
    Command(Vec<String>),
    Generator(String),
}

/// Whether a result is the one source that is given, or why there is none.
pub open spec fn is_choice(
    r: Result<Choice, String>,
    source: Option<String>,
    command: Option<String>,
    generator: Option<String>,
) -> bool {
    match (source, command, generator) {
        (Some(text), None, None) => r matches Ok(Choice::Source(s)) && s == text,
        (None, Some(text), None) => {
            let argv = crate::mcp::tokens(TokenKind::Word, text@);
            if argv.len() == 0 {
                r matches Err(e) && e@ == "--command is empty"@
            } else {
                r matches Ok(Choice::Command(v)) && crate::text::texts(v@) == argv
            }
        },
        (None, None, Some(path)) => r matches Ok(Choice::Generator(p)) && p == path,
        _ => r matches Err(e) && e@
            == "provide exactly one of --source, --command, or --generator"@,
    }
}

/// Picks the source kind. Exactly one may be given, and a command is not empty.
pub fn choose_source(
    source: Option<String>,
    command: Option<String>,
    generator: Option<String>,
) -> (r: Result<Choice, String>)
    ensures
        is_choice(r, source, command, generator),
{
    match (source, command, generator) {
        (Some(text), None, None) => Ok(Choice::Source(text)),
        (None, Some(text), None) => {
            let argv = tokens_of(TokenKind::Word, text.as_str());
            assert(crate::text::texts(argv@).len() == argv@.len());
            if argv.len() == 0 {
                Err("--command is empty".to_owned())
            } else {
                Ok(Choice::Command(argv))
            }
        },
        (None, None, Some(path)) => Ok(Choice::Generator(path)),
        _ => Err("provide exactly one of --source, --command, or --generator".to_owned()),
    }
}

/// Whether a belief is the one that a doubt sets.
pub open spec fn is_doubt(r: Epistemics, confidence: Option<Real>) -> bool {
    r == (Epistemics {
        confidence: (match confidence {
            Some(confidence) => confidence,
            None => Real { bits: STRONG_DOUBT },
        }).clamped(Real { bits: ZERO }, Real { bits: ONE }),
        groundedness: Groundedness::Ungrounded { source: TriageSource::Manual },
    })
}

/// The belief that a doubt sets: ungrounded, at the confidence asked for, or nearly
/// none.
pub fn doubt(confidence: Option<Real>) -> (r: Epistemics)
    ensures
        is_doubt(r, confidence),
{
    let asked = match confidence {
        Some(confidence) => confidence,
        None => Real { bits: STRONG_DOUBT },
    };
    Epistemics {
        confidence: asked.clamp(Real { bits: ZERO }, Real { bits: ONE }),
        groundedness: Groundedness::Ungrounded { source: TriageSource::Manual },
    }
}

// ---------------------------------------------------------------------------
// Search
// ---------------------------------------------------------------------------

/// Whether a filter on a part of the key is not set, or spells the part, composed
/// or decomposed.
pub open spec fn part_takes(filter: Option<String>, part: Seq<char>) -> bool {
    filter matches Some(wanted) ==> crate::schema::nfc_form(wanted@) == part
}

fn is_part(filter: &Option<String>, part: &str) -> (r: bool)
    ensures
        r == part_takes(*filter, part@),
{
    match filter {
        Some(wanted) => crate::text::same(nfc(wanted.as_str()).as_str(), part),
        None => true,
    }
}

/// Whether a fact is found: its key or value holds the query in any case, the
/// filters take it, and it is due where only those are asked for.
pub open spec fn is_hit(fact: Fact, params: SearchParams, only_due: bool, now: Timestamp) -> bool {
    let query = crate::text::lower_form(params.query@);
    &&& query.len() == 0 || crate::text::holds_text(
        crate::text::lower_form(fact.claim.key_spec()),
        query,
    ) || crate::text::holds_text(crate::text::lower_form(fact.value.render_spec()), query)
    &&& part_takes(params.entity, fact.claim.entity.0@)
    &&& part_takes(params.relation, fact.claim.relation@)
    &&& params.grounded matches Some(state) ==> fact.epistemics.groundedness.label_spec()
        == crate::text::lower_form(state@)
    &&& only_due ==> has_fallen_due(fact, now)
}

/// The places of the facts that are found, in the order of the facts.
pub open spec fn hits_of(
    facts: Seq<Fact>,
    params: SearchParams,
    only_due: bool,
    now: Timestamp,
) -> Seq<int> {
    crate::rank::picked(facts.len(), |i: int| is_hit(facts[i], params, only_due, now))
}

fn is_found(fact: &Fact, params: &SearchParams, query: &str, only_due: bool, now: Timestamp) -> (r:
    bool)
    requires
        fact.schedule.last_verified.wf(),
        now.wf(),
        query@ == crate::text::lower_form(params.query@),
    ensures
        r == is_hit(*fact, *params, only_due, now),
{
    if !query.is_empty() && !contains_text(lower(fact.claim.key().as_str()).as_str(), query)
        && !contains_text(lower(fact.value.render().as_str()).as_str(), query) {
        return false;
    }
    if !is_part(&params.entity, fact.claim.entity.0.as_str()) || !is_part(
        &params.relation,
        fact.claim.relation.as_str(),
    ) {
        return false;
    }
    if let Some(state) = &params.grounded {
        let wanted = lower(state.as_str());
        if !crate::text::same(fact.epistemics.groundedness.label(), wanted.as_str()) {
            return false;
        }
    }
    !only_due || is_due(fact, now)
}

/// The places of the facts that a search finds, the best score first, at most `limit`.
pub open spec fn found_spec(
    facts: Seq<Fact>,
    params: SearchParams,
    only_due: bool,
    now: Timestamp,
    scores: Seq<Real>,
    limit: int,
) -> Seq<int> {
    let hits = hits_of(facts, params, only_due, now);
    let keys = hits.map_values(|i: int| scores[i].rank());
    crate::rank::at_most(
        crate::scheduler::at_places(hits, crate::rank::best_first(keys)),
        limit,
    )
}

/// Finds facts by entity, relation, or text; gives their places, the best score
/// first, at most `limit`.
pub fn search(
    facts: &Vec<Fact>,
    params: &SearchParams,
    only_due: bool,
    now: Timestamp,
    scores: &Vec<Real>,
    limit: usize,
) -> (r: Vec<usize>)
    requires
        scores@.len() == facts@.len(),
        now.wf(),
        forall|i: int| 0 <= i < facts@.len() ==> (#[trigger] facts@[i]).schedule.last_verified.wf(),
    ensures
        crate::rank::indices(r@) == found_spec(
            facts@,
            *params,
            only_due,
            now,
            scores@,
            limit as int,
        ),
{
    let query = lower(params.query.as_str());
    let ghost test = |i: int| is_hit(facts@[i], *params, only_due, now);
    let mut hits: Vec<usize> = Vec::new();
    let mut values: Vec<Real> = Vec::new();
    let mut i: usize = 0;
    assert(crate::rank::indices(hits@) =~= crate::rank::picked(0, test));
    while i < facts.len()
        invariant
            i <= facts.len(),
            scores@.len() == facts@.len(),
            now.wf(),
            query@ == crate::text::lower_form(params.query@),
            forall|i: int|
                0 <= i < facts@.len() ==> (#[trigger] facts@[i]).schedule.last_verified.wf(),
            test == (|i: int| is_hit(facts@[i], *params, only_due, now)),
            crate::rank::indices(hits@) == crate::rank::picked(i as nat, test),
            values@.len() == hits@.len(),
            forall|k: int|
                0 <= k < hits@.len() ==> #[trigger] hits@[k] < facts@.len() && values@[k]
                    == scores@[hits@[k] as int],
        decreases facts.len() - i,
    {
        let found = is_found(&facts[i], params, query.as_str(), only_due, now);
        assert(found == test(i as int));
        if found {
            let ghost before = crate::rank::indices(hits@);
            hits.push(i);
            values.push(scores[i]);
            assert(crate::rank::indices(hits@) =~= before.push(i as int));
        }
        i = i + 1;
    }
    let ghost chosen = crate::rank::indices(hits@);
    let ghost keys = chosen.map_values(|i: int| scores@[i].rank());
    let order = rank(&values);
    assert(crate::scheduler::orders(values@) =~= keys) by {
        assert forall|k: int| 0 <= k < chosen.len() implies crate::scheduler::orders(values@)[k]
            == keys[k] by {
            assert(hits@[k] < facts@.len());
        }
    }
    let ghost sorted = crate::scheduler::at_places(chosen, crate::rank::best_first(keys));
    let mut out: Vec<usize> = Vec::new();
    let mut k: usize = 0;
    while k < order.len() && k < limit
        invariant
            k <= order.len() == hits.len(),
            k <= limit,
            out@.len() == k,
            chosen == crate::rank::indices(hits@),
            crate::rank::indices(order@) == crate::rank::best_first(keys),
            sorted == crate::scheduler::at_places(chosen, crate::rank::best_first(keys)),
            forall|j: int| 0 <= j < order@.len() ==> #[trigger] order@[j] < hits@.len(),
            forall|j: int| 0 <= j < k ==> #[trigger] out@[j] == sorted[j],
        decreases order.len() - k,
    {
        assert(crate::rank::indices(order@)[k as int] == order@[k as int]);
        assert(sorted[k as int] == chosen[order@[k as int] as int]);
        out.push(hits[order[k]]);
        k = k + 1;
    }
    assert(sorted.len() == order@.len()) by {
        assert(crate::rank::indices(order@).len() == order@.len());
    }
    assert(crate::rank::indices(out@) =~= crate::rank::at_most(sorted, limit as int));
    out
}

// ---------------------------------------------------------------------------
// Lines
// ---------------------------------------------------------------------------

/// The start of an operation id.
pub fn short_op(id: &str) -> (r: String)
    ensures
        r@ == crate::rank::at_most(id@, 4),
{
    let v = chars_of(id);
    let n: usize = if v.len() < 4 {
        v.len()
    } else {
        4
    };
    let out = string_of(&v, 0, n);
    assert(out@ =~= crate::rank::at_most(id@, 4));
    out
}

/// The name of a class.
pub fn volatility_label(class: Volatility) -> (r: &'static str)
    ensures
        r@ == crate::mcp::ingest::class_name(class),
{
    match class {
        Volatility::Immutable => "immutable",
        Volatility::Slow => "slow",
        Volatility::Days => "days",
        Volatility::Hours => "hours",
    }
}

/// Whether a ground confirmed when it was last checked.
pub open spec fn confirmed(ground: GroundBinding) -> bool {
    ground.last matches Some(last) && last.outcome is Confirmed
}

/// The place of the ground that confirmed last, the later one of those that did so
/// at the same instant; -1 where none did.
pub open spec fn last_confirming(grounds: Seq<GroundBinding>) -> int
    decreases grounds.len(),
{
    if grounds.len() == 0 {
        -1
    } else {
        let before = last_confirming(grounds.drop_last());
        if confirmed(grounds.last()) && (before < 0 || !grounds[before].last->Some_0.at.later_than(
            &grounds.last().last->Some_0.at,
        )) {
            grounds.len() - 1
        } else {
            before
        }
    }
}

/// The ground that last confirmed the fact, as shown to people.
pub fn confirming_ground(fact: &Fact) -> (r: Option<String>)
    requires
        forall|i: int|
            0 <= i < fact.grounds@.len() ==> crate::mcp::report::ground_is_sound(
                #[trigger] fact.grounds@[i],
            ),
    ensures
        ({
            let at = last_confirming(fact.grounds@);
            if 0 <= at < fact.grounds@.len() {
                crate::text::option_text(r) == Some(
                    crate::locator::ground_text(fact.grounds@[at]),
                )
            } else {
                r is None
            }
        }),
{
    let ghost all = fact.grounds@;
    let mut best: Option<(usize, Timestamp)> = None;
    let mut i: usize = 0;
    assert(all.take(0) =~= Seq::<GroundBinding>::empty());
    while i < fact.grounds.len()
        invariant
            i <= fact.grounds.len(),
            all == fact.grounds@,
            match best {
                Some((at, moment)) => at < i && at == last_confirming(all.take(i as int))
                    && (all[at as int].last matches Some(last) && last.at == moment),
                None => last_confirming(all.take(i as int)) == -1,
            },
        decreases fact.grounds.len() - i,
    {
        proof {
            assert(all.take(i + 1).drop_last() =~= all.take(i as int));
            assert(all.take(i + 1).last() == all[i as int]);
        }
        if let Some(last) = &fact.grounds[i].last {
            if last.outcome == Outcome::Confirmed {
                let newer = match &best {
                    Some((_, moment)) => !moment.after(&last.at),
                    None => true,
                };
                if newer {
                    best = Some((i, last.at));
                }
            }
        }
        i = i + 1;
    }
    assert(all.take(i as int) =~= all);
    match best {
        Some((at, _)) => {
            assert(crate::mcp::report::ground_is_sound(fact.grounds@[at as int]));
            Some(render_ground(&fact.grounds[at]))
        },
        None => None,
    }
}

/// What is said of a fact's groundedness.
pub open spec fn grounded_text(fact: Fact, now: Timestamp) -> Seq<char> {
    let at = last_confirming(fact.grounds@);
    let n = fact.grounds@.len();
    match fact.epistemics.groundedness {
        Groundedness::Ungrounded { .. } => if n == 0 {
            "ungrounded"@
        } else {
            "ungrounded ("@ + crate::text::digits_of(n) + " ground(s) bound, unchecked)"@
        },
        Groundedness::Verified { at: moment, .. } => "verified "@ + (human(seconds_until(moment, now))
            + " ago"@) + " · "@ + (if 0 <= at < fact.grounds@.len() {
            crate::locator::ground_text(fact.grounds@[at])
        } else {
            "existence"@
        }),
        Groundedness::Refuted { at: moment, .. } => "refuted "@ + (human(seconds_until(moment, now))
            + " ago"@),
        Groundedness::Conflicted { verifiers } => "conflicted ("@ + crate::text::digits_of(
            verifiers@.len(),
        ) + " grounds)"@,
    }
}

/// Says a fact's groundedness.
pub fn grounded_line(fact: &Fact, now: Timestamp) -> (r: String)
    requires
        now.wf(),
        crate::mcp::report::belief_is_sound(fact.epistemics.groundedness),
        forall|i: int|
            0 <= i < fact.grounds@.len() ==> crate::mcp::report::ground_is_sound(
                #[trigger] fact.grounds@[i],
            ),
    ensures
        r@ == grounded_text(*fact, now),
{
    match &fact.epistemics.groundedness {
        Groundedness::Ungrounded { .. } => {
            if fact.grounds.len() == 0 {
                "ungrounded".to_owned()
            } else {
                "ungrounded (".to_owned().concat(
                    decimal_text(fact.grounds.len() as u128).as_str(),
                ).concat(" ground(s) bound, unchecked)")
            }
        },
        Groundedness::Verified { at, .. } => {
            let ground = match confirming_ground(fact) {
                Some(ground) => ground,
                None => "existence".to_owned(),
            };
            "verified ".to_owned().concat(relative(*at, now).as_str()).concat(" · ").concat(
                ground.as_str(),
            )
        },
        Groundedness::Refuted { at, .. } => "refuted ".to_owned().concat(
            relative(*at, now).as_str(),
        ),
        Groundedness::Conflicted { verifiers } => "conflicted (".to_owned().concat(
            decimal_text(verifiers.len() as u128).as_str(),
        ).concat(" grounds)"),
    }
}

/// What is said of a ground's last check.
pub open spec fn span_text(ground: GroundBinding) -> Seq<char> {
    match ground.last {
        None => "  unchecked"@,
        Some(last) => if last.span_hash@.len() == 0 {
            "  "@ + last.outcome.label_spec()
        } else {
            "  span "@ + crate::schema::byte_prefix(last.span_hash@, 6) + "  "@
                + last.outcome.label_spec()
        },
    }
}

/// Whether a ground can be shown: its source can be rendered, and the hash of its last
/// span can be cut.
pub open spec fn can_show(ground: GroundBinding) -> bool {
    &&& crate::mcp::report::ground_is_sound(ground)
    &&& ground.last matches Some(last) ==> crate::schema::can_cut(last.span_hash@, 6)
}

/// What is said of a ground: its kind, source and predicate, and its last check.
/// `shown` is the number its predicate compares with, as shown to people.
pub open spec fn ground_said(ground: GroundBinding, shown: Seq<char>) -> Seq<char> {
    ground.source.kind_spec() + "  "@ + crate::locator::ground_text(ground) + "  ["@
        + crate::predicate::label_of(crate::predicate::question(ground.predicate), shown) + "]"@
        + span_text(ground)
}

/// What is said of a ground: its kind, source and predicate, and its last check.
/// `shown` is the number its predicate compares with, as shown to people.
pub fn ground_line(ground: &GroundBinding, shown: &str) -> (r: String)
    requires
        can_show(*ground),
    ensures
        r@ == ground_said(*ground, shown@),
{
    let span = match &ground.last {
        None => "  unchecked".to_owned(),
        Some(last) => {
            if last.span_hash.as_str().is_empty() {
                "  ".to_owned().concat(last.outcome.label())
            } else {
                "  span ".to_owned().concat(short_hash(last.span_hash.as_str())).concat(
                    "  ",
                ).concat(last.outcome.label())
            }
        },
    };
    ground.source.kind_label().concat("  ").concat(render_ground(ground).as_str()).concat(
        "  [",
    ).concat(ground.predicate.label(shown).as_str()).concat("]").concat(span.as_str())
}

/// What is said of a ground check: its day, its outcome, and its operation.
pub fn check_line(check: &crate::mcp::report::Check) -> (r: String)
    ensures
        r@ == crate::mcp::report::before_char(check.at@, ' ') + "  -> "@ + check.outcome@
            + "  (op "@ + crate::rank::at_most(check.op@, 4) + ")"@,
{
    let day = match split_first(check.at.as_str(), ' ') {
        Some((day, _)) => day,
        None => check.at.clone(),
    };
    day.concat("  -> ").concat(check.outcome.as_str()).concat("  (op ").concat(
        short_op(check.op.as_str()).as_str(),
    ).concat(")")
}

/// What is said of the log entry of a check: its day, its outcome, and its operation.
pub open spec fn check_said(entry: Operation) -> Seq<char> {
    crate::mcp::report::before_char(entry.time@, ' ') + "  -> "@ + crate::mcp::report::outcome_in(
        entry.description@,
    ) + "  (op "@ + crate::rank::at_most(entry.id@, 4) + ")"@
}

/// What is said of where a fact came from: its value and its ingest, the checks against
/// it, oldest first, its grounds, and whether they disagree. `day` is the day of the
/// ingest and `confidence` that of the ingest, as shown to people.
pub open spec fn why_said(
    fact: Fact,
    key: Seq<char>,
    log: Seq<Operation>,
    day: Seq<char>,
    confidence: Seq<char>,
    shown: Seq<String>,
) -> Seq<Seq<char>> {
    seq![
        key + " = "@ + fact.value.render_spec(),
        "  ingested   "@ + day + " by "@ + fact.provenance.ingested_by@ + "  (confidence "@
            + confidence + ", ungrounded)"@,
    ] + crate::mcp::report::checks_of(log, key).map_values(
        |i: int| "  checked    "@ + check_said(log[log.len() - 1 - i]),
    ) + Seq::new(
        fact.grounds@.len(),
        |i: int| "  ground     "@ + ground_said(fact.grounds@[i], shown[i]@),
    ) + (if fact.epistemics.groundedness is Conflicted {
        seq!["  conflict   independent grounds disagree on the value"@]
    } else {
        Seq::empty()
    })
}

/// Says where a fact came from. `log` is the operation log, newest first; `shown` are
/// the numbers that the predicates of the grounds compare with, as shown to people.
pub fn why_lines(
    fact: &Fact,
    key: &str,
    log: &Vec<Operation>,
    day: &str,
    confidence: &str,
    shown: &Vec<String>,
) -> (r: Vec<String>)
    requires
        shown@.len() == fact.grounds@.len(),
        forall|i: int| 0 <= i < fact.grounds@.len() ==> can_show(#[trigger] fact.grounds@[i]),
    ensures
        crate::text::texts(r@) == why_said(*fact, key@, log@, day@, confidence@, shown@),
{
    let mut out: Vec<String> = Vec::new();
    out.push(key.to_owned().concat(" = ").concat(fact.value.render().as_str()));
    out.push(
        "  ingested   ".to_owned().concat(day).concat(" by ").concat(
            fact.provenance.ingested_by.as_str(),
        ).concat("  (confidence ").concat(confidence).concat(", ungrounded)"),
    );
    let ghost head = crate::text::texts(out@);
    assert(head =~= seq![
        key@ + " = "@ + fact.value.render_spec(),
        "  ingested   "@ + day@ + " by "@ + fact.provenance.ingested_by@ + "  (confidence "@
            + confidence@ + ", ungrounded)"@,
    ]);
    let found = checks(log, key);
    let ghost checked = crate::mcp::report::checks_of(log@, key@).map_values(
        |i: int| "  checked    "@ + check_said(log@[log@.len() - 1 - i]),
    );
    let mut k: usize = 0;
    while k < found.len()
        invariant
            k <= found.len(),
            found@.len() == checked.len(),
            forall|j: int|
                0 <= j < found@.len() ==> "  checked    "@ + (crate::mcp::report::before_char(
                    (#[trigger] found@[j]).at@,
                    ' ',
                ) + "  -> "@ + found@[j].outcome@ + "  (op "@ + crate::rank::at_most(
                    found@[j].op@,
                    4,
                ) + ")"@) == checked[j],
            crate::text::texts(out@) == head + checked.take(k as int),
        decreases found.len() - k,
    {
        let ghost before = crate::text::texts(out@);
        out.push("  checked    ".to_owned().concat(check_line(&found[k]).as_str()));
        assert(crate::text::texts(out@) =~= before.push(checked[k as int]));
        assert(checked.take(k + 1) =~= checked.take(k as int).push(checked[k as int]));
        k = k + 1;
        assert(crate::text::texts(out@) =~= head + checked.take(k as int));
    }
    assert(checked.take(k as int) =~= checked);
    let ghost base = head + checked;
    let ghost grounds = Seq::new(
        fact.grounds@.len(),
        |i: int| "  ground     "@ + ground_said(fact.grounds@[i], shown@[i]@),
    );
    let mut i: usize = 0;
    assert(base + grounds.take(0) =~= base);
    while i < fact.grounds.len()
        invariant
            i <= fact.grounds.len(),
            shown@.len() == fact.grounds@.len(),
            forall|i: int| 0 <= i < fact.grounds@.len() ==> can_show(#[trigger] fact.grounds@[i]),
            grounds == Seq::new(
                fact.grounds@.len(),
                |i: int| "  ground     "@ + ground_said(fact.grounds@[i], shown@[i]@),
            ),
            crate::text::texts(out@) == base + grounds.take(i as int),
        decreases fact.grounds.len() - i,
    {
        let ghost before = crate::text::texts(out@);
        out.push(
            "  ground     ".to_owned().concat(
                ground_line(&fact.grounds[i], shown[i].as_str()).as_str(),
            ),
        );
        assert(crate::text::texts(out@) =~= before.push(grounds[i as int]));
        i = i + 1;
        assert(crate::text::texts(out@) =~= base + grounds.take(i as int));
    }
    assert(grounds.take(i as int) =~= grounds);
    if let Groundedness::Conflicted { .. } = &fact.epistemics.groundedness {
        let ghost before = crate::text::texts(out@);
        out.push("  conflict   independent grounds disagree on the value".to_owned());
        assert(crate::text::texts(out@) =~= before + seq![
            "  conflict   independent grounds disagree on the value"@,
        ]);
    } else {
        assert(crate::text::texts(out@) + Seq::<Seq<char>>::empty() =~= crate::text::texts(out@));
    }
    out
}

/// Says a fact: its value, its confidence and half-life, its groundedness, and when it
/// falls due. `confidence` is the confidence as shown to people.
pub fn recall_lines(fact: &Fact, key: &str, confidence: &str, now: Timestamp) -> (r: Vec<String>)
    requires
        now.wf(),
        fact.schedule.last_verified.wf(),
        crate::mcp::report::belief_is_sound(fact.epistemics.groundedness),
        forall|i: int|
            0 <= i < fact.grounds@.len() ==> crate::mcp::report::ground_is_sound(
                #[trigger] fact.grounds@[i],
            ),
    ensures
        r@.len() == 4,
        r@[0]@ == key@ + " = "@ + fact.value.render_spec(),
        r@[1]@ == "  confidence   "@ + confidence@ + "   half-life="@
            + fact.schedule.half_life.text_spec(),
        r@[2]@ == "  grounded     "@ + grounded_text(*fact, now),
        exists|due: Option<Timestamp>| #[trigger]
            is_due_time(due, *fact) && r@[3]@ == "  due          "@ + due_said(due, now),
{
    let due = due_at(fact);
    assert(is_due_time(due, *fact));
    let due_text = match due {
        Some(moment) => relative_future(moment, now),
        None => "never".to_owned(),
    };
    let mut out: Vec<String> = Vec::new();
    out.push(key.to_owned().concat(" = ").concat(fact.value.render().as_str()));
    out.push(
        "  confidence   ".to_owned().concat(confidence).concat("   half-life=").concat(
            fact.schedule.half_life.to_string().as_str(),
        ),
    );
    out.push("  grounded     ".to_owned().concat(grounded_line(fact, now).as_str()));
    out.push("  due          ".to_owned().concat(due_text.as_str()));
    out
}

/// What is said of when a fact falls due.
pub open spec fn due_said(due: Option<Timestamp>, now: Timestamp) -> Seq<char> {
    match due {
        Some(moment) => if seconds_until(now, moment) == 0 {
            "overdue"@
        } else {
            "in "@ + human(seconds_until(now, moment))
        },
        None => "never"@,
    }
}

/// What is said of a log entry.
pub fn log_line(entry: &Operation) -> (r: String)
    ensures
        r@ == crate::rank::at_most(entry.id@, 4) + "  "@ + entry.time@ + "  "@
            + entry.description@,
{
    short_op(entry.id.as_str()).concat("  ").concat(entry.time.as_str()).concat("  ").concat(
        entry.description.as_str(),
    )
}

/// What is said of a grant; `generator` is shown with the start of its hash.
pub fn grant_line(generator: &str, net: &Vec<String>, read: &Vec<String>) -> (r: String)
    ensures
        r@ == "granted "@ + generator@ + " net=["@ + crate::text::joined(
            crate::text::texts(net@),
            ", "@,
        ) + "] read=["@ + crate::text::joined(crate::text::texts(read@), ", "@) + "]"@,
{
    "granted ".to_owned().concat(generator).concat(" net=[").concat(
        join(net, ", ").as_str(),
    ).concat("] read=[").concat(join(read, ", ").as_str()).concat("]")
}

/// The name of the launch agent of a store.
pub fn launch_label(store_root: &str) -> (r: String)
    ensures
        r@ == "dev.ken."@ + crate::digest::text_hash(store_root@).take(12),
{
    let hash = chars_of(hash_text(store_root).as_str());
    let head = string_of(&hash, 0, 12);
    assert(head@ =~= hash@.take(12));
    "dev.ken.".to_owned().concat(head.as_str())
}

/// The property list of a launch agent: it runs the daemon for a store from login on,
/// and keeps its output in two logs.
pub open spec fn plist_text(
    label: Seq<char>,
    exe: Seq<char>,
    store: Seq<char>,
    logs: Seq<char>,
) -> Seq<char> {
    "<?xml version=\"1.0\" encoding=\"UTF-8\"?>\n<!DOCTYPE plist PUBLIC \"-//Apple//DTD PLIST 1.0//EN\" \"http://www.apple.com/DTDs/PropertyList-1.0.dtd\">\n<plist version=\"1.0\">\n<dict>\n  <key>Label</key><string>"@
        + label
        + "</string>\n  <key>ProgramArguments</key>\n  <array>\n    <string>"@ + exe
        + "</string>\n    <string>serve</string>\n    <string>--store</string>\n    <string>"@
        + store
        + "</string>\n  </array>\n  <key>RunAtLoad</key><true/>\n  <key>KeepAlive</key><true/>\n  <key>StandardOutPath</key><string>"@
        + logs + "/"@ + label + ".log</string>\n  <key>StandardErrorPath</key><string>"@ + logs + "/"@
        + label + ".err.log</string>\n</dict>\n</plist>\n"@
}

/// Writes the property list of a launch agent.
pub fn launch_plist(label: &str, exe: &str, store: &str, logs: &str) -> (r: String)
    ensures
        r@ == plist_text(label@, exe@, store@, logs@),
{
    let head = "<?xml version=\"1.0\" encoding=\"UTF-8\"?>\n<!DOCTYPE plist PUBLIC \"-//Apple//DTD PLIST 1.0//EN\" \"http://www.apple.com/DTDs/PropertyList-1.0.dtd\">\n<plist version=\"1.0\">\n<dict>\n  <key>Label</key><string>";
    let program = "</string>\n  <key>ProgramArguments</key>\n  <array>\n    <string>";
    let arguments = "</string>\n    <string>serve</string>\n    <string>--store</string>\n    <string>";
    let output = "</string>\n  </array>\n  <key>RunAtLoad</key><true/>\n  <key>KeepAlive</key><true/>\n  <key>StandardOutPath</key><string>";
    let errors = ".log</string>\n  <key>StandardErrorPath</key><string>";
    let end = ".err.log</string>\n</dict>\n</plist>\n";
    head.to_owned().concat(label).concat(program).concat(exe).concat(arguments).concat(
        store,
    ).concat(output).concat(logs).concat("/").concat(label).concat(errors).concat(logs).concat(
        "/",
    ).concat(label).concat(end)
}

} // verus!
