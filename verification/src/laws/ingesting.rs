//! What is remembered with a class, and for how long.

use crate::cli::{AddParams, NoValue};
use crate::config::Config;
use crate::duration::HalfLife;
use crate::mcp::ingest::IngestParams;
use crate::schema::{FactValue, TriageSource, Volatility};
use crate::time::Timestamp;
use crate::write::WriteOp;
use vstd::prelude::*;

verus! {

/// What a class is called.
pub open spec fn called(class: Volatility) -> Seq<char> {
    match class {
        Volatility::Immutable => "immutable"@,
        Volatility::Slow => "slow"@,
        Volatility::Days => "days"@,
        Volatility::Hours => "hours"@,
    }
}

/// Whether a half-life is the one of a class for which none is written: forever, ninety
/// days, three days, or six hours.
pub open spec fn lasts(half_life: HalfLife, class: Volatility) -> bool {
    match class {
        Volatility::Immutable => half_life is Never,
        Volatility::Slow => half_life matches HalfLife::After(d) && d@.months == 0 && d@.nanos
            == 7_776_000_000_000_000,
        Volatility::Days => half_life matches HalfLife::After(d) && d@.months == 0 && d@.nanos
            == 259_200_000_000_000,
        Volatility::Hours => half_life matches HalfLife::After(d) && d@.months == 0 && d@.nanos
            == 21_600_000_000_000,
    }
}

/// Whether a configuration maps a class.
pub open spec fn maps(config: Config, class: Volatility) -> bool {
    exists|i: int|
        0 <= i < config.volatility@.len() && (#[trigger] config.volatility@[i]).0@ == called(class)
}

proof fn lemma_no_entry(entries: Seq<(String, HalfLife)>, name: Seq<char>)
    requires
        forall|i: int| 0 <= i < entries.len() ==> (#[trigger] entries[i]).0@ != name,
    ensures
        crate::config::class_entry(entries, name) is None,
    decreases entries.len(),
{
    if entries.len() > 0 {
        let rest = entries.skip(1);
        assert forall|i: int| 0 <= i < rest.len() implies (#[trigger] rest[i]).0@ != name by {
            assert(rest[i] == entries[i + 1]);
        }
        lemma_no_entry(rest, name);
    }
}

proof fn lemma_names_differ()
    ensures
        "immutable"@ != "slow"@,
        "immutable"@ != "days"@,
        "immutable"@ != "hours"@,
        "slow"@ != "days"@,
        "slow"@ != "hours"@,
        "days"@ != "hours"@,
        forall|class: Volatility| #[trigger]
            crate::text::small_text(called(class)) == called(class),
{
    reveal_strlit("immutable");
    reveal_strlit("slow");
    reveal_strlit("days");
    reveal_strlit("hours");
    assert("immutable"@.len() == 9 && "hours"@.len() == 5);
    assert("slow"@[0] == 's' && "days"@[0] == 'd');
    assert forall|class: Volatility| #[trigger]
        crate::text::small_text(called(class)) == called(class) by {
        assert(crate::text::small_text(called(class)) =~= called(class));
    }
}

/// The name of a class is read back as that class, in any case of letters; no other text
/// is; and no two classes share a name.
pub proof fn law_class_names(class: Volatility, other: Volatility, s: Seq<char>)
    ensures
        crate::mcp::ingest::class_name(class) == called(class),
        Volatility::named(crate::mcp::ingest::class_name(class)) == Some(class),
        Volatility::named(s) == Some(class) <==> super::text::same_letters(s, called(class)),
        crate::mcp::ingest::class_name(class) == crate::mcp::ingest::class_name(other) ==> class
            == other,
{
    lemma_names_differ();
    super::text::law_small_letters(s, called(class));
    super::text::law_small_letters(called(class), called(class));
}

/// The half-life of a class: what is written for it, or its own.
proof fn lemma_class_half_life(config: Config, half_life: HalfLife, class: Volatility, i: int)
    requires
        config.is_class_half_life(Ok(half_life), crate::mcp::ingest::class_name(class)),
    ensures
        !maps(config, class) ==> lasts(half_life, class),
        config.wf() && 0 <= i < config.volatility@.len() && config.volatility@[i].0@ == called(
            class,
        ) ==> half_life == config.volatility@[i].1,
{
    lemma_names_differ();
    if !maps(config, class) {
        assert forall|k: int| 0 <= k < config.volatility@.len() implies (
        #[trigger] config.volatility@[k]).0@ != called(class) by {}
        lemma_no_entry(config.volatility@, called(class));
    }
    if config.wf() && 0 <= i < config.volatility@.len() && config.volatility@[i].0@ == called(
        class,
    ) {
        crate::config::law_each_class_counts(config.volatility@, i);
    }
}

/// What an agent remembers under a class that the configuration does not map lasts as
/// long as the class does; under one that it maps, as long as is written for it. The name
/// of the class may be in any case. A name of no class is that of days. Without a name it
/// lasts as long as is configured.
pub proof fn law_agents_remember_by_class(
    op: WriteOp,
    params: IngestParams,
    config: Config,
    module: Option<String>,
    class: Volatility,
    i: int,
)
    requires
        crate::mcp::ingest::ingests(op, params, config, module),
    ensures
        op is Ingest,
        params.volatility matches Some(name) && super::text::same_letters(name@, called(class))
            && !maps(config, class) ==> lasts(op->Ingest_half_life, class),
        params.volatility matches Some(name) && super::text::same_letters(name@, called(class))
            && config.wf() && 0 <= i < config.volatility@.len() && config.volatility@[i].0@
            == called(class) ==> op->Ingest_half_life == config.volatility@[i].1,
        params.volatility matches Some(name) && (forall|c: Volatility|
            !super::text::same_letters(name@, #[trigger] called(c))) && !maps(
            config,
            Volatility::Days,
        ) ==> lasts(op->Ingest_half_life, Volatility::Days),
        params.volatility is None ==> op->Ingest_half_life == config.decay.default_half_life,
{
    if let Some(name) = params.volatility {
        let known = crate::mcp::ingest::class_of(name@);
        law_class_names(class, class, name@);
        lemma_class_half_life(config, op->Ingest_half_life, known, i);
        if forall|c: Volatility| !super::text::same_letters(name@, #[trigger] called(c)) {
            if let Some(c) = Volatility::named(name@) {
                law_class_names(c, c, name@);
                assert(super::text::same_letters(name@, called(c)));
            }
        }
    }
}

/// What is added on the command line lasts as long as is asked for; else as long as its
/// class, or as is written for it; else as long as is configured.
pub proof fn law_people_add_by_class(
    op: WriteOp,
    added: FactValue,
    params: AddParams,
    config: Config,
    module: Option<String>,
    class: Volatility,
    i: int,
)
    requires
        crate::cli::ingests_value(op, added, params, config, module),
    ensures
        op is Ingest,
        params.half_life matches Some(asked) ==> op->Ingest_half_life == asked,
        params.half_life is None && params.volatility == Some(class) && !maps(config, class)
            ==> lasts(op->Ingest_half_life, class),
        params.half_life is None && params.volatility == Some(class) && config.wf() && 0 <= i
            < config.volatility@.len() && config.volatility@[i].0@ == called(class)
            ==> op->Ingest_half_life == config.volatility@[i].1,
        params.half_life is None && params.volatility is None ==> op->Ingest_half_life
            == config.decay.default_half_life,
{
    if params.half_life is None && params.volatility == Some(class) {
        lemma_class_half_life(config, op->Ingest_half_life, class, i);
    }
}

/// An old fact is read by the same classes, and by no other.
pub proof fn law_old_facts_last_by_class(
    config: Config,
    r: Result<HalfLife, crate::error::Error>,
    name: Seq<char>,
    class: Volatility,
)
    requires
        config.is_class_half_life(r, name),
    ensures
        name == called(class) ==> r is Ok && (!maps(config, class) ==> lasts(r->Ok_0, class)),
        (forall|c: Volatility| name != #[trigger] called(c)) ==> r is Err,
{
    lemma_names_differ();
    law_class_names(class, class, name);
    if name == called(class) {
        assert(r is Ok);
        lemma_class_half_life(config, r->Ok_0, class, 0);
    }
    if forall|c: Volatility| name != #[trigger] called(c) {
        assert(name != called(Volatility::Immutable));
        assert(name != called(Volatility::Slow));
        assert(name != called(Volatility::Days));
        assert(name != called(Volatility::Hours));
    }
}

/// What is remembered is the value given, under the key given, without a claim in words,
/// and never grounded: the source is at most a hint, to be judged by existence and not
/// yet checked. A confidence that comes with it is kept as an LLM's.
pub proof fn law_remembering_is_not_grounding(
    op: WriteOp,
    params: IngestParams,
    config: Config,
    module: Option<String>,
)
    requires
        crate::mcp::ingest::ingests(op, params, config, module),
    ensures
        op is Ingest,
        op->Ingest_value.render_spec() == params.value@,
        op->Ingest_claim.nl is None,
        params.meta_confidence matches Some(c) ==> op->Ingest_triage == (TriageSource::Llm {
            meta_confidence: c,
        }),
        params.meta_confidence is None ==> op->Ingest_triage is Ingest,
        params.ground is None <==> op->Ingest_draft_ground is None,
        op->Ingest_draft_ground matches Some(binding) ==> binding.last is None
            && binding.predicate is Exists,
{
}

/// What a file holds is added before what is given: an array of JSON as a set, seen now
/// and believed by no one yet, and any other JSON as the one value it is. A text that is
/// given is added as that text. Without either there is nothing to add.
pub proof fn law_files_are_added_first(
    r: Result<FactValue, NoValue>,
    json: Option<String>,
    value: Option<String>,
    now: Timestamp,
    i: int,
)
    requires
        crate::cli::is_value(r, json, value, now),
    ensures
        json is None && value is None ==> r == Err::<FactValue, NoValue>(NoValue::Missing),
        json is None && value is Some ==> r is Ok && r->Ok_0.render_spec() == value->Some_0@,
        json is Some && crate::json::json_elements(json->Some_0@) is Some ==> {
            let items = crate::json::json_elements(json->Some_0@)->Some_0;
            &&& r matches Ok(FactValue::Elements { elements })
            &&& elements@.len() == items.len()
            &&& 0 <= i < items.len() ==> elements@[i].value.text@ == items[i] && elements@[i].seen
                == now && elements@[i].confidence is None && elements@[i].conflict is None
        },
        json is Some && crate::json::json_elements(json->Some_0@) is None
            && crate::json::json_document(json->Some_0@) is Some ==> (r matches Ok(
            FactValue::Scalar { value: held },
        ) && held.text@ == crate::json::json_document(json->Some_0@)->Some_0),
        json is Some && crate::json::json_elements(json->Some_0@) is None
            && crate::json::json_document(json->Some_0@) is None ==> r == Err::<
            FactValue,
            NoValue,
        >(NoValue::NotJson),
{
}

} // verus!
