//! What agents may write: an ingest, and nothing else.

use crate::config::Config;
use crate::duration::HalfLife;
use crate::error::Error;
use crate::json::Json;
use crate::locator::parse_source;
use crate::number::Real;
use crate::predicate::Predicate;
use crate::resolve::{ground_source_for, handler_module};
use crate::schema::{Claim, FactValue, GroundBinding, TriageSource, Volatility};
use crate::write::WriteOp;
use vstd::prelude::*;

verus! {

/// The server of the data plane, over the store at a path.
#[derive(Debug, Clone, PartialEq, Eq)]
pub struct JishukenServer {
    pub store_path: String,
}

/// What to remember.
#[derive(Debug, Clone, PartialEq)]
pub struct IngestParams {
    /// `entity.relation`
    pub key: String,
    pub value: String,
    /// One of: immutable, slow, days, hours. The configured half-life where none is
    /// given.
    pub volatility: Option<String>,
    pub meta_confidence: Option<Real>,
    /// Where this should be checked, e.g. `src/auth/verify.rs` or
    /// `wiki:Architecture.md#authentication`. A hint only: the fact stays
    /// `ungrounded` until the control plane checks it.
    pub ground: Option<String>,
}

/// The name of a class.
pub open spec fn class_name(class: Volatility) -> Seq<char> {
    match class {
        Volatility::Immutable => "immutable"@,
        Volatility::Slow => "slow"@,
        Volatility::Days => "days"@,
        Volatility::Hours => "hours"@,
    }
}

/// The class of what is remembered: days, where its name is unknown.
pub open spec fn class_of(name: Seq<char>) -> Volatility {
    match Volatility::named(name) {
        Some(class) => class,
        None => Volatility::Days,
    }
}

/// Whether a half-life is that of what is remembered: its class's, or the configured
/// one where no class is given.
pub open spec fn is_half_life_of(
    half_life: HalfLife,
    volatility: Option<String>,
    config: Config,
) -> bool {
    match volatility {
        Some(name) => config.is_class_half_life(Ok(half_life), class_name(class_of(name@))),
        None => half_life == config.decay.default_half_life,
    }
}

/// The triage of what is remembered: an LLM's, where it gives its confidence.
pub open spec fn triage_of(meta_confidence: Option<Real>) -> TriageSource {
    match meta_confidence {
        Some(meta_confidence) => TriageSource::Llm { meta_confidence },
        None => TriageSource::Ingest,
    }
}

/// The handler module that a hint needs; `None` where it needs none.
pub open spec fn needed_module(config: Config, ground: Option<String>) -> Option<Seq<char>> {
    match ground {
        Some(text) => match crate::locator::source_reading(text@, None) {
            Ok((reference, _)) => crate::resolve::module_of(config, reference.root),
            Err(_) => None,
        },
        None => None,
    }
}

/// Whether a draft ground is what a hint stands for: its source and locator, to be
/// judged by existence, never checked.
pub open spec fn is_draft(
    draft: Option<GroundBinding>,
    config: Config,
    reference: crate::locator::Reference,
    place: crate::locator::Place,
    module: Option<String>,
) -> bool {
    &&& draft matches Some(binding)
    &&& exists|src: crate::schema::SourceRef| #[trigger]
        src@ == reference && crate::resolve::is_ground_source(binding.source, config, src, module)
    &&& binding.locator@ == place
    &&& binding.predicate is Exists
    &&& binding.last is None
}

/// Whether an operation ingests what is to be remembered.
pub open spec fn ingests(
    op: WriteOp,
    params: IngestParams,
    config: Config,
    module: Option<String>,
) -> bool {
    &&& op matches WriteOp::Ingest { claim, value, triage, half_life, draft_ground }
    &&& Claim::key_parts(params.key@) == Some((claim.entity.0@, claim.relation@))
    &&& claim.nl is None
    &&& value matches FactValue::Scalar { value: json } && json.text@ == crate::json::json_quoted(
        params.value@,
    )
    &&& value.render_spec() == params.value@
    &&& triage == triage_of(params.meta_confidence)
    &&& is_half_life_of(half_life, params.volatility, config)
    &&& match params.ground {
        Some(text) => {
            let (reference, place) = crate::locator::source_reading(text@, None)->Ok_0;
            is_draft(draft_ground, config, reference, place, module)
        },
        None => draft_ground is None,
    }
}

/// The handler module to read before a hint can be kept; `None` where none is needed.
pub fn module_for(config: &Config, ground: &Option<String>) -> (r: Option<String>)
    ensures
        crate::text::option_text(r) == needed_module(*config, *ground),
{
    match ground {
        Some(text) => match parse_source(text.as_str(), None) {
            Ok((src, _)) => handler_module(config, &src),
            Err(_) => None,
        },
        None => None,
    }
}

/// Makes the draft ground that a hint stands for: a binding with the default
/// existence predicate. Naming a source is not grounding against it.
pub(crate) fn draft(ground: &Option<String>, config: &Config, module: Option<String>) -> (r: Result<
    Option<GroundBinding>,
    Error,
>)
    requires
        needed_module(*config, *ground) is Some ==> module is Some,
    ensures
        match *ground {
            Some(text) => match crate::locator::source_reading(text@, None) {
                Err(fault) => crate::error::is_config(r, fault),
                Ok((reference, place)) => r matches Ok(binding) && is_draft(
                    binding,
                    *config,
                    reference,
                    place,
                    module,
                ),
            },
            None => r == Ok::<Option<GroundBinding>, Error>(None),
        },
{
    match ground {
        Some(text) => {
            let (src, locator) = match parse_source(text.as_str(), None) {
                Ok(pair) => pair,
                Err(error) => {
                    return Err(error);
                },
            };
            let source = ground_source_for(config, src, module);
            assert(src@ == crate::locator::source_reading(text@, None)->Ok_0.0);
            Ok(Some(GroundBinding { source, locator, predicate: Predicate::Exists, last: None }))
        },
        None => Ok(None),
    }
}

/// The triage of what is remembered: an LLM's, where it gives its confidence.
pub(crate) fn triage(meta_confidence: Option<Real>) -> (r: TriageSource)
    ensures
        r == triage_of(meta_confidence),
{
    match meta_confidence {
        Some(meta_confidence) => TriageSource::Llm { meta_confidence },
        None => TriageSource::Ingest,
    }
}

impl JishukenServer {
    /// The handler module to read before a hint can be kept; `None` where none is
    /// needed.
    pub fn needed(config: &Config, params: &IngestParams) -> (r: Option<String>)
        ensures
            crate::text::option_text(r) == needed_module(*config, params.ground),
    {
        module_for(config, &params.ground)
    }

    /// Makes the single operation that untrusted callers can construct. `module` is
    /// the source of the handler module that the hint needs. The error is for a
    /// person.
    pub fn ken_ingest(params: IngestParams, config: &Config, module: Option<String>) -> (r: Result<
        WriteOp,
        String,
    >)
        requires
            needed_module(*config, params.ground) is Some ==> module is Some,
        ensures
            match Claim::key_parts(params.key@) {
                None => r matches Err(e) && e@ == "key must be of the form `entity.relation`"@,
                Some(_) => match params.ground {
                    Some(text) => match crate::locator::source_reading(text@, None) {
                        Err(fault) => r matches Err(e) && e@ == "config error: "@ + fault,
                        Ok(_) => r matches Ok(op) && ingests(op, params, *config, module),
                    },
                    None => r matches Ok(op) && ingests(op, params, *config, module),
                },
            },
    {
        let claim = match Claim::parse_key(params.key.as_str()) {
            Ok(claim) => claim,
            Err(error) => {
                return Err(error.to_string());
            },
        };
        let half_life = half_life_of(config, &params.volatility);
        let draft_ground = match draft(&params.ground, config, module) {
            Ok(draft_ground) => draft_ground,
            Err(error) => {
                return Err(error.to_string());
            },
        };
        let value = FactValue::Scalar { value: Json::of_string(params.value.as_str()) };
        Ok(WriteOp::ingest(claim, value, triage(params.meta_confidence), half_life, draft_ground))
    }
}

fn half_life_of(config: &Config, volatility: &Option<String>) -> (r: HalfLife)
    ensures
        is_half_life_of(r, *volatility, *config),
{
    match volatility {
        Some(name) => {
            let class = match Volatility::parse(name.as_str()) {
                Ok(class) => class,
                Err(_) => Volatility::Days,
            };
            class_half_life(config, class)
        },
        None => config.decay.default_half_life,
    }
}

/// The half-life of a class.
pub(crate) fn class_half_life(config: &Config, class: Volatility) -> (r: HalfLife)
    ensures
        config.is_class_half_life(Ok(r), class_name(class)),
{
    let name = match class {
        Volatility::Immutable => "immutable",
        Volatility::Slow => "slow",
        Volatility::Days => "days",
        Volatility::Hours => "hours",
    };
    match config.legacy_half_life(name) {
        Ok(half_life) => half_life,
        Err(_) => {
            assert(false);
            HalfLife::Never
        },
    }
}

} // verus!
