//! The settings of a store (`ken.toml`), as the library reads them.

use crate::duration::{Duration, FixedDuration, HalfLife};
use crate::error::Error;
use crate::number::Real;
use crate::schema::{Capabilities, SourceRoot, Volatility};
use crate::text::same;
use crate::time::Elapsed;
use vstd::prelude::*;

verus! {

/// The bits of 0.02.
pub const DEFAULT_EPSILON: u64 = 0x3f94_7ae1_47ae_147b;

#[derive(Debug, Clone, PartialEq)]
pub struct Config {
    pub budget: Budget,
    pub decay: Decay,
    /// Old class mappings, by class; each class stands once.
    pub volatility: Vec<(String, HalfLife)>,
    pub sandbox: Sandbox,
    pub daemon: Daemon,
    pub command: CommandCfg,
    /// Named external source roots, read through their own VCS; each name stands
    /// once.
    pub sources: Vec<(String, SourceRootCfg)>,
}

/// Allowlist for `Command` ground sources: only these programs (`argv[0]`) may
/// run. Empty = no command sources permitted.
#[derive(Debug, Clone, PartialEq)]
pub struct CommandCfg {
    pub allow: Vec<String>,
}

impl Default for CommandCfg {
    fn default() -> (r: Self)
        ensures
            r.allow@.len() == 0,
    {
        CommandCfg { allow: Vec::new() }
    }
}

impl CommandCfg {
    /// Whether a program is on the list.
    pub open spec fn listed(&self, program: Seq<char>) -> bool {
        exists|i: int| 0 <= i < self.allow@.len() && (#[trigger] self.allow@[i])@ == program
    }

    /// Whether a program may run.
    pub fn allows(&self, program: &str) -> (r: bool)
        ensures
            r == self.listed(program@),
    {
        let mut i: usize = 0;
        while i < self.allow.len()
            invariant
                i <= self.allow.len(),
                forall|k: int| 0 <= k < i ==> (#[trigger] self.allow@[k])@ != program@,
            decreases self.allow.len() - i,
        {
            if same(self.allow[i].as_str(), program) {
                return true;
            }
            i = i + 1;
        }
        false
    }
}

/// Which VCS a source root is read through, when a revision is pinned.
#[derive(Debug, Clone, Copy, PartialEq, Eq, Structural)]
pub enum Vcs {
    Git,
    Jj,
}

impl Default for Vcs {
    fn default() -> (r: Self)
        ensures
            r == Vcs::Git,
    {
        Vcs::Git
    }
}

/// The VCS backing a directory (for pinned-revision reads), by whether the
/// directory holds a `.jj/`. `Git` otherwise; a revision read then fails with a
/// clear VCS error rather than silently succeeding.
pub fn detect_vcs(has_jj: bool) -> (r: Vcs)
    ensures
        r == if has_jj {
            Vcs::Jj
        } else {
            Vcs::Git
        },
{
    if has_jj {
        Vcs::Jj
    } else {
        Vcs::Git
    }
}

/// A named source mount.
/// Either repo-backed (`repo`, read through its VCS) or handler-backed
/// (`handler`, a sandboxed Deno module that resolves a reference to bytes).
/// The two are mutually exclusive: a CURIE prefix is one mount, resolved one
/// way.
#[derive(Debug, Clone, PartialEq)]
pub struct SourceRootCfg {
    /// Path to the repo, relative to the store root (e.g. `../wiki`).
    pub repo: Option<String>,
    pub vcs: Vcs,
    /// Path to a Deno handler module, relative to the store root (e.g.
    /// `handlers/wiki.ts`). Present iff this mount is handler-backed.
    pub handler: Option<String>,
    pub net: Vec<String>,
    pub read: Vec<String>,
    pub env: Vec<String>,
}

impl Default for SourceRootCfg {
    fn default() -> (r: Self)
        ensures
            r.repo is None,
            r.vcs == Vcs::Git,
            r.handler is None,
            r.net@.len() == 0,
            r.read@.len() == 0,
            r.env@.len() == 0,
    {
        SourceRootCfg {
            repo: None,
            vcs: Vcs::Git,
            handler: None,
            net: Vec::new(),
            read: Vec::new(),
            env: Vec::new(),
        }
    }
}

impl SourceRootCfg {
    /// The capabilities a handler-backed mount is entitled to, folded into the
    /// handler's content hash.
    pub fn caps(&self) -> (r: Capabilities)
        ensures
            r.net@ == self.net@,
            r.read@ == self.read@,
            r.env@ == self.env@,
    {
        Capabilities {
            net: crate::text::copy_all(&self.net),
            read: crate::text::copy_all(&self.read),
            env: crate::text::copy_all(&self.env),
        }
    }
}

#[derive(Debug, Clone, Copy, PartialEq, Eq)]
pub struct Daemon {
    /// Scheduler tick interval.
    pub interval: FixedDuration,
}

impl Daemon {
    /// The time between two ticks.
    pub fn interval_secs(&self) -> (r: Elapsed)
        ensures
            r.wf(),
            r.total() == self.interval@,
    {
        self.interval.elapsed()
    }
}

impl Default for Daemon {
    fn default() -> (r: Self)
        ensures
            r.interval@ == 60 * crate::duration::SECOND,
    {
        Daemon { interval: FixedDuration::of_seconds(60) }
    }
}

#[derive(Debug, Clone, Copy, PartialEq, Eq)]
pub struct Budget {
    /// Max verifier runs per scheduler tick.
    pub per_tick: usize,
    /// Base audit rate, scaled up by a fact's centrality.
    pub epsilon: Real,
    /// Max exploration-floor audits per tick, on top of `per_tick`.
    pub audit_per_tick: usize,
    /// Max concurrent ground reads in a tick's read phase. `1` is serial.
    pub concurrency: usize,
}

/// Audits per tick where none are set.
pub fn default_audit_per_tick() -> (r: usize)
    ensures
        r == 5,
{
    5
}

/// Concurrent reads where none are set.
pub fn default_concurrency() -> (r: usize)
    ensures
        r == 1,
{
    1
}

impl Default for Budget {
    fn default() -> (r: Self)
        ensures
            r.per_tick == 20,
            r.epsilon.bits == DEFAULT_EPSILON,
            r.audit_per_tick == 5,
            r.concurrency == 1,
    {
        Budget {
            per_tick: 20,
            epsilon: Real { bits: DEFAULT_EPSILON },
            audit_per_tick: default_audit_per_tick(),
            concurrency: default_concurrency(),
        }
    }
}

#[derive(Debug, Clone, Copy, PartialEq, Eq)]
pub struct Decay {
    /// Applied at ingest when no half-life is supplied; saved with the fact.
    pub default_half_life: HalfLife,
}

impl Default for Decay {
    fn default() -> (r: Self)
        ensures
            r.default_half_life matches HalfLife::After(d) && d@ == (crate::duration::Span {
                months: 0,
                nanos: 3 * crate::duration::DAY as nat,
            }),
    {
        Decay { default_half_life: HalfLife::default() }
    }
}

#[derive(Debug, Clone, PartialEq)]
pub struct Sandbox {
    pub runtime: String,
    pub timeout: FixedDuration,
    pub default_caps: Vec<String>,
}

impl Sandbox {
    /// How long a generator may run.
    pub fn timeout_secs(&self) -> (r: Elapsed)
        ensures
            r.wf(),
            r.total() == self.timeout@,
    {
        self.timeout.elapsed()
    }
}

impl Default for Sandbox {
    fn default() -> (r: Self)
        ensures
            r.runtime@ == "deno"@,
            r.timeout@ == 10 * crate::duration::SECOND,
            r.default_caps@.len() == 0,
    {
        Sandbox {
            runtime: "deno".to_owned(),
            timeout: FixedDuration::of_seconds(10),
            default_caps: Vec::new(),
        }
    }
}

impl Default for Config {
    fn default() -> (r: Self)
        ensures
            r.wf(),
            r.volatility@.len() == 0,
            r.sources@.len() == 0,
            r.command.allow@.len() == 0,
            r.budget.per_tick == 20,
            r.budget.audit_per_tick == 5,
            r.budget.concurrency == 1,
            r.budget.epsilon.bits == DEFAULT_EPSILON,
            r.sandbox.runtime@ == "deno"@,
            r.sandbox.timeout@ == 10 * crate::duration::SECOND,
            r.daemon.interval@ == 60 * crate::duration::SECOND,
            r.decay.default_half_life matches HalfLife::After(d) && d@ == (crate::duration::Span {
                months: 0,
                nanos: 3 * crate::duration::DAY as nat,
            }),
    {
        Config {
            budget: Budget::default(),
            decay: Decay::default(),
            volatility: Vec::new(),
            sandbox: Sandbox::default(),
            daemon: Daemon::default(),
            command: CommandCfg::default(),
            sources: Vec::new(),
        }
    }
}

/// How long a class of claims takes to go half stale, as written in old
/// configurations; `never` means it does not.
#[derive(Debug, Clone, PartialEq)]
pub struct VolatilityMap {
    pub immutable: String,
    pub slow: String,
    pub days: String,
    pub hours: String,
}

impl Default for VolatilityMap {
    fn default() -> (r: Self)
        ensures
            r.immutable@ == "never"@,
            r.slow@ == "90d"@,
            r.days@ == "3d"@,
            r.hours@ == "6h"@,
    {
        VolatilityMap {
            immutable: "never".to_owned(),
            slow: "90d".to_owned(),
            days: "3d".to_owned(),
            hours: "6h".to_owned(),
        }
    }
}

impl VolatilityMap {
    /// What is written for a class.
    pub open spec fn written(&self, class: Volatility) -> Seq<char> {
        match class {
            Volatility::Immutable => self.immutable@,
            Volatility::Slow => self.slow@,
            Volatility::Days => self.days@,
            Volatility::Hours => self.hours@,
        }
    }

    /// Half-life for a class; `None` means it never decays.
    pub fn half_life_secs(&self, class: Volatility) -> (r: Option<Elapsed>)
        ensures
            match fixed_nanos(self.written(class)) {
                Some(nanos) => r matches Some(time) && time.wf() && time.total() == nanos,
                None => r is None,
            },
    {
        match class {
            Volatility::Immutable => parse_duration_secs(self.immutable.as_str()),
            Volatility::Slow => parse_duration_secs(self.slow.as_str()),
            Volatility::Days => parse_duration_secs(self.days.as_str()),
            Volatility::Hours => parse_duration_secs(self.hours.as_str()),
        }
    }
}

/// The nanoseconds that a text gives as elapsed time; `None` where it is no
/// duration, or one in calendar years and months.
pub open spec fn fixed_nanos(s: Seq<char>) -> Option<nat> {
    match crate::duration::reading(s) {
        Ok(span) => if span.months == 0 {
            Some(span.nanos)
        } else {
            None
        },
        Err(_) => None,
    }
}

/// Parses a positive elapsed duration, including ISO 8601 and shorthand.
/// Returns `None` for invalid input or calendar years and months.
pub fn parse_duration_secs(s: &str) -> (r: Option<Elapsed>)
    ensures
        match fixed_nanos(s@) {
            Some(nanos) => r matches Some(time) && time.wf() && time.total() == nanos,
            None => r is None,
        },
{
    match FixedDuration::parse(s) {
        Ok(duration) => Some(duration.elapsed()),
        Err(_) => None,
    }
}

/// Why a text is no elapsed time.
pub open spec fn fixed_fault(s: Seq<char>) -> crate::duration::ParseDurationError {
    match crate::duration::reading(s) {
        Ok(_) => crate::duration::ParseDurationError(crate::duration::Fault::Unanchored),
        Err(fault) => crate::duration::ParseDurationError(fault),
    }
}

/// Parses a positive elapsed duration. Fails for invalid input, or years and
/// months without an anchor.
pub fn require_duration(s: &str) -> (r: Result<Elapsed, Error>)
    ensures
        match fixed_nanos(s@) {
            Some(nanos) => r matches Ok(time) && time.wf() && time.total() == nanos,
            None => crate::error::is_config(
                r,
                "bad duration `"@ + s@ + "`: "@ + fixed_fault(s@).message_spec(),
            ),
        },
{
    match FixedDuration::parse(s) {
        Ok(duration) => Ok(duration.elapsed()),
        Err(error) => {
            let mut text = "bad duration `".to_owned();
            text.append(s);
            text.append("`: ");
            text.append(error.to_string().as_str());
            Err(Error::Config(text))
        },
    }
}

/// Where a source root lies.
#[derive(Debug, Clone, PartialEq, Eq)]
pub enum RootPath {
    /// The parent of the store.
    Parent,
    /// The store.
    Store,
    /// A path relative to the store.
    Below(String),
}

/// The place of a name in a list of sources.
pub open spec fn source_at(sources: Seq<(String, SourceRootCfg)>, name: Seq<char>) -> int
    decreases sources.len(),
{
    if sources.len() == 0 || sources[0].0@ == name {
        0
    } else {
        1 + source_at(sources.skip(1), name)
    }
}

/// The half-life written for a class, where there is one.
pub open spec fn class_entry(entries: Seq<(String, HalfLife)>, name: Seq<char>) -> Option<HalfLife>
    decreases entries.len(),
{
    if entries.len() == 0 {
        None
    } else if entries[0].0@ == name {
        Some(entries[0].1)
    } else {
        class_entry(entries.skip(1), name)
    }
}

/// The half-life of a class where none is written, in days and hours.
pub open spec fn class_default(name: Seq<char>) -> Option<Option<nat>> {
    if name == "immutable"@ {
        Some(None)
    } else if name == "slow"@ {
        Some(Some(90 * crate::duration::DAY as nat))
    } else if name == "days"@ {
        Some(Some(3 * crate::duration::DAY as nat))
    } else if name == "hours"@ {
        Some(Some(6 * crate::duration::HOUR as nat))
    } else {
        None
    }
}

/// Whether no key of a list stands twice.
pub open spec fn keys_differ<T>(entries: Seq<(String, T)>) -> bool {
    forall|i: int, j: int|
        0 <= i < j < entries.len() ==> (#[trigger] entries[i]).0@ != (#[trigger] entries[j]).0@
}

/// The mapping written for a class is the one that counts for it.
pub proof fn law_each_class_counts(entries: Seq<(String, HalfLife)>, i: int)
    requires
        keys_differ(entries),
        0 <= i < entries.len(),
    ensures
        class_entry(entries, entries[i].0@) == Some(entries[i].1),
    decreases i,
{
    if i > 0 {
        let rest = entries.skip(1);
        assert(entries[0].0@ != entries[i].0@);
        assert(rest[i - 1] == entries[i]);
        assert forall|k: int, l: int| 0 <= k < l < rest.len() implies (#[trigger] rest[k]).0@ != (
        #[trigger] rest[l]).0@ by {
            assert(rest[k] == entries[k + 1] && rest[l] == entries[l + 1]);
        }
        law_each_class_counts(rest, i - 1);
    }
}

proof fn lemma_source_at(sources: Seq<(String, SourceRootCfg)>, i: int)
    requires
        keys_differ(sources),
        0 <= i < sources.len(),
    ensures
        source_at(sources, sources[i].0@) == i,
    decreases i,
{
    if i > 0 {
        let rest = sources.skip(1);
        assert(sources[0].0@ != sources[i].0@);
        assert(rest[i - 1] == sources[i]);
        assert forall|k: int, l: int| 0 <= k < l < rest.len() implies (#[trigger] rest[k]).0@ != (
        #[trigger] rest[l]).0@ by {
            assert(rest[k] == sources[k + 1] && rest[l] == sources[l + 1]);
        }
        lemma_source_at(rest, i - 1);
    }
}

/// Each mount is the one that its name finds.
pub proof fn law_each_source_is_found(config: Config, i: int)
    requires
        config.wf(),
        0 <= i < config.sources@.len(),
    ensures
        config.source_spec(config.sources@[i].0@) == Some(config.sources@[i].1),
{
    lemma_source_at(config.sources@, i);
}

impl Config {
    /// Whether the settings are valid: no class is mapped twice, and no source root
    /// named twice.
    pub open spec fn wf(&self) -> bool {
        keys_differ(self.volatility@) && keys_differ(self.sources@)
    }

    /// The mount with a given name.
    pub open spec fn source_spec(&self, name: Seq<char>) -> Option<SourceRootCfg> {
        let n = source_at(self.sources@, name);
        if n < self.sources@.len() {
            Some(self.sources@[n].1)
        } else {
            None
        }
    }

    fn source(&self, name: &str) -> (r: Option<usize>)
        ensures
            match r {
                Some(i) => i < self.sources@.len() && self.source_spec(name@) == Some(
                    self.sources@[i as int].1,
                ),
                None => self.source_spec(name@) is None,
            },
    {
        let mut i: usize = 0;
        let ghost all = self.sources@;
        assert(all.skip(0) =~= all);
        while i < self.sources.len()
            invariant
                i <= self.sources.len(),
                all == self.sources@,
                source_at(all, name@) == i + source_at(all.skip(i as int), name@),
            decreases self.sources.len() - i,
        {
            assert(all.skip(i as int)[0] == all[i as int]);
            if same(self.sources[i].0.as_str(), name) {
                return Some(i);
            }
            assert(all.skip(i as int).skip(1) =~= all.skip(i + 1));
            i = i + 1;
        }
        None
    }

    /// Whether a half-life is that of a class: what is configured for it, or its
    /// default.
    pub open spec fn is_class_half_life(&self, r: Result<HalfLife, Error>, class: Seq<char>) -> bool {
        match (class_default(class), class_entry(self.volatility@, class)) {
            (None, _) => crate::error::is_config(
                r,
                "unknown legacy volatility class: "@ + class,
            ),
            (Some(_), Some(written)) => r == Ok::<HalfLife, Error>(written),
            (Some(None), None) => r == Ok::<HalfLife, Error>(HalfLife::Never),
            (Some(Some(nanos)), None) => r matches Ok(HalfLife::After(d)) && d@ == (
            crate::duration::Span { months: 0, nanos }),
        }
    }

    /// Resolves a class from an old fact without changing its configured decay.
    pub fn legacy_half_life(&self, class: &str) -> (r: Result<HalfLife, Error>)
        ensures
            self.is_class_half_life(r, class@),
    {
        let default = if same(class, "immutable") {
            HalfLife::Never
        } else if same(class, "slow") {
            HalfLife::After(Duration::of_seconds(7_776_000))
        } else if same(class, "days") {
            HalfLife::default()
        } else if same(class, "hours") {
            HalfLife::After(Duration::of_seconds(21_600))
        } else {
            return Err(Error::Config("unknown legacy volatility class: ".to_owned().concat(class)));
        };
        let mut i: usize = 0;
        let ghost all = self.volatility@;
        assert(all.skip(0) =~= all);
        while i < self.volatility.len()
            invariant
                i <= self.volatility.len(),
                all == self.volatility@,
                class_default(class@) is Some,
                class_entry(all, class@) == class_entry(all.skip(i as int), class@),
            decreases self.volatility.len() - i,
        {
            assert(all.skip(i as int)[0] == all[i as int]);
            if same(self.volatility[i].0.as_str(), class) {
                return Ok(self.volatility[i].1);
            }
            assert(all.skip(i as int).skip(1) =~= all.skip(i + 1));
            i = i + 1;
        }
        Ok(default)
    }

    /// What a source root resolves to, or why it does not.
    pub open spec fn root_spec(
        &self,
        root: SourceRoot,
        has_parent: bool,
        parent_has_jj: bool,
    ) -> Result<(Option<Seq<char>>, bool, Vcs), Seq<char>> {
        match root {
            SourceRoot::Project => if has_parent {
                Ok((None, true, if parent_has_jj { Vcs::Jj } else { Vcs::Git }))
            } else {
                Err("store has no parent project"@)
            },
            SourceRoot::Store => Ok((None, false, Vcs::Git)),
            SourceRoot::Named(name) => match self.source_spec(name@) {
                None => Err("unknown source root `"@ + name@ + "`"@),
                Some(cfg) => match cfg.repo {
                    None => Err("source root `"@ + name@ + "` is handler-backed, not a repo"@),
                    Some(repo) => Ok((Some(repo@), false, cfg.vcs)),
                },
            },
        }
    }

    /// Resolves a source root to where it lies and the VCS it is read through.
    /// `Project` is the store root's parent; `Store` is the store itself; `Named`
    /// comes from `[sources.*]`. Whether the store has a parent, and whether that
    /// holds a `.jj/`, is for the caller to say.
    ///
    /// Fails if the store has no parent project, or if a `Named` root is unknown
    /// or handler-backed rather than a repo.
    pub fn resolve_root(&self, root: &SourceRoot, has_parent: bool, parent_has_jj: bool) -> (r:
        Result<(RootPath, Vcs), Error>)
        ensures
            match self.root_spec(*root, has_parent, parent_has_jj) {
                Ok((below, parent, vcs)) => {
                    &&& r matches Ok((path, v))
                    &&& v == vcs
                    &&& match (below, parent) {
                        (Some(repo), _) => path matches RootPath::Below(p) && p@ == repo,
                        (None, true) => path is Parent,
                        (None, false) => path is Store,
                    }
                },
                Err(fault) => crate::error::is_config(r, fault),
            },
    {
        match root {
            SourceRoot::Project => {
                if !has_parent {
                    return Err(Error::Config("store has no parent project".to_owned()));
                }
                Ok((RootPath::Parent, detect_vcs(parent_has_jj)))
            },
            // The store is a plain directory, not a repo: `store:` reads are
            // filesystem-only, so a pinned revision has no VCS to resolve it.
            SourceRoot::Store => Ok((RootPath::Store, Vcs::Git)),
            SourceRoot::Named(name) => match self.source(name.as_str()) {
                None => {
                    let text = "unknown source root `".to_owned().concat(name.as_str()).concat("`");
                    Err(Error::Config(text))
                },
                Some(i) => match &self.sources[i].1.repo {
                    None => {
                        let text = "source root `".to_owned().concat(name.as_str()).concat(
                            "` is handler-backed, not a repo",
                        );
                        Err(Error::Config(text))
                    },
                    Some(repo) => Ok((RootPath::Below(repo.clone()), self.sources[i].1.vcs)),
                },
            },
        }
    }

    /// The handler module path and the mount of a handler-backed scheme.
    pub open spec fn handler_spec(&self, scheme: Seq<char>) -> Option<(Seq<char>, SourceRootCfg)> {
        match self.source_spec(scheme) {
            None => None,
            Some(cfg) => match cfg.handler {
                None => None,
                Some(handler) => Some((handler@, cfg)),
            },
        }
    }

    /// The handler module path and capabilities for a handler-backed scheme, or
    /// `None` if the scheme is unknown or repo-backed.
    pub fn handler_for(&self, scheme: &str) -> (r: Option<(String, Capabilities)>)
        ensures
            match self.handler_spec(scheme@) {
                None => r is None,
                Some((path, cfg)) => {
                    &&& r matches Some((p, caps))
                    &&& p@ == path
                    &&& caps.net@ == cfg.net@
                    &&& caps.read@ == cfg.read@
                    &&& caps.env@ == cfg.env@
                },
            },
    {
        match self.source(scheme) {
            None => None,
            Some(i) => match &self.sources[i].1.handler {
                None => None,
                Some(handler) => Some((handler.clone(), self.sources[i].1.caps())),
            },
        }
    }
}

} // verus!
