//! Deno scripts that produce source text for a predicate to check.
//!
//! Generators read a claim from `KEN_VALUE` and write source text to stdout.
//! Handlers resolve references for a configured source such as `kb:`.
//! Their content hashes cover declared capabilities. What is run, with which
//! flags and whether at all, is decided here; running it is the caller's.

use crate::digest::hash_text;
use crate::json::quote;
use crate::number::Real;
use crate::order::sorted;
use crate::schema::{Capabilities, GeneratorHash, GeneratorRef, HandlerRef};
use crate::text::{chars_of, copy_option, decimal_text, join, same, string_of};
use crate::time::Elapsed;
use vstd::prelude::*;

verus! {

/// The bits of 3, the cost of a run.
pub const RUN_COST: u64 = 0x4008_0000_0000_0000;

/// The bits of 10, the cost of a run that may use the network.
pub const NET_RUN_COST: u64 = 0x4024_0000_0000_0000;

/// Generator source plus its declared capabilities and cost.
#[derive(Debug, Clone, PartialEq)]
pub struct GeneratorSrc {
    pub name: String,
    pub source: String,
    pub caps: Capabilities,
    pub cost_estimate: Real,
}

/// What is hashed of a generator: its source, and its capabilities in order.
pub open spec fn hashed_text(source: Seq<char>, caps: Capabilities) -> Seq<char> {
    source + "\0net\0"@ + capability_list(caps.net@) + "\0read\0"@ + capability_list(caps.read@)
        + "\0env\0"@ + capability_list(caps.env@)
}

/// Capabilities in order, with commas between.
pub open spec fn capability_list(names: Seq<String>) -> Seq<char> {
    crate::text::joined(crate::order::in_order(crate::text::texts(names)), ","@)
}

/// The content hash of a generator.
pub open spec fn content_hash(source: Seq<char>, caps: Capabilities) -> Seq<char> {
    crate::digest::text_hash(hashed_text(source, caps))
}

/// The order in which capabilities are declared does not change the content
/// hash.
pub proof fn law_hash_ignores_order(source: Seq<char>, a: Capabilities, b: Capabilities)
    requires
        crate::text::texts(a.net@).to_multiset() == crate::text::texts(b.net@).to_multiset(),
        crate::text::texts(a.read@).to_multiset() == crate::text::texts(b.read@).to_multiset(),
        crate::text::texts(a.env@).to_multiset() == crate::text::texts(b.env@).to_multiset(),
    ensures
        content_hash(source, a) == content_hash(source, b),
{
    crate::order::lemma_order_is_canonical(crate::text::texts(a.net@), crate::text::texts(b.net@));
    crate::order::lemma_order_is_canonical(
        crate::text::texts(a.read@),
        crate::text::texts(b.read@),
    );
    crate::order::lemma_order_is_canonical(crate::text::texts(a.env@), crate::text::texts(b.env@));
}

fn list_text(names: &Vec<String>) -> (r: String)
    ensures
        r@ == capability_list(names@),
{
    join(&sorted(names), ",")
}

/// The cost of a run, by whether it may use the network.
pub open spec fn run_cost(caps: Capabilities) -> u64 {
    if caps.net@.len() > 0 {
        NET_RUN_COST
    } else {
        RUN_COST
    }
}

impl GeneratorSrc {
    pub fn new(name: String, source: String, caps: Capabilities) -> (r: Self)
        ensures
            r.name == name,
            r.source == source,
            r.caps == caps,
            r.cost_estimate.bits == run_cost(caps),
    {
        let bits: u64 = if caps.net.len() > 0 {
            NET_RUN_COST
        } else {
            RUN_COST
        };
        GeneratorSrc { name, source, caps, cost_estimate: Real { bits } }
    }

    /// Hash over source AND capabilities, canonicalized so ordering is stable.
    pub fn hash(&self) -> (r: GeneratorHash)
        ensures
            r.0@ == content_hash(self.source@, self.caps),
            r.0@.len() == 64,
            crate::schema::is_ascii_text(r.0@),
    {
        let mut text = self.source.clone();
        text.append("\0net\0");
        text.append(list_text(&self.caps.net).as_str());
        text.append("\0read\0");
        text.append(list_text(&self.caps.read).as_str());
        text.append("\0env\0");
        text.append(list_text(&self.caps.env).as_str());
        GeneratorHash(hash_text(text.as_str()))
    }

    /// The content-addressed reference of the generator.
    pub fn to_ref(&self) -> (r: GeneratorRef)
        ensures
            r.hash.0@ == content_hash(self.source@, self.caps),
            r.src_path@ == "verifiers/"@ + content_hash(self.source@, self.caps).take(16) + ".ts"@,
            r.caps.same_as(&self.caps),
            r.cost_estimate == self.cost_estimate,
            r.name == self.name,
            crate::schema::is_ascii_text(r.hash.0@),
    {
        let hash = self.hash();
        let mut src_path = "verifiers/".to_owned();
        src_path.append(hash_prefix(hash.0.as_str()).as_str());
        src_path.append(".ts");
        GeneratorRef {
            src_path,
            hash,
            caps: self.caps.copy(),
            cost_estimate: self.cost_estimate,
            name: self.name.clone(),
        }
    }
}

/// The first sixteen characters of a hash.
fn hash_prefix(hash: &str) -> (r: String)
    requires
        hash@.len() >= 16,
    ensures
        r@ == hash@.take(16),
{
    let v = chars_of(hash);
    assert(hash@.subrange(0, 16) =~= hash@.take(16));
    string_of(&v, 0, 16)
}

/// On-disk store of generator sources under `verifiers/`.
#[derive(Debug)]
pub struct GeneratorRegistry {
    pub root: String,
}

impl GeneratorRegistry {
    pub fn new(store_root: &str) -> (r: Self)
        ensures
            r.root@ == store_root@,
    {
        GeneratorRegistry { root: store_root.to_owned() }
    }

    /// Where a generator is kept, its source and its metadata, below the root.
    pub fn put(&self, src: &GeneratorSrc) -> (r: (GeneratorRef, String, String))
        ensures
            r.0.hash.0@ == content_hash(src.source@, src.caps),
            r.0.name == src.name,
            r.0.caps.same_as(&src.caps),
            r.0.cost_estimate == src.cost_estimate,
            r.1@ == r.0.src_path@,
            r.1@ == "verifiers/"@ + content_hash(src.source@, src.caps).take(16) + ".ts"@,
            r.2@ == r.0.src_path@ + ".json"@,
    {
        let reference = src.to_ref();
        let path = reference.src_path.clone();
        let meta = reference.src_path.clone().concat(".json");
        (reference, path, meta)
    }
}

/// Makes a scheme handler out of its module's source and the capabilities
/// declared for its scheme: the runnable source and its content-addressed
/// reference. The hash covers source AND capabilities, so any drift in either is
/// a loud diff.
pub fn load_handler(scheme: &str, src_path: &str, source: String, caps: Capabilities) -> (r: (
    GeneratorSrc,
    HandlerRef,
))
    ensures
        r.0.name@ == scheme@,
        r.0.source == source,
        r.0.caps.same_as(&caps),
        r.0.cost_estimate.bits == run_cost(caps),
        r.1.hash.0@ == content_hash(source@, caps),
        r.1.caps.same_as(&caps),
        r.1.cost_estimate == r.0.cost_estimate,
        r.1.src_path@ == src_path@,
        r.1.scheme@ == scheme@,
{
    let src = GeneratorSrc::new(scheme.to_owned(), source, caps);
    let handler = HandlerRef {
        hash: src.hash(),
        caps: src.caps.copy(),
        cost_estimate: src.cost_estimate,
        src_path: src_path.to_owned(),
        scheme: scheme.to_owned(),
    };
    (src, handler)
}

/// The raw result of running a generator: its stdout (the produced value) and
/// enough to attribute a read failure.
#[derive(Debug, Clone, PartialEq, Eq)]
pub struct GeneratorRun {
    pub spawned: bool,
    pub timed_out: bool,
    pub exit_code: Option<i32>,
    pub stderr_nonempty: bool,
    pub hash_changed: bool,
    pub stdout: String,
}

impl GeneratorRun {
    /// Whether the run produced a value that can be trusted.
    pub open spec fn is_ok(&self) -> bool {
        self.spawned && !self.timed_out && self.exit_code == Some(0i32) && !self.hash_changed
    }

    /// Whether the run produced a value that can be trusted.
    pub fn ok(&self) -> (r: bool)
        ensures
            r == self.is_ok(),
    {
        let clean = match self.exit_code {
            Some(code) => code == 0,
            None => false,
        };
        self.spawned && !self.timed_out && clean && !self.hash_changed
    }
}

/// Whether a run never started.
pub open spec fn is_unstarted(run: GeneratorRun, hash_changed: bool) -> bool {
    &&& !run.spawned
    &&& !run.timed_out
    &&& run.exit_code is None
    &&& run.stderr_nonempty
    &&& run.hash_changed == hash_changed
    &&& run.stdout@.len() == 0
}

/// A run that never started.
pub fn errored(hash_changed: bool) -> (r: GeneratorRun)
    ensures
        is_unstarted(r, hash_changed),
        !r.is_ok(),
{
    GeneratorRun {
        spawned: false,
        timed_out: false,
        exit_code: None,
        stderr_nonempty: true,
        hash_changed,
        stdout: String::new(),
    }
}

/// What is known of a process that was started.
#[derive(Debug, Clone, Copy, PartialEq, Eq, Structural)]
pub enum Wait {
    /// It ended, with its exit code unless a signal ended it.
    Exited(Option<i32>),
    Running,
    /// Its state could not be read.
    Failed,
}

/// What to do about a process that was started.
#[derive(Debug, Clone, Copy, PartialEq, Eq, Structural)]
pub enum Supervision {
    /// Nothing is left to do.
    Done { exit_code: Option<i32> },
    /// Kill it: it ran out of time.
    Kill,
    /// Wait a moment, and look again.
    Sleep,
}

/// Whether this is what to do about a process.
pub open spec fn is_supervision(r: Supervision, wait: Wait, out_of_time: bool) -> bool {
    r == match wait {
        Wait::Exited(code) => Supervision::Done { exit_code: code },
        Wait::Failed => Supervision::Done { exit_code: None },
        Wait::Running => if out_of_time {
            Supervision::Kill
        } else {
            Supervision::Sleep
        },
    }
}

/// Supervises a process: one that is still running when its time is up is
/// killed.
pub fn supervise(wait: Wait, out_of_time: bool) -> (r: Supervision)
    ensures
        is_supervision(r, wait, out_of_time),
{
    match wait {
        Wait::Exited(code) => Supervision::Done { exit_code: code },
        Wait::Failed => Supervision::Done { exit_code: None },
        Wait::Running => if out_of_time {
            Supervision::Kill
        } else {
            Supervision::Sleep
        },
    }
}

/// A file a run needs: its name in the temporary directory, and its contents.
#[derive(Debug, Clone, PartialEq, Eq)]
pub struct InputFile {
    pub name: String,
    pub contents: String,
}

/// A run that is to be started. Names are those of files in the temporary
/// directory; the entry is passed behind the arguments.
#[derive(Debug, Clone, PartialEq, Eq)]
pub struct Launch {
    pub args: Vec<String>,
    pub entry: String,
    pub env: Vec<(String, String)>,
    pub inputs: Vec<InputFile>,
    pub stdout: String,
    pub stderr: String,
}

/// Whether to run, and what.
#[derive(Debug, Clone, PartialEq, Eq)]
pub enum RunPlan {
    Refused(GeneratorRun),
    Start(Launch),
}

/// Capability-scoped Deno runner. Declared capabilities become sandbox flags;
/// nothing more is granted; a hard timeout always applies; no write-back.
#[derive(Debug)]
pub struct Sandbox {
    pub runtime: String,
    pub timeout: Elapsed,
}

/// The flag that lets a run read the variables set for it and those it declared.
pub open spec fn env_flag(base: Seq<Seq<char>>, declared: Seq<String>) -> Seq<char> {
    "--allow-env="@ + crate::text::joined(base + crate::text::texts(declared), ","@)
}

/// The arguments that come before the script: no prompts, and exactly the
/// declared capabilities.
pub open spec fn sandbox_args(caps: Capabilities, env: Seq<char>) -> Seq<Seq<char>> {
    let fixed = seq!["run"@, "--no-prompt"@, "--quiet"@, env];
    let net = if caps.net@.len() > 0 {
        fixed.push("--allow-net="@ + crate::text::joined(crate::text::texts(caps.net@), ","@))
    } else {
        fixed
    };
    if caps.read@.len() > 0 {
        net.push("--allow-read="@ + crate::text::joined(crate::text::texts(caps.read@), ","@))
    } else {
        net
    }
}

/// Builds a `--allow-env` flag from a fixed set of names plus the declared `env`
/// capability (e.g. an auth token a handler needs).
fn allow_env(base: &Vec<String>, caps_env: &Vec<String>) -> (r: String)
    ensures
        r@ == env_flag(crate::text::texts(base@), caps_env@),
{
    let mut names = crate::text::copy_all(base);
    let mut more = crate::text::copy_all(caps_env);
    names.append(&mut more);
    assert(crate::text::texts(names@) =~= crate::text::texts(base@) + crate::text::texts(
        caps_env@,
    ));
    "--allow-env=".to_owned().concat(join(&names, ",").as_str())
}

/// The arguments of a `deno run` with the standard sandbox flags and the
/// capability allowlists.
fn deno_run(caps: &Capabilities, env: String) -> (r: Vec<String>)
    ensures
        crate::text::texts(r@) == sandbox_args(*caps, env@),
{
    let mut args: Vec<String> = Vec::new();
    args.push("run".to_owned());
    args.push("--no-prompt".to_owned());
    args.push("--quiet".to_owned());
    let ghost flag = env@;
    args.push(env);
    assert(crate::text::texts(args@) =~= seq!["run"@, "--no-prompt"@, "--quiet"@, flag]);
    if caps.net.len() > 0 {
        let ghost before = crate::text::texts(args@);
        args.push("--allow-net=".to_owned().concat(join(&caps.net, ",").as_str()));
        assert(crate::text::texts(args@) =~= before.push(args@.last()@));
    }
    if caps.read.len() > 0 {
        let ghost before = crate::text::texts(args@);
        args.push("--allow-read=".to_owned().concat(join(&caps.read, ",").as_str()));
        assert(crate::text::texts(args@) =~= before.push(args@.last()@));
    }
    args
}

/// A stem for the temporary files of a run.
pub open spec fn stem_text(prefix: Seq<char>, process: nat, nonce: nat) -> Seq<char> {
    prefix + seq!['-'] + crate::text::digits_of(process) + seq!['-'] + crate::text::digits_of(nonce)
}

/// A number and a dash end where the dash stands.
proof fn lemma_number_ends(n: nat, m: nat, a: Seq<char>, b: Seq<char>)
    requires
        crate::text::digits_of(n) + seq!['-'] + a == crate::text::digits_of(m) + seq!['-'] + b,
    ensures
        n == m,
        a == b,
{
    let s = crate::text::digits_of(n) + seq!['-'] + a;
    crate::text::lemma_decimal_digits(n);
    crate::text::lemma_decimal_digits(m);
    let i = crate::text::digits_of(n).len() as int;
    let j = crate::text::digits_of(m).len() as int;
    assert forall|k: int| 0 <= k < i implies #[trigger] s[k] != '-' by {
        assert(crate::text::is_digit(crate::text::digits_of(n)[k]));
    }
    assert forall|k: int| 0 <= k < j implies #[trigger] s[k] != '-' by {
        assert(s[k] == (crate::text::digits_of(m) + seq!['-'] + b)[k]);
        assert(crate::text::is_digit(crate::text::digits_of(m)[k]));
    }
    assert(s[j] == (crate::text::digits_of(m) + seq!['-'] + b)[j]);
    crate::text::lemma_first_at_is(s, '-', i);
    crate::text::lemma_first_at_is(s, '-', j);
    assert(s.take(i) =~= crate::text::digits_of(n));
    assert(s.take(j) =~= crate::text::digits_of(m));
    assert(s.skip(i + 1) =~= a);
    assert(s.skip(j + 1) =~= b);
}

/// Runs never share a stem: where two prefixes are of one length, stems are the same
/// only for the same prefix, process and nonce.
pub proof fn law_stems_tell_runs_apart(
    prefix: Seq<char>,
    process: nat,
    nonce: nat,
    other_prefix: Seq<char>,
    other_process: nat,
    other_nonce: nat,
)
    requires
        prefix.len() == other_prefix.len(),
        stem_text(prefix, process, nonce) == stem_text(other_prefix, other_process, other_nonce),
    ensures
        prefix == other_prefix,
        process == other_process,
        nonce == other_nonce,
{
    let s = stem_text(prefix, process, nonce);
    let n = prefix.len() as int;
    let a = crate::text::digits_of(nonce);
    let b = crate::text::digits_of(other_nonce);
    assert(s.take(n) =~= prefix);
    assert(s.take(n) =~= other_prefix);
    assert(s.skip(n + 1) =~= crate::text::digits_of(process) + seq!['-'] + a);
    assert(s.skip(n + 1) =~= crate::text::digits_of(other_process) + seq!['-'] + b);
    lemma_number_ends(process, other_process, a, b);
    crate::text::lemma_decimal_digits(nonce);
    crate::text::lemma_decimal_digits(other_nonce);
}

/// A process- and run-unique temp file stem, so concurrent sandbox runs of the
/// same generator never share (and clean up) each other's files.
fn unique_stem(prefix: &str, process: u32, nonce: u64) -> (r: String)
    ensures
        r@ == stem_text(prefix@, process as nat, nonce as nat),
{
    let mut out = prefix.to_owned();
    out.push('-');
    out.append(decimal_text(process as u128).as_str());
    out.push('-');
    out.append(decimal_text(nonce as u128).as_str());
    assert(out@ =~= stem_text(prefix@, process as nat, nonce as nat));
    out
}

/// Whether a generator is no longer the one that was recorded.
pub open spec fn hash_differs(src: GeneratorSrc, recorded: Option<&GeneratorHash>) -> bool {
    recorded matches Some(hash) && hash.0@ != content_hash(src.source@, src.caps)
}

/// Texts with a stem between.
fn name_of(before: &str, stem: &str, behind: &str) -> (r: String)
    ensures
        r@ == before@ + stem@ + behind@,
{
    before.to_owned().concat(stem).concat(behind)
}

/// The JSON texts of some strings.
pub open spec fn quoted_all(names: Seq<String>) -> Seq<Seq<char>> {
    names.map_values(|s: String| crate::json::json_quoted(s@))
}

/// The program that calls a handler: it imports the handler's module and writes
/// what `fetch` returns for the reference.
pub open spec fn bootstrap_text(module: Seq<char>, env: Seq<String>) -> Seq<char> {
    "import handler from \"./"@ + module
        + "\";\nconst reference = Deno.env.get(\"KEN_REF\") ?? \"\";\nconst env: Record<string, string> = {};\nfor (const k of ["@
        + crate::text::joined(quoted_all(env), ", "@)
        + "]) { const v = Deno.env.get(k); if (v !== undefined) env[k] = v; }\nconst out = await handler.fetch(reference, env);\nconst text = typeof out === \"string\" ? out : JSON.stringify(out);\nawait Deno.stdout.write(new TextEncoder().encode(text));\n"@
}

fn bootstrap(module: &str, env: &Vec<String>) -> (r: String)
    ensures
        r@ == bootstrap_text(module@, env@),
{
    let mut keys: Vec<String> = Vec::new();
    let mut i: usize = 0;
    while i < env.len()
        invariant
            i <= env.len(),
            keys@.len() == i,
            forall|k: int|
                0 <= k < i ==> (#[trigger] keys@[k])@ == crate::json::json_quoted(env@[k]@),
        decreases env.len() - i,
    {
        keys.push(quote(env[i].as_str()));
        i = i + 1;
    }
    assert(crate::text::texts(keys@) =~= quoted_all(env@));
    let mut out = "import handler from \"./".to_owned();
    out.append(module);
    out.append(
        "\";\nconst reference = Deno.env.get(\"KEN_REF\") ?? \"\";\nconst env: Record<string, string> = {};\nfor (const k of [",
    );
    out.append(join(&keys, ", ").as_str());
    out.append(
        "]) { const v = Deno.env.get(k); if (v !== undefined) env[k] = v; }\nconst out = await handler.fetch(reference, env);\nconst text = typeof out === \"string\" ? out : JSON.stringify(out);\nawait Deno.stdout.write(new TextEncoder().encode(text));\n",
    );
    out
}

/// The part of the names of a run's files that tells it apart from other runs.
pub open spec fn run_stem(source: Seq<char>, caps: Capabilities, process: u32, nonce: u64) -> Seq<
    char,
> {
    stem_text(content_hash(source, caps).take(16), process as nat, nonce as nat)
}

/// Whether a launch runs a generator on a claim: its script, with the claim in the
/// environment and no more than its capabilities.
pub open spec fn is_generator_launch(
    launch: Launch,
    source: Seq<char>,
    caps: Capabilities,
    claim: Seq<char>,
    process: u32,
    nonce: u64,
) -> bool {
    let stem = run_stem(source, caps, process, nonce);
    &&& crate::text::texts(launch.args@) == sandbox_args(
        caps,
        env_flag(seq!["KEN_VALUE"@], caps.env@),
    )
    &&& launch.entry@ == "ken-gen-"@ + stem + ".ts"@
    &&& launch.env@.len() == 1
    &&& launch.env@[0].0@ == "KEN_VALUE"@
    &&& launch.env@[0].1@ == claim
    &&& launch.inputs@.len() == 1
    &&& launch.inputs@[0].name@ == launch.entry@
    &&& launch.inputs@[0].contents@ == source
    &&& launch.stdout@ == "ken-gen-out-"@ + stem + ".log"@
    &&& launch.stderr@ == "ken-gen-err-"@ + stem + ".log"@
}

/// Whether a launch runs a handler on a reference: a bootstrap that calls its module,
/// with the reference and the revision in the environment and no more than its
/// capabilities.
pub open spec fn is_handler_launch(
    launch: Launch,
    source: Seq<char>,
    caps: Capabilities,
    reference: Seq<char>,
    rev: Option<String>,
    process: u32,
    nonce: u64,
) -> bool {
    let stem = run_stem(source, caps, process, nonce);
    let module = "ken-handler-"@ + stem + ".ts"@;
    &&& crate::text::texts(launch.args@) == sandbox_args(
        caps,
        env_flag(seq!["KEN_REF"@, "KEN_REV"@], caps.env@),
    )
    &&& launch.entry@ == "ken-handler-entry-"@ + stem + ".ts"@
    &&& launch.env@.len() == 2
    &&& launch.env@[0].0@ == "KEN_REF"@
    &&& launch.env@[0].1@ == reference
    &&& launch.env@[1].0@ == "KEN_REV"@
    &&& launch.env@[1].1@ == (match rev {
        Some(rev) => rev@,
        None => Seq::<char>::empty(),
    })
    &&& launch.inputs@.len() == 2
    &&& launch.inputs@[0].name@ == module
    &&& launch.inputs@[0].contents@ == source
    &&& launch.inputs@[1].name@ == launch.entry@
    &&& launch.inputs@[1].contents@ == bootstrap_text(module, caps.env@)
    &&& launch.stdout@ == "ken-handler-out-"@ + stem + ".log"@
    &&& launch.stderr@ == "ken-handler-err-"@ + stem + ".log"@
}

impl Sandbox {
    pub fn new(runtime: String, timeout: Elapsed) -> (r: Self)
        ensures
            r.runtime == runtime,
            r.timeout == timeout,
    {
        Sandbox { runtime, timeout }
    }

    /// Plans the run of a generator with `KEN_VALUE` set to the claim. Its
    /// stdout is the produced ground value.
    /// A mismatched source or capability hash is refused: the runtime is never
    /// started.
    pub fn run(
        &self,
        src: &GeneratorSrc,
        recorded: Option<&GeneratorHash>,
        claim: &str,
        process: u32,
        nonce: u64,
    ) -> (r: RunPlan)
        ensures
            if hash_differs(*src, recorded) {
                r matches RunPlan::Refused(run) && is_unstarted(run, true)
            } else {
                r matches RunPlan::Start(launch) && is_generator_launch(
                    launch,
                    src.source@,
                    src.caps,
                    claim@,
                    process,
                    nonce,
                )
            },
    {
        let current = src.hash();
        if let Some(hash) = recorded {
            if !same(hash.0.as_str(), current.0.as_str()) {
                return RunPlan::Refused(errored(true));
            }
        }
        let stem = unique_stem(hash_prefix(current.0.as_str()).as_str(), process, nonce);
        let mut base: Vec<String> = Vec::new();
        base.push("KEN_VALUE".to_owned());
        assert(crate::text::texts(base@) =~= seq!["KEN_VALUE"@]);
        let entry = name_of("ken-gen-", stem.as_str(), ".ts");
        let mut inputs: Vec<InputFile> = Vec::new();
        inputs.push(InputFile { name: entry.clone(), contents: src.source.clone() });
        let mut env: Vec<(String, String)> = Vec::new();
        env.push(("KEN_VALUE".to_owned(), claim.to_owned()));
        RunPlan::Start(
            Launch {
                args: deno_run(&src.caps, allow_env(&base, &src.caps.env)),
                entry,
                env,
                inputs,
                stdout: name_of("ken-gen-out-", stem.as_str(), ".log"),
                stderr: name_of("ken-gen-err-", stem.as_str(), ".log"),
            },
        )
    }

    /// Plans the run of a scheme handler: a generated bootstrap imports the
    /// handler module's default export and calls `fetch(reference, env)`, where
    /// `reference` is the CURIE's path and `env` is the declared `env`
    /// capabilities resolved from the host. The handler's returned string is its
    /// stdout (the document bytes).
    /// A mismatched source or capability hash is refused: the runtime is never
    /// started.
    pub fn run_handler(
        &self,
        src: &GeneratorSrc,
        recorded: Option<&GeneratorHash>,
        reference: &str,
        rev: &Option<String>,
        process: u32,
        nonce: u64,
    ) -> (r: RunPlan)
        ensures
            if hash_differs(*src, recorded) {
                r matches RunPlan::Refused(run) && is_unstarted(run, true)
            } else {
                r matches RunPlan::Start(launch) && is_handler_launch(
                    launch,
                    src.source@,
                    src.caps,
                    reference@,
                    *rev,
                    process,
                    nonce,
                )
            },
    {
        let current = src.hash();
        if let Some(hash) = recorded {
            if !same(hash.0.as_str(), current.0.as_str()) {
                return RunPlan::Refused(errored(true));
            }
        }
        let stem = unique_stem(hash_prefix(current.0.as_str()).as_str(), process, nonce);
        let mut base: Vec<String> = Vec::new();
        base.push("KEN_REF".to_owned());
        base.push("KEN_REV".to_owned());
        assert(crate::text::texts(base@) =~= seq!["KEN_REF"@, "KEN_REV"@]);
        let module = name_of("ken-handler-", stem.as_str(), ".ts");
        let entry = name_of("ken-handler-entry-", stem.as_str(), ".ts");
        let text = bootstrap(module.as_str(), &src.caps.env);
        let mut inputs: Vec<InputFile> = Vec::new();
        inputs.push(InputFile { name: module, contents: src.source.clone() });
        inputs.push(InputFile { name: entry.clone(), contents: text });
        let rev_text = match copy_option(rev) {
            Some(rev) => rev,
            None => String::new(),
        };
        let mut env: Vec<(String, String)> = Vec::new();
        env.push(("KEN_REF".to_owned(), reference.to_owned()));
        env.push(("KEN_REV".to_owned(), rev_text));
        RunPlan::Start(
            Launch {
                args: deno_run(&src.caps, allow_env(&base, &src.caps.env)),
                entry,
                env,
                inputs,
                stdout: name_of("ken-handler-out-", stem.as_str(), ".log"),
                stderr: name_of("ken-handler-err-", stem.as_str(), ".log"),
            },
        )
    }
}

/// Whether a report is that of a run that was supervised to its end.
pub open spec fn is_collected(
    r: GeneratorRun,
    supervision: Supervision,
    stderr_nonempty: bool,
    stdout: String,
) -> bool {
    &&& r.spawned
    &&& r.timed_out == (supervision is Kill)
    &&& r.exit_code == (match supervision {
        Supervision::Done { exit_code } => exit_code,
        _ => None,
    })
    &&& r.stderr_nonempty == stderr_nonempty
    &&& !r.hash_changed
    &&& r.stdout == stdout
}

/// The report of a run that was started and supervised to its end.
pub fn collect(supervision: Supervision, stderr_nonempty: bool, stdout: String) -> (r: GeneratorRun)
    requires
        supervision !is Sleep,
    ensures
        is_collected(r, supervision, stderr_nonempty, stdout),
{
    let (timed_out, exit_code) = match supervision {
        Supervision::Done { exit_code } => (false, exit_code),
        _ => (true, None),
    };
    GeneratorRun {
        spawned: true,
        timed_out,
        exit_code,
        stderr_nonempty,
        hash_changed: false,
        stdout,
    }
}

} // verus!
