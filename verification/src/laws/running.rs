//! What is run, with which leave, and what comes of it.

use crate::cli::Choice;
use crate::config::{Config, RootPath, SourceRootCfg, Vcs};
use crate::generator::{GeneratorRun, Launch, RunPlan, Supervision, Wait};
use crate::number::Real;
use crate::resolve::{CommandEvent, FileEvent, ReadFail, ReadPlan, ReadResult};
use crate::schema::{Capabilities, Epistemics, GeneratorRef, GroundSource, Groundedness};
use crate::schema::{HandlerSource, Locator, SourceRef, SourceRoot, TriageSource};
use vstd::prelude::*;

verus! {

// ---------------------------------------------------------------------------
// The sandbox
// ---------------------------------------------------------------------------

/// Names with a comma between each two.
pub open spec fn listed(names: Seq<String>) -> Seq<char> {
    crate::text::joined(crate::text::texts(names), ","@)
}

/// Whether an argument is one that a run with some capabilities may have.
pub open spec fn is_granted(arg: Seq<char>, caps: Capabilities, env: Seq<char>) -> bool {
    ||| arg == "run"@
    ||| arg == "--no-prompt"@
    ||| arg == "--quiet"@
    ||| arg == env
    ||| caps.net@.len() > 0 && arg == "--allow-net="@ + listed(caps.net@)
    ||| caps.read@.len() > 0 && arg == "--allow-read="@ + listed(caps.read@)
}

/// A run may do what it declares and nothing more: it reaches the network only where it
/// declares hosts, and those alone; it reads files only where it declares them; and it
/// never asks.
pub proof fn law_nothing_more_is_granted(caps: Capabilities, env: Seq<char>)
    ensures
        ({
            let args = crate::generator::sandbox_args(caps, env);
            &&& args.len() >= 4 && args[0] == "run"@
            &&& forall|i: int|
                0 <= i < args.len() ==> is_granted(#[trigger] args[i], caps, env)
            &&& args.contains("--no-prompt"@)
            &&& args.contains(env)
            &&& caps.net@.len() > 0 ==> args.contains("--allow-net="@ + listed(caps.net@))
            &&& caps.read@.len() > 0 ==> args.contains("--allow-read="@ + listed(caps.read@))
            &&& caps.net@.len() == 0 && caps.read@.len() == 0 ==> args.len() == 4
        }),
{
    let args = crate::generator::sandbox_args(caps, env);
    assert(args[1] == "--no-prompt"@ && args[2] == "--quiet"@ && args[3] == env);
    if caps.net@.len() > 0 {
        assert(args[4] == "--allow-net="@ + listed(caps.net@));
        if caps.read@.len() > 0 {
            assert(args[5] == "--allow-read="@ + listed(caps.read@));
        }
    } else if caps.read@.len() > 0 {
        assert(args[4] == "--allow-read="@ + listed(caps.read@));
    }
}

/// A generator is run from its own source, with the claim as the one variable that is set,
/// and may read that variable and those it declares.
pub proof fn law_generators_run_on_their_claim(
    launch: Launch,
    source: Seq<char>,
    caps: Capabilities,
    claim: Seq<char>,
    process: u32,
    nonce: u64,
)
    requires
        crate::generator::is_generator_launch(launch, source, caps, claim, process, nonce),
    ensures
        launch.inputs@.len() == 1,
        launch.inputs@[0].contents@ == source,
        launch.inputs@[0].name@ == launch.entry@,
        launch.env@.len() == 1,
        launch.env@[0].0@ == "KEN_VALUE"@,
        launch.env@[0].1@ == claim,
        crate::text::texts(launch.args@) == crate::generator::sandbox_args(
            caps,
            "--allow-env="@ + crate::text::joined(
                seq!["KEN_VALUE"@] + crate::text::texts(caps.env@),
                ","@,
            ),
        ),
        launch.stdout@ != launch.stderr@,
{
    lemma_names_differ(
        "ken-gen-out-"@,
        "ken-gen-err-"@,
        crate::generator::run_stem(source, caps, process, nonce) + ".log"@,
        8,
    );
    let stem = crate::generator::run_stem(source, caps, process, nonce);
    assert("ken-gen-out-"@ + stem + ".log"@ =~= "ken-gen-out-"@ + (stem + ".log"@));
    assert("ken-gen-err-"@ + stem + ".log"@ =~= "ken-gen-err-"@ + (stem + ".log"@));
}

proof fn lemma_names_differ(a: Seq<char>, b: Seq<char>, tail: Seq<char>, at: int)
    requires
        a == "ken-gen-out-"@ && b == "ken-gen-err-"@ && at == 8,
    ensures
        a + tail != b + tail,
{
    reveal_strlit("ken-gen-out-");
    reveal_strlit("ken-gen-err-");
    assert((a + tail)[at] == 'o');
    assert((b + tail)[at] == 'e');
}

/// A handler is run from its own module, with the reference and the pinned revision as the
/// variables that are set; an unpinned revision is an empty text.
pub proof fn law_handlers_run_on_their_reference(
    launch: Launch,
    source: Seq<char>,
    caps: Capabilities,
    reference: Seq<char>,
    rev: Option<String>,
    process: u32,
    nonce: u64,
)
    requires
        crate::generator::is_handler_launch(
            launch,
            source,
            caps,
            reference,
            rev,
            process,
            nonce,
        ),
    ensures
        launch.inputs@.len() == 2,
        launch.inputs@[0].contents@ == source,
        launch.inputs@[1].name@ == launch.entry@,
        launch.env@.len() == 2,
        launch.env@[0].0@ == "KEN_REF"@ && launch.env@[0].1@ == reference,
        launch.env@[1].0@ == "KEN_REV"@,
        rev matches Some(text) ==> launch.env@[1].1@ == text@,
        rev is None ==> launch.env@[1].1@.len() == 0,
        crate::text::texts(launch.args@) == crate::generator::sandbox_args(
            caps,
            "--allow-env="@ + crate::text::joined(
                seq!["KEN_REF"@, "KEN_REV"@] + crate::text::texts(caps.env@),
                ","@,
            ),
        ),
{
}

/// A hash covers the source and every capability: where only one of them differs, what is
/// hashed differs.
pub proof fn law_hashes_cover_everything(
    source: Seq<char>,
    other: Seq<char>,
    a: Capabilities,
    b: Capabilities,
)
    ensures
        crate::generator::content_hash(source, a) == crate::digest::text_hash(
            crate::generator::hashed_text(source, a),
        ),
        source != other ==> crate::generator::hashed_text(source, a)
            != crate::generator::hashed_text(other, a),
        a.read@ == b.read@ && a.env@ == b.env@ && crate::generator::capability_list(a.net@)
            != crate::generator::capability_list(b.net@) ==> crate::generator::hashed_text(
            source,
            a,
        ) != crate::generator::hashed_text(source, b),
        a.net@ == b.net@ && a.env@ == b.env@ && crate::generator::capability_list(a.read@)
            != crate::generator::capability_list(b.read@) ==> crate::generator::hashed_text(
            source,
            a,
        ) != crate::generator::hashed_text(source, b),
        a.net@ == b.net@ && a.read@ == b.read@ && crate::generator::capability_list(a.env@)
            != crate::generator::capability_list(b.env@) ==> crate::generator::hashed_text(
            source,
            a,
        ) != crate::generator::hashed_text(source, b),
{
    let net = crate::generator::capability_list(a.net@);
    let read = crate::generator::capability_list(a.read@);
    let env = crate::generator::capability_list(a.env@);
    let net_b = crate::generator::capability_list(b.net@);
    let read_b = crate::generator::capability_list(b.read@);
    let env_b = crate::generator::capability_list(b.env@);
    let n = "\0net\0"@;
    let r = "\0read\0"@;
    let e = "\0env\0"@;
    let none = Seq::<char>::empty();
    let whole = crate::generator::hashed_text(source, a);
    let whole_b = crate::generator::hashed_text(source, b);
    lemma_between(none, source, other, n + net + r + read + e + env);
    assert(whole =~= none + source + (n + net + r + read + e + env));
    assert(crate::generator::hashed_text(other, a) =~= none + other + (n + net + r + read + e
        + env));
    if a.read@ == b.read@ && a.env@ == b.env@ {
        lemma_between(source + n, net, net_b, r + read + e + env);
        assert(whole =~= source + n + net + (r + read + e + env));
        assert(whole_b =~= source + n + net_b + (r + read + e + env));
    }
    if a.net@ == b.net@ && a.env@ == b.env@ {
        lemma_between(source + n + net + r, read, read_b, e + env);
        assert(whole =~= source + n + net + r + read + (e + env));
        assert(whole_b =~= source + n + net + r + read_b + (e + env));
    }
    if a.net@ == b.net@ && a.read@ == b.read@ {
        lemma_between(source + n + net + r + read + e, env, env_b, none);
        assert(whole =~= source + n + net + r + read + e + env + none);
        assert(whole_b =~= source + n + net + r + read + e + env_b + none);
    }
}

/// What stands between the same texts can be read off.
proof fn lemma_between(before: Seq<char>, a: Seq<char>, b: Seq<char>, behind: Seq<char>)
    ensures
        before + a + behind == before + b + behind ==> a == b,
{
    if before + a + behind == before + b + behind {
        let s = before + a + behind;
        let t = before + b + behind;
        assert(s.len() == t.len());
        let n = before.len() as int;
        assert(s.subrange(n, n + a.len()) =~= a);
        assert(t.subrange(n, n + b.len()) =~= b);
    }
}

/// A run costs ten where it may use the network, and three where it may not.
pub proof fn law_runs_cost(caps: Capabilities)
    ensures
        caps.net@.len() > 0 ==> crate::generator::run_cost(caps) == 0x4024_0000_0000_0000,
        caps.net@.len() == 0 ==> crate::generator::run_cost(caps) == 0x4008_0000_0000_0000,
{
}

/// A run can be trusted exactly where it started, ended in time and without fault, and
/// ran what was recorded. One that never started cannot.
pub proof fn law_only_clean_runs_count(run: GeneratorRun, hash_changed: bool)
    ensures
        run.is_ok() <==> run.spawned && !run.timed_out && !run.hash_changed && run.exit_code
            == Some(0i32),
        crate::generator::is_unstarted(run, hash_changed) ==> !run.is_ok() && run.stdout@.len() == 0
            && run.hash_changed == hash_changed,
{
}

/// An exit code is shown as a number, with its sign where it is negative; a process that a
/// signal ended has none.
pub proof fn law_exit_codes_are_shown(code: i32)
    ensures
        code >= 0 ==> crate::resolve::code_text(Some(code)) == crate::text::digits_of(code as nat),
        code < 0 ==> crate::resolve::code_text(Some(code)) == seq!['-'] + crate::text::digits_of(
            (0 - code) as nat,
        ),
        crate::resolve::code_text(None) == "signal"@,
{
}

/// A file at a revision is shown by the version control of its repository, run there, for
/// that revision and that path.
pub proof fn law_revisions_are_shown(root: Seq<char>, rev: Seq<char>, path: Seq<char>)
    ensures
        ({
            let git = crate::resolve::show_command(Vcs::Git, root, rev, path);
            &&& git[0] == "git"@
            &&& git.contains(root)
            &&& git.last() == rev + ":"@ + path
            &&& git[git.len() - 2] == "show"@
        }),
        ({
            let jj = crate::resolve::show_command(Vcs::Jj, root, rev, path);
            &&& jj[0] == "jj"@
            &&& jj.contains(root)
            &&& jj.last() == path
            &&& jj[jj.len() - 2] == rev
            &&& jj[jj.len() - 3] == "-r"@
        }),
        crate::resolve::rev_or(None, root) == root,
{
    let git = crate::resolve::show_command(Vcs::Git, root, rev, path);
    let jj = crate::resolve::show_command(Vcs::Jj, root, rev, path);
    assert(git[2] == root);
    assert(jj[2] == root);
}

// ---------------------------------------------------------------------------
// Roots
// ---------------------------------------------------------------------------

/// Whether a configuration mounts a name.
pub open spec fn mounts(config: Config, name: Seq<char>) -> bool {
    exists|i: int| 0 <= i < config.sources@.len() && (#[trigger] config.sources@[i]).0@ == name
}

proof fn lemma_not_mounted(sources: Seq<(String, SourceRootCfg)>, name: Seq<char>)
    requires
        forall|i: int| 0 <= i < sources.len() ==> (#[trigger] sources[i]).0@ != name,
    ensures
        crate::config::source_at(sources, name) == sources.len(),
    decreases sources.len(),
{
    if sources.len() > 0 {
        let rest = sources.skip(1);
        assert forall|i: int| 0 <= i < rest.len() implies (#[trigger] rest[i]).0@ != name by {
            assert(rest[i] == sources[i + 1]);
        }
        lemma_not_mounted(rest, name);
    }
}

/// The project is the parent of the store, read through the version control it has; the
/// store is itself; a name is the repository mounted under it. A name that is not mounted,
/// or mounted with code, is no place.
pub proof fn law_roots_lie_where_they_are_mounted(
    config: Config,
    root: SourceRoot,
    has_parent: bool,
    parent_has_jj: bool,
    i: int,
)
    requires
        config.wf(),
    ensures
        root is Store ==> (config.root_spec(root, has_parent, parent_has_jj) matches Ok(
            (below, parent, _),
        ) && below is None && !parent),
        root is Project && has_parent ==> (config.root_spec(
            root,
            has_parent,
            parent_has_jj,
        ) matches Ok((below, parent, vcs)) && below is None && parent && (parent_has_jj <==> vcs
            == Vcs::Jj)),
        root is Project && !has_parent ==> config.root_spec(root, has_parent, parent_has_jj) is Err,
        root matches SourceRoot::Named(name) && !mounts(config, name@) ==> config.root_spec(
            root,
            has_parent,
            parent_has_jj,
        ) is Err,
        root matches SourceRoot::Named(name) && 0 <= i < config.sources@.len()
            && config.sources@[i].0@ == name@ ==> match config.sources@[i].1.repo {
            Some(repo) => config.root_spec(root, has_parent, parent_has_jj) == Ok::<
                (Option<Seq<char>>, bool, Vcs),
                Seq<char>,
            >((Some(repo@), false, config.sources@[i].1.vcs)),
            None => config.root_spec(root, has_parent, parent_has_jj) is Err,
        },
{
    if let SourceRoot::Named(name) = root {
        if !mounts(config, name@) {
            assert forall|k: int| 0 <= k < config.sources@.len() implies (
            #[trigger] config.sources@[k]).0@ != name@ by {}
            lemma_not_mounted(config.sources@, name@);
        }
        if 0 <= i < config.sources@.len() && config.sources@[i].0@ == name@ {
            crate::config::law_each_source_is_found(config, i);
        }
    }
}

/// A reference whose name is mounted with code is read by that code, with the path and the
/// revision of the reference and the capabilities of the mount; any other reference is a
/// file.
pub proof fn law_mounted_code_is_run(
    r: GroundSource,
    config: Config,
    src: SourceRef,
    module: Option<String>,
    i: int,
)
    requires
        config.wf(),
        crate::resolve::is_ground_source(r, config, src, module),
    ensures
        !(src.root is Named) ==> r == GroundSource::File(src),
        src.root matches SourceRoot::Named(name) && !mounts(config, name@) ==> r
            == GroundSource::File(src),
        src.root matches SourceRoot::Named(name) && 0 <= i < config.sources@.len()
            && config.sources@[i].0@ == name@ && config.sources@[i].1.handler is None ==> r
            == GroundSource::File(src),
        src.root matches SourceRoot::Named(name) && 0 <= i < config.sources@.len()
            && config.sources@[i].0@ == name@ && config.sources@[i].1.handler is Some ==> {
            let mount = config.sources@[i].1;
            &&& r matches GroundSource::Handler(h)
            &&& h.reference == src.path
            &&& h.rev == src.rev
            &&& h.handler.scheme@ == config.sources@[i].0@
            &&& h.handler.src_path@ == mount.handler->Some_0@
            &&& h.handler.caps.net@ == mount.net@
            &&& h.handler.caps.read@ == mount.read@
            &&& h.handler.caps.env@ == mount.env@
            &&& h.handler.hash.0@ == crate::generator::content_hash(
                module.unwrap()@,
                h.handler.caps,
            )
        },
{
    if let SourceRoot::Named(name) = src.root {
        if !mounts(config, name@) {
            assert forall|k: int| 0 <= k < config.sources@.len() implies (
            #[trigger] config.sources@[k]).0@ != name@ by {}
            lemma_not_mounted(config.sources@, name@);
        }
        if 0 <= i < config.sources@.len() && config.sources@[i].0@ == name@ {
            crate::config::law_each_source_is_found(config, i);
        }
    }
}

// ---------------------------------------------------------------------------
// Reading
// ---------------------------------------------------------------------------

/// Whether a configuration lists a program.
pub open spec fn lists_program(config: Config, program: Seq<char>) -> bool {
    exists|i: int|
        0 <= i < config.command.allow@.len() && (#[trigger] config.command.allow@[i])@ == program
}

/// A command runs only where its program is listed, and is run as it was bound, in its
/// root. One without a program, or whose program is not listed, is refused.
pub proof fn law_only_listed_commands_run(
    r: Result<ReadPlan, ReadFail>,
    config: Config,
    source: GroundSource,
    has_parent: bool,
    parent_has_jj: bool,
)
    requires
        source is Command,
        crate::resolve::is_plan(r, config, source, has_parent, parent_has_jj),
    ensures
        r matches Ok(plan) ==> (plan matches ReadPlan::Command { argv, .. } && argv@
            == source->Command_0.argv@ && argv@.len() > 0 && lists_program(config, argv@[0]@)),
        source->Command_0.argv@.len() == 0 || !lists_program(
            config,
            source->Command_0.argv@[0]@,
        ) ==> r matches Err(ReadFail::Errored(_)),
        source->Command_0.argv@.len() > 0 && lists_program(config, source->Command_0.argv@[0]@)
            && source->Command_0.root is Store ==> (r matches Ok(
            ReadPlan::Command { root, .. },
        ) && root is Store),
{
}

/// A file is read below its root and at its revision. A generator is read from where it
/// was kept. A handler is read from where its scheme is mounted now, with the capabilities
/// it has there now, and not at all where it is no longer mounted with code.
pub proof fn law_sources_are_read_where_they_lie(
    r: Result<ReadPlan, ReadFail>,
    config: Config,
    source: GroundSource,
    has_parent: bool,
    parent_has_jj: bool,
    i: int,
)
    requires
        config.wf(),
        crate::resolve::is_plan(r, config, source, has_parent, parent_has_jj),
    ensures
        source matches GroundSource::File(src) && r is Ok ==> (r matches Ok(
            ReadPlan::File { path, rev, .. },
        ) && path == source->File_0.path && rev == source->File_0.rev),
        source matches GroundSource::File(src) && src.root is Store ==> (r matches Ok(
            ReadPlan::File { root, .. },
        ) && root == RootPath::Store),
        source matches GroundSource::File(src) && src.root is Project && has_parent ==> (
        r matches Ok(ReadPlan::File { root, .. }) && root == RootPath::Parent),
        source matches GroundSource::Generator(g) ==> (r matches Ok(
            ReadPlan::Generator { src_path },
        ) && src_path == g.src_path),
        source matches GroundSource::Handler(h) && !mounts(config, h.handler.scheme@) ==> r is Err,
        source is Handler && 0 <= i < config.sources@.len() && config.sources@[i].0@
            == source->Handler_0.handler.scheme@ ==> match config.sources@[i].1.handler {
            None => r is Err,
            Some(module) => {
                &&& r matches Ok(ReadPlan::Handler { src_path, caps })
                &&& src_path@ == module@
                &&& caps.net@ == config.sources@[i].1.net@
                &&& caps.read@ == config.sources@[i].1.read@
                &&& caps.env@ == config.sources@[i].1.env@
            },
        },
{
    if let GroundSource::Handler(h) = source {
        let name = h.handler.scheme@;
        if !mounts(config, name) {
            assert forall|k: int| 0 <= k < config.sources@.len() implies (
            #[trigger] config.sources@[k]).0@ != name by {}
            lemma_not_mounted(config.sources@, name);
        }
        if 0 <= i < config.sources@.len() && config.sources@[i].0@ == name {
            crate::config::law_each_source_is_found(config, i);
        }
    }
}

/// What the locator selects of what was read is the span, with its own hash and the
/// revision of the read. What it does not select is unresolved. A read that failed stays
/// failed as it did.
pub proof fn law_spans_come_from_what_was_read(
    r: ReadResult,
    locator: Locator,
    read: Result<(String, String), ReadFail>,
)
    requires
        crate::resolve::is_reading(r, locator, read),
    ensures
        read matches Err(ReadFail::Transient) ==> r is Transient,
        read matches Err(ReadFail::Errored(_)) ==> r is Errored,
        r is Transient ==> read is Err,
        r matches ReadResult::Resolved(span) ==> {
            &&& read is Ok
            &&& crate::resolve::located(locator, read->Ok_0.0@) == Ok::<
                Option<Seq<char>>,
                Seq<char>,
            >(Some(span.text@))
            &&& span.rev@ == read->Ok_0.1@
            &&& span.span_hash@ == crate::digest::text_hash(span.text@)
        },
        r is Unresolved ==> read is Ok && crate::resolve::located(locator, read->Ok_0.0@) == Ok::<
            Option<Seq<char>>,
            Seq<char>,
        >(None),
        locator is Whole && read is Ok ==> (r matches ReadResult::Resolved(span) && span.text@
            == read->Ok_0.0@),
{
}

/// Whether a read gave a text under a revision.
pub open spec fn gave(
    r: Result<(String, String), ReadFail>,
    text: Seq<char>,
    rev: Seq<char>,
) -> bool {
    r is Ok && r->Ok_0.0@ == text && r->Ok_0.1@ == rev
}

/// A file that was read is its text, under its pinned revision or as the working copy; any
/// failure is an error, and never one that passes.
pub proof fn law_files_are_read_or_fail(
    r: Result<(String, String), ReadFail>,
    path: Seq<char>,
    rev: Option<String>,
    event: FileEvent,
)
    requires
        crate::resolve::is_file_read(r, path, rev, event),
    ensures
        event matches FileEvent::Text(text) && rev is Some ==> gave(
            r,
            event->Text_0@,
            rev->Some_0@,
        ),
        event is Text && rev is None ==> gave(r, event->Text_0@, "working"@),
        !(event is Text) ==> r matches Err(ReadFail::Errored(_)),
{
}

/// A command that ended well gave its output. One that ran out of time may be tried again;
/// one that failed in any other way may not.
pub proof fn law_commands_give_their_output(
    r: Result<(String, String), ReadFail>,
    program: Seq<char>,
    event: CommandEvent,
)
    requires
        crate::resolve::is_command_read(r, program, event),
    ensures
        r is Ok <==> event is Exited && event->code == Some(0i32),
        event is Exited && event->code == Some(0i32) ==> gave(r, event->stdout@, "computed"@),
        r matches Err(ReadFail::Transient) <==> event is TimedOut,
{
}

/// A generator or handler that ended well and is still what was bound gave its output. One
/// that ran out of time may be tried again, unless it has changed; any other failure is an
/// error. What a handler gave stands under its pinned revision.
pub proof fn law_code_gives_its_output(
    r: Result<(String, String), ReadFail>,
    s: Result<(String, String), ReadFail>,
    h: HandlerSource,
    run: GeneratorRun,
)
    requires
        crate::resolve::is_generator_read(r, run),
        crate::resolve::is_handler_read(s, h, run),
    ensures
        r is Ok <==> run.is_ok(),
        s is Ok <==> run.is_ok(),
        run.is_ok() ==> gave(r, run.stdout@, "computed"@),
        run.is_ok() && h.rev is Some ==> gave(s, run.stdout@, h.rev->Some_0@),
        run.is_ok() && h.rev is None ==> gave(s, run.stdout@, "computed"@),
        r matches Err(ReadFail::Transient) <==> run.timed_out && !run.hash_changed,
        s matches Err(ReadFail::Transient) <==> run.timed_out && !run.hash_changed,
{
}

/// Code runs only while its source and its capabilities are those whose hash was bound;
/// otherwise nothing is started.
pub proof fn law_only_bound_code_runs(
    r: RunPlan,
    g: GeneratorRef,
    s: RunPlan,
    h: HandlerSource,
    source: Seq<char>,
    claim: Seq<char>,
    caps: Capabilities,
    process: u32,
    nonce: u64,
)
    requires
        crate::resolve::is_generator_plan(r, g, source, claim, process, nonce),
        crate::resolve::is_handler_plan(s, h, source, caps, process, nonce),
    ensures
        r is Start <==> g.hash.0@ == crate::generator::content_hash(source, g.caps),
        r matches RunPlan::Refused(run) ==> !run.spawned && run.hash_changed && !run.is_ok(),
        r matches RunPlan::Start(launch) ==> launch.inputs@[0].contents@ == source
            && launch.env@[0].1@ == claim,
        s is Start <==> h.handler.hash.0@ == crate::generator::content_hash(source, caps),
        s matches RunPlan::Refused(run) ==> !run.spawned && run.hash_changed && !run.is_ok(),
        s matches RunPlan::Start(launch) ==> launch.inputs@[0].contents@ == source
            && launch.env@[0].1@ == h.reference@,
{
}

/// A process is left alone while it runs in time, and killed when its time is up; one that
/// has ended is done, with its exit code. What is reported is what was seen.
pub proof fn law_processes_are_supervised(
    r: Supervision,
    wait: Wait,
    out_of_time: bool,
    run: GeneratorRun,
    stderr_nonempty: bool,
    stdout: String,
)
    requires
        crate::generator::is_supervision(r, wait, out_of_time),
        crate::generator::is_collected(run, r, stderr_nonempty, stdout),
    ensures
        r is Kill <==> wait is Running && out_of_time,
        r is Sleep <==> wait is Running && !out_of_time,
        wait matches Wait::Exited(code) ==> r == (Supervision::Done { exit_code: code })
            && run.exit_code == code && !run.timed_out,
        wait is Failed ==> r == (Supervision::Done { exit_code: None }) && !run.is_ok(),
        r is Kill ==> run.timed_out && !run.is_ok(),
        wait == Wait::Exited(Some(0i32)) ==> run.is_ok(),
        run.stdout == stdout,
{
}

// ---------------------------------------------------------------------------
// Choices
// ---------------------------------------------------------------------------

/// How many of three are given.
pub open spec fn given(
    source: Option<String>,
    command: Option<String>,
    generator: Option<String>,
) -> int {
    (if source is Some { 1int } else { 0int }) + (if command is Some { 1int } else { 0int }) + (
    if generator is Some { 1int } else { 0int })
}

/// A ground has exactly one source, and a command has a program.
pub proof fn law_one_source_is_chosen(
    r: Result<Choice, String>,
    source: Option<String>,
    command: Option<String>,
    generator: Option<String>,
)
    requires
        crate::cli::is_choice(r, source, command, generator),
    ensures
        given(source, command, generator) != 1 ==> r is Err,
        given(source, command, generator) == 1 && source is Some ==> r == Ok::<Choice, String>(
            Choice::Source(source->Some_0),
        ),
        given(source, command, generator) == 1 && generator is Some ==> r == Ok::<Choice, String>(
            Choice::Generator(generator->Some_0),
        ),
        given(source, command, generator) == 1 && command is Some ==> (r is Err
            <==> super::text::is_blank(command->Some_0@)),
        given(source, command, generator) == 1 && command is Some && r is Ok ==> (r matches Ok(
            Choice::Command(argv),
        ) && crate::text::texts(argv@) == crate::mcp::tokens(
            crate::mcp::TokenKind::Word,
            command->Some_0@,
        )),
{
    if let Some(text) = command {
        super::searching::lemma_no_tokens(text@);
    }
}

/// A doubt leaves a belief ungrounded by hand, at the confidence asked for, or at a tenth
/// where none is asked for, and never below zero or above one.
pub proof fn law_doubts_unground(r: Epistemics, confidence: Option<Real>)
    requires
        crate::cli::is_doubt(r, confidence),
    ensures
        r.groundedness == (Groundedness::Ungrounded { source: TriageSource::Manual }),
        confidence is None ==> r.confidence.bits == 0x3fb9_9999_9999_999a,
        confidence matches Some(asked) && asked.bits <= 0x3ff0_0000_0000_0000 ==> r.confidence
            == confidence->Some_0,
        confidence matches Some(asked) && 0x3ff0_0000_0000_0000 < asked.bits
            <= 0x7ff0_0000_0000_0000 ==> r.confidence.bits == 0x3ff0_0000_0000_0000,
        confidence matches Some(asked) && 0x8000_0000_0000_0000 < asked.bits
            <= 0xfff0_0000_0000_0000 ==> r.confidence.bits == 0,
{
}

/// The daemon waits for the interval it is given, else for the one configured, and a
/// second at least; a text that is no elapsed time is an error.
pub proof fn law_intervals_are_kept(
    r: Result<crate::time::Elapsed, crate::error::Error>,
    interval: Option<String>,
    configured: crate::time::Elapsed,
)
    requires
        crate::cli::is_wait(r, interval, configured),
    ensures
        interval is None ==> r is Ok,
        interval is None && configured.total() >= 1_000_000_000 ==> r->Ok_0.total()
            == configured.total(),
        r is Ok ==> r->Ok_0.total() >= 1_000_000_000,
        interval is Some ==> (r is Ok <==> (crate::duration::reading(
            interval->Some_0@,
        ) matches Ok(span) && span.months == 0)),
        interval is Some && r is Ok && crate::duration::reading(interval->Some_0@)->Ok_0.nanos
            >= 1_000_000_000 ==> r->Ok_0.total() == crate::duration::reading(
            interval->Some_0@,
        )->Ok_0.nanos,
{
}

} // verus!
