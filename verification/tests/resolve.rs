//! Reading sources and projecting locators.

use jishuken::config::{CommandCfg, Config, RootPath, SourceRootCfg, Vcs};
use jishuken::digest::hash_text;
use jishuken::locator::parse_source;
use jishuken::generator::{collect, errored, GeneratorSrc, Supervision};
use jishuken::resolve::{
    command_output, finish_generator, finish_handler, ground_source_for, handler_module,
    line_range, lines_of, markdown_section, read_binding, read_file, read_source, resolve_locator,
    run_command, show_args, CommandEvent, FileEvent, ReadFail, ReadPlan, ReadResult,
};
use jishuken::schema::{
    Capabilities, CommandSource, GroundSource, HandlerSource, Locator, SourceRoot,
};

const DOC: &str = "# Title\nintro\n\n## Authentication\nauth lives in src/auth.rs\n\n## Other\nx";

#[test]
fn markdown_section_extracts_until_next_same_level() {
    let s = markdown_section(DOC, "authentication").unwrap();
    assert!(s.contains("auth lives in src/auth.rs"));
    assert!(!s.contains("## Other"));
    assert!(s.starts_with("## Authentication"));
}

#[test]
fn line_range_slices_inclusive() {
    let s = line_range("a\nb\nc\nd", 2, 3).unwrap();
    assert_eq!(s, "b\nc");
    assert!(line_range("a\nb", 5, 6).is_none());
}

#[test]
fn quote_present_or_absent() {
    assert_eq!(
        resolve_locator(
            &Locator::Quote {
                needle: "verify".into()
            },
            "fn verify() {}"
        )
        .unwrap(),
        Some("verify".to_string())
    );
    assert_eq!(
        resolve_locator(
            &Locator::Quote {
                needle: "nope".into()
            },
            "fn verify() {}"
        )
        .unwrap(),
        None
    );
}

#[test]
fn treesitter_is_unsupported() {
    let r = resolve_locator(
        &Locator::TreeSitter {
            lang: "rust".into(),
            query: "(x)".into(),
        },
        "fn x() {}",
    );
    assert!(r.is_err());
}

#[test]
fn lines_end_as_those_of_the_standard_library() {
    for text in ["", "a", "a\n", "a\nb", "a\r\nb\r\n", "\n\n", "a\rb\n", "x\r"] {
        let expected: Vec<&str> = text.lines().collect();
        assert_eq!(lines_of(text), expected, "{text:?}");
    }
}

#[test]
fn a_read_binds_the_hash_of_its_span() {
    let read = read_binding(&Locator::Whole, Ok(("hello".into(), "r1".into())));
    match read {
        ReadResult::Resolved(span) => {
            assert_eq!(span.text, "hello");
            assert_eq!(span.rev, "r1");
            assert_eq!(span.span_hash, blake3::hash(b"hello").to_hex().to_string());
            assert_eq!(span.span_hash, hash_text("hello"));
        }
        other => panic!("{other:?}"),
    }
    let gone = Locator::Quote { needle: "nope".into() };
    assert_eq!(
        read_binding(&gone, Ok(("hello".into(), String::new()))),
        ReadResult::Unresolved
    );
    assert_eq!(
        read_binding(&Locator::Whole, Err(ReadFail::Transient)),
        ReadResult::Transient
    );
    assert_eq!(
        read_binding(&Locator::Whole, Err(ReadFail::Errored("denied".into()))),
        ReadResult::Errored("denied".into())
    );
}

#[test]
fn command_allowlist_denies_the_unlisted() {
    let none = CommandCfg::default();
    assert!(!none.allows("git"));
    let some = CommandCfg { allow: vec!["git".into()] };
    assert!(some.allows("git"));
    assert!(!some.allows("rm"));
}

fn mounted() -> Config {
    let mut config = Config::default();
    config.sources.push((
        "jira".into(),
        SourceRootCfg {
            repo: None,
            vcs: Vcs::Git,
            handler: Some("verifiers/jira.ts".into()),
            net: vec!["jira.example".into()],
            read: vec![],
            env: vec!["JIRA_TOKEN".into()],
        },
    ));
    config
}

#[test]
fn a_mounted_scheme_is_code_and_any_other_a_file() {
    let config = mounted();
    let (src, _) = parse_source("jira:PROJ-1", None).unwrap();
    assert_eq!(handler_module(&config, &src).as_deref(), Some("verifiers/jira.ts"));
    match ground_source_for(&config, src, Some("export {}".into())) {
        GroundSource::Handler(h) => {
            assert_eq!(h.reference, "PROJ-1");
            assert_eq!(h.handler.scheme, "jira");
            assert_eq!(h.handler.caps.net, ["jira.example"]);
            assert_eq!(h.handler.caps.env, ["JIRA_TOKEN"]);
        }
        other => panic!("{other:?}"),
    }
    let (src, _) = parse_source("src/main.rs", None).unwrap();
    assert_eq!(handler_module(&config, &src), None);
    assert!(matches!(ground_source_for(&config, src, None), GroundSource::File(_)));
}

fn file(text: &str, rev: Option<&str>) -> GroundSource {
    GroundSource::File(parse_source(text, rev.map(String::from)).unwrap().0)
}

fn failed<T: std::fmt::Debug>(result: Result<T, ReadFail>) -> String {
    match result {
        Err(ReadFail::Errored(text)) => text,
        other => panic!("{other:?}"),
    }
}

#[test]
fn a_file_is_read_below_its_root() {
    let mut config = mounted();
    let wiki = SourceRootCfg { repo: Some("../wiki".into()), ..SourceRootCfg::default() };
    config.sources.push(("wiki".into(), wiki));
    let plan = |source: &GroundSource| read_source(&config, source, true, true);
    assert_eq!(
        plan(&file("src/a.rs", Some("r1"))).unwrap(),
        ReadPlan::File {
            root: RootPath::Parent,
            path: "src/a.rs".into(),
            rev: Some("r1".into()),
            vcs: Vcs::Jj,
        }
    );
    assert_eq!(
        plan(&file("store:a.txt", None)).unwrap(),
        ReadPlan::File { root: RootPath::Store, path: "a.txt".into(), rev: None, vcs: Vcs::Git }
    );
    assert_eq!(
        plan(&file("wiki:Page.md", None)).unwrap(),
        ReadPlan::File {
            root: RootPath::Below("../wiki".into()),
            path: "Page.md".into(),
            rev: None,
            vcs: Vcs::Git,
        }
    );
    assert_eq!(
        failed(plan(&file("nowhere:Page.md", None))),
        "config error: unknown source root `nowhere`"
    );
    assert_eq!(
        failed(plan(&file("jira:PROJ-1", None))),
        "config error: source root `jira` is handler-backed, not a repo"
    );
    assert_eq!(
        failed(read_source(&config, &file("a.txt", None), false, false)),
        "config error: store has no parent project"
    );
}

#[test]
fn a_pinned_revision_is_shown_by_its_vcs() {
    assert_eq!(show_args(Vcs::Git, "/r", "v1", "a.md"), ["git", "-C", "/r", "show", "v1:a.md"]);
    assert_eq!(
        show_args(Vcs::Jj, "/r", "v1", "a.md"),
        ["jj", "-R", "/r", "file", "show", "-r", "v1", "a.md"]
    );
    let read = |rev: Option<&str>, event| read_file("a.md", &rev.map(String::from), event);
    assert_eq!(
        read(None, FileEvent::Text("x".into())).unwrap(),
        ("x".to_string(), "working".to_string())
    );
    assert_eq!(
        read(Some("v1"), FileEvent::Text("x".into())).unwrap(),
        ("x".to_string(), "v1".to_string())
    );
    assert_eq!(failed(read(None, FileEvent::Unreadable("gone".into()))), "a.md: gone");
    assert_eq!(
        failed(read(Some("v1"), FileEvent::NotStarted("no git".into()))),
        "spawning vcs: no git"
    );
    assert_eq!(failed(read(Some("v1"), FileEvent::Failed("bad rev".into()))), "bad rev");
}

#[test]
fn a_command_runs_only_where_it_is_allowed() {
    let command = |argv: &[&str]| {
        GroundSource::Command(CommandSource {
            argv: argv.iter().map(|s| s.to_string()).collect(),
            root: SourceRoot::Project,
        })
    };
    let mut config = Config::default();
    assert_eq!(
        failed(read_source(&config, &command(&["curl", "-s"]), true, false)),
        "command `curl` not in [command] allow list"
    );
    assert_eq!(failed(read_source(&config, &command(&[]), true, false)), "empty command");
    config.command.allow.push("curl".into());
    assert_eq!(
        read_source(&config, &command(&["curl", "-s"]), true, false).unwrap(),
        ReadPlan::Command {
            argv: vec!["curl".into(), "-s".into()],
            root: RootPath::Parent,
        }
    );
    let hash = blake3::hash(b"curl -s").to_hex().to_string();
    assert_eq!(
        command_output(&vec!["curl".into(), "-s".into()]),
        format!("ken-cmd-{}.out", &hash[..16])
    );
}

#[test]
fn a_command_is_trusted_only_when_it_exits_cleanly() {
    let exited = |code| CommandEvent::Exited { code, stdout: "out".into() };
    let run = |event| run_command("curl", event);
    assert_eq!(run(exited(Some(0))).unwrap(), ("out".to_string(), "computed".to_string()));
    assert_eq!(failed(run(exited(Some(3)))), "command exited with 3");
    assert_eq!(failed(run(exited(Some(-1)))), "command exited with -1");
    assert_eq!(failed(run(exited(None))), "command exited with signal");
    assert_eq!(failed(run(CommandEvent::NoOutputFile("full".into()))), "temp: full");
    assert_eq!(failed(run(CommandEvent::NotStarted("gone".into()))), "spawning curl: gone");
    assert_eq!(failed(run(CommandEvent::Lost("lost".into()))), "lost");
    assert_eq!(run(CommandEvent::TimedOut), Err(ReadFail::Transient));
}

#[test]
fn a_run_is_trusted_only_when_nothing_changed_and_it_exits_cleanly() {
    let done = |code| collect(Supervision::Done { exit_code: code }, true, "out".into());
    assert_eq!(
        finish_generator(done(Some(0))).unwrap(),
        ("out".to_string(), "computed".to_string())
    );
    assert_eq!(failed(finish_generator(done(Some(1)))), "generator did not exit cleanly");
    assert_eq!(failed(finish_generator(errored(false))), "generator did not exit cleanly");
    assert_eq!(
        failed(finish_generator(errored(true))),
        "generator source or capabilities changed; update its binding"
    );
    let killed = collect(Supervision::Kill, false, String::new());
    assert_eq!(finish_generator(killed), Err(ReadFail::Transient));

    let (_, handler) =
        jishuken::generator::load_handler("wiki", "w.ts", "x".into(), Capabilities::default());
    let mut h = HandlerSource { handler, reference: "Page".into(), rev: None };
    assert_eq!(
        finish_handler(&h, done(Some(0))).unwrap(),
        ("out".to_string(), "computed".to_string())
    );
    assert_eq!(
        failed(finish_handler(&h, done(None))),
        "handler `wiki` did not exit cleanly"
    );
    assert_eq!(
        failed(finish_handler(&h, errored(true))),
        "handler `wiki` source or capabilities changed; update its binding"
    );
    let killed = collect(Supervision::Kill, false, String::new());
    assert_eq!(finish_handler(&h, killed), Err(ReadFail::Transient));
    h.rev = Some("v7".into());
    assert_eq!(finish_handler(&h, done(Some(0))).unwrap().1, "v7");
    // A scheme that is mounted no longer cannot be read.
    assert_eq!(
        failed(read_source(&Config::default(), &GroundSource::Handler(h), true, false)),
        "source root `wiki` is no longer handler-backed"
    );
    let generator = GeneratorSrc::new("v.ts".into(), "x".into(), Capabilities::default()).to_ref();
    let src_path = generator.src_path.clone();
    assert_eq!(
        read_source(&Config::default(), &GroundSource::Generator(generator), true, false).unwrap(),
        ReadPlan::Generator { src_path }
    );
}
