//! What the command line decides and says.

use jishuken::cli::{
    add_fact, check_line, choose_source, confirming_ground, doubt, due_at, ground_line, grant_line,
    grounded_line, humanize, is_due, launch_label, launch_plist, log_line, recall_lines, relative,
    relative_future, search, short_op, value_to_add, volatility_label, wait_between, why_lines,
    AddParams, Choice, NoValue, NotAdded,
};
use jishuken::config::Config;
use jishuken::duration::HalfLife;
use jishuken::error::Error;
use jishuken::json::Json;
use jishuken::mcp::report::Check;
use jishuken::mcp::SearchParams;
use jishuken::number::Real;
use jishuken::predicate::Predicate;
use jishuken::schema::{
    Claim, Epistemics, Fact, FactId, FactValue, GeneratorHash, GroundBinding, GroundSource,
    Groundedness, Locator, Outcome, Provenance, Resolved, ScheduleMeta, SourceRef, SourceRoot,
    TriageSource, Volatility,
};
use jishuken::store::history::Operation;
use jishuken::time::{Elapsed, Timestamp};
use jishuken::write::WriteOp;

const NOW: Timestamp = Timestamp { secs: 1_700_000_000, nanos: 0 };

fn bits_of(x: f64) -> Real {
    Real { bits: x.to_bits() }
}

fn later(secs: i64) -> Timestamp {
    Timestamp { secs: NOW.secs + secs, nanos: 0 }
}

fn fact(key: &str, value: &str) -> Fact {
    let claim = Claim::parse_key(key).unwrap();
    Fact {
        id: FactId::for_claim(&claim),
        claim,
        value: FactValue::Scalar { value: Json::of_string(value) },
        epistemics: Epistemics {
            confidence: bits_of(0.4),
            groundedness: Groundedness::Ungrounded { source: TriageSource::Ingest },
        },
        schedule: ScheduleMeta {
            half_life: HalfLife::default(),
            centrality: bits_of(1.0),
            last_verified: NOW,
            variance_at_verify: bits_of(0.25),
            priority: bits_of(0.0),
        },
        source_hint: None,
        grounds: vec![],
        provenance: Provenance { ingested_by: "test".into(), ingested_at: NOW },
    }
}

fn ground(path: &str, last: Option<(Outcome, i64)>) -> GroundBinding {
    GroundBinding {
        source: GroundSource::File(SourceRef {
            root: SourceRoot::Project,
            path: path.into(),
            rev: None,
        }),
        locator: Locator::Whole,
        predicate: Predicate::Exists,
        last: last.map(|(outcome, secs)| Resolved {
            rev: String::new(),
            span_hash: "abcdef0123".into(),
            at: later(secs),
            outcome,
            by: None,
        }),
    }
}

#[test]
fn times_are_said_in_the_unit_that_suits() {
    for (secs, text) in [
        (0, "0s"),
        (89, "89s"),
        (90, "1m"),
        (5399, "89m"),
        (5400, "1h"),
        (172_799, "47h"),
        (172_800, "2d"),
    ] {
        assert_eq!(humanize(secs), text);
    }
    assert_eq!(relative(NOW, later(120)), "2m ago");
    assert_eq!(relative(later(5), NOW), "0s ago");
    assert_eq!(relative_future(later(120), NOW), "in 2m");
    assert_eq!(relative_future(NOW, NOW), "overdue");
    assert_eq!(relative_future(NOW, later(1)), "overdue");
}

#[test]
fn a_fact_falls_due_one_half_life_later() {
    let mut f = fact("a.b", "x");
    assert_eq!(due_at(&f), Some(later(3 * 86_400)));
    assert!(!is_due(&f, later(3 * 86_400 - 1)));
    assert!(is_due(&f, later(3 * 86_400)));
    f.schedule.half_life = HalfLife::Never;
    assert_eq!(due_at(&f), None);
    assert!(!is_due(&f, later(1_000_000_000)));
}

#[test]
fn the_daemon_waits_at_least_a_second() {
    let minute = Elapsed { secs: 60, nanos: 0 };
    let wait = |asked: Option<&str>| wait_between(asked.map(String::from), minute);
    assert_eq!(wait(None).unwrap(), minute);
    assert_eq!(wait(Some("5m")).unwrap(), Elapsed { secs: 300, nanos: 0 });
    assert_eq!(wait(Some("PT0.5S")).unwrap(), Elapsed { secs: 1, nanos: 0 });
    assert_eq!(wait(Some("1ms")).unwrap(), Elapsed { secs: 1, nanos: 0 });
    let error = wait(Some("typo")).unwrap_err().to_string();
    assert!(error.contains("bad duration `typo`: "), "{error}");
}

#[test]
fn a_value_is_a_text_or_what_a_file_holds() {
    let text = |v: FactValue| match v {
        FactValue::Scalar { value } => value.text,
        FactValue::Elements { elements } => {
            elements.into_iter().map(|e| e.value.text).collect::<Vec<_>>().join("|")
        }
    };
    assert_eq!(text(value_to_add(None, Some("x".into()), NOW).unwrap()), "\"x\"");
    assert_eq!(
        text(value_to_add(Some("[1, {\"b\": 2}]".into()), Some("x".into()), NOW).unwrap()),
        "1|{\"b\":2}"
    );
    assert_eq!(text(value_to_add(Some(" {\"a\": 1} ".into()), None, NOW).unwrap()), "{\"a\":1}");
    assert_eq!(value_to_add(None, None, NOW).unwrap_err(), NoValue::Missing);
    assert_eq!(value_to_add(Some("{".into()), None, NOW).unwrap_err(), NoValue::NotJson);
}

#[test]
fn exactly_one_source_is_chosen() {
    assert_eq!(
        choose_source(Some("a".into()), None, None).unwrap(),
        Choice::Source("a".into())
    );
    assert_eq!(
        choose_source(None, Some(" git  log ".into()), None).unwrap(),
        Choice::Command(vec!["git".into(), "log".into()])
    );
    assert_eq!(
        choose_source(None, None, Some("v.ts".into())).unwrap(),
        Choice::Generator("v.ts".into())
    );
    assert_eq!(choose_source(None, Some("  ".into()), None).unwrap_err(), "--command is empty");
    assert_eq!(
        choose_source(Some("a".into()), Some("b".into()), None).unwrap_err(),
        "provide exactly one of --source, --command, or --generator"
    );
    assert!(choose_source(None, None, None).is_err());
}

#[test]
fn a_doubt_is_ungrounded_and_clamped() {
    assert_eq!(f64::from_bits(doubt(None).confidence.bits), 0.1);
    assert_eq!(doubt(Some(bits_of(3.0))).confidence, bits_of(1.0));
    assert_eq!(
        doubt(None).groundedness,
        Groundedness::Ungrounded { source: TriageSource::Manual }
    );
}

#[test]
fn a_search_ranks_by_score_within_its_limit() {
    let mut due = fact("svc.port", "8080");
    due.schedule.last_verified = later(-10 * 86_400);
    let facts = vec![fact("svc.url", "http://X"), due, fact("db.host", "x")];
    let scores = vec![bits_of(1.0), bits_of(3.0), bits_of(2.0)];
    let params = |query: &str| SearchParams {
        query: query.into(),
        entity: None,
        relation: None,
        grounded: None,
    };
    let all = params("");
    assert_eq!(search(&facts, &all, false, NOW, &scores, 20), [1, 2, 0]);
    assert_eq!(search(&facts, &all, false, NOW, &scores, 2), [1, 2]);
    assert_eq!(search(&facts, &all, true, NOW, &scores, 20), [1]);
    assert_eq!(search(&facts, &params("x"), false, NOW, &scores, 20), [2, 0]);
    let mut svc = params("");
    svc.entity = Some("svc".into());
    assert_eq!(search(&facts, &svc, false, NOW, &scores, 20), [1, 0]);
    svc.grounded = Some("verified".into());
    assert!(search(&facts, &svc, false, NOW, &scores, 20).is_empty());
}

#[test]
fn groundedness_is_said_in_one_line() {
    let mut f = fact("a.b", "x");
    assert_eq!(grounded_line(&f, NOW), "ungrounded");
    f.grounds = vec![
        ground("one", Some((Outcome::Confirmed, 1))),
        ground("two", Some((Outcome::Confirmed, 1))),
        ground("three", Some((Outcome::Refuted, 9))),
    ];
    assert_eq!(grounded_line(&f, NOW), "ungrounded (3 ground(s) bound, unchecked)");
    assert_eq!(confirming_ground(&f).as_deref(), Some("two"));
    f.epistemics.groundedness = Groundedness::Verified { at: NOW, by: GeneratorHash("h".into()) };
    assert_eq!(grounded_line(&f, later(180)), "verified 3m ago · two");
    f.grounds.clear();
    assert_eq!(grounded_line(&f, later(180)), "verified 3m ago · existence");
    f.epistemics.groundedness = Groundedness::Refuted { at: NOW, by: GeneratorHash("h".into()) };
    assert_eq!(grounded_line(&f, later(180)), "refuted 3m ago");
    f.epistemics.groundedness =
        Groundedness::Conflicted { verifiers: vec![GeneratorHash("h".into())] };
    assert_eq!(grounded_line(&f, NOW), "conflicted (1 grounds)");
}

#[test]
fn lines_say_what_was_checked() {
    assert_eq!(ground_line(&ground("a.txt", None), ""), "FILE  a.txt  [exists]  unchecked");
    assert_eq!(
        ground_line(&ground("a.txt", Some((Outcome::Refuted, 0))), ""),
        "FILE  a.txt  [exists]  span abcdef  refuted"
    );
    let mut gone = ground("a.txt", Some((Outcome::Refuted, 0)));
    gone.last.as_mut().unwrap().span_hash.clear();
    assert_eq!(ground_line(&gone, ""), "FILE  a.txt  [exists]  refuted");
    let check = Check { at: "2024-01-01 10:00".into(), outcome: "confirmed".into(), op: "abcdef".into() };
    assert_eq!(check_line(&check), "2024-01-01  -> confirmed  (op abcd)");
    let entry = Operation { id: "abcdef".into(), time: "t".into(), description: "[Init] x".into() };
    assert_eq!(log_line(&entry), "abcd  t  [Init] x");
    assert_eq!(short_op("ab"), "ab");
    assert_eq!(
        grant_line("v.ts@abcdef", &vec!["a".into(), "b".into()], &vec![]),
        "granted v.ts@abcdef net=[a, b] read=[]"
    );
    assert_eq!(volatility_label(Volatility::Slow), "slow");
}

#[test]
fn a_launch_agent_is_named_by_its_store() {
    let hash = blake3::hash(b"/home/x/.ken").to_hex().to_string();
    assert_eq!(launch_label("/home/x/.ken"), format!("dev.ken.{}", &hash[..12]));
}

fn to_add(key: &str) -> AddParams {
    AddParams {
        key: key.into(),
        value: Some("v".into()),
        json: None,
        half_life: None,
        volatility: None,
        ground: None,
        meta_confidence: None,
    }
}

fn ingested(op: WriteOp) -> (String, String, TriageSource, HalfLife, Option<GroundBinding>) {
    match op {
        WriteOp::Ingest { claim, value, triage, half_life, draft_ground } => {
            (claim.key(), value.render(), triage, half_life, draft_ground)
        }
        other => panic!("{other:?}"),
    }
}

#[test]
fn adding_makes_an_ingest() {
    let mut config = Config::default();
    config.decay.default_half_life = HalfLife::parse("2w").unwrap();
    let add = |params| add_fact(params, &config, None, NOW);
    let (key, value, triage, half_life, hint) = ingested(add(to_add("a.b.c")).unwrap());
    assert_eq!((key.as_str(), value.as_str()), ("a.b.c", "v"));
    assert_eq!(triage, TriageSource::Ingest);
    assert_eq!(half_life.to_string(), "P14D");
    assert!(hint.is_none());

    let class = AddParams { volatility: Some(Volatility::Hours), ..to_add("a.b") };
    assert_eq!(ingested(add(class).unwrap()).3.to_string(), "PT6H");
    let asked = AddParams {
        half_life: Some(HalfLife::Never),
        volatility: Some(Volatility::Hours),
        meta_confidence: Some(bits_of(0.9)),
        ground: Some("store:a.txt#L2-3".into()),
        json: Some("[1, 2]".into()),
        ..to_add("a.b")
    };
    let (_, value, triage, half_life, hint) = ingested(add(asked).unwrap());
    assert_eq!(value, "[1, 2]");
    assert_eq!(triage, TriageSource::Llm { meta_confidence: bits_of(0.9) });
    assert_eq!(half_life, HalfLife::Never);
    let hint = hint.unwrap();
    assert_eq!(hint.locator, Locator::LineRange { start: 2, end: 3 });
    assert_eq!((hint.predicate, hint.last), (Predicate::Exists, None));

    assert!(matches!(add(to_add("nodot")), Err(NotAdded::Refused(Error::Key(_)))));
    let nothing = AddParams { value: None, ..to_add("a.b") };
    assert!(matches!(add(nothing), Err(NotAdded::Value(NoValue::Missing))));
    let broken = AddParams { json: Some("{".into()), ..to_add("a.b") };
    assert!(matches!(add(broken), Err(NotAdded::Value(NoValue::NotJson))));
    let nowhere = AddParams { ground: Some("".into()), ..to_add("a.b") };
    assert!(matches!(add(nowhere), Err(NotAdded::Refused(Error::Config(_)))));
}

#[test]
fn a_recall_says_value_belief_and_due_time() {
    let mut f = fact("a.b", "x");
    assert_eq!(
        recall_lines(&f, "a.b", "0.40", later(86_400)),
        [
            "a.b = x",
            "  confidence   0.40   half-life=P3D",
            "  grounded     ungrounded",
            "  due          in 2d",
        ]
    );
    f.schedule.half_life = HalfLife::Never;
    assert_eq!(recall_lines(&f, "a.b", "0.40", NOW)[3], "  due          never");
}

#[test]
fn a_why_says_where_a_fact_came_from() {
    let mut f = fact("a.b", "x");
    f.grounds = vec![ground("a.txt", Some((Outcome::Confirmed, 0))), ground("b.txt", None)];
    f.epistemics.groundedness =
        Groundedness::Conflicted { verifiers: vec![GeneratorHash("existence".into())] };
    let entry = |id: &str, time: &str, description: &str| Operation {
        id: id.into(),
        time: time.into(),
        description: description.into(),
    };
    let log = vec![
        entry("ccc333", "2024-01-03 10:00", "[GroundCheck:refuted] a.b #0 existence"),
        entry("bbb222", "2024-01-02 10:00", "[GroundCheck:confirmed] a.b #0 existence"),
        entry("aaa111", "2024-01-01 10:00", "[Ingest] a.b"),
    ];
    let shown = vec![String::new(), String::new()];
    assert_eq!(
        why_lines(&f, "a.b", &log, "2024-01-01", "0.40", &shown),
        [
            "a.b = x",
            "  ingested   2024-01-01 by test  (confidence 0.40, ungrounded)",
            "  checked    2024-01-02  -> confirmed  (op bbb2)",
            "  checked    2024-01-03  -> refuted  (op ccc3)",
            "  ground     FILE  a.txt  [exists]  span abcdef  confirmed",
            "  ground     FILE  b.txt  [exists]  unchecked",
            "  conflict   independent grounds disagree on the value",
        ]
    );
}

#[test]
fn a_fact_knows_its_file() {
    let f = fact("svc.owner", "team-x");
    assert_eq!(f.rel_path(), jishuken::schema::path_for(&f.claim));
    assert_eq!(f.rel_path(), "facts/svc/owner.json");
    assert!(!f.is_checkable());
}

#[test]
fn a_launch_agent_runs_the_daemon_for_its_store() {
    let expected = r#"<?xml version="1.0" encoding="UTF-8"?>
<!DOCTYPE plist PUBLIC "-//Apple//DTD PLIST 1.0//EN" "http://www.apple.com/DTDs/PropertyList-1.0.dtd">
<plist version="1.0">
<dict>
  <key>Label</key><string>dev.ken.x</string>
  <key>ProgramArguments</key>
  <array>
    <string>/bin/ken</string>
    <string>serve</string>
    <string>--store</string>
    <string>/p/.ken</string>
  </array>
  <key>RunAtLoad</key><true/>
  <key>KeepAlive</key><true/>
  <key>StandardOutPath</key><string>/logs/dev.ken.x.log</string>
  <key>StandardErrorPath</key><string>/logs/dev.ken.x.err.log</string>
</dict>
</plist>
"#;
    assert_eq!(launch_plist("dev.ken.x", "/bin/ken", "/p/.ken", "/logs"), expected);
}
