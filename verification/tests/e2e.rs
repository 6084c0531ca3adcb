//! End to end, in memory: facts are ingested, grounded, checked and undone against
//! sources held in a map.

use jishuken::cli;
use jishuken::config::{Config, SourceRootCfg};
use jishuken::duration::HalfLife;
use jishuken::engine;
use jishuken::error::Error;
use jishuken::generator::{collect, RunPlan, Sandbox, Supervision};
use jishuken::json::Json;
use jishuken::locator::{parse_source, render_ground};
use jishuken::mcp::ingest::{IngestParams, JishukenServer};
use jishuken::mcp::{recall_hint, report, search, SearchParams};
use jishuken::number::Real;
use jishuken::predicate::Predicate;
use jishuken::resolve::{
    finish_handler, ground_source_for, handler_module, read_binding, read_file, read_source,
    run_bound_handler, FileEvent, ReadPlan, ReadResult,
};
use jishuken::schema::{
    Claim, CommandSource, Fact, FactId, FactValue, GroundBinding, GroundSource, Groundedness,
    Locator, Outcome, SourceRoot, TriageSource,
};
use jishuken::store::apply::{Belief, Circumstances};
use jishuken::store::files::FactFile;
use jishuken::store::history::{stage_undo, OpId, OpRecord, Operation};
use jishuken::store::JishukenStore;
use jishuken::time::{Elapsed, Timestamp};
use jishuken::verify::authority;
use jishuken::write::{WriteOp, INGEST_CONFIDENCE_CEILING};
use std::collections::{BTreeMap, HashMap};

const START: i64 = 1_700_000_000;

fn bits_of(x: f64) -> Real {
    Real { bits: x.to_bits() }
}

fn float(x: Real) -> f64 {
    f64::from_bits(x.bits)
}

fn days() -> HalfLife {
    HalfLife::default()
}

fn hours() -> HalfLife {
    HalfLife::parse("PT6H").unwrap()
}

/// A store in memory: its files, its log, and the sources it can read. A fact's file
/// is the text it prints as.
struct World {
    files: BTreeMap<String, String>,
    facts: HashMap<String, Fact>,
    records: Vec<OpRecord>,
    sources: HashMap<String, String>,
    /// What the handler at a path answers.
    handler: fn(&str) -> String,
    clock: i64,
    store: JishukenStore,
}

impl World {
    fn new(config: Config) -> World {
        let mut world = World {
            files: BTreeMap::new(),
            facts: HashMap::new(),
            records: vec![],
            sources: HashMap::new(),
            handler: |reference| reference.to_string(),
            clock: START,
            store: JishukenStore::open(".ken".into(), Some(config)).unwrap(),
        };
        world.commit("Init", "ken store");
        world
    }

    fn fresh() -> World {
        World::new(Config::default())
    }

    fn now(&mut self) -> Timestamp {
        self.clock += 1;
        Timestamp { secs: self.clock, nanos: 0 }
    }

    fn source(&mut self, path: &str, text: &str) {
        self.sources.insert(path.into(), text.into());
    }

    fn fact_files(&self) -> Vec<FactFile> {
        self.files
            .iter()
            .filter(|(path, _)| path.starts_with("facts/"))
            .map(|(path, text)| FactFile { path: path.clone(), fact: self.facts[text].clone() })
            .collect()
    }

    fn all(&self) -> Vec<Fact> {
        let files = self.fact_files();
        JishukenStore::all_facts(&files).unwrap();
        files.into_iter().map(|f| f.fact).collect()
    }

    fn read(&self, key: &str) -> Result<Fact, Error> {
        let files = self.fact_files();
        let at = JishukenStore::read_fact_by_key(&files, key)?;
        Ok(files[at].fact.clone())
    }

    fn commit(&mut self, tag: &str, detail: &str) {
        let time = format!("t{}", self.records.len());
        let record = self.store.control_commit(&self.records, tag, detail, &time);
        self.land(&record.changes);
        self.records.push(record);
    }

    fn land(&mut self, changes: &[jishuken::transaction::Change]) {
        for change in changes {
            assert_eq!(change.before.as_ref(), self.files.get(&change.path));
            match &change.after {
                Some(text) => self.files.insert(change.path.clone(), text.clone()),
                None => self.files.remove(&change.path),
            };
        }
    }

    fn stage(&mut self, path: &str, text: Option<String>) {
        let now = self.files.get(path).cloned();
        self.store.pending.stage_file(path, now, text);
    }

    fn apply(&mut self, op: WriteOp) -> Result<FactId, Error> {
        let now = self.now();
        let fact = match op {
            WriteOp::Ingest { .. } => None,
            _ => Some(self.read(&op.fact_key())?),
        };
        let confirmed = matches!(op, WriteOp::GroundCheck { outcome: Outcome::Confirmed, .. });
        let prior = fact.as_ref().map_or(0.0, |f| float(f.epistemics.confidence));
        let target = if confirmed { 1.0 } else { 0.0 };
        let circumstances = Circumstances {
            now,
            who: "test".into(),
            recalibrated: bits_of(0.95),
            belief: Belief {
                prior: bits_of(prior),
                confidence: bits_of(prior + 0.8 * (target - prior)),
                variance: bits_of(0.05),
            },
        };
        let files = self.fact_files();
        let applied = self.store.apply(op, files, circumstances)?;
        if let Some(sample) = applied.sample {
            let mut text = self.files.get("calibration.jsonl").cloned().unwrap_or_default();
            text.push_str(&format!("{sample:?}\n"));
            self.stage("calibration.jsonl", Some(text));
        }
        for write in applied.writes {
            let after = write.fact.map(|fact| {
                let text = format!("{fact:?}");
                self.facts.insert(text.clone(), fact);
                text
            });
            self.stage(&write.path, after);
        }
        self.commit(&applied.tag, &applied.detail);
        Ok(applied.id)
    }

    fn ingest(&mut self, key: &str, value: &str, half_life: HalfLife) -> FactId {
        self.apply(WriteOp::ingest(
            Claim::parse_key(key).unwrap(),
            FactValue::Scalar { value: Json::of_string(value) },
            TriageSource::Llm { meta_confidence: bits_of(0.95) },
            half_life,
            None,
        ))
        .unwrap()
    }

    fn undo(&mut self) -> Result<(), Error> {
        let reversal = JishukenStore::undo(self.records.clone())?;
        let current =
            reversal.undone.iter().map(|c| self.files.get(&c.path).cloned()).collect();
        stage_undo(&mut self.store.pending, &reversal.undone, &current);
        let changes = self.store.pending.take();
        self.land(&changes);
        self.records = reversal.kept;
        Ok(())
    }

    fn log(&self, since: Option<OpId>) -> Vec<Operation> {
        JishukenStore::op_log(&self.records, since)
    }

    fn read_ground(&self, binding: &GroundBinding) -> ReadResult {
        let plan = match read_source(&self.store.config, &binding.source, true, false) {
            Ok(plan) => plan,
            Err(fail) => return read_binding(&binding.locator, Err(fail)),
        };
        let read = match plan {
            ReadPlan::File { path, rev, .. } => {
                let event = match self.sources.get(&path) {
                    Some(text) => FileEvent::Text(text.clone()),
                    None => FileEvent::Unreadable("No such file or directory".into()),
                };
                read_file(&path, &rev, event)
            }
            ReadPlan::Handler { src_path, caps } => {
                let GroundSource::Handler(h) = &binding.source else { unreachable!() };
                let module = self.sources[&src_path].clone();
                let sandbox = Sandbox::new("deno".into(), Elapsed { secs: 10, nanos: 0 });
                let run = match run_bound_handler(&sandbox, h, &src_path, module, caps, 1, 1) {
                    RunPlan::Refused(run) => run,
                    RunPlan::Start(launch) => {
                        assert_eq!(launch.env[0].0, "KEN_REF");
                        let text = (self.handler)(&launch.env[0].1);
                        collect(Supervision::Done { exit_code: Some(0) }, false, text)
                    }
                };
                finish_handler(h, run)
            }
            other => panic!("nothing runs here: {other:?}"),
        };
        read_binding(&binding.locator, read)
    }

    fn check(&mut self, fact: &Fact, ground: usize) {
        let read = self.read_ground(&fact.grounds[ground]);
        let now = self.now();
        let check =
            engine::check_ground(fact, ground, read, None, false, now, bits_of(0.1), &vec![]);
        self.apply(engine::check_op(fact, ground, check)).unwrap();
    }

    fn verify(&mut self, key: &str) -> Result<Groundedness, Error> {
        let fact = self.read(key)?;
        let (_, grounds) = engine::verify_fact(&fact, key)?;
        for ground in 0..grounds {
            self.check(&fact, ground);
        }
        Ok(self.read(key)?.epistemics.groundedness)
    }

    fn ground(&mut self, key: &str, binding: GroundBinding) -> Groundedness {
        let id = FactId::for_claim(&self.read(key).unwrap().claim);
        self.apply(authority::ground(id, binding)).unwrap();
        let fact = self.read(key).unwrap();
        self.check(&fact, fact.grounds.len() - 1);
        self.read(key).unwrap().epistemics.groundedness
    }

    fn ground_file(&mut self, key: &str, source: &str, predicate: &str) -> Groundedness {
        let (src, locator) = parse_source(source, None).unwrap();
        self.ground(
            key,
            GroundBinding {
                source: GroundSource::File(src),
                locator,
                predicate: Predicate::parse(predicate, None).unwrap(),
                last: None,
            },
        )
    }

    /// One tick, ranked by one minus the confidence.
    fn tick(&mut self) -> Vec<(String, Groundedness)> {
        let facts = self.all();
        let scores = facts.iter().map(|f| bits_of(1.0 - float(f.epistemics.confidence))).collect();
        let none = vec![false; facts.len()];
        let odds = vec![bits_of(0.02); facts.len()];
        let picked = engine::tick(&facts, &scores, &none, &odds, &self.store.config.budget.clone());
        picked
            .into_iter()
            .map(|i| {
                let key = facts[i].claim.key();
                let g = self.verify(&key).unwrap();
                (key, g)
            })
            .collect()
    }
}

#[test]
fn e2e_init_add_recall_roundtrip() {
    let mut world = World::fresh();
    world.ingest("staging.url", "https://stg.example.com", hours());

    let fact = world.read("staging.url").unwrap();
    assert_eq!(fact.value.render(), "https://stg.example.com");
    // Data-plane ingest always lands Ungrounded.
    assert!(matches!(fact.epistemics.groundedness, Groundedness::Ungrounded { .. }));
    // ...and cannot exceed the triage ceiling even with a hot meta-confidence.
    assert!(float(fact.epistemics.confidence) <= f64::from_bits(INGEST_CONFIDENCE_CEILING));
}

#[test]
fn e2e_ingest_is_one_tagged_op_in_the_log() {
    let mut world = World::fresh();
    world.ingest("db.host", "10.0.0.1", HalfLife::parse("P90D").unwrap());
    let ops = world.log(None);
    assert!(
        ops.iter()
            .any(|o| o.description.contains("[Ingest]") && o.description.contains("db.host")),
        "op log should contain a tagged Ingest op: {ops:?}"
    );
    assert_eq!(ops.len(), 2);
}

#[test]
fn recall_reads_the_ingested_fact_file() {
    let mut world = World::fresh();
    world.ingest("svc.port", "8080", days());
    assert_eq!(world.read("svc.port").unwrap().value.render(), "8080");
}

#[test]
fn e2e_undo_rolls_back_one_operation() {
    let mut world = World::fresh();
    for value in ["A", "B", "C"] {
        world.ingest("a.b", value, days());
    }
    assert_eq!(world.log(None).len(), 4);
    world.undo().unwrap();
    assert_eq!(world.read("a.b").unwrap().value.render(), "B");
    world.undo().unwrap();
    assert_eq!(world.read("a.b").unwrap().value.render(), "A");
    assert_eq!(world.log(None).len(), 2);
    world.ingest("a.b", "D", days());
    world.undo().unwrap();
    assert_eq!(world.read("a.b").unwrap().value.render(), "A");
    world.undo().unwrap();
    assert!(world.read("a.b").is_err(), "undo should remove the created fact");
    assert_eq!(world.log(None).len(), 1);
    assert!(world.undo().is_err());
}

#[test]
fn undo_restores_verification_calibration_and_centrality_together() {
    let mut world = World::fresh();
    world.ingest("release.owner", "alice", days());
    world.source("owner.txt", "alice");
    world.ground_file("release.owner", "store:owner.txt", "equals");
    let before = world.read("release.owner").unwrap();
    let calibration = world.files["calibration.jsonl"].clone();
    world.source("owner.txt", "bob");
    assert!(matches!(world.verify("release.owner").unwrap(), Groundedness::Refuted { .. }));
    assert_ne!(world.files["calibration.jsonl"], calibration);
    world.undo().unwrap();
    assert_eq!(world.read("release.owner").unwrap(), before);
    assert_eq!(world.files["calibration.jsonl"], calibration);
}

#[test]
fn source_hints_require_an_explicit_ground_and_predicate() {
    let mut world = World::fresh();
    world.source("owner.txt", "The owner is bob.");
    let params = IngestParams {
        key: "release.owner".into(),
        value: "alice".into(),
        volatility: None,
        meta_confidence: None,
        ground: Some("store:owner.txt".into()),
    };
    let op = JishukenServer::ken_ingest(params, &world.store.config, None).unwrap();
    world.apply(op).unwrap();
    let before = world.read("release.owner").unwrap();
    assert!(before.grounds.is_empty());
    assert!(!before.is_checkable());
    assert_eq!(before.source_hint.as_ref().map(render_ground).unwrap(), "store:owner.txt");
    assert!(world.tick().is_empty());
    assert!(world.verify("release.owner").is_err());
    assert_eq!(world.read("release.owner").unwrap(), before);
    world.ground_file("release.owner", "store:owner.txt", "contains");
    let fact = world.read("release.owner").unwrap();
    assert!(matches!(fact.epistemics.groundedness, Groundedness::Refuted { .. }));
    assert!(fact.source_hint.is_none());
}

fn filters(entity: Option<&str>, relation: Option<&str>) -> SearchParams {
    SearchParams {
        query: String::new(),
        entity: entity.map(String::from),
        relation: relation.map(String::from),
        grounded: None,
    }
}

fn find(world: &World, params: &SearchParams) -> Vec<String> {
    let facts = world.all();
    let scores = vec![bits_of(1.0); facts.len()];
    let now = Timestamp { secs: world.clock, nanos: 0 };
    let hits = cli::search(&facts, params, false, now, &scores, 20);
    hits.into_iter().map(|i| facts[i].claim.key()).collect()
}

#[test]
fn cli_normalizes_keys_and_search_filters_without_changing_values() {
    let mut world = World::fresh();
    let decomposed = "cafe\u{0301}.ro\u{0302}le";
    let value = "value with e\u{0301}";
    world.ingest(decomposed, value, days());
    let recalled = world.read("café.rôle").unwrap();
    assert_eq!(recalled.claim.key(), "café.rôle");
    assert_eq!(recalled.value.render(), value);
    let hits = find(&world, &filters(Some("cafe\u{0301}"), Some("ro\u{0302}le")));
    assert_eq!(hits, ["café.rôle"]);
    assert_eq!(find(&world, &filters(Some("café"), None)), ["café.rôle"]);
    assert!(find(&world, &filters(Some("cafe"), None)).is_empty());
}

#[test]
fn e2e_discovery_walks_up_for_dot_ken() {
    // `src/deep`, `src` and the project: the last holds the store.
    assert_eq!(JishukenStore::discover(&vec![false, false, true, true]).unwrap(), 2);
    assert!(matches!(JishukenStore::discover(&vec![false]), Err(Error::StoreNotFound)));
}

#[test]
fn e2e_op_log_since_truncates() {
    let mut world = World::fresh();
    world.ingest("x.one", "1", days());
    let marker = world.log(None).first().unwrap().id.clone();
    world.ingest("x.two", "2", days());
    let since = world.log(Some(OpId(marker)));
    // Everything up to (not including) the marker: only the newer ops remain.
    assert!(since.iter().all(|o| !o.description.contains("x.one")));
}

#[test]
fn e2e_tier1_existence_grounds_and_reconfirms() {
    let mut world = World::fresh();
    world.source("data.txt", "hello world");
    world.ingest("doc.greeting", "hello", days());

    let g = world.ground_file("doc.greeting", "store:data.txt?q=\"hello\"", "exists");
    assert!(matches!(g, Groundedness::Verified { .. }));

    let fact = world.read("doc.greeting").unwrap();
    let hash1 = fact.grounds[0].last.as_ref().unwrap().span_hash.clone();
    world.verify("doc.greeting").unwrap();
    let fact = world.read("doc.greeting").unwrap();
    assert_eq!(fact.grounds[0].last.as_ref().unwrap().span_hash, hash1);
}

#[test]
fn e2e_two_independent_grounds_disagree_conflict() {
    let mut world = World::fresh();
    world.source("src.txt", "auth lives here");
    world.ingest("auth.handler", "auth lives here", days());

    // Ground A resolves (the quote is present) -> Confirmed.
    world.ground_file("auth.handler", "store:src.txt?q=\"auth lives here\"", "exists");
    // Ground B does not resolve (the quote is absent) -> Refuted.
    let g = world.ground_file("auth.handler", "store:src.txt?q=\"moved elsewhere\"", "exists");

    assert!(matches!(g, Groundedness::Conflicted { .. }), "expected Conflicted, got {g:?}");
    let conflicts = JishukenStore::list_conflicts(&world.all());
    assert!(conflicts.iter().any(|id| id.0 == "auth.handler"));

    // Once neither quote resolves, both grounds refute the claim.
    world.source("src.txt", "neither quote is present");
    let g = world.verify("auth.handler").unwrap();
    assert!(matches!(g, Groundedness::Refuted { .. }));
    assert!(JishukenStore::list_conflicts(&world.all()).is_empty());
}

#[test]
fn e2e_tick_checks_grounded_facts() {
    let mut world = World::fresh();
    world.source("d.txt", "present");
    for key in ["thing.exists", "other.exists", "third.exists"] {
        world.ingest(key, "present", hours());
        world.ground_file(key, "store:d.txt?q=\"present\"", "exists");
    }
    world.ingest("loose.end", "unchecked", hours());

    let results = world.tick();
    assert!(results.iter().any(|(k, _)| k == "thing.exists"));
    assert_eq!(results.len(), 3);
    assert!(results.iter().all(|(_, g)| matches!(g, Groundedness::Verified { .. })));
}

#[test]
fn audit_through_independent_ground_flips_to_conflicted() {
    let mut world = World::fresh();
    world.source("a.txt", "auth lives here");
    world.source("b.txt", "auth lives here");
    world.ingest("auth.handler", "auth lives here", days());

    // Two independent grounds, both confirming -> Verified.
    world.ground_file("auth.handler", "store:a.txt?q=\"auth lives here\"", "exists");
    let g = world.ground_file("auth.handler", "store:b.txt?q=\"auth lives here\"", "exists");
    assert!(matches!(g, Groundedness::Verified { .. }), "expected Verified, got {g:?}");

    // One independent ground drifts: b.txt no longer contains the quote.
    world.source("b.txt", "moved elsewhere");

    let g = world.verify("auth.handler").unwrap();
    assert!(
        matches!(g, Groundedness::Conflicted { .. }),
        "audit should surface the drift as Conflicted, got {g:?}"
    );
}

#[test]
fn e2e_predicate_contains_judges_span() {
    let mut world = World::fresh();
    world.source("cfg.txt", "port = 8080\nhost = local");
    world.ingest("svc.port", "8080", days());
    // The span (whole file) contains the claim "8080" -> Confirmed.
    let g = world.ground_file("svc.port", "store:cfg.txt", "contains");
    assert!(matches!(g, Groundedness::Verified { .. }));

    // A claim not present -> Refuted.
    world.ingest("svc.other", "9999", days());
    let g = world.ground_file("svc.other", "store:cfg.txt", "contains");
    let f = world.read("svc.other").unwrap();
    assert!(matches!(g, Groundedness::Refuted { .. }));
    assert_eq!(f.epistemics.groundedness, g);
    assert!(float(f.epistemics.confidence) < 0.5);
}

#[test]
fn e2e_command_allowlist_denies_unlisted_program() {
    let mut world = World::fresh();
    world.ingest("svc.health", "ok", hours());
    // `[command] allow` is empty by default, so any command is denied.
    let binding = GroundBinding {
        source: GroundSource::Command(CommandSource {
            argv: vec!["echo".into(), "ok".into()],
            root: SourceRoot::Store,
        }),
        locator: Locator::Whole,
        predicate: Predicate::Exists,
        last: None,
    };
    let g = world.ground("svc.health", binding);
    // Errored never moves groundedness off Ungrounded.
    assert!(
        matches!(g, Groundedness::Ungrounded { .. }),
        "denied command must not ground: {g:?}"
    );
}

#[test]
fn e2e_handler_scheme_grounds_with_locator_projection() {
    let mut config = Config::default();
    let mount =
        SourceRootCfg { handler: Some("handlers/wiki.ts".into()), ..SourceRootCfg::default() };
    config.sources.push(("wiki".into(), mount));
    let mut world = World::new(config);
    world.source("handlers/wiki.ts", "export default { fetch: render };");
    world.handler = |reference| {
        format!("# {reference}\n\n## Authentication\nauth lives in src/auth.rs\n\n## Other\nx")
    };
    world.ingest("auth.handler", "src/auth.rs", days());
    let (src, locator) = parse_source("wiki:Architecture#authentication", None).unwrap();
    let module = handler_module(&world.store.config, &src);
    assert_eq!(module.as_deref(), Some("handlers/wiki.ts"));
    let text = world.sources[&module.unwrap()].clone();
    let source = ground_source_for(&world.store.config, src, Some(text));
    let binding = GroundBinding {
        source,
        locator,
        predicate: Predicate::parse("contains", None).unwrap(),
        last: None,
    };
    let g = world.ground("auth.handler", binding);
    assert!(matches!(g, Groundedness::Verified { .. }), "handler ground should verify: {g:?}");

    let fact = world.read("auth.handler").unwrap();
    assert!(
        matches!(fact.grounds[0].source, GroundSource::Handler(_)),
        "the bound source should be a Handler"
    );

    // A module that changed since is not run, and what was known stays.
    world.source("handlers/wiki.ts", "export default { fetch: other };");
    world.handler = |_| panic!("the handler must not run");
    assert_eq!(world.verify("auth.handler").unwrap(), g);
}

#[test]
fn ground_verify_recall_roundtrip() {
    let mut world = World::fresh();
    world.source("cfg.txt", "port = 8080");
    world.ingest("svc.port", "8080", HalfLife::parse("3d").unwrap());
    let source = "store:cfg.txt?q=\"port = 8080\"";
    assert_eq!(world.ground_file("svc.port", source, "contains").label(), "verified");
    assert_eq!(world.verify("svc.port").unwrap().label(), "verified");

    // The source changes without the stored claim changing.
    world.source("cfg.txt", "port = 9090");
    assert_eq!(world.verify("svc.port").unwrap().label(), "refuted");
    let fact = world.read("svc.port").unwrap();
    assert_eq!(fact.value.render(), "8080");
    let now = world.now();
    assert!(cli::grounded_line(&fact, now).starts_with("refuted"));
    let shown = report::recall_output(&fact, "svc.port", bits_of(0.2), &vec![String::new()]);
    assert_eq!(shown.value.text, "\"8080\"");
    assert_eq!(shown.groundedness.state, "refuted");
    assert!(shown.groundedness.at.is_some());
    assert!(shown.groundedness.verifier.is_some());
    let refuted = SearchParams { grounded: Some("refuted".into()), ..filters(None, None) };
    assert_eq!(find(&world, &refuted), ["svc.port"]);

    // Failed reads retain the previous refutation without refreshing evidence.
    let before = world.read("svc.port").unwrap();
    world.sources.remove("cfg.txt");
    world.verify("svc.port").unwrap();
    let after = world.read("svc.port").unwrap();
    assert_eq!(after.epistemics, before.epistemics);
    assert_eq!(after.schedule.last_verified, before.schedule.last_verified);
    assert_eq!(after.grounds, before.grounds);

    // A later confirmation restores the verified state through a ground check.
    world.source("cfg.txt", "port = 8080");
    assert!(matches!(world.verify("svc.port").unwrap(), Groundedness::Verified { .. }));
}

#[test]
fn e2e_search_binary_lists_and_filters() {
    let mut world = World::fresh();
    world.ingest("alpha.one", "v1", days());
    world.ingest("beta.two", "v2", days());
    let alpha = SearchParams { query: "alpha".into(), ..filters(None, None) };
    let found = find(&world, &alpha);
    assert!(found.contains(&"alpha.one".to_string()), "search should find alpha.one: {found:?}");
    assert!(!found.contains(&"beta.two".to_string()), "query should exclude beta.two: {found:?}");

    // Groundedness filter: both are ungrounded, so asking for the verified is empty.
    let verified = SearchParams { grounded: Some("verified".into()), ..filters(None, None) };
    assert!(find(&world, &verified).is_empty());
}

#[test]
fn half_lives_are_saved_with_the_fact() {
    let mut world = World::fresh();
    for (input, canonical) in [
        ("2w", "P14D"),
        ("P1M", "P1M"),
        ("PT1M", "PT1M"),
        ("1h30m", "PT1H30M"),
        ("1 hour, 30 minutes", "PT1H30M"),
        ("never", "never"),
        ("1ns", "PT0.000000001S"),
    ] {
        world.ingest("explicit.duration", "present", HalfLife::parse(input).unwrap());
        let fact = world.read("explicit.duration").unwrap();
        assert_eq!(fact.schedule.half_life.to_string(), canonical);
        assert_eq!(fact.epistemics.groundedness.label(), "ungrounded");
        let due = fact.schedule.half_life.deadline(fact.schedule.last_verified);
        assert_eq!(cli::due_at(&fact), due);
    }
    for input in ["PT0S", "NaN", "typo", "-P1D", "P1DT", "PT1.5H1M"] {
        assert!(HalfLife::parse(input).is_err(), "accepted {input}");
    }
}

#[test]
fn tool_surface_roundtrip() {
    let mut world = World::fresh();

    // Data plane: ingest three facts through the tool.
    for (key, value) in [
        ("plan.free_orders_limit", "100"),
        ("checkout.v2_enabled", "false"),
        ("auth.handler", "auth lives here"),
    ] {
        let params = IngestParams {
            key: key.into(),
            value: value.into(),
            volatility: None,
            meta_confidence: None,
            ground: None,
        };
        let op = JishukenServer::ken_ingest(params, &world.store.config, None).unwrap();
        world.apply(op).unwrap();
        assert_eq!(world.read(key).unwrap().epistemics.groundedness.label(), "ungrounded");
    }

    // Tokenized search: no contiguous substring of any key or value matches this
    // query; token hits must carry it.
    let facts = world.all();
    let asked = SearchParams { query: "free orders limit".into(), ..filters(None, None) };
    let hits = search(&facts, &asked);
    assert_eq!(facts[hits[0]].claim.key(), "plan.free_orders_limit");

    // Recall miss with a free-text query: the error must name the mistake, point at
    // ken_search, and suggest the nearest key.
    let keys = facts.iter().map(|f| f.claim.key()).collect();
    let error = world.read("free orders limit").unwrap_err().to_string();
    let hint = recall_hint(&keys, "free orders limit", &error);
    assert!(hint.contains("ken_search"), "error should redirect: {hint}");
    assert!(
        hint.contains("plan.free_orders_limit"),
        "error should suggest the nearest key: {hint}"
    );

    // One fact with a lone refuted ground (distrusted), one with grounds that
    // disagree (conflicted).
    world.source("src.txt", "auth lives here");
    world.ground_file("checkout.v2_enabled", "store:src.txt?q=\"enabled = true\"", "exists");
    world.ground_file("auth.handler", "store:src.txt?q=\"auth lives here\"", "exists");
    world.ground_file("auth.handler", "store:src.txt?q=\"moved elsewhere\"", "exists");

    let fact = world.read("checkout.v2_enabled").unwrap();
    let shown = report::groundedness_out(&fact.epistemics.groundedness);
    assert_eq!(shown.state, "refuted");
    assert!(shown.at.is_some());
    assert!(shown.verifier.is_some());
    let grounds = report::grounds_out(&fact, &vec![String::new()]);
    assert_eq!(grounds[0].last_outcome.as_deref(), Some("refuted"));

    let facts = world.all();
    let refuted = SearchParams { grounded: Some("refuted".into()), ..filters(None, None) };
    let hits = search(&facts, &refuted);
    assert_eq!(hits.len(), 1);
    assert_eq!(facts[hits[0]].claim.key(), "checkout.v2_enabled");

    let (conflicts, distrusted) = report::conflicts(&facts);
    assert!(conflicts.iter().any(|c| c.key == "auth.handler"));
    assert!(distrusted.iter().any(|d| d.key == "checkout.v2_enabled"));
}

#[test]
fn what_is_refused_leaves_nothing_staged() {
    let mut world = World::fresh();
    world.ingest("release.owner", "alice", days());
    let before = world.read("release.owner").unwrap();
    // A second file for the same fact.
    let text = format!("{before:?}");
    world.files.insert("facts/release/Owner.json".into(), text);
    let op = WriteOp::ingest(
        Claim::parse_key("release.owner").unwrap(),
        FactValue::Scalar { value: Json::of_string("new") },
        TriageSource::Ingest,
        days(),
        None,
    );
    assert!(world.apply(op).is_err());
    assert!(world.store.pending.changes().is_empty());
    world.files.remove("facts/release/Owner.json");
    assert_eq!(world.read("release.owner").unwrap(), before);
    world.ingest("other.owner", "bob", days());
    world.undo().unwrap();
    assert_eq!(world.read("release.owner").unwrap(), before);
    assert_eq!(world.log(None).len(), 2);
}
