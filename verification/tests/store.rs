//! The store: writing, reading, history and undo, on an in-memory shelf.

use jishuken::duration::HalfLife;
use jishuken::error::Error;
use jishuken::json::Json;
use jishuken::locator::parse_source;
use jishuken::number::Real;
use jishuken::predicate::Predicate;
use jishuken::schema::{
    legacy_path_for, path_for, Claim, EntityId, Epistemics, Fact, FactId, FactValue,
    GeneratorHash, GroundBinding, GroundSource, Groundedness, Locator, Outcome, Provenance,
    Resolved, ScheduleMeta, TriageSource,
};
use jishuken::store::apply::{aggregate_groundedness, Belief, CalibrationSample, Circumstances};
use jishuken::store::files::{adopt, ingest_record, ingested_fact, FactFile, TextFile};
use jishuken::store::history::{
    bad_record, log_of, record_lines, stage_undo, OpId, OpRecord, Operation,
};
use jishuken::store::placement::FactWrite;
use jishuken::store::{JishukenStore, Pending};
use jishuken::time::Timestamp;
use jishuken::verify::authority;
use jishuken::write::WriteOp;
use std::collections::{BTreeMap, HashMap, HashSet};

const NOW: Timestamp = Timestamp { secs: 1_700_000_000, nanos: 0 };

fn bits_of(x: f64) -> Real {
    Real { bits: x.to_bits() }
}

fn circumstances(now: Timestamp) -> Circumstances {
    Circumstances {
        now,
        who: "test".into(),
        recalibrated: bits_of(0.3),
        belief: Belief {
            prior: bits_of(0.4),
            confidence: bits_of(0.8),
            variance: bits_of(0.1),
        },
    }
}

/// A store in memory: its fact files, its log, and the text of every fact.
struct Shelf {
    files: BTreeMap<String, Fact>,
    records: Vec<OpRecord>,
    facts: HashMap<String, Fact>,
    store: JishukenStore,
}

impl Shelf {
    fn init() -> Shelf {
        let mut shelf = Shelf {
            files: BTreeMap::new(),
            records: vec![],
            facts: HashMap::new(),
            store: JishukenStore::open(".ken".into(), Some(Default::default())).unwrap(),
        };
        shelf.commit("Init", "ken store");
        shelf
    }

    fn list(&self) -> Vec<FactFile> {
        self.files
            .iter()
            .map(|(path, fact)| FactFile { path: path.clone(), fact: fact.clone() })
            .collect()
    }

    fn text(&mut self, fact: &Fact) -> String {
        let text = format!("{fact:?}");
        self.facts.insert(text.clone(), fact.clone());
        text
    }

    fn on_disk(&self, path: &str) -> Option<String> {
        self.files.get(path).map(|fact| format!("{fact:?}"))
    }

    fn put(&mut self, fact: Fact) -> Result<Vec<FactWrite>, Error> {
        let files = self.list();
        let writes = self.store.put_fact(files, fact)?;
        for write in &writes {
            let after = write.fact.clone().map(|fact| self.text(&fact));
            let now = self.on_disk(&write.path);
            self.store.pending.stage_file(&write.path, now, after);
        }
        Ok(writes)
    }

    fn land(&mut self) -> Vec<jishuken::transaction::Change> {
        let changes = self.store.pending.take();
        for change in &changes {
            assert_eq!(change.before, self.on_disk(&change.path));
            match &change.after {
                Some(text) => {
                    self.files.insert(change.path.clone(), self.facts[text].clone());
                }
                None => {
                    self.files.remove(&change.path);
                }
            }
        }
        changes
    }

    fn commit(&mut self, tag: &str, detail: &str) {
        let changes = self.land();
        let time = format!("t{}", self.records.len());
        let record = JishukenStore::append_op(&self.records, tag, detail, &time, changes);
        self.records.push(record);
    }

    fn apply(&mut self, op: WriteOp) -> Result<FactId, Error> {
        let staged = JishukenStore::apply_staged(op, self.list(), circumstances(NOW))?.staged;
        self.put(staged.fact)?;
        self.commit(&staged.tag, &staged.detail);
        Ok(staged.id)
    }

    fn ingest(&mut self, key: &str) {
        self.apply(WriteOp::ingest(
            Claim::parse_key(key).unwrap(),
            scalar("v"),
            TriageSource::Ingest,
            HalfLife::default(),
            None,
        ))
        .unwrap();
    }

    fn read(&self, key: &str) -> Result<Fact, Error> {
        let files = self.list();
        let at = JishukenStore::read_fact_by_key(&files, key)?;
        Ok(files[at].fact.clone())
    }

    fn undo(&mut self) -> Result<(), Error> {
        let reversal = JishukenStore::undo(self.records.clone())?;
        let current = reversal.undone.iter().map(|c| self.on_disk(&c.path)).collect();
        stage_undo(&mut self.store.pending, &reversal.undone, &current);
        self.land();
        self.records = reversal.kept;
        Ok(())
    }

    fn log(&self) -> Vec<Operation> {
        JishukenStore::op_log(&self.records, None)
    }
}

fn scalar(value: &str) -> FactValue {
    FactValue::Scalar { value: Json::of_string(value) }
}

fn verified_scalar(key: &str) -> Fact {
    let claim = Claim::parse_key(key).unwrap();
    Fact {
        id: FactId::for_claim(&claim),
        claim,
        value: scalar("v"),
        epistemics: Epistemics {
            confidence: bits_of(0.9),
            groundedness: Groundedness::Verified { at: NOW, by: GeneratorHash("h".into()) },
        },
        schedule: ScheduleMeta {
            half_life: HalfLife::Never,
            centrality: bits_of(1.0),
            last_verified: NOW,
            variance_at_verify: bits_of(0.05),
            priority: bits_of(0.0),
        },
        source_hint: None,
        grounds: vec![],
        provenance: Provenance { ingested_by: "test".into(), ingested_at: NOW },
    }
}

fn ground_with(outcome: Option<Outcome>) -> GroundBinding {
    let (src, locator) = parse_source("store:data.txt", None).unwrap();
    GroundBinding {
        source: GroundSource::File(src),
        locator,
        predicate: Predicate::Exists,
        last: outcome.map(|outcome| Resolved {
            rev: String::new(),
            span_hash: String::new(),
            at: NOW,
            outcome,
            by: None,
        }),
    }
}

fn fact_with_grounds(grounds: Vec<GroundBinding>) -> Fact {
    let mut fact = verified_scalar("svc.url");
    fact.grounds = grounds;
    fact
}

#[test]
fn store_ingest_appends_a_tagged_op_and_undo_reverts_it() {
    let mut shelf = Shelf::init();
    shelf.ingest("db.host");
    assert!(shelf.read("db.host").is_ok());
    let log = shelf.log();
    assert!(
        log.iter()
            .any(|o| o.description.contains("[Ingest]") && o.description.contains("db.host")),
        "op log should carry a tagged Ingest: {log:?}"
    );

    shelf.undo().unwrap();
    assert!(shelf.read("db.host").is_err(), "undo should remove the created fact file");
    assert_eq!(shelf.log().len(), 1);
    assert!(shelf.undo().is_err(), "Init is not an undoable operation");
}

#[test]
fn keys_remain_distinct_on_case_insensitive_filesystems() {
    let mut shelf = Shelf::init();
    let keys = [
        "service.api.owner",
        "service_api.owner",
        "Service.api.owner",
        "service/api.owner",
        "service%2Eapi.owner",
        "日本.owner",
        "語.owner",
        "release.Owner",
        "release.owner",
        "../../escape.value",
    ];
    let mut paths = HashSet::new();
    for key in keys {
        shelf
            .apply(WriteOp::ingest(
                Claim::parse_key(key).unwrap(),
                scalar(key),
                TriageSource::Ingest,
                HalfLife::default(),
                None,
            ))
            .unwrap();
        let path = path_for(&Claim::parse_key(key).unwrap());
        assert!(paths.insert(path.to_lowercase()));
        assert!(shelf.files.contains_key(&path));
    }
    for key in keys {
        assert_eq!(shelf.read(key).unwrap().value.render(), key);
    }
    assert_eq!(shelf.files.len(), keys.len());
}

#[test]
fn legacy_collision_migrates_without_losing_either_fact_and_can_be_undone() {
    let mut shelf = Shelf::init();
    shelf.ingest("service.api.owner");
    let claim = Claim::parse_key("service.api.owner").unwrap();
    let encoded = path_for(&claim);
    let legacy = legacy_path_for(&claim);
    let fact = shelf.files.remove(&encoded).unwrap();
    shelf.files.insert(legacy.clone(), fact);
    assert!(shelf.read("service_api.owner").is_err());
    assert!(shelf.read("service.api.owner").is_ok());
    shelf.ingest("service_api.owner");
    assert!(shelf.files.contains_key(&encoded));
    assert!(shelf.read("service_api.owner").is_ok());
    assert!(shelf.read("service.api.owner").is_ok());
    assert_eq!(shelf.files.len(), 2);
    shelf.undo().unwrap();
    assert!(!shelf.files.contains_key(&encoded));
    assert!(shelf.files.contains_key(&legacy));
    assert!(shelf.read("service_api.owner").is_err());
    assert_eq!(shelf.files.len(), 1);
}

#[test]
fn canonical_unicode_keys_share_identity_and_undo_history() {
    let mut shelf = Shelf::init();
    for (composed, decomposed) in [
        ("café.rôle", "cafe\u{0301}.ro\u{0302}le"),
        ("각.owner", "\u{1100}\u{1161}\u{11a8}.owner"),
        ("q\u{0323}\u{0307}.owner", "q\u{0307}\u{0323}.owner"),
    ] {
        let first = Claim::parse_key(composed).unwrap();
        let second = Claim::parse_key(decomposed).unwrap();
        assert_eq!(first, second);
        assert_eq!(path_for(&first), path_for(&second));
        // An unnormalized claim, as a caller may hand it in.
        let (entity, relation) = decomposed.rsplit_once('.').unwrap();
        let raw = Claim {
            entity: EntityId(entity.into()),
            relation: relation.into(),
            nl: None,
        };
        let id = shelf
            .apply(WriteOp::ingest(
                raw,
                scalar("first"),
                TriageSource::Ingest,
                HalfLife::default(),
                None,
            ))
            .unwrap();
        assert_eq!(id.0, first.key());
        let fact = shelf.read(composed).unwrap();
        assert_eq!(fact.claim, first);
        shelf
            .apply(WriteOp::ingest(
                second,
                scalar("second"),
                TriageSource::Ingest,
                HalfLife::default(),
                None,
            ))
            .unwrap();
        assert_eq!(shelf.read(decomposed).unwrap().value.render(), "second");
        shelf.undo().unwrap();
        assert_eq!(shelf.read(decomposed).unwrap(), fact);
    }
    assert_eq!(shelf.files.len(), 3);
    for key in [
        "café.owner",
        "Café.owner",
        "①.owner",
        "1.owner",
        "Ａ.owner",
        "A.owner",
    ] {
        shelf.ingest(key);
    }
    assert_eq!(shelf.files.len(), 9);
}

#[test]
fn store_op_log_since_keeps_only_newer_records() {
    let mut shelf = Shelf::init();
    shelf.ingest("x.one");
    let marker = shelf.log().first().unwrap().id.clone();
    shelf.ingest("x.two");

    let since = JishukenStore::op_log(&shelf.records, Some(OpId(marker)));
    assert!(since.iter().all(|o| !o.description.contains("x.one")));
    assert!(since.iter().any(|o| o.description.contains("x.two")));
    // An id that names no record truncates nothing.
    let all = JishukenStore::op_log(&shelf.records, Some(OpId("nope".into())));
    assert_eq!(all.len(), 3);
}

#[test]
fn store_confirm_and_refute_aggregate_to_conflicted() {
    let fact = fact_with_grounds(vec![
        ground_with(Some(Outcome::Confirmed)),
        ground_with(Some(Outcome::Refuted)),
    ]);
    assert!(matches!(
        aggregate_groundedness(&fact),
        Groundedness::Conflicted { .. }
    ));
}

#[test]
fn store_all_confirm_aggregates_to_verified() {
    let fact = fact_with_grounds(vec![
        ground_with(Some(Outcome::Confirmed)),
        ground_with(Some(Outcome::Confirmed)),
    ]);
    assert!(matches!(
        aggregate_groundedness(&fact),
        Groundedness::Verified { .. }
    ));
}

#[test]
fn refuted_grounds_preserve_the_latest_check_identity() {
    let mut latest = ground_with(Some(Outcome::Refuted));
    let at = Timestamp { secs: NOW.secs + 60, nanos: 0 };
    let by = GeneratorHash("refuting-verifier".into());
    let check = latest.last.as_mut().unwrap();
    check.at = at;
    check.by = Some(by.clone());
    let mut older = latest.clone();
    older.last.as_mut().unwrap().at = Timestamp { secs: at.secs - 1, nanos: 0 };
    older.last.as_mut().unwrap().by = Some(GeneratorHash("older-verifier".into()));

    // Unchecked and failed reads contribute no verdict or newer timestamp.
    let fact = fact_with_grounds(vec![
        latest,
        older,
        ground_with(None),
        ground_with(Some(Outcome::Errored)),
        ground_with(Some(Outcome::Inconclusive)),
    ]);
    assert_eq!(
        aggregate_groundedness(&fact),
        Groundedness::Refuted { at, by }
    );
}

#[test]
fn store_errored_and_unchecked_grounds_do_not_move_groundedness() {
    // Errored is not a refutation (the channel failed, not the claim), and a draft
    // binding with no check yet counts for nothing.
    let mut fact =
        fact_with_grounds(vec![ground_with(Some(Outcome::Errored)), ground_with(None)]);
    fact.epistemics.groundedness = Groundedness::Ungrounded {
        source: TriageSource::Ingest,
    };
    assert!(matches!(
        aggregate_groundedness(&fact),
        Groundedness::Ungrounded { .. }
    ));
}

#[test]
fn non_normalized_legacy_keys_migrate_and_duplicates_are_rejected() {
    let mut shelf = Shelf::init();
    let composed = verified_scalar("café.owner");
    let mut raw = composed.clone();
    raw.claim.entity = EntityId("cafe\u{0301}".into());
    raw.id = FactId("cafe\u{0301}.owner".into());
    let read = adopt(raw).unwrap();
    assert_eq!(read.id, composed.id);
    assert_eq!(read.claim, composed.claim);
    // The file keeps its old name until the fact is written again.
    shelf.files.insert("facts/cafe/owner.json".into(), read.clone());
    shelf.ingest("café.owner");
    assert_eq!(shelf.files.len(), 1);
    assert!(shelf.files.contains_key(&path_for(&composed.claim)));
    // Two files of one fact are an error, for readers and writers.
    shelf.files.insert("facts/cafe/owner.json".into(), read);
    let message =
        "multiple files normalize to key café.owner; resolve the duplicate before continuing";
    match shelf.read("a.b") {
        Err(Error::Store(text)) => assert_eq!(text, message),
        other => panic!("{other:?}"),
    }
    match shelf.put(composed) {
        Err(Error::Store(text)) => assert_eq!(text, message),
        other => panic!("{other:?}"),
    }
    assert!(shelf.store.pending.changes().is_empty());
}

#[test]
fn a_fact_that_names_another_claim_is_refused() {
    let mut fact = verified_scalar("a.b");
    fact.id = FactId("a.c".into());
    match adopt(fact) {
        Err(Error::Store(text)) => assert_eq!(text, "fact ID does not match its claim"),
        other => panic!("{other:?}"),
    }
    let mut fact = verified_scalar("a.b");
    fact.id = FactId("nodot".into());
    assert!(matches!(adopt(fact), Err(Error::Key(_))));
}

#[test]
fn a_missing_fact_is_named_by_its_normal_key() {
    let shelf = Shelf::init();
    match shelf.read("cafe\u{0301}.owner") {
        Err(Error::FactNotFound(key)) => assert_eq!(key, "café.owner"),
        other => panic!("{other:?}"),
    }
    assert!(matches!(shelf.read("nodot"), Err(Error::Key(_))));
}

#[test]
fn legacy_ingest_hints_are_disarmed_but_explicit_grounds_are_preserved() {
    let mut ingested = verified_scalar("a.b");
    ingested.epistemics = Epistemics {
        confidence: bits_of(0.4),
        groundedness: Groundedness::Ungrounded { source: TriageSource::Ingest },
    };
    ingested.schedule.variance_at_verify = bits_of(0.25);
    ingested.grounds = vec![ground_with(None)];
    let mut saved = verified_scalar("a.b");
    let mut explicit = ground_with(Some(Outcome::Confirmed));
    explicit.locator = Locator::Heading { heading: "h".into() };
    saved.grounds = vec![ground_with(Some(Outcome::Confirmed)), explicit];

    let records = vec![
        JishukenStore::append_op(&vec![], "Ingest", "a.b", "t0", vec![]),
        JishukenStore::append_op(&vec![], "Ground", "a.b <- x", "t1", vec![]),
    ];
    assert_eq!(ingest_record(&records, &saved), Some(0));
    let candidates = vec![verified_scalar("c.d"), ingested.clone()];
    assert_eq!(ingested_fact(&candidates, &saved), Some(1));

    let read = JishukenStore::decode_fact(saved.clone(), true, Some(ingested.clone()));
    assert_eq!(read.source_hint, Some(ground_with(None)));
    assert_eq!(read.grounds.len(), 1);
    assert!(read.grounds[0].last.is_none());
    assert_eq!(read.epistemics, ingested.epistemics);
    assert_eq!(read.schedule, ingested.schedule);

    // A fact saved since keeps its grounds, and so does one whose first ground is
    // another than the hint.
    let kept = JishukenStore::decode_fact(saved.clone(), false, Some(ingested.clone()));
    assert_eq!(kept, saved);
    saved.grounds.remove(0);
    let kept = JishukenStore::decode_fact(saved.clone(), true, Some(ingested));
    assert_eq!(kept, saved);
    assert_eq!(JishukenStore::decode_fact(saved.clone(), true, None), saved);
}

#[test]
fn a_chain_of_old_names_is_moved_in_one_write() {
    // `b.x` lies where `a.x` belongs, and `c.x` where `b.x` belongs.
    let mut shelf = Shelf::init();
    let path = |key: &str| path_for(&Claim::parse_key(key).unwrap());
    shelf.files.insert(path("a.x"), verified_scalar("b.x"));
    shelf.files.insert(path("b.x"), verified_scalar("c.x"));
    let writes = shelf.put(verified_scalar("a.x")).unwrap();
    let order: Vec<(String, Option<String>)> = writes
        .into_iter()
        .map(|w| (w.path, w.fact.map(|f| f.id.0)))
        .collect();
    assert_eq!(
        order,
        [
            (path("a.x"), None),
            (path("b.x"), None),
            (path("c.x"), Some("c.x".to_string())),
            (path("b.x"), Some("b.x".to_string())),
            (path("a.x"), Some("a.x".to_string())),
        ]
    );
    shelf.land();
    for key in ["a.x", "b.x", "c.x"] {
        assert_eq!(shelf.files[&path(key)].id.0, key);
    }
    assert_eq!(shelf.files.len(), 3);
}

#[test]
fn an_operation_id_names_the_history_before_it() {
    let first = JishukenStore::append_op(&vec![], "Init", "ken store", "t", vec![]);
    let seed = "\u{1f}Init\u{1f}ken store\u{1f}t";
    assert_eq!(first.id, blake3::hash(seed.as_bytes()).to_hex()[..12]);
    let second = JishukenStore::append_op(&vec![first.clone()], "Init", "ken store", "t", vec![]);
    let seed = format!("{}\u{1f}Init\u{1f}ken store\u{1f}t", first.id);
    assert_eq!(second.id, blake3::hash(seed.as_bytes()).to_hex()[..12]);
}

#[test]
fn trailing_undo_records_have_already_reversed_an_operation() {
    let record = |tag: &str| JishukenStore::append_op(&vec![], tag, "d", "t", vec![]);
    let tags = |records: &Vec<OpRecord>| -> Vec<String> {
        records.iter().map(|r| r.tag.clone()).collect()
    };
    let history = ["Init", "Ingest", "Ground", "Undo", "Undo"].map(record).to_vec();
    let reversal = JishukenStore::undo(history).unwrap();
    assert_eq!(tags(&reversal.kept), ["Init"]);
    let history = ["Init", "Ingest", "Undo"].map(record).to_vec();
    match JishukenStore::undo(history) {
        Err(Error::Store(text)) => assert_eq!(text, "nothing to undo"),
        other => panic!("{:?}", other.map(|r| r.kept)),
    }
    assert!(JishukenStore::undo(vec![]).is_err());
}

#[test]
fn log_lines_are_numbered_and_blank_ones_skipped() {
    let lines = record_lines("one\n  \n\ntwo\r\n");
    assert_eq!(lines, [(1, "one".to_string()), (4, "two".to_string())]);
    assert_eq!(log_of(&vec!["one".into(), "two".into()]), "one\ntwo\n");
    assert_eq!(
        bad_record(4, "expected value").to_string(),
        "store error: invalid ops.jsonl record on line 4: expected value"
    );
}

#[test]
fn staged_files_are_seen_before_they_land() {
    let mut pending = Pending::new();
    pending.stage_file("facts/a/b.json", Some("old".into()), Some("new".into()));
    pending.stage_file("facts/a/c.json", None, Some("c".into()));
    pending.stage_file("facts/a/d.json", Some("d".into()), None);
    pending.stage_file("costs.json", None, Some("{}".into()));
    pending.stage_file("facts/a/b.json", Some("ignored".into()), Some("newer".into()));
    assert_eq!(pending.read_text("facts/a/b.json"), Some(Some("newer".into())));
    assert_eq!(pending.read_text("facts/a/d.json"), Some(None));
    assert_eq!(pending.read_text("facts/a/e.json"), None);
    assert_eq!(pending.changes()[0].before.as_deref(), Some("old"));
    let file = |path: &str, text: &str| TextFile { path: path.into(), text: text.into() };
    let disk = vec![
        file("facts/z/a.json", "z"),
        file("facts/a/d.json", "d"),
        file("facts/a/b.json", "old"),
    ];
    let seen = JishukenStore::fact_files(disk, pending.changes());
    assert_eq!(
        seen,
        [
            file("facts/a/b.json", "newer"),
            file("facts/a/c.json", "c"),
            file("facts/z/a.json", "z"),
        ]
    );
}

#[test]
fn an_ingest_lands_ungrounded_with_its_hint_disarmed() {
    let op = WriteOp::ingest(
        Claim::parse_key("a.b").unwrap(),
        scalar("x"),
        TriageSource::Llm { meta_confidence: bits_of(0.99) },
        HalfLife::default(),
        Some(ground_with(Some(Outcome::Confirmed))),
    );
    let taken = JishukenStore::apply_staged(op, vec![], circumstances(NOW)).unwrap();
    assert!(taken.files.is_empty() && taken.path.is_none());
    let staged = taken.staged;
    assert_eq!(staged.fact.epistemics.confidence, bits_of(0.3));
    assert!(matches!(staged.fact.epistemics.groundedness, Groundedness::Ungrounded { .. }));
    assert_eq!(staged.fact.source_hint, Some(ground_with(None)));
    assert!(staged.fact.grounds.is_empty());
    assert_eq!((staged.tag.as_str(), staged.detail.as_str()), ("Ingest", "a.b"));
    assert!(staged.moves_centrality && staged.sample.is_none());
}

#[test]
fn a_check_moves_belief_only_by_a_verdict() {
    let id = || FactId("svc.url".into());
    let fact = fact_with_grounds(vec![ground_with(None)]);
    let resolved = ground_with(Some(Outcome::Refuted)).last;
    let op = authority::ground_check(
        id(),
        0,
        Outcome::Refuted,
        Some(GeneratorHash("g".into())),
        resolved,
        None,
        Some(bits_of(2.0)),
    );
    let staged = JishukenStore::apply_staged(op, lying(&fact), circumstances(NOW)).unwrap().staged;
    assert!(matches!(staged.fact.epistemics.groundedness, Groundedness::Refuted { .. }));
    assert_eq!(staged.fact.epistemics.confidence, bits_of(0.8));
    assert_eq!(staged.fact.schedule.variance_at_verify, bits_of(0.1));
    assert_eq!(staged.detail, "svc.url #0 existence");
    assert_eq!(staged.tag, "GroundCheck:refuted");
    assert_eq!(staged.cost, Some((GeneratorHash("g".into()), bits_of(2.0))));
    assert_eq!(
        staged.sample,
        Some(CalibrationSample { prior: bits_of(0.4), grounded_outcome: false })
    );

    let op = authority::ground_check(id(), 0, Outcome::Errored, None, None, None, None);
    let staged = JishukenStore::apply_staged(op, lying(&fact), circumstances(NOW)).unwrap().staged;
    assert_eq!(staged.fact, fact);
    assert!(staged.sample.is_none() && staged.cost.is_none());
}

#[test]
fn binding_rescheduling_and_overriding_touch_only_their_part() {
    let id = || FactId("svc.url".into());
    let mut fact = fact_with_grounds(vec![]);
    fact.source_hint = Some(ground_with(None));
    let apply = |op| {
        JishukenStore::apply_staged(op, lying(&fact), circumstances(NOW)).unwrap().staged
    };
    let bound = apply(authority::ground(id(), ground_with(None)));
    assert_eq!(bound.detail, "svc.url <- store:data.txt");
    assert!(bound.fact.source_hint.is_none());
    assert_eq!(bound.fact.grounds, [ground_with(None)]);
    assert_eq!(bound.fact.epistemics, fact.epistemics);
    let moved = apply(authority::reschedule(id(), bits_of(7.0)));
    assert_eq!(moved.fact.schedule.priority, bits_of(7.0));
    assert_eq!(moved.fact.epistemics, fact.epistemics);
    let doubt = Epistemics {
        confidence: bits_of(0.1),
        groundedness: Groundedness::Ungrounded { source: TriageSource::Manual },
    };
    let doubted = apply(authority::manual_override(id(), doubt.clone(), "looks old".into()));
    assert_eq!(doubted.detail, "svc.url :: looks old");
    assert_eq!(doubted.fact.epistemics, doubt);
    assert!(!doubted.moves_centrality);
}

/// A fact in the file where it belongs.
fn lying(fact: &Fact) -> Vec<FactFile> {
    vec![FactFile { path: path_for(&fact.claim), fact: fact.clone() }]
}

#[test]
fn a_write_finds_the_fact_that_its_key_names() {
    let (a, b) = (verified_scalar("a.b"), verified_scalar("caf\u{e9}.x"));
    let files = || [lying(&a), lying(&b)].concat();
    let of = |key: &str, files| {
        let op = authority::reschedule(FactId(key.into()), bits_of(7.0));
        JishukenStore::apply_staged(op, files, circumstances(NOW))
    };
    // A decomposed spelling names the same fact.
    let taken = of("cafe\u{301}.x", files()).unwrap_or_else(|e| panic!("{e:?}"));
    assert_eq!(taken.staged.fact.id, b.id);
    assert_eq!(taken.staged.fact.schedule.priority, bits_of(7.0));
    assert_eq!(taken.path, Some(path_for(&b.claim)));
    assert_eq!(taken.files, lying(&a));
    assert!(matches!(of("cafe\u{301}.y", files()), Err(Error::FactNotFound(key)) if key == "caf\u{e9}.y"));
    assert!(matches!(of("nodot", files()), Err(Error::Key(_))));
    let twice = [lying(&a), lying(&a)].concat();
    assert!(matches!(of("a.b", twice), Err(Error::Store(text)) if text.contains("a.b")));
    let mut astray = a.clone();
    astray.id = FactId("c.d".into());
    assert!(matches!(
        of("a.b", lying(&astray)),
        Err(Error::Store(text)) if text == "fact ID does not match its claim"
    ));
}

#[test]
fn conflicts_are_listed_by_identity() {
    let mut torn = verified_scalar("a.b");
    torn.epistemics.groundedness = Groundedness::Conflicted { verifiers: vec![] };
    let facts = vec![verified_scalar("c.d"), torn];
    assert_eq!(JishukenStore::list_conflicts(&facts), [FactId("a.b".into())]);
}

#[test]
fn the_nearest_store_is_found() {
    assert_eq!(JishukenStore::discover(&vec![false, true, true]).unwrap(), 1);
    assert!(matches!(
        JishukenStore::discover(&vec![false, false]),
        Err(Error::StoreNotFound)
    ));
    assert!(matches!(
        JishukenStore::open("x".into(), None),
        Err(Error::StoreNotFound)
    ));
    let store = JishukenStore::open("x".into(), Some(Default::default())).unwrap();
    assert_eq!(store.root(), "x");
    assert_eq!(store.registry().root, "x");
    assert_eq!(store.config().budget.per_tick, 20);
}
