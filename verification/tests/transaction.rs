//! Commits, and recovery from commits that did not finish.

use jishuken::error::Error;
use jishuken::transaction::{
    check_log_length, commit, commit_error, recover, Change, Journal, LogBefore, LogUpdate, Step,
};
use std::collections::BTreeMap;

/// A disk in memory.
#[derive(Debug, Default, PartialEq)]
struct Disk {
    files: BTreeMap<String, String>,
    log: String,
    journal: Option<Journal>,
}

impl Disk {
    fn run(&mut self, step: Step) {
        match step {
            Step::Put { path, contents } => match contents {
                Some(text) => {
                    self.files.insert(path, text);
                }
                None => {
                    self.files.remove(&path);
                }
            },
            Step::WriteJournal(journal) => self.journal = Some(journal),
            Step::AppendLog(text) => self.log.push_str(&text),
            Step::ReplaceLog(text) => self.log = text,
            Step::TruncateLog(n) => {
                check_log_length(self.log.len() as u64, n).unwrap();
                self.log.truncate(n as usize);
            }
            Step::RemoveJournal => self.journal = None,
        }
    }

    fn recover(&mut self) {
        if let Some(journal) = self.journal.take() {
            for step in recover(journal) {
                self.run(step);
            }
        }
    }
}

fn disk() -> Disk {
    let mut disk = Disk::default();
    disk.files.insert("facts/a/b.json".into(), "old".into());
    disk.files.insert("facts/a/c.json".into(), "gone soon".into());
    disk.log = "one\n".into();
    disk
}

fn changes() -> Vec<Change> {
    let change = |path: &str, before: Option<&str>, after: Option<&str>| Change {
        path: path.into(),
        before: before.map(Into::into),
        after: after.map(Into::into),
    };
    vec![
        change("facts/a/b.json", Some("old"), Some("new")),
        change("facts/a/c.json", Some("gone soon"), None),
        change("facts/a/d.json", None, Some("fresh")),
    ]
}

fn current(disk: &Disk) -> Vec<Option<String>> {
    changes().iter().map(|c| disk.files.get(&c.path).cloned()).collect()
}

fn append() -> LogUpdate {
    LogUpdate::Append { text: "two\n".into(), length: 4 }
}

fn replace() -> LogUpdate {
    LogUpdate::Replace { text: String::new(), contents: "one\n".into() }
}

#[test]
fn a_commit_that_finishes_makes_every_change() {
    let mut disk = disk();
    let now = current(&disk);
    for step in commit(changes(), &now, append()).unwrap() {
        disk.run(step);
    }
    assert_eq!(disk.files["facts/a/b.json"], "new");
    assert!(!disk.files.contains_key("facts/a/c.json"));
    assert_eq!(disk.files["facts/a/d.json"], "fresh");
    assert_eq!(disk.log, "one\ntwo\n");
    assert!(disk.journal.is_none());
}

#[test]
fn a_commit_interrupted_anywhere_is_rolled_back() {
    for update in [append, replace] {
        let now = current(&disk());
        let total = commit(changes(), &now, update()).unwrap().len();
        for done in 0..total {
            let mut disk = disk();
            for step in commit(changes(), &now, update()).unwrap().into_iter().take(done) {
                disk.run(step);
            }
            disk.recover();
            assert_eq!(disk, self::disk(), "interrupted after {done} steps");
        }
    }
}

#[test]
fn an_append_cut_short_is_rolled_back() {
    let mut disk = disk();
    let now = current(&disk);
    for step in commit(changes(), &now, append()).unwrap() {
        match step {
            Step::AppendLog(_) => disk.log.push_str("tw"),
            Step::RemoveJournal => {}
            other => disk.run(other),
        }
    }
    disk.recover();
    assert_eq!(disk, self::disk());
}

#[test]
fn a_recovery_interrupted_anywhere_is_repeated() {
    let now = current(&disk());
    let interrupted = || {
        let mut disk = disk();
        for step in commit(changes(), &now, append()).unwrap().into_iter().take(4) {
            disk.run(step);
        }
        disk
    };
    let journal = || Journal { changes: changes(), log_before: LogBefore::Length(4) };
    let total = recover(journal()).len();
    for done in 0..total {
        let mut disk = interrupted();
        for step in recover(journal()).into_iter().take(done) {
            disk.run(step);
        }
        disk.recover();
        assert_eq!(disk, self::disk(), "recovery interrupted after {done} steps");
    }
}

#[test]
fn a_file_that_changed_since_is_not_overwritten() {
    let mut now = current(&disk());
    now[1] = Some("someone else's".into());
    match commit(changes(), &now, append()) {
        Err(Error::Store(text)) => assert_eq!(
            text,
            "facts/a/c.json changed before commit; retry the operation"
        ),
        other => panic!("{other:?}"),
    }
}

#[test]
fn a_log_that_is_too_short_is_an_error() {
    assert!(check_log_length(4, 4).is_ok());
    match check_log_length(3, 4) {
        Err(Error::Store(text)) => {
            assert_eq!(text, "operation log is shorter than the recovery journal")
        }
        other => panic!("{other:?}"),
    }
}

#[test]
fn a_failed_rollback_is_reported_with_its_cause() {
    let plain = commit_error(Error::Io("disk full".into()), Ok(()));
    assert_eq!(plain.to_string(), "disk full");
    let both = commit_error(Error::Io("disk full".into()), Err(Error::Io("gone".into())));
    assert_eq!(
        both.to_string(),
        "store error: commit failed: disk full; rollback failed: gone; \
         repair the I/O error and reopen the store to recover"
    );
}
