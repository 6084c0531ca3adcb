//! Commit staged files with a rollback journal.
//! A journal left by an interrupted operation is restored before the next open or write.
//!
//! What to write, and in which order, is decided here; each [`Step`] is carried
//! out by the caller, as a whole or, where a log is appended to, in part.

use crate::error::Error;
use crate::text::{copy_option, same_option};
use vstd::prelude::*;

verus! {

/// One file touched by an op: its path (relative to the store root) and the
/// text before and after. `before: None` means the op created the file;
/// `undo` restores `before`, deleting the file when it is `None`.
#[derive(Debug, Clone, PartialEq, Eq)]
pub struct Change {
    pub path: String,
    pub before: Option<String>,
    pub after: Option<String>,
}

/// A change, with its texts as characters.
pub struct FileChange {
    pub path: Seq<char>,
    pub before: Option<Seq<char>>,
    pub after: Option<Seq<char>>,
}

impl View for Change {
    type V = FileChange;

    open spec fn view(&self) -> FileChange {
        FileChange {
            path: self.path@,
            before: crate::text::option_text(self.before),
            after: crate::text::option_text(self.after),
        }
    }
}

/// Some changes, with their texts as characters.
pub open spec fn change_views(changes: Seq<Change>) -> Seq<FileChange> {
    changes.map_values(|c: Change| c@)
}

impl Change {
    /// A copy of the change.
    pub fn copy(&self) -> (r: Change)
        ensures
            r == *self,
    {
        Change {
            path: self.path.clone(),
            before: copy_option(&self.before),
            after: copy_option(&self.after),
        }
    }
}

/// How a commit changes the log, and what the log was before.
#[derive(Debug, PartialEq, Eq)]
pub enum LogUpdate {
    Append { text: String, length: u64 },
    Replace { text: String, contents: String },
}

/// What the log was before a commit.
#[derive(Debug, PartialEq, Eq)]
pub enum LogBefore {
    Length(u64),
    Contents(String),
}

/// What undoes a commit that did not finish.
#[derive(Debug, PartialEq, Eq)]
pub struct Journal {
    pub changes: Vec<Change>,
    pub log_before: LogBefore,
}

/// What the log was before a commit, with its text as characters.
pub enum LogBeforeView {
    Length(int),
    Contents(Seq<char>),
}

/// A journal, with its texts as characters.
pub struct JournalView {
    pub changes: Seq<FileChange>,
    pub log_before: LogBeforeView,
}

impl View for Journal {
    type V = JournalView;

    open spec fn view(&self) -> JournalView {
        JournalView {
            changes: change_views(self.changes@),
            log_before: match self.log_before {
                LogBefore::Length(n) => LogBeforeView::Length(n as int),
                LogBefore::Contents(text) => LogBeforeView::Contents(text@),
            },
        }
    }
}

/// One thing to do to the store. Files and the journal are replaced as a whole;
/// an append may be interrupted.
#[derive(Debug, PartialEq, Eq)]
pub enum Step {
    /// Replace a file, or remove it.
    Put { path: String, contents: Option<String> },
    WriteJournal(Journal),
    AppendLog(String),
    ReplaceLog(String),
    /// Cut the log to a length; an error where it is shorter.
    TruncateLog(u64),
    RemoveJournal,
}

/// A step, with its texts as characters.
pub enum StepView {
    Put(Seq<char>, Option<Seq<char>>),
    WriteJournal(JournalView),
    AppendLog(Seq<char>),
    ReplaceLog(Seq<char>),
    TruncateLog(int),
    RemoveJournal,
}

impl View for Step {
    type V = StepView;

    open spec fn view(&self) -> StepView {
        match *self {
            Step::Put { path, contents } => StepView::Put(
                path@,
                crate::text::option_text(contents),
            ),
            Step::WriteJournal(journal) => StepView::WriteJournal(journal@),
            Step::AppendLog(text) => StepView::AppendLog(text@),
            Step::ReplaceLog(text) => StepView::ReplaceLog(text@),
            Step::TruncateLog(n) => StepView::TruncateLog(n as int),
            Step::RemoveJournal => StepView::RemoveJournal,
        }
    }
}

/// Some steps, with their texts as characters.
pub open spec fn step_views(steps: Seq<Step>) -> Seq<StepView> {
    steps.map_values(|s: Step| s@)
}

// ---------------------------------------------------------------------------
// What steps do
// ---------------------------------------------------------------------------

/// Files and their texts, by path.
pub type Files = Map<Seq<char>, Seq<char>>;

/// What a store keeps on disk: its files, the bytes of its log, and the journal
/// of a commit that did not finish.
pub struct Disk {
    pub files: Files,
    pub log: Seq<u8>,
    pub journal: Option<JournalView>,
}

/// The text of a file, where there is one.
pub open spec fn file_at(files: Files, path: Seq<char>) -> Option<Seq<char>> {
    if files.contains_key(path) {
        Some(files[path])
    } else {
        None
    }
}

/// The files once one is replaced or removed.
pub open spec fn put(files: Files, path: Seq<char>, contents: Option<Seq<char>>) -> Files {
    match contents {
        Some(text) => files.insert(path, text),
        None => files.remove(path),
    }
}

/// The files once changes are made, in order.
pub open spec fn applied(files: Files, changes: Seq<FileChange>) -> Files
    decreases changes.len(),
{
    if changes.len() == 0 {
        files
    } else {
        put(
            applied(files, changes.drop_last()),
            changes.last().path,
            changes.last().after,
        )
    }
}

/// The disk once a step is done.
pub open spec fn done(step: StepView, disk: Disk) -> Disk {
    match step {
        StepView::Put(path, contents) => Disk { files: put(disk.files, path, contents), ..disk },
        StepView::WriteJournal(journal) => Disk { journal: Some(journal), ..disk },
        StepView::AppendLog(text) => Disk {
            log: disk.log + vstd::utf8::encode_utf8(text),
            ..disk
        },
        StepView::ReplaceLog(text) => Disk { log: vstd::utf8::encode_utf8(text), ..disk },
        StepView::TruncateLog(n) => Disk { log: disk.log.take(n), ..disk },
        StepView::RemoveJournal => Disk { journal: None, ..disk },
    }
}

/// The disk once steps are done, in order.
pub open spec fn all_done(steps: Seq<StepView>, disk: Disk) -> Disk
    decreases steps.len(),
{
    if steps.len() == 0 {
        disk
    } else {
        done(steps.last(), all_done(steps.drop_last(), disk))
    }
}

/// The log a commit leaves, and what it was before.
pub struct LogChange {
    pub step: StepView,
    pub before: LogBeforeView,
}

/// How a commit changes the log.
pub open spec fn log_change(update: LogUpdate) -> LogChange {
    match update {
        LogUpdate::Append { text, length } => LogChange {
            step: StepView::AppendLog(text@),
            before: LogBeforeView::Length(length as int),
        },
        LogUpdate::Replace { text, contents } => LogChange {
            step: StepView::ReplaceLog(text@),
            before: LogBeforeView::Contents(contents@),
        },
    }
}

/// The steps that make changes.
pub open spec fn put_steps(changes: Seq<FileChange>) -> Seq<StepView> {
    changes.map_values(|c: FileChange| StepView::Put(c.path, c.after))
}

/// The steps that take changes back, the last first.
pub open spec fn restore_steps(changes: Seq<FileChange>) -> Seq<StepView> {
    changes.reverse().map_values(|c: FileChange| StepView::Put(c.path, c.before))
}

/// The steps of a commit: the journal, the files, the log, and then the journal
/// goes.
pub open spec fn commit_steps(changes: Seq<FileChange>, log: LogChange) -> Seq<StepView> {
    seq![StepView::WriteJournal(JournalView { changes, log_before: log.before })] + put_steps(
        changes,
    ) + seq![log.step, StepView::RemoveJournal]
}

/// The step that takes a change of the log back.
pub open spec fn log_restore(before: LogBeforeView) -> StepView {
    match before {
        LogBeforeView::Length(n) => StepView::TruncateLog(n),
        LogBeforeView::Contents(text) => StepView::ReplaceLog(text),
    }
}

/// The steps that undo a commit that did not finish.
pub open spec fn recover_steps(journal: JournalView) -> Seq<StepView> {
    restore_steps(journal.changes) + seq![log_restore(journal.log_before), StepView::RemoveJournal]
}

// ---------------------------------------------------------------------------
// Plans
// ---------------------------------------------------------------------------

/// The first change whose file is no longer what it was when the change was
/// staged; the number of changes where there is none.
pub open spec fn first_stale(changes: Seq<FileChange>, current: Seq<Option<String>>, from: int) -> int
    decreases changes.len() - from,
{
    if from >= changes.len() {
        changes.len() as int
    } else if crate::text::option_text(current[from]) != changes[from].before {
        from
    } else {
        first_stale(changes, current, from + 1)
    }
}

/// Commits files and history together. Normal writes only append to the log.
/// `current` is what the changed files hold now; a file that changed since the
/// change was staged is an error, and then nothing is done.
pub fn commit(changes: Vec<Change>, current: &Vec<Option<String>>, update: LogUpdate) -> (r: Result<
    Vec<Step>,
    Error,
>)
    requires
        current.len() == changes.len(),
    ensures
        ({
            let stale = first_stale(change_views(changes@), current@, 0);
            if stale < changes@.len() {
                crate::error::is_store(
                    r,
                    changes@[stale].path@ + " changed before commit; retry the operation"@,
                )
            } else {
                r matches Ok(steps) && step_views(steps@) == commit_steps(
                    change_views(changes@),
                    log_change(update),
                )
            }
        }),
{
    let ghost views = change_views(changes@);
    let mut i: usize = 0;
    while i < changes.len()
        invariant
            i <= changes.len(),
            current.len() == changes.len(),
            views == change_views(changes@),
            first_stale(views, current@, 0) == first_stale(views, current@, i as int),
        decreases changes.len() - i,
    {
        assert(views[i as int] == changes@[i as int]@);
        if !same_option(&current[i], &changes[i].before) {
            let text = changes[i].path.clone().concat(
                " changed before commit; retry the operation",
            );
            return Err(Error::Store(text));
        }
        i = i + 1;
    }
    let mut puts: Vec<Step> = Vec::new();
    let mut k: usize = 0;
    while k < changes.len()
        invariant
            k <= changes.len(),
            views == change_views(changes@),
            puts@.len() == k,
            forall|j: int| 0 <= j < k ==> (#[trigger] puts@[j])@ == put_steps(views)[j],
        decreases changes.len() - k,
    {
        puts.push(
            Step::Put { path: changes[k].path.clone(), contents: copy_option(&changes[k].after) },
        );
        assert(put_steps(views)[k as int] == StepView::Put(views[k as int].path, views[k as int].after));
        k = k + 1;
    }
    let ghost log = log_change(update);
    let (log_before, log_step) = match update {
        LogUpdate::Append { text, length } => (LogBefore::Length(length), Step::AppendLog(text)),
        LogUpdate::Replace { text, contents } => (
            LogBefore::Contents(contents),
            Step::ReplaceLog(text),
        ),
    };
    let mut steps: Vec<Step> = Vec::new();
    steps.push(Step::WriteJournal(Journal { changes, log_before }));
    steps.append(&mut puts);
    steps.push(log_step);
    steps.push(Step::RemoveJournal);
    assert(step_views(steps@) =~= commit_steps(views, log));
    Ok(steps)
}

/// Restores an incomplete operation from its journal.
pub fn recover(journal: Journal) -> (r: Vec<Step>)
    ensures
        step_views(r@) == recover_steps(journal@),
{
    let ghost views = change_views(journal.changes@);
    let n: usize = journal.changes.len();
    let mut steps: Vec<Step> = Vec::new();
    let mut k: usize = 0;
    while k < n
        invariant
            k <= n,
            n == journal.changes@.len(),
            views == change_views(journal.changes@),
            steps@.len() == k,
            forall|j: int| 0 <= j < k ==> (#[trigger] steps@[j])@ == restore_steps(views)[j],
        decreases n - k,
    {
        let change = &journal.changes[n - 1 - k];
        steps.push(Step::Put { path: change.path.clone(), contents: copy_option(&change.before) });
        assert(views.reverse()[k as int] == views[n - 1 - k]);
        k = k + 1;
    }
    let ghost before = journal@.log_before;
    match journal.log_before {
        LogBefore::Length(length) => {
            steps.push(Step::TruncateLog(length));
        },
        LogBefore::Contents(text) => {
            steps.push(Step::ReplaceLog(text));
        },
    }
    steps.push(Step::RemoveJournal);
    assert(step_views(steps@) =~= recover_steps(journal@));
    steps
}

/// Whether the log can be cut to a length.
pub fn check_log_length(current: u64, length: u64) -> (r: Result<(), Error>)
    ensures
        if current < length {
            crate::error::is_store(r, "operation log is shorter than the recovery journal"@)
        } else {
            r is Ok
        },
{
    if current < length {
        return Err(
            Error::Store("operation log is shorter than the recovery journal".to_owned()),
        );
    }
    Ok(())
}

/// What a failed commit is reported as, by what came of rolling it back.
pub fn commit_error(error: Error, rollback: Result<(), Error>) -> (r: Error)
    ensures
        match rollback {
            Ok(_) => r == error,
            Err(recovery) => r matches Error::Store(s) && s@ == "commit failed: "@ + error.message()
                + "; rollback failed: "@ + recovery.message()
                + "; repair the I/O error and reopen the store to recover"@,
        },
{
    match rollback {
        Ok(_) => error,
        Err(recovery) => {
            let mut text = "commit failed: ".to_owned();
            text.append(error.to_string().as_str());
            text.append("; rollback failed: ");
            text.append(recovery.to_string().as_str());
            text.append("; repair the I/O error and reopen the store to recover");
            Error::Store(text)
        },
    }
}

// ---------------------------------------------------------------------------
// Laws
// ---------------------------------------------------------------------------

/// Whether each changed file holds what it held when the change was staged.
pub open spec fn is_fresh(files: Files, changes: Seq<FileChange>) -> bool {
    forall|i: int|
        0 <= i < changes.len() ==> file_at(files, (#[trigger] changes[i]).path)
            == changes[i].before
}

/// Whether the log before a commit is what the commit says it was.
pub open spec fn log_is(log: Seq<u8>, before: LogBeforeView) -> bool {
    match before {
        LogBeforeView::Length(n) => n == log.len(),
        LogBeforeView::Contents(text) => vstd::utf8::encode_utf8(text) == log,
    }
}

/// Whether a disk with a journal can be taken back to what it was before the
/// commit: every file that differs is named in the journal with what it held,
/// and nothing of the old log is lost.
pub open spec fn is_recoverable(now: Disk, before: Disk) -> bool {
    &&& before.journal is None
    &&& now.journal matches Some(journal)
    &&& is_fresh(before.files, journal.changes)
    &&& log_is(before.log, journal.log_before)
    &&& forall|path: Seq<char>|
        (forall|i: int| 0 <= i < journal.changes.len() ==> (#[trigger] journal.changes[i]).path != path)
            ==> #[trigger] file_at(now.files, path) == file_at(before.files, path)
    &&& journal.log_before matches LogBeforeView::Length(n) ==> n <= now.log.len() && now.log.take(
        n,
    ) == before.log
}

proof fn lemma_put_at(files: Files, path: Seq<char>, contents: Option<Seq<char>>, other: Seq<char>)
    ensures
        file_at(put(files, path, contents), other) == if other == path {
            contents
        } else {
            file_at(files, other)
        },
{
}

/// Files are the same where the text at every path is.
proof fn lemma_same_files(a: Files, b: Files)
    requires
        forall|path: Seq<char>| #[trigger] file_at(a, path) == file_at(b, path),
    ensures
        a == b,
{
    assert forall|path: Seq<char>| a.contains_key(path) == b.contains_key(path) by {
        assert(file_at(a, path) == file_at(b, path));
    }
    assert forall|path: Seq<char>| a.contains_key(path) implies a[path] == b[path] by {
        assert(file_at(a, path) == file_at(b, path));
    }
    assert(a =~= b);
}

/// A step that writes a file named in the journal keeps a disk recoverable.
proof fn lemma_put_keeps(now: Disk, before: Disk, i: int, contents: Option<Seq<char>>)
    requires
        is_recoverable(now, before),
        0 <= i < now.journal.unwrap().changes.len(),
    ensures
        is_recoverable(
            done(StepView::Put(now.journal.unwrap().changes[i].path, contents), now),
            before,
        ),
{
    let journal = now.journal.unwrap();
    let named = journal.changes[i].path;
    let next = done(StepView::Put(named, contents), now);
    assert forall|path: Seq<char>|
        (forall|k: int| 0 <= k < journal.changes.len() ==> (#[trigger] journal.changes[k]).path != path)
        implies #[trigger] file_at(next.files, path) == file_at(before.files, path) by {
        assert(journal.changes[i].path != path);
        lemma_put_at(now.files, named, contents, path);
        assert(file_at(now.files, path) == file_at(before.files, path));
    }
}

/// Once a commit has written its journal, and until it removes it, the disk can
/// be taken back to what it was: whichever files were already written, and
/// however much of an append reached the log.
pub proof fn law_interrupted_commit_is_recoverable(
    before: Disk,
    changes: Seq<FileChange>,
    log: LogChange,
    count: int,
    torn: Seq<u8>,
)
    requires
        before.journal is None,
        is_fresh(before.files, changes),
        log_is(before.log, log.before),
        1 <= count < commit_steps(changes, log).len(),
        log.before is Length ==> log.step is AppendLog,
        log.before is Contents ==> log.step is ReplaceLog,
    ensures
        is_recoverable(all_done(commit_steps(changes, log).take(count), before), before),
        log.before is Length && count <= changes.len() + 1 ==> is_recoverable(
            (Disk {
                log: before.log + torn,
                ..all_done(commit_steps(changes, log).take(count), before)
            }),
            before,
        ),
    decreases count,
{
    let steps = commit_steps(changes, log);
    let journal = JournalView { changes, log_before: log.before };
    let part = steps.take(count);
    let earlier = steps.take(count - 1);
    assert(part.drop_last() =~= earlier);
    assert(part.last() == steps[count - 1]);
    let now = all_done(part, before);
    if count == 1 {
        assert(earlier =~= Seq::<StepView>::empty());
        assert(all_done(earlier, before) == before);
        assert(steps[0] == StepView::WriteJournal(journal));
        assert(now.log.take(now.log.len() as int) =~= now.log);
    } else {
        law_interrupted_commit_is_recoverable(before, changes, log, count - 1, torn);
        let prior = all_done(earlier, before);
        assert(prior.journal == Some(journal)) by {
            lemma_journal_stays(before, changes, log, count - 1);
        }
        if count <= changes.len() + 1 {
            let i = count - 2;
            assert(steps[count - 1] == put_steps(changes)[i]);
            assert(put_steps(changes)[i] == StepView::Put(changes[i].path, changes[i].after));
            lemma_put_keeps(prior, before, i, changes[i].after);
        } else {
            assert(steps[count - 1] == log.step);
            if log.step is AppendLog {
                assert(log.before is Length);
                let text = log.step->AppendLog_0;
                let n = before.log.len() as int;
                assert((prior.log + vstd::utf8::encode_utf8(text)).take(n) =~= prior.log.take(n));
            }
        }
    }
    if log.before is Length && count <= changes.len() + 1 {
        lemma_journal_stays(before, changes, log, count);
        assert((before.log + torn).take(before.log.len() as int) =~= before.log);
    }
}

/// The journal stays until the last step of a commit.
proof fn lemma_journal_stays(before: Disk, changes: Seq<FileChange>, log: LogChange, count: int)
    requires
        1 <= count < commit_steps(changes, log).len(),
        log.step is AppendLog || log.step is ReplaceLog,
    ensures
        all_done(commit_steps(changes, log).take(count), before).journal == Some(
            JournalView { changes, log_before: log.before },
        ),
    decreases count,
{
    let steps = commit_steps(changes, log);
    let part = steps.take(count);
    assert(part.drop_last() =~= steps.take(count - 1));
    assert(part.last() == steps[count - 1]);
    if count == 1 {
        assert(steps.take(0) =~= Seq::<StepView>::empty());
    } else {
        lemma_journal_stays(before, changes, log, count - 1);
        if count <= changes.len() + 1 {
            assert(steps[count - 1] == put_steps(changes)[count - 2]);
        } else {
            assert(steps[count - 1] == log.step);
        }
    }
}

/// The changes that the first steps of a recovery have taken back.
spec fn is_restored(changes: Seq<FileChange>, count: int, path: Seq<char>) -> bool {
    exists|i: int|
        changes.len() - count <= i < changes.len() && 0 <= i && (#[trigger] changes[i]).path == path
}

/// What the first steps of a recovery leave.
proof fn lemma_restoring(now: Disk, before: Disk, count: int)
    requires
        is_recoverable(now, before),
        0 <= count <= now.journal.unwrap().changes.len(),
    ensures
        ({
            let journal = now.journal.unwrap();
            let next = all_done(restore_steps(journal.changes).take(count), now);
            &&& is_recoverable(next, before)
            &&& next.journal == now.journal
            &&& next.log == now.log
            &&& forall|path: Seq<char>|
                #[trigger] is_restored(journal.changes, count, path) ==> file_at(next.files, path)
                    == file_at(before.files, path)
        }),
    decreases count,
{
    let journal = now.journal.unwrap();
    let steps = restore_steps(journal.changes);
    let part = steps.take(count);
    if count == 0 {
        assert(part =~= Seq::<StepView>::empty());
    } else {
        lemma_restoring(now, before, count - 1);
        assert(part.drop_last() =~= steps.take(count - 1));
        let prior = all_done(steps.take(count - 1), now);
        let i = journal.changes.len() - count;
        assert(journal.changes.reverse()[count - 1] == journal.changes[i]);
        assert(part.last() == StepView::Put(journal.changes[i].path, journal.changes[i].before));
        lemma_put_keeps(prior, before, i, journal.changes[i].before);
        let next = all_done(part, now);
        assert forall|path: Seq<char>|
            #[trigger] is_restored(journal.changes, count, path) implies file_at(next.files, path)
            == file_at(before.files, path) by {
            lemma_put_at(prior.files, journal.changes[i].path, journal.changes[i].before, path);
            if path != journal.changes[i].path {
                let k = choose|k: int|
                    journal.changes.len() - count <= k < journal.changes.len() && 0 <= k && (
                    #[trigger] journal.changes[k]).path == path;
                assert(k != i);
                assert(is_restored(journal.changes, count - 1, path));
            }
        }
    }
}

/// Recovery takes a recoverable disk back to exactly what it was before the
/// commit.
pub proof fn law_recovery_restores(now: Disk, before: Disk)
    requires
        is_recoverable(now, before),
    ensures
        all_done(recover_steps(now.journal.unwrap()), now) == before,
{
    let journal = now.journal.unwrap();
    let n = journal.changes.len() as int;
    let restore = restore_steps(journal.changes);
    let steps = recover_steps(journal);
    let restored = all_done(restore, now);
    assert(restore.take(n) =~= restore);
    lemma_restoring(now, before, n);
    assert forall|path: Seq<char>| #[trigger] file_at(restored.files, path) == file_at(
        before.files,
        path,
    ) by {
        if exists|i: int| 0 <= i < n && (#[trigger] journal.changes[i]).path == path {
            let i = choose|i: int| 0 <= i < n && (#[trigger] journal.changes[i]).path == path;
            assert(is_restored(journal.changes, n, path));
        }
    }
    lemma_same_files(restored.files, before.files);
    let log_step = log_restore(journal.log_before);
    assert(steps.drop_last() =~= restore.push(log_step));
    assert(restore.push(log_step).drop_last() =~= restore);
    let logged = done(log_step, restored);
    assert(all_done(restore.push(log_step), now) == logged);
    assert(logged.log == before.log);
    assert(all_done(steps, now) == done(StepView::RemoveJournal, logged));
}

/// A recovery that is itself interrupted leaves a disk that can still be taken
/// back.
pub proof fn law_interrupted_recovery_is_recoverable(now: Disk, before: Disk, count: int)
    requires
        is_recoverable(now, before),
        0 <= count < recover_steps(now.journal.unwrap()).len(),
    ensures
        is_recoverable(all_done(recover_steps(now.journal.unwrap()).take(count), now), before),
{
    let journal = now.journal.unwrap();
    let n = journal.changes.len() as int;
    let restore = restore_steps(journal.changes);
    let steps = recover_steps(journal);
    if count <= n {
        assert(steps.take(count) =~= restore.take(count));
        lemma_restoring(now, before, count);
    } else {
        let log_step = log_restore(journal.log_before);
        assert(steps.take(count) =~= restore.push(log_step));
        assert(restore.push(log_step).drop_last() =~= restore);
        assert(restore.take(n) =~= restore);
        lemma_restoring(now, before, n);
        let restored = all_done(restore, now);
        let logged = done(log_step, restored);
        if let LogBeforeView::Length(m) = journal.log_before {
            assert(logged.log.take(m) =~= logged.log);
        }
    }
}

/// A commit that runs to its end makes all its changes, leaves the new log, and
/// no journal.
pub proof fn law_commit_applies(before: Disk, changes: Seq<FileChange>, log: LogChange)
    requires
        log.step is AppendLog || log.step is ReplaceLog,
    ensures
        all_done(commit_steps(changes, log), before) == (Disk {
            files: applied(before.files, changes),
            log: done(log.step, before).log,
            journal: None,
        }),
{
    let steps = commit_steps(changes, log);
    let n = changes.len() as int;
    lemma_puts_applied(before, changes, log, n);
    let part = steps.take(n + 1);
    let logged = steps.take(n + 2);
    assert(steps.drop_last() =~= logged);
    assert(logged.drop_last() =~= part);
    assert(changes.take(n) =~= changes);
    assert(logged.last() == log.step);
    assert(steps.last() == StepView::RemoveJournal);
    let filed = all_done(part, before);
    assert(all_done(logged, before) == done(log.step, filed));
    assert(all_done(steps, before) == done(StepView::RemoveJournal, done(log.step, filed)));
}

proof fn lemma_puts_applied(before: Disk, changes: Seq<FileChange>, log: LogChange, count: int)
    requires
        0 <= count <= changes.len(),
    ensures
        all_done(commit_steps(changes, log).take(count + 1), before) == (Disk {
            files: applied(before.files, changes.take(count)),
            log: before.log,
            journal: Some(JournalView { changes, log_before: log.before }),
        }),
    decreases count,
{
    let steps = commit_steps(changes, log);
    let part = steps.take(count + 1);
    assert(part.drop_last() =~= steps.take(count));
    if count == 0 {
        assert(steps.take(0) =~= Seq::<StepView>::empty());
        assert(part.last() == steps[0]);
        assert(changes.take(0) =~= Seq::<FileChange>::empty());
        assert(all_done(steps.take(0), before) == before);
        assert(applied(before.files, changes.take(0)) == before.files);
    } else {
        lemma_puts_applied(before, changes, log, count - 1);
        let change = changes[count - 1];
        assert(part.last() == put_steps(changes)[count - 1]);
        assert(part.last() == StepView::Put(change.path, change.after));
        assert(changes.take(count).drop_last() =~= changes.take(count - 1));
        assert(changes.take(count).last() == change);
        assert(steps.take(count) == steps.take(count - 1 + 1));
    }
}

} // verus!
