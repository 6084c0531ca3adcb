//! The operation log: identities, listing, and undo.

use crate::digest::hash_text;
use crate::error::Error;
use crate::resolve::lines_of;
use crate::schema::{Fact, FactId, Groundedness};
use crate::store::{JishukenStore, Pending};
use crate::text::{chars_of, copy_option, decimal_text, same, string_of, trimmed};
use crate::transaction::Change;
use vstd::prelude::*;

verus! {

/// An operation id in the log.
#[derive(Debug, Clone, PartialEq, Eq)]
pub struct OpId(pub String);

/// One entry of the operation log.
#[derive(Debug, Clone, PartialEq, Eq)]
pub struct Operation {
    pub id: String,
    pub time: String,
    pub description: String,
}

/// One op-log record, oldest first in the log.
#[derive(Debug, Clone, PartialEq, Eq)]
pub struct OpRecord {
    pub id: String,
    pub time: String,
    pub tag: String,
    pub detail: String,
    pub changes: Vec<Change>,
}

// ---------------------------------------------------------------------------
// Records
// ---------------------------------------------------------------------------

/// The id of the newest record; nothing where the log is empty.
pub open spec fn last_id(records: Seq<OpRecord>) -> Seq<char> {
    if records.len() == 0 {
        Seq::empty()
    } else {
        records.last().id@
    }
}

/// The id of a new record: it names the record before it, so that an id stands for
/// a history.
pub open spec fn op_id(
    previous: Seq<char>,
    tag: Seq<char>,
    detail: Seq<char>,
    time: Seq<char>,
) -> Seq<char> {
    crate::digest::text_hash(
        previous + seq!['\u{1f}'] + tag + seq!['\u{1f}'] + detail + seq!['\u{1f}'] + time,
    ).take(12)
}

impl JishukenStore {
    /// The id of the newest op-log record, or an empty string if the log is empty.
    pub fn last_op_id(records: &Vec<OpRecord>) -> (r: String)
        ensures
            r@ == last_id(records@),
    {
        if records.len() == 0 {
            String::new()
        } else {
            records[records.len() - 1].id.clone()
        }
    }
}

impl JishukenStore {
    /// The record of an operation that makes some changes.
    pub fn append_op(
        records: &Vec<OpRecord>,
        tag: &str,
        detail: &str,
        time: &str,
        changes: Vec<Change>,
    ) -> (r: OpRecord)
        ensures
            r.id@ == op_id(last_id(records@), tag@, detail@, time@),
            r.time@ == time@,
            r.tag@ == tag@,
            r.detail@ == detail@,
            r.changes == changes,
    {
        let mut seed = JishukenStore::last_op_id(records);
        seed.push('\u{1f}');
        seed.append(tag);
        seed.push('\u{1f}');
        seed.append(detail);
        seed.push('\u{1f}');
        seed.append(time);
        assert(seed@ =~= last_id(records@) + seq!['\u{1f}'] + tag@ + seq!['\u{1f}'] + detail@ + seq![
            '\u{1f}',
        ] + time@);
        let hash = chars_of(hash_text(seed.as_str()).as_str());
        let id = string_of(&hash, 0, 12);
        assert(id@ =~= hash@.take(12));
        OpRecord {
            id,
            time: time.to_owned(),
            tag: tag.to_owned(),
            detail: detail.to_owned(),
            changes,
        }
    }
}

/// The lines that hold something from line `from` on, each with its number.
pub open spec fn full_lines(lines: Seq<Seq<char>>, from: int) -> Seq<(int, Seq<char>)>
    decreases lines.len() - from,
{
    if from >= lines.len() {
        Seq::empty()
    } else if crate::text::trim(lines[from]).len() == 0 {
        full_lines(lines, from + 1)
    } else {
        seq![(from + 1, lines[from])] + full_lines(lines, from + 1)
    }
}

/// Numbered lines, with their texts as characters.
pub open spec fn numbered(lines: Seq<(usize, String)>) -> Seq<(int, Seq<char>)> {
    lines.map_values(|line: (usize, String)| (line.0 as int, line.1@))
}

/// The records in the text of a log, one on each line, with the line's number.
/// Blank lines hold none.
pub fn record_lines(log: &str) -> (r: Vec<(usize, String)>)
    ensures
        numbered(r@) == full_lines(crate::resolve::lines(log@), 0),
{
    let lines = lines_of(log);
    let ghost texts = crate::text::texts(lines@);
    let mut out: Vec<(usize, String)> = Vec::new();
    let mut i: usize = 0;
    assert(numbered(out@) + full_lines(texts, 0) =~= full_lines(texts, 0));
    while i < lines.len()
        invariant
            i <= lines.len(),
            texts == crate::text::texts(lines@),
            numbered(out@) + full_lines(texts, i as int) == full_lines(texts, 0),
        decreases lines.len() - i,
    {
        assert(texts[i as int] == lines@[i as int]@);
        if !trimmed(lines[i].as_str()).as_str().is_empty() {
            let ghost before = numbered(out@);
            out.push((i + 1, lines[i].clone()));
            assert(numbered(out@) =~= before.push((i + 1, texts[i as int])));
            assert(numbered(out@) + full_lines(texts, i + 1) =~= before + (seq![
                (i + 1, texts[i as int]),
            ] + full_lines(texts, i + 1)));
        }
        i = i + 1;
    }
    assert(numbered(out@) + full_lines(texts, i as int) =~= numbered(out@));
    out
}

/// What is said of a line of the log that holds no record.
pub fn bad_record(line: usize, cause: &str) -> (r: Error)
    ensures
        r matches Error::Store(s) && s@ == "invalid ops.jsonl record on line "@
            + crate::text::digits_of(line as nat) + ": "@ + cause@,
{
    Error::Store(
        "invalid ops.jsonl record on line ".to_owned().concat(
            decimal_text(line as u128).as_str(),
        ).concat(": ").concat(cause),
    )
}

/// Lines as the text of a log.
pub open spec fn log_text(lines: Seq<Seq<char>>) -> Seq<char>
    decreases lines.len(),
{
    if lines.len() == 0 {
        Seq::empty()
    } else {
        log_text(lines.drop_last()) + lines.last() + seq!['\n']
    }
}

/// The text of a log whose records are written one on each line.
pub fn log_of(lines: &Vec<String>) -> (r: String)
    ensures
        r@ == log_text(crate::text::texts(lines@)),
{
    let ghost texts = crate::text::texts(lines@);
    let mut out = String::new();
    let mut i: usize = 0;
    assert(texts.take(0) =~= Seq::<Seq<char>>::empty());
    while i < lines.len()
        invariant
            i <= lines.len(),
            texts == crate::text::texts(lines@),
            out@ == log_text(texts.take(i as int)),
        decreases lines.len() - i,
    {
        let ghost before = out@;
        out.append(lines[i].as_str());
        out.push('\n');
        proof {
            assert(texts.take(i + 1).drop_last() =~= texts.take(i as int));
            assert(texts.take(i + 1).last() == lines@[i as int]@);
            assert(out@ =~= before + lines@[i as int]@ + seq!['\n']);
        }
        i = i + 1;
    }
    assert(texts.take(i as int) =~= texts);
    out
}

// ---------------------------------------------------------------------------
// Listing
// ---------------------------------------------------------------------------

/// Where the newest record with an id is; -1 where there is none.
pub open spec fn newest_at(records: Seq<OpRecord>, id: Seq<char>) -> int
    decreases records.len(),
{
    if records.len() == 0 {
        -1
    } else if records.last().id@ == id {
        records.len() - 1
    } else {
        newest_at(records.drop_last(), id)
    }
}

/// The records that are strictly newer than `since`; all of them where it is not
/// given or names no record.
pub open spec fn newer(records: Seq<OpRecord>, since: Option<OpId>) -> Seq<OpRecord> {
    match since {
        Some(id) => records.skip(newest_at(records, id.0@) + 1),
        None => records,
    }
}

/// Whether a log entry shows a record.
pub open spec fn shows(operation: Operation, record: OpRecord) -> bool {
    &&& operation.id@ == record.id@
    &&& operation.time@ == record.time@
    &&& operation.description@ == seq!['['] + record.tag@ + "] "@ + record.detail@
}

fn describe(record: &OpRecord) -> (r: Operation)
    ensures
        shows(r, *record),
{
    let mut description = String::new();
    description.push('[');
    description.append(record.tag.as_str());
    description.append("] ");
    description.append(record.detail.as_str());
    assert(description@ =~= seq!['['] + record.tag@ + "] "@ + record.detail@);
    Operation { id: record.id.clone(), time: record.time.clone(), description }
}

impl JishukenStore {
    /// The operation log, newest first, optionally truncated at `since` (keeping only
    /// records strictly newer than the `since` id).
    pub fn op_log(records: &Vec<OpRecord>, since: Option<OpId>) -> (r: Vec<Operation>)
        ensures
            ({
                let shown = newer(records@, since);
                &&& r@.len() == shown.len()
                &&& forall|k: int|
                    0 <= k < r@.len() ==> shows(#[trigger] r@[k], shown[shown.len() - 1 - k])
            }),
    {
        let mut out: Vec<Operation> = Vec::new();
        let mut i: usize = records.len();
        assert(records@.take(i as int) =~= records@);
        while i > 0
            invariant
                i <= records.len(),
                out.len() == records.len() - i,
                forall|k: int|
                    0 <= k < out.len() ==> shows(
                        #[trigger] out@[k],
                        records@[records@.len() - 1 - k],
                    ),
                match since {
                    Some(id) => newest_at(records@, id.0@) == newest_at(records@.take(i as int), id.0@),
                    None => true,
                },
            decreases i,
        {
            proof {
                assert(records@.take(i as int).last() == records@[i - 1]);
                assert(records@.take(i as int).drop_last() =~= records@.take(i - 1));
            }
            if let Some(stop) = &since {
                if same(records[i - 1].id.as_str(), stop.0.as_str()) {
                    return out;
                }
            }
            i = i - 1;
            out.push(describe(&records[i]));
        }
        assert(records@.take(0) =~= Seq::<OpRecord>::empty());
        assert(newer(records@, since) =~= records@);
        out
    }
}

/// The identities of the facts that hold two answers.
pub open spec fn conflicted(facts: Seq<Fact>) -> Seq<Seq<char>>
    decreases facts.len(),
{
    if facts.len() == 0 {
        Seq::empty()
    } else if facts.last().epistemics.groundedness is Conflicted {
        conflicted(facts.drop_last()).push(facts.last().id.0@)
    } else {
        conflicted(facts.drop_last())
    }
}

impl JishukenStore {
    /// The facts currently in a `Conflicted` state.
    pub fn list_conflicts(facts: &Vec<Fact>) -> (r: Vec<FactId>)
        ensures
            r@.map_values(|id: FactId| id.0@) == conflicted(facts@),
    {
        let mut out: Vec<FactId> = Vec::new();
        let mut i: usize = 0;
        assert(facts@.take(0) =~= Seq::<Fact>::empty());
        assert(out@.map_values(|id: FactId| id.0@) =~= conflicted(facts@.take(0)));
        while i < facts.len()
            invariant
                i <= facts.len(),
                out@.map_values(|id: FactId| id.0@) == conflicted(facts@.take(i as int)),
            decreases facts.len() - i,
        {
            proof {
                assert(facts@.take(i + 1).last() == facts@[i as int]);
                assert(facts@.take(i + 1).drop_last() =~= facts@.take(i as int));
            }
            if let Groundedness::Conflicted { .. } = &facts[i].epistemics.groundedness {
                let ghost before = out@.map_values(|id: FactId| id.0@);
                out.push(facts[i].id.clone());
                assert(out@.map_values(|id: FactId| id.0@) =~= before.push(facts@[i as int].id.0@));
            }
            i = i + 1;
        }
        assert(facts@.take(i as int) =~= facts@);
        out
    }
}

// ---------------------------------------------------------------------------
// Undo
// ---------------------------------------------------------------------------

/// The records before the trailing group of `Undo` records.
pub open spec fn before_undos(records: Seq<OpRecord>) -> Seq<OpRecord>
    decreases records.len(),
{
    if records.len() > 0 && records.last().tag@ == "Undo"@ {
        before_undos(records.drop_last())
    } else {
        records
    }
}

/// Taking the trailing group of `Undo` records off makes a history shorter.
pub proof fn lemma_before_undos(records: Seq<OpRecord>)
    ensures
        before_undos(records).len() <= records.len(),
        records.len() > 0 && records.last().tag@ == "Undo"@ ==> before_undos(records).len()
            < records.len(),
        before_undos(records) == records.take(before_undos(records).len() as int),
    decreases records.len(),
{
    if records.len() > 0 && records.last().tag@ == "Undo"@ {
        lemma_before_undos(records.drop_last());
        let n = before_undos(records).len() as int;
        assert(records.drop_last().take(n) =~= records.take(n));
    } else {
        assert(records.take(records.len() as int) =~= records);
    }
}

/// The records whose operations are in force. Earlier versions appended `Undo`
/// records without consuming the operation: a trailing group of those has already
/// reversed the operation before it.
pub open spec fn in_force(records: Seq<OpRecord>) -> Seq<OpRecord>
    decreases records.len(),
{
    if records.len() > 0 && records.last().tag@ == "Undo"@ {
        let before = before_undos(records);
        proof {
            lemma_before_undos(records);
        }
        if before.len() == 0 {
            before
        } else {
            in_force(before.drop_last())
        }
    } else {
        records
    }
}

/// Takes the records that are no longer in force off the log.
fn drop_undone(records: &mut Vec<OpRecord>)
    ensures
        final(records)@ == in_force(old(records)@),
{
    while records.len() > 0 && same(records[records.len() - 1].tag.as_str(), "Undo")
        invariant
            in_force(records@) == in_force(old(records)@),
        decreases records.len(),
    {
        let ghost all = records@;
        proof {
            lemma_before_undos(all);
        }
        while records.len() > 0 && same(records[records.len() - 1].tag.as_str(), "Undo")
            invariant
                before_undos(records@) == before_undos(all),
                records.len() <= all.len(),
                all.len() > 0,
                records@ == all ==> all.last().tag@ == "Undo"@,
                records@ == all || records.len() < all.len(),
            ensures
                records@ == before_undos(all),
                records.len() < all.len(),
            decreases records.len(),
        {
            let ghost now = records@;
            let _ = records.pop();
            assert(records@ =~= now.drop_last());
        }
        let ghost before = records@;
        let _ = records.pop();
        assert(before.len() > 0 ==> records@ =~= before.drop_last());
        assert(before.len() == 0 ==> records@ =~= before);
    }
}

/// What an undo leaves of the history, and the changes it takes back.
pub struct Reversal {
    pub kept: Vec<OpRecord>,
    pub undone: Vec<Change>,
}

/// Whether a result takes back the last operation in force, or says that there is none.
pub open spec fn is_undone(r: Result<Reversal, Error>, records: Seq<OpRecord>) -> bool {
    let live = in_force(records);
    if live.len() == 0 || live.last().tag@ == "Init"@ {
        crate::error::is_store(r, "nothing to undo"@)
    } else {
        r matches Ok(reversal) && reversal.kept@ == live.drop_last() && reversal.undone
            == live.last().changes
    }
}

impl JishukenStore {
    /// Picks the last operation in force: its changes are to be taken back, and it is
    /// to go from the history. The record that opens a store stays.
    pub fn undo(records: Vec<OpRecord>) -> (r: Result<Reversal, Error>)
        ensures
            is_undone(r, records@),
    {
        let mut records = records;
        drop_undone(&mut records);
        let ghost live = records@;
        match records.pop() {
            Some(record) => {
                if same(record.tag.as_str(), "Init") {
                    return Err(Error::Store("nothing to undo".to_owned()));
                }
                assert(records@ =~= live.drop_last());
                Ok(Reversal { kept: records, undone: record.changes })
            },
            None => Err(Error::Store("nothing to undo".to_owned())),
        }
    }
}

/// What is staged once changes are taken back, the last first, so that the earliest
/// `before` for a path wins. `current` is what each changed file holds now.
pub open spec fn restoring(
    staged: Seq<crate::transaction::FileChange>,
    changes: Seq<crate::transaction::FileChange>,
    current: Seq<Option<Seq<char>>>,
) -> Seq<crate::transaction::FileChange>
    decreases changes.len(),
{
    if changes.len() == 0 {
        staged
    } else {
        crate::store::with_staged(
            restoring(staged, changes.skip(1), current.skip(1)),
            changes[0].path,
            current[0],
            changes[0].before,
        )
    }
}

/// Texts that may be missing, as characters.
pub open spec fn option_texts(texts: Seq<Option<String>>) -> Seq<Option<Seq<char>>> {
    texts.map_values(|t: Option<String>| crate::text::option_text(t))
}

/// Stages what takes changes back. `current` is what each changed file holds now.
pub fn stage_undo(pending: &mut Pending, undone: &Vec<Change>, current: &Vec<Option<String>>)
    requires
        undone@.len() == current@.len(),
    ensures
        final(pending)@ == restoring(
            old(pending)@,
            crate::transaction::change_views(undone@),
            option_texts(current@),
        ),
{
    let ghost changes = crate::transaction::change_views(undone@);
    let ghost texts = option_texts(current@);
    let mut i: usize = undone.len();
    assert(changes.skip(i as int) =~= Seq::<crate::transaction::FileChange>::empty());
    while i > 0
        invariant
            i <= undone.len() == current.len(),
            changes == crate::transaction::change_views(undone@),
            texts == option_texts(current@),
            pending@ == restoring(old(pending)@, changes.skip(i as int), texts.skip(i as int)),
        decreases i,
    {
        i = i - 1;
        proof {
            assert(changes.skip(i as int).skip(1) =~= changes.skip(i + 1));
            assert(texts.skip(i as int).skip(1) =~= texts.skip(i + 1));
            assert(changes.skip(i as int)[0] == undone@[i as int]@);
            assert(texts.skip(i as int)[0] == crate::text::option_text(current@[i as int]));
        }
        pending.stage_file(
            undone[i].path.as_str(),
            copy_option(&current[i]),
            copy_option(&undone[i].before),
        );
    }
    assert(changes.skip(0) =~= changes);
    assert(texts.skip(0) =~= texts);
}

// ---------------------------------------------------------------------------
// Laws
// ---------------------------------------------------------------------------

/// What a file holds once changes are made.
proof fn lemma_applied(
    files: crate::transaction::Files,
    changes: Seq<crate::transaction::FileChange>,
    path: Seq<char>,
)
    requires
        crate::store::staged_once(changes),
    ensures
        crate::transaction::file_at(crate::transaction::applied(files, changes), path) == (
        match crate::store::staged_text(changes, path) {
            Some(text) => text,
            None => crate::transaction::file_at(files, path),
        }),
    decreases changes.len(),
{
    crate::store::lemma_staged_at(changes, path);
    if changes.len() > 0 {
        let front = changes.drop_last();
        let last = changes.last();
        lemma_applied(files, front, path);
        crate::store::lemma_staged_at(front, path);
        let n = crate::store::staged_at(changes, path);
        let k = crate::store::staged_at(front, path);
        if last.path == path {
            if n < changes.len() - 1 {
                assert(changes[n].path != changes[changes.len() - 1].path);
            }
        } else {
            if n < front.len() {
                assert(front[n] == changes[n]);
                if k > n {
                    assert(front[n].path != path);
                }
            }
            if k < front.len() {
                assert(front[k] == changes[k]);
                if n > k {
                    assert(changes[k].path != path);
                }
            }
            if n == front.len() && n < changes.len() {
                assert(changes[n].path == path);
            }
        }
    }
}

proof fn lemma_restoring(
    now: crate::transaction::Files,
    changes: Seq<crate::transaction::FileChange>,
    current: Seq<Option<Seq<char>>>,
)
    requires
        crate::store::staged_once(changes),
        current.len() == changes.len(),
        forall|i: int|
            0 <= i < changes.len() ==> #[trigger] current[i] == crate::transaction::file_at(
                now,
                changes[i].path,
            ),
    ensures
        crate::store::staged_once(restoring(Seq::empty(), changes, current)),
        crate::transaction::is_fresh(now, restoring(Seq::empty(), changes, current)),
        forall|path: Seq<char>| #[trigger]
            crate::store::staged_text(restoring(Seq::empty(), changes, current), path) == (if
            crate::store::staged_at(changes, path) < changes.len() {
                Some(changes[crate::store::staged_at(changes, path)].before)
            } else {
                None
            }),
    decreases changes.len(),
{
    let staged = restoring(Seq::empty(), changes, current);
    if changes.len() > 0 {
        let rest = changes.skip(1);
        let texts = current.skip(1);
        assert forall|i: int, j: int| 0 <= i < j < rest.len() implies (#[trigger] rest[i]).path != (
        #[trigger] rest[j]).path by {
            assert(changes[i + 1].path != changes[j + 1].path);
        }
        assert forall|i: int| 0 <= i < rest.len() implies #[trigger] texts[i]
            == crate::transaction::file_at(now, rest[i].path) by {
            assert(texts[i] == current[i + 1]);
        }
        lemma_restoring(now, rest, texts);
        let before = restoring(Seq::empty(), rest, texts);
        let path = changes[0].path;
        crate::store::lemma_staging(before, path, current[0], changes[0].before);
        crate::store::lemma_staged_at(before, path);
        assert(current[0] == crate::transaction::file_at(now, path));
        assert forall|i: int| 0 <= i < staged.len() implies crate::transaction::file_at(
            now,
            (#[trigger] staged[i]).path,
        ) == staged[i].before by {
            if i < before.len() {
                assert(before[i].path == staged[i].path && before[i].before == staged[i].before);
            }
        }
        assert forall|p: Seq<char>| #[trigger] crate::store::staged_text(staged, p) == (if
        crate::store::staged_at(changes, p) < changes.len() {
            Some(changes[crate::store::staged_at(changes, p)].before)
        } else {
            None
        }) by {
            crate::store::lemma_staged_at(rest, p);
            if p != path {
                assert(crate::store::staged_text(staged, p) == crate::store::staged_text(before, p));
                let k = crate::store::staged_at(rest, p);
                assert(crate::store::staged_at(changes, p) == 1 + k);
                if k < rest.len() {
                    assert(rest[k] == changes[1 + k]);
                }
            }
        }
    }
}

/// Undo takes an operation back. Where the changed files still hold what the
/// operation left, staging the undo is accepted, and afterwards every file is as it
/// was before the operation.
pub proof fn law_undo_restores_the_files(
    files: crate::transaction::Files,
    changes: Seq<crate::transaction::FileChange>,
    current: Seq<Option<Seq<char>>>,
)
    requires
        crate::store::staged_once(changes),
        crate::transaction::is_fresh(files, changes),
        current.len() == changes.len(),
        forall|i: int|
            0 <= i < changes.len() ==> #[trigger] current[i] == crate::transaction::file_at(
                crate::transaction::applied(files, changes),
                changes[i].path,
            ),
    ensures
        ({
            let now = crate::transaction::applied(files, changes);
            let staged = restoring(Seq::empty(), changes, current);
            &&& crate::transaction::is_fresh(now, staged)
            &&& crate::transaction::applied(now, staged) == files
        }),
{
    let now = crate::transaction::applied(files, changes);
    let staged = restoring(Seq::empty(), changes, current);
    let back = crate::transaction::applied(now, staged);
    lemma_restoring(now, changes, current);
    assert forall|path: Seq<char>| #[trigger]
        crate::transaction::file_at(back, path) == crate::transaction::file_at(files, path) by {
        lemma_applied(files, changes, path);
        lemma_applied(now, staged, path);
        crate::store::lemma_staged_at(changes, path);
        let n = crate::store::staged_at(changes, path);
        if n < changes.len() {
            assert(crate::transaction::file_at(files, changes[n].path) == changes[n].before);
        }
    }
    assert forall|path: Seq<char>| back.contains_key(path) == files.contains_key(path) by {
        assert(crate::transaction::file_at(back, path) == crate::transaction::file_at(files, path));
    }
    assert forall|path: Seq<char>| files.contains_key(path) implies back[path] == files[path] by {
        assert(crate::transaction::file_at(back, path) == crate::transaction::file_at(files, path));
    }
    assert(back =~= files);
}

/// Undo takes the newest record off a history, where that record is an operation
/// and no leftover of an undo.
pub proof fn law_undo_removes_the_newest_record(records: Seq<OpRecord>, record: OpRecord)
    requires
        record.tag@ != "Undo"@,
    ensures
        in_force(records.push(record)).drop_last() == records,
        in_force(records.push(record)).last() == record,
{
    assert(records.push(record).drop_last() =~= records);
}

} // verus!
