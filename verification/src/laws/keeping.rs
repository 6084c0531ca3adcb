//! What the store keeps, finds and takes back.

use crate::predicate::Predicate;
use crate::schema::{Claim, Fact, GroundSource};
use crate::store::files::Filed;
use crate::store::history::{OpId, OpRecord, Operation, Reversal};
use vstd::prelude::*;

verus! {

// ---------------------------------------------------------------------------
// Order
// ---------------------------------------------------------------------------

/// Texts come in the order of their first characters that differ; a text comes before
/// all that go on behind it.
pub proof fn law_texts_come_in_order(
    a: Seq<char>,
    c: char,
    x: Seq<char>,
    d: char,
    y: Seq<char>,
)
    requires
        c < d,
    ensures
        crate::order::text_le(a, a + x),
        x.len() > 0 ==> !crate::order::text_le(a + x, a),
        crate::order::text_le(a + seq![c] + x, a + seq![d] + y),
        !crate::order::text_le(a + seq![d] + y, a + seq![c] + x),
    decreases a.len(),
{
    let p = a + x;
    let l = a + seq![c] + x;
    let r = a + seq![d] + y;
    if a.len() > 0 {
        let t = a.skip(1);
        law_texts_come_in_order(t, c, x, d, y);
        assert(p.skip(1) =~= t + x);
        assert(l.skip(1) =~= t + seq![c] + x);
        assert(r.skip(1) =~= t + seq![d] + y);
    } else {
        assert(l[0] == c && r[0] == d);
    }
}

/// Sorting texts puts each before those that it comes before, and keeps all of them.
pub proof fn law_sorting(s: Seq<Seq<char>>, i: int, j: int)
    ensures
        crate::order::in_order(s).to_multiset() == s.to_multiset(),
        0 <= i < j < crate::order::in_order(s).len() ==> crate::order::text_le(
            crate::order::in_order(s)[i],
            crate::order::in_order(s)[j],
        ),
{
    crate::order::lemma_in_order(s);
    if 0 <= i < j < crate::order::in_order(s).len() {
        let r = crate::order::by_text();
        assert(r(crate::order::in_order(s)[i], crate::order::in_order(s)[j]));
    }
}

// ---------------------------------------------------------------------------
// Keys
// ---------------------------------------------------------------------------

/// A key is split at its last full stop; each side is put into normal form, and neither
/// may be empty. A text without a full stop is no key.
pub proof fn law_keys_are_split_at_the_last_stop(
    entity: Seq<char>,
    relation: Seq<char>,
    other: Seq<char>,
)
    requires
        !relation.contains('.'),
        !other.contains('.'),
    ensures
        entity.len() > 0 && relation.len() > 0 ==> Claim::key_parts(
            entity + seq!['.'] + relation,
        ) == Some((crate::schema::nfc_form(entity), crate::schema::nfc_form(relation))),
        entity.len() == 0 || relation.len() == 0 ==> Claim::key_parts(
            entity + seq!['.'] + relation,
        ) is None,
        Claim::key_parts(other) is None,
        crate::store::files::normal_key(other) is None,
        entity.len() > 0 && relation.len() > 0 ==> crate::store::files::normal_key(
            entity + seq!['.'] + relation,
        ) == Some(
            crate::schema::nfc_form(entity) + seq!['.'] + crate::schema::nfc_form(relation),
        ),
{
    let key = entity + seq!['.'] + relation;
    let n = entity.len() as int;
    assert forall|i: int| n < i < key.len() implies #[trigger] key[i] != '.' by {
        assert(key[i] == relation[i - n - 1]);
        assert(relation.contains(relation[i - n - 1]));
    }
    crate::text::lemma_last_at_is(key, '.', n);
    assert(key.take(n) =~= entity);
    assert(key.skip(n + 1) =~= relation);
    crate::text::lemma_last_at(other, '.');
    let m = crate::text::last_at(other, '.');
    if m >= 0 {
        assert(other.contains(other[m]));
    }
}

// ---------------------------------------------------------------------------
// Finding
// ---------------------------------------------------------------------------

/// Whether two files hold the same fact.
pub open spec fn has_duplicate(files: Seq<Filed>) -> bool {
    exists|i: int, j: int|
        0 <= i < j < files.len() && (#[trigger] files[i]).fact.id.0@ == (
        #[trigger] files[j]).fact.id.0@
}

proof fn lemma_first_repeat(files: Seq<Filed>, from: int)
    requires
        0 <= from <= files.len(),
        forall|i: int, j: int|
            0 <= i < j < from ==> (#[trigger] files[i]).fact.id.0@ != (
            #[trigger] files[j]).fact.id.0@,
    ensures
        crate::store::files::first_repeat(files, from) < files.len() <==> has_duplicate(files),
        crate::store::files::first_repeat(files, from) <= files.len(),
        crate::store::files::first_repeat(files, from) < files.len() ==> exists|k: int|
            0 <= k < crate::store::files::first_repeat(files, from) && (
            #[trigger] files[k]).fact.id.0@ == files[crate::store::files::first_repeat(
                files,
                from,
            )].fact.id.0@,
    decreases files.len() - from,
{
    if from < files.len() {
        if crate::store::files::is_repeat(files, from) {
            let k = choose|k: int|
                0 <= k < from && (#[trigger] files[k]).fact.id.0@ == files[from].fact.id.0@;
            assert(files[k].fact.id.0@ == files[from].fact.id.0@);
        } else {
            lemma_first_repeat(files, from + 1);
        }
    }
}

/// A fact is found where it lies: by any spelling of its key that comes to the same normal
/// form, where no two files hold the same fact. Nothing is found by another key, nor where
/// a file repeats a fact.
pub proof fn law_facts_are_found_by_their_keys(files: Seq<Filed>, key: Seq<char>, i: int)
    requires
        crate::store::placement::all_settled(files),
        0 <= i < files.len(),
    ensures
        !has_duplicate(files) ==> (crate::store::files::found_at(files, key) == Some(i)
            <==> crate::store::files::normal_key(key) == Some(
            super::searching::key_of(files[i].fact),
        )),
        has_duplicate(files) ==> crate::store::files::found_at(files, key) is None,
        (forall|k: int|
            0 <= k < files.len() ==> crate::store::files::normal_key(key) != Some(
                super::searching::key_of((#[trigger] files[k]).fact),
            )) ==> crate::store::files::found_at(files, key) is None,
{
    lemma_first_repeat(files, 0);
    crate::store::files::lemma_found_at(files, key);
    assert(crate::store::files::is_settled(files[i].fact));
    if !has_duplicate(files) {
        if crate::store::files::normal_key(key) == Some(
            super::searching::key_of(files[i].fact),
        ) {
            lemma_keyed(files, files[i].fact.claim.key_spec(), 0, i);
        }
    }
}

proof fn lemma_keyed(files: Seq<Filed>, key: Seq<char>, from: int, i: int)
    requires
        crate::store::placement::all_settled(files),
        !has_duplicate(files),
        0 <= from <= i < files.len(),
        files[i].fact.claim.key_spec() == key,
    ensures
        crate::store::files::keyed_at(files, key, from) == i,
    decreases i - from,
{
    assert(crate::store::files::is_settled(files[i].fact));
    if from < i {
        assert(crate::store::files::is_settled(files[from].fact));
        assert(files[from].fact.id.0@ != files[i].fact.id.0@);
        lemma_keyed(files, key, from + 1, i);
    }
}

// ---------------------------------------------------------------------------
// Files
// ---------------------------------------------------------------------------

/// What is staged for a fact file counts, the last of it; what is staged for another file
/// does not.
pub proof fn law_staged_files_lie_over_the_others(
    files: crate::transaction::Files,
    changes: Seq<crate::transaction::FileChange>,
    path: Seq<char>,
    i: int,
)
    ensures
        !crate::text::starts_with(path, "facts/"@) || (forall|k: int|
            0 <= k < changes.len() ==> (#[trigger] changes[k]).path != path)
            ==> crate::transaction::file_at(
            crate::store::files::overlaid(files, changes),
            path,
        ) == crate::transaction::file_at(files, path),
        crate::text::starts_with(path, "facts/"@) && 0 <= i < changes.len() && changes[i].path
            == path && (forall|k: int|
            i < k < changes.len() ==> (#[trigger] changes[k]).path != path)
            ==> crate::transaction::file_at(
            crate::store::files::overlaid(files, changes),
            path,
        ) == changes[i].after,
    decreases changes.len(),
{
    if changes.len() > 0 {
        let front = changes.drop_last();
        law_staged_files_lie_over_the_others(files, front, path, i);
        assert(changes[changes.len() - 1] == changes.last());
        assert forall|k: int| 0 <= k < front.len() implies front[k] == changes[k] by {}
        if forall|k: int| 0 <= k < changes.len() ==> (#[trigger] changes[k]).path != path {
            assert forall|k: int| 0 <= k < front.len() implies (#[trigger] front[k]).path
                != path by {
                assert(changes[k].path != path);
            }
        }
        if 0 <= i < front.len() && changes[i].path == path && forall|k: int|
            i < k < changes.len() ==> (#[trigger] changes[k]).path != path {
            assert forall|k: int| i < k < front.len() implies (#[trigger] front[k]).path
                != path by {
                assert(changes[k].path != path);
            }
            assert(changes[changes.len() - 1].path != path);
        }
    }
}

/// Staging a file sets what it is to hold and leaves each other file alone; what it held
/// before is what it held when it was staged first.
pub proof fn law_staging_keeps_the_first_before(
    changes: Seq<crate::transaction::FileChange>,
    path: Seq<char>,
    on_disk: Option<Seq<char>>,
    after: Option<Seq<char>>,
    other: Seq<char>,
)
    requires
        crate::store::staged_once(changes),
    ensures
        ({
            let next = crate::store::with_staged(changes, path, on_disk, after);
            let n = crate::store::staged_at(next, path);
            &&& crate::store::staged_once(next)
            &&& 0 <= n < next.len()
            &&& next[n].path == path
            &&& next[n].after == after
            &&& next[n].before == (if crate::store::staged_at(changes, path) < changes.len() {
                changes[crate::store::staged_at(changes, path)].before
            } else {
                on_disk
            })
            &&& other != path ==> crate::store::staged_text(next, other)
                == crate::store::staged_text(changes, other)
        }),
{
    crate::store::lemma_staging(changes, path, on_disk, after);
    let next = crate::store::with_staged(changes, path, on_disk, after);
    crate::store::lemma_staged_at(changes, path);
    crate::store::lemma_staged_at(next, path);
    let n = crate::store::staged_at(next, path);
    let m = crate::store::staged_at(changes, path);
    if m < changes.len() {
        assert(next[m].path == path);
        if n < m {
            assert(next[n].path != next[m].path);
        } else if m < n {
            assert(next[m].path != next[n].path);
        }
    } else {
        assert(next[changes.len() as int].path == path);
        if n < changes.len() {
            assert(next[n].path != next[changes.len() as int].path);
        }
    }
}

// ---------------------------------------------------------------------------
// Hints
// ---------------------------------------------------------------------------

/// Two predicates without numbers ask the same exactly where they are the same question.
pub proof fn law_same_questions(a: Predicate, b: Predicate)
    requires
        crate::predicate::number_in(crate::predicate::question(a)) is None,
        crate::predicate::number_in(crate::predicate::question(b)) is None,
    ensures
        crate::store::files::same_question(a, b) <==> crate::predicate::question(a)
            == crate::predicate::question(b),
    decreases a,
{
    if let (
        Predicate::JsonPointer { pointer: _, then: x },
        Predicate::JsonPointer { pointer: _, then: y },
    ) = (a, b) {
        law_same_questions(*x, *y);
    }
}

/// Two sources are the same only where they agree in kind and in every part.
pub proof fn law_same_sources_agree(a: GroundSource, b: GroundSource)
    requires
        crate::store::files::same_source(a, b),
    ensures
        match (a, b) {
            (GroundSource::File(x), GroundSource::File(y)) => x.root@ == y.root@ && x.path@
                == y.path@ && crate::text::option_text(x.rev) == crate::text::option_text(y.rev),
            (GroundSource::Command(x), GroundSource::Command(y)) => x.root@ == y.root@
                && x.argv@.len() == y.argv@.len() && forall|i: int|
                0 <= i < x.argv@.len() ==> (#[trigger] x.argv@[i])@ == y.argv@[i]@,
            (GroundSource::Generator(x), GroundSource::Generator(y)) => x.hash.0@ == y.hash.0@
                && x.name@ == y.name@ && x.src_path@ == y.src_path@
                && crate::store::files::same_caps(x.caps, y.caps) && x.cost_estimate.equals(
                &y.cost_estimate,
            ),
            (GroundSource::Handler(x), GroundSource::Handler(y)) => x.handler.hash.0@
                == y.handler.hash.0@ && x.handler.scheme@ == y.handler.scheme@
                && x.handler.src_path@ == y.handler.src_path@ && crate::store::files::same_caps(
                x.handler.caps,
                y.handler.caps,
            ) && x.handler.cost_estimate.equals(&y.handler.cost_estimate) && x.reference@
                == y.reference@ && crate::text::option_text(x.rev) == crate::text::option_text(
                y.rev,
            ),
            _ => false,
        },
{
    if let (GroundSource::Command(x), GroundSource::Command(y)) = (a, b) {
        let s = crate::text::texts(x.argv@);
        let t = crate::text::texts(y.argv@);
        assert(s.len() == x.argv@.len() && t.len() == y.argv@.len());
        assert forall|i: int| 0 <= i < x.argv@.len() implies (#[trigger] x.argv@[i])@
            == y.argv@[i]@ by {
            assert(s[i] == x.argv@[i]@ && t[i] == y.argv@[i]@);
        }
    }
}

// ---------------------------------------------------------------------------
// History
// ---------------------------------------------------------------------------

proof fn lemma_log_text(lines: Seq<Seq<char>>)
    ensures
        crate::store::history::log_text(lines) == super::spans::written(
            lines,
            Seq::new(lines.len(), |i: int| false),
        ),
    decreases lines.len(),
{
    let plain = Seq::new(lines.len(), |i: int| false);
    if lines.len() > 0 {
        let front = lines.drop_last();
        lemma_log_text(front);
        lemma_written_last(lines);
        assert(Seq::new(front.len(), |i: int| false) =~= plain.drop_last());
    }
}

proof fn lemma_written_last(lines: Seq<Seq<char>>)
    requires
        lines.len() > 0,
    ensures
        super::spans::written(lines, Seq::new(lines.len(), |i: int| false))
            == super::spans::written(
            lines.drop_last(),
            Seq::new((lines.len() - 1) as nat, |i: int| false),
        ) + lines.last() + seq!['\n'],
    decreases lines.len(),
{
    let plain = Seq::new(lines.len(), |i: int| false);
    let rest = lines.skip(1);
    let fewer = Seq::new(rest.len(), |i: int| false);
    assert(plain.skip(1) =~= fewer);
    if lines.len() > 1 {
        lemma_written_last(rest);
        let front = lines.drop_last();
        let least = Seq::new((rest.len() - 1) as nat, |i: int| false);
        assert(front.skip(1) =~= rest.drop_last());
        assert(Seq::new((lines.len() - 1) as nat, |i: int| false).skip(1) =~= least);
        assert(rest.last() == lines.last());
        assert(super::spans::written(lines, plain) =~= super::spans::written(
            front,
            Seq::new((lines.len() - 1) as nat, |i: int| false),
        ) + lines.last() + seq!['\n']);
    } else {
        let none = Seq::<Seq<char>>::empty();
        assert(rest =~= none);
        assert(lines.drop_last() =~= none);
        assert(super::spans::written(rest, fewer) =~= Seq::<char>::empty());
        assert(super::spans::written(lines, plain) =~= lines[0] + seq!['\n']);
        assert(super::spans::written(
            lines.drop_last(),
            Seq::new(0, |i: int| false),
        ) + lines.last() + seq!['\n'] =~= lines[0] + seq!['\n']);
    }
}

proof fn lemma_full_lines(lines: Seq<Seq<char>>, from: int)
    requires
        0 <= from <= lines.len(),
        forall|i: int| 0 <= i < lines.len() ==> !super::text::is_blank(#[trigger] lines[i]),
    ensures
        crate::store::history::full_lines(lines, from) == Seq::new(
            (lines.len() - from) as nat,
            |k: int| (from + k + 1, lines[from + k]),
        ),
    decreases lines.len() - from,
{
    let all = Seq::new((lines.len() - from) as nat, |k: int| (from + k + 1, lines[from + k]));
    if from < lines.len() {
        super::text::lemma_trim_empty(lines[from]);
        assert(!super::text::is_blank(lines[from]));
        lemma_full_lines(lines, from + 1);
        let rest = Seq::new(
            (lines.len() - from - 1) as nat,
            |k: int| (from + 1 + k + 1, lines[from + 1 + k]),
        );
        assert(all =~= seq![(from + 1, lines[from])] + rest);
    } else {
        assert(all =~= Seq::empty());
    }
}

/// Records that are written to a log one on each line are read back one from each line,
/// with the number of the line.
pub proof fn law_logs_read_back(lines: Seq<Seq<char>>)
    requires
        forall|i: int|
            0 <= i < lines.len() ==> super::spans::is_line(#[trigger] lines[i])
                && !super::text::is_blank(lines[i]),
    ensures
        crate::store::history::full_lines(
            crate::resolve::lines(crate::store::history::log_text(lines)),
            0,
        ) == Seq::new(lines.len(), |k: int| (k + 1, lines[k])),
{
    lemma_log_text(lines);
    let plain = Seq::new(lines.len(), |i: int| false);
    super::spans::lemma_lines_are(crate::store::history::log_text(lines), lines, plain, true);
    lemma_full_lines(lines, 0);
    assert(Seq::new((lines.len() - 0) as nat, |k: int| (0 + k + 1, lines[0 + k])) =~= Seq::new(
        lines.len(),
        |k: int| (k + 1, lines[k]),
    ));
}

/// Since an id, the log shows what came behind the newest record with that id, and all of
/// it where no record has the id.
pub proof fn law_logs_are_cut_behind_an_id(records: Seq<OpRecord>, id: OpId, k: int)
    ensures
        crate::store::history::newer(records, None) == records,
        (forall|i: int| 0 <= i < records.len() ==> (#[trigger] records[i]).id@ != id.0@)
            ==> crate::store::history::newer(records, Some(id)) == records,
        0 <= k < records.len() && records[k].id@ == id.0@ && (forall|i: int|
            k < i < records.len() ==> (#[trigger] records[i]).id@ != id.0@)
            ==> crate::store::history::newer(records, Some(id)) == records.skip(k + 1),
{
    if forall|i: int| 0 <= i < records.len() ==> (#[trigger] records[i]).id@ != id.0@ {
        lemma_newest_at(records, id.0@, -1);
        assert(records.skip(0) =~= records);
    }
    if 0 <= k < records.len() && records[k].id@ == id.0@ && forall|i: int|
        k < i < records.len() ==> (#[trigger] records[i]).id@ != id.0@ {
        lemma_newest_at(records, id.0@, k);
    }
}

proof fn lemma_newest_at(records: Seq<OpRecord>, id: Seq<char>, k: int)
    requires
        -1 <= k < records.len(),
        k >= 0 ==> records[k].id@ == id,
        forall|i: int| k < i < records.len() ==> (#[trigger] records[i]).id@ != id,
    ensures
        crate::store::history::newest_at(records, id) == k,
    decreases records.len(),
{
    if records.len() > 0 {
        let front = records.drop_last();
        assert(records[records.len() - 1] == records.last());
        if k < records.len() - 1 {
            assert forall|i: int| k < i < front.len() implies (#[trigger] front[i]).id@ != id by {
                assert(records[i].id@ != id);
            }
            if k >= 0 {
                assert(front[k] == records[k]);
            }
            lemma_newest_at(front, id, k);
        }
    }
}

/// An entry of the log is a record with its tag in brackets before its detail.
pub proof fn law_log_entries(operation: Operation, record: OpRecord)
    requires
        crate::store::history::shows(operation, record),
    ensures
        operation.id@ == record.id@,
        operation.time@ == record.time@,
        operation.description@ == seq!['['] + record.tag@ + seq![']', ' '] + record.detail@,
{
    reveal_strlit("] ");
    assert("] "@ =~= seq![']', ' ']);
}

/// The facts that are listed as in conflict are those that are.
pub proof fn law_conflicts_are_listed(facts: Seq<Fact>, id: Seq<char>)
    ensures
        crate::store::history::conflicted(facts).contains(id) <==> exists|i: int|
            0 <= i < facts.len() && (#[trigger] facts[i]).epistemics.groundedness is Conflicted
                && facts[i].id.0@ == id,
        crate::store::history::conflicted(facts).len() <= facts.len(),
    decreases facts.len(),
{
    let all = crate::store::history::conflicted(facts);
    if facts.len() > 0 {
        let front = facts.drop_last();
        let before = crate::store::history::conflicted(front);
        law_conflicts_are_listed(front, id);
        if all.contains(id) {
            let k = choose|k: int| 0 <= k < all.len() && all[k] == id;
            if k < before.len() {
                assert(before[k] == id);
                assert(before.contains(id));
                let i = choose|i: int|
                    0 <= i < front.len() && (#[trigger] front[i]).epistemics.groundedness
                        is Conflicted && front[i].id.0@ == id;
                assert(facts[i] == front[i]);
            } else {
                assert(facts[facts.len() - 1] == facts.last());
            }
        }
        if exists|i: int|
            0 <= i < facts.len() && (#[trigger] facts[i]).epistemics.groundedness is Conflicted
                && facts[i].id.0@ == id {
            let i = choose|i: int|
                0 <= i < facts.len() && (#[trigger] facts[i]).epistemics.groundedness is Conflicted
                    && facts[i].id.0@ == id;
            if i < front.len() {
                assert(front[i] == facts[i]);
                assert(before.contains(id));
                let k = choose|k: int| 0 <= k < before.len() && before[k] == id;
                assert(all[k] == id);
            } else {
                assert(all[all.len() - 1] == id);
            }
        }
    }
}

/// Old undo records behind an operation, however many, have taken back that operation and
/// no other.
pub proof fn law_old_undos_take_back_one_operation(
    records: Seq<OpRecord>,
    operation: OpRecord,
    undos: Seq<OpRecord>,
)
    requires
        operation.tag@ != "Undo"@,
        undos.len() > 0,
        forall|i: int| 0 <= i < undos.len() ==> (#[trigger] undos[i]).tag@ == "Undo"@,
    ensures
        crate::store::history::in_force(records.push(operation) + undos)
            == crate::store::history::in_force(records),
{
    let all = records.push(operation) + undos;
    assert(all.last() == undos[undos.len() - 1]);
    lemma_before(records.push(operation), undos);
    assert(crate::store::history::before_undos(records.push(operation)) == records.push(
        operation,
    ));
    assert(records.push(operation).drop_last() =~= records);
    crate::store::history::lemma_before_undos(all);
}

proof fn lemma_before(records: Seq<OpRecord>, undos: Seq<OpRecord>)
    requires
        forall|i: int| 0 <= i < undos.len() ==> (#[trigger] undos[i]).tag@ == "Undo"@,
    ensures
        crate::store::history::before_undos(records + undos)
            == crate::store::history::before_undos(records),
    decreases undos.len(),
{
    let all = records + undos;
    if undos.len() > 0 {
        assert(all.last() == undos[undos.len() - 1]);
        assert(all.drop_last() =~= records + undos.drop_last());
        assert forall|i: int| 0 <= i < undos.drop_last().len() implies (
        #[trigger] undos.drop_last()[i]).tag@ == "Undo"@ by {
            assert(undos.drop_last()[i] == undos[i]);
        }
        lemma_before(records, undos.drop_last());
    } else {
        assert(all =~= records);
    }
}

/// Undo takes back the newest operation that is no leftover of an undo: its changes are
/// undone and its record goes, all before it stay. The record that opens a store stays.
pub proof fn law_undo_takes_back_the_newest(
    r: Result<Reversal, crate::error::Error>,
    records: Seq<OpRecord>,
    operation: OpRecord,
)
    requires
        crate::store::history::is_undone(r, records.push(operation)),
        operation.tag@ != "Undo"@,
    ensures
        operation.tag@ != "Init"@ ==> r is Ok && r->Ok_0.kept@ == records && r->Ok_0.undone
            == operation.changes,
        operation.tag@ == "Init"@ ==> r is Err,
{
    crate::store::history::law_undo_removes_the_newest_record(records, operation);
    assert(records.push(operation).last() == operation);
}

/// With no record, there is nothing to take back.
pub proof fn law_nothing_is_undone_in_an_empty_log(
    r: Result<Reversal, crate::error::Error>,
    records: Seq<OpRecord>,
)
    requires
        crate::store::history::is_undone(r, records),
        records.len() == 0,
    ensures
        r is Err,
{
}

// ---------------------------------------------------------------------------
// Reading facts
// ---------------------------------------------------------------------------

/// A fact that is read from a file is taken in as it is, with its claim in normal form and
/// the identity of its claim, where the identity it came with names the same claim.
pub proof fn law_facts_are_taken_in(
    r: Result<Fact, crate::error::Error>,
    fact: Fact,
)
    requires
        crate::store::files::is_adopted(r, fact),
    ensures
        r is Ok <==> crate::store::files::normal_key(fact.id.0@) == Some(
            crate::schema::nfc_form(fact.claim.entity.0@) + seq!['.'] + crate::schema::nfc_form(
                fact.claim.relation@,
            ),
        ),
        r matches Ok(taken) ==> {
            &&& taken.claim.entity.0@ == crate::schema::nfc_form(fact.claim.entity.0@)
            &&& taken.claim.relation@ == crate::schema::nfc_form(fact.claim.relation@)
            &&& taken.claim.nl == fact.claim.nl
            &&& taken.id.0@ == super::searching::key_of(taken)
            &&& taken.value == fact.value
            &&& taken.epistemics == fact.epistemics
            &&& taken.schedule == fact.schedule
            &&& taken.source_hint == fact.source_hint
            &&& taken.grounds == fact.grounds
            &&& taken.provenance == fact.provenance
        },
{
}

/// An old fact whose first ground is the hint it was ingested with gets that hint back, as
/// something that was never checked, and the belief and the schedule it was ingested with;
/// its other grounds stay bound, as never checked. Any other fact stays as it is.
pub proof fn law_old_hints_are_told_from_grounds(
    r: Fact,
    fact: Fact,
    legacy: bool,
    ingested: Option<Fact>,
    i: int,
)
    requires
        crate::store::files::is_decoded(r, fact, legacy, ingested),
    ensures
        !legacy || ingested is None || fact.grounds@.len() == 0 || ingested->Some_0.grounds@.len()
            == 0 ==> r == fact,
        ingested matches Some(saved) && legacy && crate::store::files::starts_with_hint(
            fact,
            saved,
        ) ==> {
            let saved = ingested->Some_0;
            &&& r.value == fact.value && r.claim == fact.claim && r.id == fact.id && r.provenance
                == fact.provenance
            &&& r.epistemics == saved.epistemics && r.schedule == saved.schedule
            &&& r.source_hint matches Some(hint) && hint.source == fact.grounds@[0].source
                && hint.locator == fact.grounds@[0].locator && hint.predicate
                == fact.grounds@[0].predicate && hint.last is None
            &&& r.grounds@.len() == fact.grounds@.len() - 1
            &&& 1 <= i < fact.grounds@.len() ==> r.grounds@[i - 1].source
                == fact.grounds@[i].source && r.grounds@[i - 1].locator == fact.grounds@[i].locator
                && r.grounds@[i - 1].predicate == fact.grounds@[i].predicate
                && r.grounds@[i - 1].last is None
        },
{
}

/// The first ground of a fact is the hint it was ingested with where the two agree in
/// source, place and question.
pub proof fn law_hints_agree(fact: Fact, ingested: Fact)
    requires
        crate::store::files::starts_with_hint(fact, ingested),
    ensures
        fact.grounds@.len() > 0,
        ingested.grounds@.len() > 0,
        crate::store::files::same_source(fact.grounds@[0].source, ingested.grounds@[0].source),
        fact.grounds@[0].locator@ == ingested.grounds@[0].locator@,
        crate::store::files::same_question(
            fact.grounds@[0].predicate,
            ingested.grounds@[0].predicate,
        ),
{
}

/// The identity of a record is the start of a hash of the one before it, its tag, its
/// detail and its time, each told from the next.
pub proof fn law_records_name_the_one_before(
    previous: Seq<char>,
    tag: Seq<char>,
    detail: Seq<char>,
    time: Seq<char>,
    records: Seq<OpRecord>,
    record: OpRecord,
)
    ensures
        crate::store::history::op_id(previous, tag, detail, time) == crate::digest::text_hash(
            previous + seq!['\u{1f}'] + tag + seq!['\u{1f}'] + detail + seq!['\u{1f}'] + time,
        ).take(12),
        crate::store::history::last_id(records.push(record)) == record.id@,
        records.len() == 0 ==> crate::store::history::last_id(records).len() == 0,
{
}

/// A commit is refused exactly where a file no longer holds what it held when its change
/// was staged, and the first such file is named.
pub proof fn law_stale_changes_are_refused(
    changes: Seq<crate::transaction::FileChange>,
    current: Seq<Option<String>>,
    i: int,
)
    ensures
        crate::transaction::first_stale(changes, current, 0) >= changes.len() && 0 <= i
            < changes.len() ==> crate::text::option_text(current[i]) == changes[i].before,
        0 <= crate::transaction::first_stale(changes, current, 0) < changes.len()
            ==> crate::text::option_text(
            current[crate::transaction::first_stale(changes, current, 0)],
        ) != changes[crate::transaction::first_stale(changes, current, 0)].before,
        0 <= i < crate::transaction::first_stale(changes, current, 0) && i < changes.len()
            ==> crate::text::option_text(current[i]) == changes[i].before,
{
    lemma_first_stale(changes, current, 0, i);
}

proof fn lemma_first_stale(
    changes: Seq<crate::transaction::FileChange>,
    current: Seq<Option<String>>,
    from: int,
    i: int,
)
    requires
        0 <= from <= changes.len(),
    ensures
        ({
            let at = crate::transaction::first_stale(changes, current, from);
            &&& from <= at <= changes.len()
            &&& at < changes.len() ==> crate::text::option_text(current[at]) != changes[at].before
            &&& from <= i < at ==> crate::text::option_text(current[i]) == changes[i].before
        }),
    decreases changes.len() - from,
{
    if from < changes.len() && crate::text::option_text(current[from]) == changes[from].before {
        lemma_first_stale(changes, current, from + 1, i);
    }
}

/// A new centrality changes nothing else of a fact.
pub proof fn law_centrality_is_set_alone(fact: Fact, centrality: crate::number::Real)
    ensures
        ({
            let new = crate::store::apply::with_centrality(fact, centrality);
            &&& new.schedule.centrality == centrality
            &&& new.schedule.half_life == fact.schedule.half_life && new.schedule.last_verified
                == fact.schedule.last_verified && new.schedule.variance_at_verify
                == fact.schedule.variance_at_verify && new.schedule.priority
                == fact.schedule.priority
            &&& new.id == fact.id && new.claim == fact.claim && new.value == fact.value
            &&& new.epistemics == fact.epistemics && new.grounds == fact.grounds
                && new.source_hint == fact.source_hint && new.provenance == fact.provenance
        }),
{
}

} // verus!
