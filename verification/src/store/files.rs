//! Fact files: which there are, and which fact each holds.

use crate::error::Error;
use crate::order::not_after;
use crate::predicate::Predicate;
use crate::schema::{Capabilities, Claim, Fact, FactId, GroundBinding, GroundSource};
use crate::schema::{Locator, SourceRef, SourceRoot};
use crate::store::history::OpRecord;
use crate::store::JishukenStore;
use crate::text::{begins_with, same};
use crate::transaction::Change;
use vstd::prelude::*;

verus! {

// ---------------------------------------------------------------------------
// The files
// ---------------------------------------------------------------------------

/// A file: its path, and its text.
#[derive(Debug, Clone, PartialEq, Eq)]
pub struct TextFile {
    pub path: String,
    pub text: String,
}

/// Whether a list of files names each path once and holds exactly some files.
pub open spec fn lists(list: Seq<TextFile>, files: crate::transaction::Files) -> bool {
    &&& paths_differ(list)
    &&& forall|i: int|
        0 <= i < list.len() ==> crate::transaction::file_at(files, (#[trigger] list[i]).path@)
            == Some(list[i].text@)
    &&& forall|path: Seq<char>|
        #[trigger] files.contains_key(path) ==> exists|i: int|
            0 <= i < list.len() && (#[trigger] list[i]).path@ == path
}

/// Whether no path is listed twice.
pub open spec fn paths_differ(list: Seq<TextFile>) -> bool {
    forall|i: int, j: int|
        0 <= i < j < list.len() ==> (#[trigger] list[i]).path@ != (#[trigger] list[j]).path@
}

/// Whether a list is sorted by path.
pub open spec fn by_path(list: Seq<TextFile>) -> bool {
    forall|i: int, j: int|
        0 <= i < j < list.len() ==> crate::order::text_le(
            (#[trigger] list[i]).path@,
            (#[trigger] list[j]).path@,
        )
}

/// The fact files once staged changes are laid over them. Changes to other files
/// do not count.
pub open spec fn overlaid(
    files: crate::transaction::Files,
    changes: Seq<crate::transaction::FileChange>,
) -> crate::transaction::Files
    decreases changes.len(),
{
    if changes.len() == 0 {
        files
    } else {
        let before = overlaid(files, changes.drop_last());
        let change = changes.last();
        if crate::text::starts_with(change.path, "facts/"@) {
            crate::transaction::put(before, change.path, change.after)
        } else {
            before
        }
    }
}

fn position(list: &Vec<TextFile>, path: &str) -> (r: usize)
    ensures
        r <= list.len(),
        r < list.len() ==> list@[r as int].path@ == path@,
        forall|i: int| 0 <= i < r ==> (#[trigger] list@[i]).path@ != path@,
{
    let mut i: usize = 0;
    while i < list.len() && !same(list[i].path.as_str(), path)
        invariant
            i <= list.len(),
            forall|k: int| 0 <= k < i ==> (#[trigger] list@[k]).path@ != path@,
        decreases list.len() - i,
    {
        i = i + 1;
    }
    i
}

/// A file without which a list still names each path once.
proof fn lemma_unlisted(list: Seq<TextFile>, files: crate::transaction::Files, at: int)
    requires
        lists(list, files),
        0 <= at < list.len(),
    ensures
        lists(list.remove(at), files.remove(list[at].path@)),
{
    let next = list.remove(at);
    let path = list[at].path@;
    let rest = files.remove(path);
    assert forall|i: int, j: int| 0 <= i < j < next.len() implies (#[trigger] next[i]).path@ != (
    #[trigger] next[j]).path@ by {
        let a = if i < at { i } else { i + 1 };
        let b = if j < at { j } else { j + 1 };
        assert(next[i] == list[a] && next[j] == list[b]);
    }
    assert forall|i: int| 0 <= i < next.len() implies crate::transaction::file_at(
        rest,
        (#[trigger] next[i]).path@,
    ) == Some(next[i].text@) by {
        let a = if i < at { i } else { i + 1 };
        assert(next[i] == list[a]);
        assert(list[a].path@ != path);
    }
    assert forall|p: Seq<char>| #[trigger] rest.contains_key(p) implies exists|i: int|
        0 <= i < next.len() && (#[trigger] next[i]).path@ == p by {
        assert(files.contains_key(p));
        let k = choose|k: int| 0 <= k < list.len() && (#[trigger] list[k]).path@ == p;
        let i = if k < at { k } else { k - 1 };
        assert(next[i] == list[k]);
    }
}

/// A file put anywhere into a list that does not name its path.
proof fn lemma_listed(
    list: Seq<TextFile>,
    files: crate::transaction::Files,
    at: int,
    file: TextFile,
)
    requires
        lists(list, files),
        0 <= at <= list.len(),
        !files.contains_key(file.path@),
    ensures
        lists(list.insert(at, file), files.insert(file.path@, file.text@)),
{
    let next = list.insert(at, file);
    let more = files.insert(file.path@, file.text@);
    assert forall|i: int| 0 <= i < list.len() implies (#[trigger] list[i]).path@
        != file.path@ by {
        assert(crate::transaction::file_at(files, list[i].path@) == Some(list[i].text@));
    }
    assert forall|i: int, j: int| 0 <= i < j < next.len() implies (#[trigger] next[i]).path@ != (
    #[trigger] next[j]).path@ by {
        let a = if i < at { i } else { i - 1 };
        let b = if j < at { j } else { j - 1 };
        if i != at && j != at {
            assert(next[i] == list[a] && next[j] == list[b]);
        } else if i == at {
            assert(next[j] == list[b]);
        } else {
            assert(next[i] == list[a]);
        }
    }
    assert forall|i: int| 0 <= i < next.len() implies crate::transaction::file_at(
        more,
        (#[trigger] next[i]).path@,
    ) == Some(next[i].text@) by {
        if i != at {
            let a = if i < at { i } else { i - 1 };
            assert(next[i] == list[a]);
        }
    }
    assert forall|p: Seq<char>| #[trigger] more.contains_key(p) implies exists|i: int|
        0 <= i < next.len() && (#[trigger] next[i]).path@ == p by {
        if p == file.path@ {
            assert(next[at] == file);
        } else {
            assert(files.contains_key(p));
            let k = choose|k: int| 0 <= k < list.len() && (#[trigger] list[k]).path@ == p;
            let i = if k < at { k } else { k + 1 };
            assert(next[i] == list[k]);
        }
    }
}

/// The files that a list holds.
pub open spec fn listed_files(list: Seq<TextFile>) -> crate::transaction::Files {
    Map::new(
        |path: Seq<char>|
            exists|i: int| 0 <= i < list.len() && (#[trigger] list[i]).path@ == path,
        |path: Seq<char>|
            list[choose|i: int| 0 <= i < list.len() && (#[trigger] list[i]).path@ == path].text@,
    )
}

proof fn lemma_listed_files(list: Seq<TextFile>)
    requires
        paths_differ(list),
    ensures
        lists(list, listed_files(list)),
{
    let files = listed_files(list);
    assert forall|i: int| 0 <= i < list.len() implies crate::transaction::file_at(
        files,
        (#[trigger] list[i]).path@,
    ) == Some(list[i].text@) by {
        let path = list[i].path@;
        assert(files.contains_key(path));
        let k = choose|k: int| 0 <= k < list.len() && (#[trigger] list[k]).path@ == path;
        if k < i {
            assert(list[k].path@ != list[i].path@);
        } else if i < k {
            assert(list[i].path@ != list[k].path@);
        }
    }
}

impl JishukenStore {
    /// The fact files as the in-flight op sees them, sorted by path: those on disk,
    /// with what is staged laid over them.
    pub fn fact_files(disk: Vec<TextFile>, pending: &Vec<Change>) -> (r: Vec<TextFile>)
        requires
            paths_differ(disk@),
        ensures
            by_path(r@),
            lists(
                r@,
                overlaid(listed_files(disk@), crate::transaction::change_views(pending@)),
            ),
    {
        let ghost views = crate::transaction::change_views(pending@);
        let ghost files = listed_files(disk@);
        proof {
            lemma_listed_files(disk@);
        }
        let mut list = disk;
        let mut i: usize = 0;
        assert(views.take(0) =~= Seq::<crate::transaction::FileChange>::empty());
        while i < pending.len()
            invariant
                i <= pending.len(),
                views == crate::transaction::change_views(pending@),
                lists(list@, overlaid(files, views.take(i as int))),
            decreases pending.len() - i,
        {
            let ghost before = list@;
            let ghost seen = overlaid(files, views.take(i as int));
            assert(views.take(i + 1).drop_last() =~= views.take(i as int));
            assert(views.take(i + 1).last() == pending@[i as int]@);
            if begins_with(pending[i].path.as_str(), "facts/") {
                let at = position(&list, pending[i].path.as_str());
                let ghost path = pending@[i as int].path@;
                if at < list.len() {
                    list.remove(at);
                    proof {
                        lemma_unlisted(before, seen, at as int);
                    }
                } else {
                    assert(!seen.contains_key(path));
                    assert(seen.remove(path) =~= seen);
                }
                let ghost without = list@;
                assert(lists(without, seen.remove(path)));
                if let Some(text) = &pending[i].after {
                    let file = TextFile { path: pending[i].path.clone(), text: text.clone() };
                    proof {
                        lemma_listed(without, seen.remove(path), without.len() as int, file);
                    }
                    list.push(file);
                    assert(without.insert(without.len() as int, file) =~= list@);
                    assert(seen.remove(path).insert(path, text@) =~= seen.insert(path, text@));
                }
            }
            i = i + 1;
        }
        assert(views.take(i as int) =~= views);
        sort_by_path(list, Ghost(overlaid(files, views)))
    }
}

/// Sorts files by path.
fn sort_by_path(list: Vec<TextFile>, Ghost(files): Ghost<crate::transaction::Files>) -> (r: Vec<
    TextFile,
>)
    requires
        lists(list@, files),
    ensures
        by_path(r@),
        lists(r@, files),
{
    let mut left = list;
    let mut out: Vec<TextFile> = Vec::new();
    let ghost mut taken = Map::<Seq<char>, Seq<char>>::empty();
    let ghost mut rest = files;
    assert(taken.union_prefer_right(rest) =~= files);
    while left.len() > 0
        invariant
            by_path(out@),
            lists(left@, rest),
            lists(out@, taken),
            taken.union_prefer_right(rest) == files,
            forall|path: Seq<char>| #[trigger]
                taken.contains_key(path) ==> !rest.contains_key(path),
        decreases left.len(),
    {
        let ghost before_left = left@;
        let ghost n = before_left.len() - 1;
        let last: usize = left.len() - 1;
        let file = left.remove(last);
        assert(before_left[n] == file);
        let ghost path = file.path@;
        let ghost text = file.text@;
        proof {
            lemma_unlisted(before_left, rest, n);
            assert(crate::transaction::file_at(rest, before_left[n].path@) == Some(text));
        }
        let mut at: usize = 0;
        while at < out.len() && not_after(out[at].path.as_str(), file.path.as_str())
            invariant
                at <= out.len(),
                forall|k: int|
                    0 <= k < at ==> crate::order::text_le((#[trigger] out@[k]).path@, file.path@),
            decreases out.len() - at,
        {
            at = at + 1;
        }
        let ghost before = out@;
        proof {
            lemma_insert_by_path(before, at as int, file);
            lemma_listed(before, taken, at as int, file);
        }
        out.insert(at, file);
        proof {
            let had = taken;
            let held = rest;
            taken = had.insert(path, text);
            rest = held.remove(path);
            assert(taken.union_prefer_right(rest) =~= had.union_prefer_right(held));
        }
    }
    proof {
        assert(rest =~= Map::<Seq<char>, Seq<char>>::empty()) by {
            assert forall|path: Seq<char>| !rest.contains_key(path) by {
                if rest.contains_key(path) {
                    let i = choose|i: int| 0 <= i < left@.len() && (#[trigger] left@[i]).path@ == path;
                }
            }
        }
        assert(taken =~= files);
    }
    out
}

/// Putting a file behind those that do not come after it keeps the order.
proof fn lemma_insert_by_path(list: Seq<TextFile>, at: int, file: TextFile)
    requires
        0 <= at <= list.len(),
        by_path(list),
        forall|k: int|
            0 <= k < at ==> crate::order::text_le((#[trigger] list[k]).path@, file.path@),
    ensures
        at < list.len() && !crate::order::text_le(list[at].path@, file.path@) ==> by_path(
            list.insert(at, file),
        ),
        at == list.len() ==> by_path(list.insert(at, file)),
{
    let next = list.insert(at, file);
    crate::order::lemma_text_order();
    let r = crate::order::by_text();
    if at == list.len() || !crate::order::text_le(list[at].path@, file.path@) {
        assert forall|i: int, j: int| 0 <= i < j < next.len() implies crate::order::text_le(
            (#[trigger] next[i]).path@,
            (#[trigger] next[j]).path@,
        ) by {
            if i < at && j < at {
                assert(next[i] == list[i] && next[j] == list[j]);
            } else if i < at && j == at {
                assert(next[i] == list[i]);
            } else if i < at {
                assert(next[i] == list[i] && next[j] == list[j - 1]);
            } else if i == at {
                assert(r(list[at].path@, file.path@) || r(file.path@, list[at].path@));
                assert(next[j] == list[j - 1]);
                if j - 1 > at {
                    assert(r(list[at].path@, list[j - 1].path@));
                    assert(r(file.path@, list[at].path@));
                }
            } else {
                assert(next[i] == list[i - 1] && next[j] == list[j - 1]);
            }
        }
    }
}

// ---------------------------------------------------------------------------
// The facts in them
// ---------------------------------------------------------------------------

/// A fact file: its path, and the fact it holds.
#[derive(Debug, Clone, PartialEq)]
pub struct FactFile {
    pub path: String,
    pub fact: Fact,
}

/// A fact file, with its path as characters.
pub struct Filed {
    pub path: Seq<char>,
    pub fact: Fact,
}

impl View for FactFile {
    type V = Filed;

    open spec fn view(&self) -> Filed {
        Filed { path: self.path@, fact: self.fact }
    }
}

/// Some fact files, with their paths as characters.
pub open spec fn filed(files: Seq<FactFile>) -> Seq<Filed> {
    files.map_values(|f: FactFile| f@)
}

/// What is said of a key that two files hold.
pub open spec fn duplicate_message(id: Seq<char>) -> Seq<char> {
    "multiple files normalize to key "@ + id + "; resolve the duplicate before continuing"@
}

pub(crate) fn duplicate_error(id: &FactId) -> (r: Error)
    ensures
        r matches Error::Store(s) && s@ == duplicate_message(id.0@),
{
    Error::Store(
        "multiple files normalize to key ".to_owned().concat(id.0.as_str()).concat(
            "; resolve the duplicate before continuing",
        ),
    )
}

/// Whether a fact's identity was met in an earlier file.
pub open spec fn is_repeat(files: Seq<Filed>, i: int) -> bool {
    exists|k: int| 0 <= k < i && (#[trigger] files[k]).fact.id.0@ == files[i].fact.id.0@
}

/// The first file whose fact was met before; the number of files where there is
/// none.
pub open spec fn first_repeat(files: Seq<Filed>, from: int) -> int
    decreases files.len() - from,
{
    if from >= files.len() {
        files.len() as int
    } else if is_repeat(files, from) {
        from
    } else {
        first_repeat(files, from + 1)
    }
}

impl JishukenStore {
    /// Checks that no two files hold the same fact.
    pub fn all_facts(files: &Vec<FactFile>) -> (r: Result<(), Error>)
        ensures
            ({
                let n = first_repeat(filed(files@), 0);
                if n < files@.len() {
                    crate::error::is_store(r, duplicate_message(filed(files@)[n].fact.id.0@))
                } else {
                    r is Ok
                }
            }),
    {
        let ghost fs = filed(files@);
        let mut i: usize = 0;
        while i < files.len()
            invariant
                i <= files.len(),
                fs == filed(files@),
                first_repeat(fs, 0) == first_repeat(fs, i as int),
            decreases files.len() - i,
        {
            let mut k: usize = 0;
            while k < i
                invariant
                    k <= i < files.len(),
                    fs == filed(files@),
                    forall|j: int|
                        0 <= j < k ==> (#[trigger] fs[j]).fact.id.0@ != fs[i as int].fact.id.0@,
                    first_repeat(fs, 0) == first_repeat(fs, i as int),
                decreases i - k,
            {
                if same(files[k].fact.id.0.as_str(), files[i].fact.id.0.as_str()) {
                    assert(fs[k as int].fact.id.0@ == fs[i as int].fact.id.0@);
                    assert(is_repeat(fs, i as int));
                    return Err(duplicate_error(&files[i].fact.id));
                }
                assert(fs[k as int] == files@[k as int]@);
                k = k + 1;
            }
            assert(!is_repeat(fs, i as int));
            i = i + 1;
        }
        Ok(())
    }
}

/// The first file whose fact has a key; the number of files where there is none.
pub open spec fn keyed_at(files: Seq<Filed>, key: Seq<char>, from: int) -> int
    decreases files.len() - from,
{
    if from >= files.len() {
        files.len() as int
    } else if files[from].fact.claim.key_spec() == key {
        from
    } else {
        keyed_at(files, key, from + 1)
    }
}

/// A key in normal form; `None` for a text that is no key.
pub open spec fn normal_key(key: Seq<char>) -> Option<Seq<char>> {
    match Claim::key_parts(key) {
        Some((entity, relation)) => Some(entity + seq!['.'] + relation),
        None => None,
    }
}

/// Where the fact with a key lies; `None` where it cannot be told.
pub open spec fn found_at(files: Seq<Filed>, key: Seq<char>) -> Option<int> {
    match normal_key(key) {
        None => None,
        Some(text) => {
            let at = keyed_at(files, text, 0);
            if first_repeat(files, 0) >= files.len() && at < files.len() {
                Some(at)
            } else {
                None
            }
        },
    }
}

proof fn lemma_keyed_at(files: Seq<Filed>, key: Seq<char>, from: int)
    requires
        0 <= from <= files.len(),
    ensures
        from <= keyed_at(files, key, from) <= files.len(),
        keyed_at(files, key, from) < files.len() ==> files[keyed_at(
            files,
            key,
            from,
        )].fact.claim.key_spec() == key,
    decreases files.len() - from,
{
    if from < files.len() && files[from].fact.claim.key_spec() != key {
        lemma_keyed_at(files, key, from + 1);
    }
}

/// What is found is a file, and its fact has the key.
pub proof fn lemma_found_at(files: Seq<Filed>, key: Seq<char>)
    ensures
        found_at(files, key) matches Some(at) ==> {
            &&& 0 <= at < files.len()
            &&& normal_key(key) == Some(files[at].fact.claim.key_spec())
            &&& first_repeat(files, 0) >= files.len()
        },
{
    if let Some(text) = normal_key(key) {
        lemma_keyed_at(files, text, 0);
    }
}

/// Whether a result says why the fact with a key cannot be told: the key is none, two
/// files hold the same fact, or no file holds this one.
pub open spec fn is_not_found<T>(r: Result<T, Error>, files: Seq<Filed>, key: Seq<char>) -> bool {
    match normal_key(key) {
        None => r matches Err(Error::Key(_)),
        Some(text) => {
            let repeat = first_repeat(files, 0);
            if repeat < files.len() {
                crate::error::is_store(r, duplicate_message(files[repeat].fact.id.0@))
            } else {
                r matches Err(Error::FactNotFound(k)) && k@ == text
            }
        },
    }
}

/// A key in normal form.
fn normalized(key: &str) -> (r: Result<String, Error>)
    ensures
        match normal_key(key@) {
            Some(text) => r matches Ok(k) && k@ == text,
            None => r matches Err(Error::Key(_)),
        },
{
    match Claim::parse_key(key) {
        Ok(claim) => Ok(claim.key()),
        Err(error) => Err(Error::Key(error)),
    }
}

impl JishukenStore {
    /// Finds a fact by its `entity.relation` key. Fails if the key is malformed, if
    /// two files hold the same fact, or if the fact does not exist.
    pub fn read_fact_by_key(files: &Vec<FactFile>, key: &str) -> (r: Result<usize, Error>)
        ensures
            match found_at(filed(files@), key@) {
                Some(at) => r == Ok::<usize, Error>(at as usize),
                None => is_not_found(r, filed(files@), key@),
            },
            r matches Ok(i) ==> i < files@.len() && found_at(filed(files@), key@) == Some(i as int),
    {
        let normal = match normalized(key) {
            Ok(normal) => normal,
            Err(error) => {
                return Err(error);
            },
        };
        let ghost fs = filed(files@);
        if let Err(error) = JishukenStore::all_facts(files) {
            return Err(error);
        }
        let mut i: usize = 0;
        while i < files.len()
            invariant
                i <= files.len(),
                fs == filed(files@),
                normal_key(key@) == Some(normal@),
                keyed_at(fs, normal@, 0) == keyed_at(fs, normal@, i as int),
                first_repeat(fs, 0) >= fs.len(),
            decreases files.len() - i,
        {
            assert(fs[i as int] == files@[i as int]@);
            if same(files[i].fact.claim.key().as_str(), normal.as_str()) {
                return Ok(i);
            }
            i = i + 1;
        }
        Err(Error::FactNotFound(normal))
    }
}

// ---------------------------------------------------------------------------
// Reading a fact
// ---------------------------------------------------------------------------

/// Whether two facts agree in all but identity and claim.
pub open spec fn same_body(a: Fact, b: Fact) -> bool {
    &&& a.value == b.value
    &&& a.epistemics == b.epistemics
    &&& a.schedule == b.schedule
    &&& a.source_hint == b.source_hint
    &&& a.grounds == b.grounds
    &&& a.provenance == b.provenance
}

/// The key of a claim once it is normalized.
pub open spec fn normalized_key(claim: Claim) -> Seq<char> {
    crate::schema::nfc_form(claim.entity.0@) + seq!['.'] + crate::schema::nfc_form(claim.relation@)
}

/// Whether a fact is another with its claim normalized and its identity that of
/// the claim.
pub open spec fn is_normalized(fact: Fact, from: Fact) -> bool {
    &&& fact.claim.entity.0@ == crate::schema::nfc_form(from.claim.entity.0@)
    &&& fact.claim.relation@ == crate::schema::nfc_form(from.claim.relation@)
    &&& fact.claim.nl == from.claim.nl
    &&& fact.id.0@ == normalized_key(from.claim)
    &&& same_body(fact, from)
}

/// Whether a fact is as it is kept: its claim normalized, and its identity that of
/// the claim.
pub open spec fn is_settled(fact: Fact) -> bool {
    &&& crate::schema::nfc_form(fact.claim.entity.0@) == fact.claim.entity.0@
    &&& crate::schema::nfc_form(fact.claim.relation@) == fact.claim.relation@
    &&& fact.id.0@ == fact.claim.key_spec()
}

/// Normalizes a fact's claim, and derives its identity.
pub(crate) fn normalize(fact: Fact) -> (r: Fact)
    ensures
        is_normalized(r, fact),
        is_settled(r),
{
    let mut fact = fact;
    fact.claim.normalize();
    fact.id = FactId::for_claim(&fact.claim);
    fact
}

/// Whether a result takes a fact in, or says why it does not.
pub open spec fn is_adopted(r: Result<Fact, Error>, fact: Fact) -> bool {
    match normal_key(fact.id.0@) {
        None => r matches Err(Error::Key(_)),
        Some(key) => if key != normalized_key(fact.claim) {
            crate::error::is_store(r, "fact ID does not match its claim"@)
        } else {
            r matches Ok(f) && is_normalized(f, fact) && is_settled(f)
        },
    }
}

/// Takes in a fact read from a file: its claim normalized, and its identity that
/// of the claim. Fails where the identity it came with names another claim.
pub fn adopt(fact: Fact) -> (r: Result<Fact, Error>)
    ensures
        is_adopted(r, fact),
{
    let key = match normalized(fact.id.0.as_str()) {
        Ok(key) => key,
        Err(error) => {
            return Err(error);
        },
    };
    let fact = normalize(fact);
    if !same(key.as_str(), fact.id.0.as_str()) {
        return Err(Error::Store("fact ID does not match its claim".to_owned()));
    }
    Ok(fact)
}

/// Whether a record is the ingest of a key.
pub open spec fn is_ingest_of(record: OpRecord, key: Seq<char>) -> bool {
    record.tag@ == "Ingest"@ && normal_key(record.detail@) == Some(key)
}

/// The newest record that ingested a fact.
pub fn ingest_record(records: &Vec<OpRecord>, fact: &Fact) -> (r: Option<usize>)
    ensures
        match r {
            Some(i) => i < records@.len() && is_ingest_of(
                records@[i as int],
                fact.claim.key_spec(),
            ) && forall|k: int|
                i < k < records@.len() ==> !is_ingest_of(
                    #[trigger] records@[k],
                    fact.claim.key_spec(),
                ),
            None => forall|k: int|
                0 <= k < records@.len() ==> !is_ingest_of(
                    #[trigger] records@[k],
                    fact.claim.key_spec(),
                ),
        },
{
    let key = fact.claim.key();
    let mut i: usize = records.len();
    while i > 0
        invariant
            i <= records.len(),
            key@ == fact.claim.key_spec(),
            forall|k: int| i <= k < records@.len() ==> !is_ingest_of(#[trigger] records@[k], key@),
        decreases i,
    {
        i = i - 1;
        if same(records[i].tag.as_str(), "Ingest") {
            if let Ok(detail) = normalized(records[i].detail.as_str()) {
                if same(detail.as_str(), key.as_str()) {
                    return Some(i);
                }
            }
        }
    }
    None
}

/// The first of some saved facts that has a fact's key.
pub fn ingested_fact(saved: &Vec<Fact>, fact: &Fact) -> (r: Option<usize>)
    ensures
        match r {
            Some(i) => i < saved@.len() && saved@[i as int].claim.key_spec()
                == fact.claim.key_spec() && forall|k: int|
                0 <= k < i ==> (#[trigger] saved@[k]).claim.key_spec() != fact.claim.key_spec(),
            None => forall|k: int|
                0 <= k < saved@.len() ==> (#[trigger] saved@[k]).claim.key_spec()
                    != fact.claim.key_spec(),
        },
{
    let key = fact.claim.key();
    let mut i: usize = 0;
    while i < saved.len()
        invariant
            i <= saved.len(),
            key@ == fact.claim.key_spec(),
            forall|k: int| 0 <= k < i ==> (#[trigger] saved@[k]).claim.key_spec() != key@,
        decreases saved.len() - i,
    {
        if same(saved[i].claim.key().as_str(), key.as_str()) {
            return Some(i);
        }
        i = i + 1;
    }
    None
}

/// Whether two capability sets list the same texts.
pub open spec fn same_caps(a: Capabilities, b: Capabilities) -> bool {
    &&& crate::text::texts(a.net@) == crate::text::texts(b.net@)
    &&& crate::text::texts(a.read@) == crate::text::texts(b.read@)
    &&& crate::text::texts(a.env@) == crate::text::texts(b.env@)
}

fn caps_agree(a: &Capabilities, b: &Capabilities) -> (r: bool)
    ensures
        r == same_caps(*a, *b),
{
    crate::text::same_texts(&a.net, &b.net) && crate::text::same_texts(&a.read, &b.read)
        && crate::text::same_texts(&a.env, &b.env)
}

/// Whether two sources are the same.
pub open spec fn same_source(a: GroundSource, b: GroundSource) -> bool {
    match (a, b) {
        (GroundSource::File(x), GroundSource::File(y)) => x@ == y@,
        (GroundSource::Command(x), GroundSource::Command(y)) => crate::text::texts(x.argv@)
            == crate::text::texts(y.argv@) && x.root@ == y.root@,
        (GroundSource::Generator(x), GroundSource::Generator(y)) => {
            &&& x.hash.0@ == y.hash.0@
            &&& same_caps(x.caps, y.caps)
            &&& x.cost_estimate.equals(&y.cost_estimate)
            &&& x.src_path@ == y.src_path@
            &&& x.name@ == y.name@
        },
        (GroundSource::Handler(x), GroundSource::Handler(y)) => {
            &&& x.handler.hash.0@ == y.handler.hash.0@
            &&& same_caps(x.handler.caps, y.handler.caps)
            &&& x.handler.cost_estimate.equals(&y.handler.cost_estimate)
            &&& x.handler.src_path@ == y.handler.src_path@
            &&& x.handler.scheme@ == y.handler.scheme@
            &&& x.reference@ == y.reference@
            &&& crate::text::option_text(x.rev) == crate::text::option_text(y.rev)
        },
        _ => false,
    }
}

fn roots_agree(a: &SourceRoot, b: &SourceRoot) -> (r: bool)
    ensures
        r == (a@ == b@),
{
    match (a, b) {
        (SourceRoot::Project, SourceRoot::Project) => true,
        (SourceRoot::Store, SourceRoot::Store) => true,
        (SourceRoot::Named(x), SourceRoot::Named(y)) => same(x.as_str(), y.as_str()),
        _ => false,
    }
}

fn refs_agree(a: &SourceRef, b: &SourceRef) -> (r: bool)
    ensures
        r == (a@ == b@),
{
    roots_agree(&a.root, &b.root) && same(a.path.as_str(), b.path.as_str())
        && crate::text::same_option(&a.rev, &b.rev)
}

fn sources_agree(a: &GroundSource, b: &GroundSource) -> (r: bool)
    ensures
        r == same_source(*a, *b),
{
    match (a, b) {
        (GroundSource::File(x), GroundSource::File(y)) => refs_agree(x, y),
        (GroundSource::Command(x), GroundSource::Command(y)) => crate::text::same_texts(
            &x.argv,
            &y.argv,
        ) && roots_agree(&x.root, &y.root),
        (GroundSource::Generator(x), GroundSource::Generator(y)) => same(
            x.hash.0.as_str(),
            y.hash.0.as_str(),
        ) && caps_agree(&x.caps, &y.caps) && x.cost_estimate.is_equal(&y.cost_estimate) && same(
            x.src_path.as_str(),
            y.src_path.as_str(),
        ) && same(x.name.as_str(), y.name.as_str()),
        (GroundSource::Handler(x), GroundSource::Handler(y)) => same(
            x.handler.hash.0.as_str(),
            y.handler.hash.0.as_str(),
        ) && caps_agree(&x.handler.caps, &y.handler.caps) && x.handler.cost_estimate.is_equal(
            &y.handler.cost_estimate,
        ) && same(x.handler.src_path.as_str(), y.handler.src_path.as_str()) && same(
            x.handler.scheme.as_str(),
            y.handler.scheme.as_str(),
        ) && same(x.reference.as_str(), y.reference.as_str()) && crate::text::same_option(
            &x.rev,
            &y.rev,
        ),
        _ => false,
    }
}

fn locators_agree(a: &Locator, b: &Locator) -> (r: bool)
    ensures
        r == (a@ == b@),
{
    match (a, b) {
        (Locator::Heading { heading: x }, Locator::Heading { heading: y }) => same(
            x.as_str(),
            y.as_str(),
        ),
        (Locator::Quote { needle: x }, Locator::Quote { needle: y }) => same(
            x.as_str(),
            y.as_str(),
        ),
        (
            Locator::LineRange { start: a, end: b },
            Locator::LineRange { start: x, end: y },
        ) => *a == *x && *b == *y,
        (
            Locator::TreeSitter { lang: a, query: b },
            Locator::TreeSitter { lang: x, query: y },
        ) => same(a.as_str(), x.as_str()) && same(b.as_str(), y.as_str()),
        (Locator::Whole, Locator::Whole) => true,
        _ => false,
    }
}

/// Whether two predicates ask the same.
pub open spec fn same_question(a: Predicate, b: Predicate) -> bool
    decreases a,
{
    match (a, b) {
        (Predicate::Exists, Predicate::Exists) => true,
        (
            Predicate::Equals { literal: x },
            Predicate::Equals { literal: y },
        ) => crate::text::option_text(x) == crate::text::option_text(y),
        (
            Predicate::Contains { literal: x },
            Predicate::Contains { literal: y },
        ) => crate::text::option_text(x) == crate::text::option_text(y),
        (Predicate::Matches { regex: x }, Predicate::Matches { regex: y }) => x@ == y@,
        (
            Predicate::Numeric { op: a, value: b },
            Predicate::Numeric { op: x, value: y },
        ) => a == x && b.equals(&y),
        (
            Predicate::JsonPointer { pointer: a, then: b },
            Predicate::JsonPointer { pointer: x, then: y },
        ) => a@ == x@ && same_question(*b, *y),
        _ => false,
    }
}

fn predicates_agree(a: &Predicate, b: &Predicate) -> (r: bool)
    ensures
        r == same_question(*a, *b),
    decreases a,
{
    match (a, b) {
        (Predicate::Exists, Predicate::Exists) => true,
        (
            Predicate::Equals { literal: x },
            Predicate::Equals { literal: y },
        ) => crate::text::same_option(x, y),
        (
            Predicate::Contains { literal: x },
            Predicate::Contains { literal: y },
        ) => crate::text::same_option(x, y),
        (Predicate::Matches { regex: x }, Predicate::Matches { regex: y }) => same(
            x.as_str(),
            y.as_str(),
        ),
        (
            Predicate::Numeric { op: a, value: b },
            Predicate::Numeric { op: x, value: y },
        ) => *a == *x && b.is_equal(y),
        (
            Predicate::JsonPointer { pointer: a, then: b },
            Predicate::JsonPointer { pointer: x, then: y },
        ) => same(a.as_str(), x.as_str()) && predicates_agree(&**b, &**y),
        _ => false,
    }
}

/// A ground that was never checked.
pub open spec fn unchecked(ground: GroundBinding) -> GroundBinding {
    GroundBinding { last: None, ..ground }
}

/// Whether the first ground of a fact from before source hints were kept apart is
/// the hint it was ingested with.
pub open spec fn starts_with_hint(fact: Fact, ingested: Fact) -> bool {
    &&& fact.grounds@.len() > 0
    &&& ingested.grounds@.len() > 0
    &&& same_source(fact.grounds@[0].source, ingested.grounds@[0].source)
    &&& fact.grounds@[0].locator@ == ingested.grounds@[0].locator@
    &&& same_question(fact.grounds@[0].predicate, ingested.grounds@[0].predicate)
}

/// Whether a fact is another with the hint it was ingested with told from its grounds.
pub open spec fn is_decoded(r: Fact, fact: Fact, legacy: bool, ingested: Option<Fact>) -> bool {
    match ingested {
        Some(saved) => if legacy && starts_with_hint(fact, saved) {
            &&& r.id == fact.id
            &&& r.claim == fact.claim
            &&& r.value == fact.value
            &&& r.provenance == fact.provenance
            &&& r.epistemics == saved.epistemics
            &&& r.schedule == saved.schedule
            &&& r.source_hint == Some(unchecked(fact.grounds@[0]))
            &&& r.grounds@ == fact.grounds@.skip(1).map_values(
                |g: GroundBinding| unchecked(g),
            )
        } else {
            r == fact
        },
        None => r == fact,
    }
}

impl JishukenStore {
    /// Identifies old ingest hints from history, preserving explicit ground
    /// bindings. `legacy` says that the fact was saved before hints were kept apart;
    /// `ingested` is the fact as its newest ingest saved it. A hint among the grounds
    /// becomes the source hint, and belief goes back to what was ingested.
    pub fn decode_fact(fact: Fact, legacy: bool, ingested: Option<Fact>) -> (r: Fact)
        ensures
            is_decoded(r, fact, legacy, ingested),
    {
        if !legacy || fact.grounds.len() == 0 {
            return fact;
        }
        let saved = match ingested {
            Some(saved) => saved,
            None => {
                return fact;
            },
        };
        if saved.grounds.len() == 0 {
            return fact;
        }
        // Old ingest snapshots are the evidence that the first ground was a hint. An
        // explicitly bound `exists` predicate must remain an active ground.
        if !(sources_agree(&fact.grounds[0].source, &saved.grounds[0].source) && locators_agree(
            &fact.grounds[0].locator,
            &saved.grounds[0].locator,
        ) && predicates_agree(&fact.grounds[0].predicate, &saved.grounds[0].predicate)) {
            return fact;
        }
        let mut fact = fact;
        let ghost all = fact.grounds@;
        let mut old: Vec<GroundBinding> = Vec::new();
        std::mem::swap(&mut old, &mut fact.grounds);
        let mut hint = old.remove(0);
        hint.last = None;
        let ghost rest = all.skip(1);
        assert(old@ =~= rest);
        let mut grounds: Vec<GroundBinding> = Vec::new();
        while old.len() > 0
            invariant
                old@.len() + grounds@.len() == rest.len(),
                forall|k: int| 0 <= k < old@.len() ==> old@[k] == rest[grounds@.len() + k],
                forall|k: int| 0 <= k < grounds@.len() ==> grounds@[k] == unchecked(rest[k]),
            decreases old.len(),
        {
            let mut ground = old.remove(0);
            ground.last = None;
            grounds.push(ground);
        }
        fact.grounds = grounds;
        fact.source_hint = Some(hint);
        // Discard belief updates that included the existence-only hint.
        fact.epistemics = saved.epistemics;
        fact.schedule = saved.schedule;
        assert(fact.grounds@ =~= rest.map_values(|g: GroundBinding| unchecked(g)));
        fact
    }
}

} // verus!
