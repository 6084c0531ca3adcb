//! Where a fact goes: the files to stage so that it lies at its path.

use crate::error::Error;
use crate::schema::{path_for, Fact, FactId};
use crate::store::files::{duplicate_error, normalize, FactFile};
use crate::store::JishukenStore;
use crate::text::same;
use vstd::prelude::*;

verus! {

/// One file to stage: the fact it is to hold, or `None` for a file that goes.
#[derive(Debug, Clone, PartialEq)]
pub struct FactWrite {
    pub path: String,
    pub fact: Option<Fact>,
}

/// One file to stage, with its path as characters.
pub struct Filing {
    pub path: Seq<char>,
    pub fact: Option<Fact>,
}

impl View for FactWrite {
    type V = Filing;

    open spec fn view(&self) -> Filing {
        Filing { path: self.path@, fact: self.fact }
    }
}

/// Files to stage, with their paths as characters.
pub open spec fn filings(writes: Seq<FactWrite>) -> Seq<Filing> {
    writes.map_values(|w: FactWrite| w@)
}

/// Where a fact is kept.
pub open spec fn home(fact: Fact) -> Seq<char> {
    crate::schema::path_spec(fact.claim.entity.0@, fact.claim.relation@)
}

/// The first file from `from` on that holds the fact with an identity; the number
/// of files where there is none.
pub open spec fn holder(files: Seq<crate::store::files::Filed>, id: Seq<char>, from: int) -> int
    decreases files.len() - from,
{
    if from >= files.len() {
        files.len() as int
    } else if files[from].fact.id.0@ == id {
        from
    } else {
        holder(files, id, from + 1)
    }
}

/// The first file from `from` on at a path; the number of files where there is
/// none.
pub open spec fn at_path(files: Seq<crate::store::files::Filed>, path: Seq<char>, from: int) -> int
    decreases files.len() - from,
{
    if from >= files.len() {
        files.len() as int
    } else if files[from].path == path {
        from
    } else {
        at_path(files, path, from + 1)
    }
}

/// Whether two files hold the fact with an identity.
pub open spec fn held_twice(files: Seq<crate::store::files::Filed>, id: Seq<char>) -> bool {
    let first = holder(files, id, 0);
    first < files.len() && holder(files, id, first + 1) < files.len()
}

/// What is said of a path that another fact rightly has.
pub open spec fn taken_message(path: Seq<char>) -> Seq<char> {
    path + " belongs to a different fact"@
}

/// The files to stage so that a fact no file holds lies at its path. Another fact
/// that lies there under an old file name moves to its own path first.
pub open spec fn settling(files: Seq<crate::store::files::Filed>, fact: Fact) -> Result<Seq<Filing>, Seq<char>>
    decreases files.len(),
{
    let path = home(fact);
    let last = Filing { path, fact: Some(fact) };
    let at = at_path(files, path, 0);
    if at < 0 || at >= files.len() {
        Ok(seq![last])
    } else {
        let saved = files[at].fact;
        if path == home(saved) {
            Err(taken_message(path))
        } else if held_twice(files, saved.id.0@) {
            Err(crate::store::files::duplicate_message(saved.id.0@))
        } else {
            match settling(files.remove(at), saved) {
                Ok(more) => Ok(seq![Filing { path, fact: None }] + more + seq![last]),
                Err(message) => Err(message),
            }
        }
    }
}

/// The files to stage so that a fact lies at its path and nowhere else: the file
/// that held it under an old name goes, and no other fact is lost.
pub open spec fn placing(files: Seq<crate::store::files::Filed>, fact: Fact) -> Result<Seq<Filing>, Seq<char>> {
    let path = home(fact);
    let id = fact.id.0@;
    let alias = holder(files, id, 0);
    if held_twice(files, id) {
        Err(crate::store::files::duplicate_message(id))
    } else if alias >= files.len() {
        settling(files, fact)
    } else if files[alias].path == path {
        Ok(seq![Filing { path, fact: Some(fact) }])
    } else {
        match settling(files.remove(alias), fact) {
            Ok(more) => Ok(seq![Filing { path: files[alias].path, fact: None }] + more),
            Err(message) => Err(message),
        }
    }
}

/// The first file that holds a fact, and whether another one does.
fn find_holder(files: &Vec<FactFile>, id: &FactId) -> (r: (usize, bool))
    ensures
        r.0 == holder(crate::store::files::filed(files@), id.0@, 0),
        r.0 <= files@.len(),
        r.1 == held_twice(crate::store::files::filed(files@), id.0@),
{
    let ghost fs = crate::store::files::filed(files@);
    let mut i: usize = 0;
    while i < files.len() && !same(files[i].fact.id.0.as_str(), id.0.as_str())
        invariant
            i <= files.len(),
            fs == crate::store::files::filed(files@),
            holder(fs, id.0@, 0) == holder(fs, id.0@, i as int),
        decreases files.len() - i,
    {
        assert(fs[i as int] == files@[i as int]@);
        i = i + 1;
    }
    if i >= files.len() {
        return (i, false);
    }
    assert(fs[i as int] == files@[i as int]@);
    let mut k: usize = i + 1;
    while k < files.len()
        invariant
            i < k <= files.len(),
            fs == crate::store::files::filed(files@),
            holder(fs, id.0@, 0) == i,
            holder(fs, id.0@, i + 1) == holder(fs, id.0@, k as int),
        decreases files.len() - k,
    {
        assert(fs[k as int] == files@[k as int]@);
        if same(files[k].fact.id.0.as_str(), id.0.as_str()) {
            return (i, true);
        }
        k = k + 1;
    }
    (i, false)
}

/// The first file at a path.
fn find_path(files: &Vec<FactFile>, path: &str) -> (r: usize)
    ensures
        r == at_path(crate::store::files::filed(files@), path@, 0),
        r <= files@.len(),
{
    let ghost fs = crate::store::files::filed(files@);
    let mut i: usize = 0;
    while i < files.len()
        invariant
            i <= files.len(),
            fs == crate::store::files::filed(files@),
            at_path(fs, path@, 0) == at_path(fs, path@, i as int),
        decreases files.len() - i,
    {
        assert(fs[i as int] == files@[i as int]@);
        if same(files[i].path.as_str(), path) {
            return i;
        }
        i = i + 1;
    }
    i
}

/// Whether a result is the outcome of a placement.
pub open spec fn is_outcome(
    r: Result<Vec<FactWrite>, Error>,
    outcome: Result<Seq<Filing>, Seq<char>>,
) -> bool {
    match outcome {
        Ok(writes) => r matches Ok(v) && filings(v@) == writes,
        Err(message) => crate::error::is_store(r, message),
    }
}

/// Stages a fact that no file holds.
fn settle(files: Vec<FactFile>, fact: Fact) -> (r: Result<Vec<FactWrite>, Error>)
    ensures
        is_outcome(r, settling(crate::store::files::filed(files@), fact)),
    decreases files@.len(),
{
    let mut files = files;
    let ghost fs = crate::store::files::filed(files@);
    let path = path_for(&fact.claim);
    let at: usize = find_path(&files, path.as_str());
    if at >= files.len() {
        let mut out: Vec<FactWrite> = Vec::new();
        out.push(FactWrite { path, fact: Some(fact) });
        assert(filings(out@) =~= seq![Filing { path: home(fact), fact: Some(fact) }]);
        return Ok(out);
    }
    assert(fs[at as int] == files@[at as int]@);
    let other = path_for(&files[at].fact.claim);
    if same(path.as_str(), other.as_str()) {
        return Err(Error::Store(path.concat(" belongs to a different fact")));
    }
    let (_, twice) = find_holder(&files, &files[at].fact.id);
    if twice {
        return Err(duplicate_error(&files[at].fact.id));
    }
    let saved = files.remove(at);
    assert(crate::store::files::filed(files@) =~= fs.remove(at as int));
    let more = match settle(files, saved.fact) {
        Ok(more) => more,
        Err(error) => {
            return Err(error);
        },
    };
    let mut out: Vec<FactWrite> = Vec::new();
    out.push(FactWrite { path: path.clone(), fact: None });
    let mut more = more;
    let ghost middle = filings(more@);
    out.append(&mut more);
    out.push(FactWrite { path, fact: Some(fact) });
    assert(filings(out@) =~= seq![Filing { path: home(fact), fact: None }] + middle + seq![
        Filing { path: home(fact), fact: Some(fact) },
    ]);
    Ok(out)
}

impl JishukenStore {
    /// Stages a fact, and moves it from an old file name where necessary. `files` are
    /// the fact files as they would be with what is staged so far.
    pub fn write_fact(files: Vec<FactFile>, fact: Fact) -> (r: Result<Vec<FactWrite>, Error>)
        ensures
            exists|kept: Fact| #[trigger]
                crate::store::files::is_normalized(kept, fact) && crate::store::files::is_settled(kept) && is_outcome(
                    r,
                    placing(crate::store::files::filed(files@), kept),
                ),
    {
        let mut files = files;
        let ghost fs = crate::store::files::filed(files@);
        let kept = normalize(fact);
        assert(crate::store::files::is_normalized(kept, fact));
        let path = path_for(&kept.claim);
        let (alias, twice) = find_holder(&files, &kept.id);
        if twice {
            return Err(duplicate_error(&kept.id));
        }
        if alias >= files.len() {
            return settle(files, kept);
        }
        assert(fs[alias as int] == files@[alias as int]@);
        let mut out: Vec<FactWrite> = Vec::new();
        if same(files[alias].path.as_str(), path.as_str()) {
            out.push(FactWrite { path, fact: Some(kept) });
            assert(filings(out@) =~= seq![Filing { path: home(kept), fact: Some(kept) }]);
            return Ok(out);
        }
        let gone = files.remove(alias);
        assert(crate::store::files::filed(files@) =~= fs.remove(alias as int));
        let mut more = match settle(files, kept) {
            Ok(more) => more,
            Err(error) => {
                return Err(error);
            },
        };
        let ghost rest = filings(more@);
        out.push(FactWrite { path: gone.path, fact: None });
        out.append(&mut more);
        assert(filings(out@) =~= seq![Filing { path: fs[alias as int].path, fact: None }] + rest);
        Ok(out)
    }
}

/// The files to stage so that a fact lies at its path, once the one file that held it
/// is set aside.
spec fn moving(
    rest: Seq<crate::store::files::Filed>,
    old_path: Seq<char>,
    fact: Fact,
) -> Result<Seq<Filing>, Seq<char>> {
    if old_path == home(fact) {
        Ok(seq![Filing { path: home(fact), fact: Some(fact) }])
    } else {
        match settling(rest, fact) {
            Ok(more) => Ok(seq![Filing { path: old_path, fact: None }] + more),
            Err(message) => Err(message),
        }
    }
}

/// A fact that one file holds is placed by setting that file aside.
proof fn lemma_moving(files: Seq<crate::store::files::Filed>, at: int, fact: Fact)
    requires
        0 <= at < files.len(),
        crate::store::files::first_repeat(files, 0) >= files.len(),
        files[at].fact.id.0@ == fact.id.0@,
    ensures
        placing(files, fact) == moving(files.remove(at), files[at].path, fact),
{
    let id = fact.id.0@;
    lemma_ids_differ(files, 0);
    lemma_holder(files, id, 0);
    let first = holder(files, id, 0);
    if first < at {
        assert(files[first].fact.id.0@ != files[at].fact.id.0@);
    } else if first > at {
        assert(files[at].fact.id.0@ != id);
    }
    lemma_holder(files, id, at + 1);
    let second = holder(files, id, at + 1);
    if second < files.len() {
        assert(files[at].fact.id.0@ != files[second].fact.id.0@);
    }
}

/// Where no fact is met twice, all identities differ.
proof fn lemma_ids_differ(files: Seq<crate::store::files::Filed>, from: int)
    requires
        0 <= from <= files.len(),
        crate::store::files::first_repeat(files, from) >= files.len(),
    ensures
        forall|i: int, j: int|
            0 <= i < j < files.len() && from <= j ==> (#[trigger] files[i]).fact.id.0@ != (
            #[trigger] files[j]).fact.id.0@,
    decreases files.len() - from,
{
    if from < files.len() {
        assert(!crate::store::files::is_repeat(files, from));
        lemma_ids_differ(files, from + 1);
    }
}

/// Stages a fact that lay at `old_path`. `files` are the other fact files; `all` are
/// these with the one that held the fact, at `at`.
pub(crate) fn move_fact(
    files: Vec<FactFile>,
    old_path: String,
    fact: Fact,
    Ghost(all): Ghost<Seq<crate::store::files::Filed>>,
    Ghost(at): Ghost<int>,
) -> (r: Result<Vec<FactWrite>, Error>)
    requires
        0 <= at < all.len(),
        crate::store::files::filed(files@) == all.remove(at),
        old_path@ == all[at].path,
        crate::store::files::first_repeat(all, 0) >= all.len(),
        all[at].fact.id.0@ == crate::store::files::normalized_key(fact.claim),
    ensures
        exists|kept: Fact| #[trigger]
            crate::store::files::is_normalized(kept, fact) && crate::store::files::is_settled(kept)
                && is_outcome(r, placing(all, kept)),
{
    let kept = normalize(fact);
    assert(crate::store::files::is_normalized(kept, fact));
    proof {
        lemma_moving(all, at, kept);
    }
    let path = path_for(&kept.claim);
    let mut out: Vec<FactWrite> = Vec::new();
    if same(old_path.as_str(), path.as_str()) {
        out.push(FactWrite { path, fact: Some(kept) });
        assert(filings(out@) =~= seq![Filing { path: home(kept), fact: Some(kept) }]);
        return Ok(out);
    }
    let mut more = match settle(files, kept) {
        Ok(more) => more,
        Err(error) => {
            return Err(error);
        },
    };
    let ghost rest = filings(more@);
    out.push(FactWrite { path: old_path, fact: None });
    out.append(&mut more);
    assert(filings(out@) =~= seq![Filing { path: all[at].path, fact: None }] + rest);
    Ok(out)
}

/// Whether no two files have the same path.
pub open spec fn places_differ(files: Seq<crate::store::files::Filed>) -> bool {
    forall|i: int, j: int|
        0 <= i < j < files.len() ==> (#[trigger] files[i]).path != (#[trigger] files[j]).path
}

/// Whether no two files hold facts with the same identity.
pub open spec fn ids_differ(files: Seq<crate::store::files::Filed>) -> bool {
    forall|i: int, j: int|
        0 <= i < j < files.len() ==> (#[trigger] files[i]).fact.id.0@ != (
        #[trigger] files[j]).fact.id.0@
}

/// Whether every file holds a fact as it is kept.
pub open spec fn all_settled(files: Seq<crate::store::files::Filed>) -> bool {
    forall|i: int| 0 <= i < files.len() ==> crate::store::files::is_settled((#[trigger] files[i]).fact)
}

/// What lies at each path.
pub open spec fn held(files: Seq<crate::store::files::Filed>) -> Map<Seq<char>, Fact> {
    Map::new(
        |path: Seq<char>| at_path(files, path, 0) < files.len(),
        |path: Seq<char>| files[at_path(files, path, 0)].fact,
    )
}

/// What lies at each path once files are staged, in order.
pub open spec fn staged(files: Map<Seq<char>, Fact>, writes: Seq<Filing>) -> Map<Seq<char>, Fact>
    decreases writes.len(),
{
    if writes.len() == 0 {
        files
    } else {
        let before = staged(files, writes.drop_last());
        match writes.last().fact {
            Some(fact) => before.insert(writes.last().path, fact),
            None => before.remove(writes.last().path),
        }
    }
}

proof fn lemma_holder(files: Seq<crate::store::files::Filed>, id: Seq<char>, from: int)
    requires
        0 <= from <= files.len(),
    ensures
        from <= holder(files, id, from) <= files.len(),
        holder(files, id, from) < files.len() ==> files[holder(files, id, from)].fact.id.0@ == id,
        forall|i: int|
            from <= i < holder(files, id, from) ==> (#[trigger] files[i]).fact.id.0@ != id,
    decreases files.len() - from,
{
    if from < files.len() && files[from].fact.id.0@ != id {
        lemma_holder(files, id, from + 1);
    }
}

proof fn lemma_at_path(files: Seq<crate::store::files::Filed>, path: Seq<char>, from: int)
    requires
        0 <= from <= files.len(),
    ensures
        from <= at_path(files, path, from) <= files.len(),
        at_path(files, path, from) < files.len() ==> files[at_path(files, path, from)].path == path,
        forall|i: int| from <= i < at_path(files, path, from) ==> (#[trigger] files[i]).path != path,
    decreases files.len() - from,
{
    if from < files.len() && files[from].path != path {
        lemma_at_path(files, path, from + 1);
    }
}

proof fn lemma_held(files: Seq<crate::store::files::Filed>)
    requires
        places_differ(files),
    ensures
        forall|i: int|
            0 <= i < files.len() ==> held(files).contains_key((#[trigger] files[i]).path)
                && held(files)[files[i].path] == files[i].fact,
        forall|path: Seq<char>| #[trigger]
            held(files).contains_key(path) ==> exists|i: int|
                0 <= i < files.len() && (#[trigger] files[i]).path == path && files[i].fact
                    == held(files)[path],
{
    assert forall|i: int| 0 <= i < files.len() implies held(files).contains_key(
        (#[trigger] files[i]).path,
    ) && held(files)[files[i].path] == files[i].fact by {
        let k = at_path(files, files[i].path, 0);
        lemma_at_path(files, files[i].path, 0);
        if k < i {
            assert(files[k].path != files[i].path);
        } else if k > i {
            assert(files[i].path != files[i].path);
        }
    }
    assert forall|path: Seq<char>| #[trigger] held(files).contains_key(path) implies exists|i: int|
        0 <= i < files.len() && (#[trigger] files[i]).path == path && files[i].fact
            == held(files)[path] by {
        lemma_at_path(files, path, 0);
        let k = at_path(files, path, 0);
        assert(files[k].path == path);
    }
}

/// With one file fewer, its path is free and the rest is as it was.
proof fn lemma_held_without(files: Seq<crate::store::files::Filed>, at: int)
    requires
        places_differ(files),
        0 <= at < files.len(),
    ensures
        places_differ(files.remove(at)),
        held(files.remove(at)) == held(files).remove(files[at].path),
        forall|i: int|
            0 <= i < files.remove(at).len() ==> (#[trigger] files.remove(at)[i]) == files[if i < at {
                i
            } else {
                i + 1
            }],
{
    let rest = files.remove(at);
    assert forall|i: int, j: int| 0 <= i < j < rest.len() implies (#[trigger] rest[i]).path != (
    #[trigger] rest[j]).path by {
        let k = if i < at {
            i
        } else {
            i + 1
        };
        let l = if j < at {
            j
        } else {
            j + 1
        };
        assert(files[k].path != files[l].path);
    }
    lemma_held(files);
    lemma_held(rest);
    assert forall|path: Seq<char>| held(rest).contains_key(path) implies held(files).remove(
        files[at].path,
    ).contains_key(path) && held(files)[path] == held(rest)[path] by {
        let i = choose|i: int|
            0 <= i < rest.len() && (#[trigger] rest[i]).path == path && rest[i].fact
                == held(rest)[path];
        let k = if i < at {
            i
        } else {
            i + 1
        };
        assert(rest[i] == files[k]);
        assert(files[k].path != files[at].path);
    }
    assert forall|path: Seq<char>|
        held(files).remove(files[at].path).contains_key(path) implies held(rest).contains_key(
        path,
    ) by {
        let k = choose|k: int|
            0 <= k < files.len() && (#[trigger] files[k]).path == path && files[k].fact
                == held(files)[path];
        let i = if k < at {
            k
        } else {
            k - 1
        };
        assert(rest[i] == files[k]);
    }
    assert(held(rest) =~= held(files).remove(files[at].path));
}

proof fn lemma_staged_parts(
    files: Map<Seq<char>, Fact>,
    first: Seq<Filing>,
    second: Seq<Filing>,
)
    ensures
        staged(files, first + second) == staged(staged(files, first), second),
    decreases second.len(),
{
    if second.len() == 0 {
        assert(first + second =~= first);
    } else {
        assert((first + second).drop_last() =~= first + second.drop_last());
        lemma_staged_parts(files, first, second.drop_last());
    }
}

/// Whether some fact files are others with one fact added: the fact lies at its
/// path, every other fact lies somewhere, nothing else does, and no fact lies
/// twice.
pub open spec fn adds(after: Map<Seq<char>, Fact>, files: Seq<crate::store::files::Filed>, fact: Fact) -> bool {
    &&& after.contains_key(home(fact)) && after[home(fact)] == fact
    &&& forall|i: int|
        0 <= i < files.len() ==> exists|path: Seq<char>| #[trigger]
            after.contains_key(path) && after[path] == (#[trigger] files[i]).fact
    &&& forall|path: Seq<char>| #[trigger]
        after.contains_key(path) ==> after[path] == fact || exists|i: int|
            0 <= i < files.len() && (#[trigger] files[i]).fact == after[path]
    &&& forall|p: Seq<char>, q: Seq<char>|
        p != q && #[trigger] after.contains_key(p) && #[trigger] after.contains_key(q)
            ==> after[p].id.0@ != after[q].id.0@
}

/// Whether each path is where a fact lay before, or where one belongs.
spec fn known_paths(after: Map<Seq<char>, Fact>, files: Seq<crate::store::files::Filed>, fact: Fact) -> bool {
    forall|path: Seq<char>| #[trigger]
        after.contains_key(path) ==> path == home(fact) || exists|i: int|
            0 <= i < files.len() && ((#[trigger] files[i]).path == path || home(files[i].fact)
                == path)
}

proof fn lemma_home_tells_apart(a: Fact, b: Fact)
    requires
        crate::store::files::is_settled(a),
        crate::store::files::is_settled(b),
        home(a) == home(b),
    ensures
        a.id.0@ == b.id.0@,
{
    crate::schema::law_paths_tell_claims_apart(
        a.claim.entity.0@,
        a.claim.relation@,
        b.claim.entity.0@,
        b.claim.relation@,
    );
}

/// What holds of fact files holds of them with one file fewer.
proof fn lemma_without(files: Seq<crate::store::files::Filed>, at: int)
    requires
        places_differ(files),
        ids_differ(files),
        all_settled(files),
        0 <= at < files.len(),
    ensures
        places_differ(files.remove(at)),
        ids_differ(files.remove(at)),
        all_settled(files.remove(at)),
        held(files.remove(at)) == held(files).remove(files[at].path),
        forall|i: int|
            0 <= i < files.remove(at).len() ==> (#[trigger] files.remove(at)[i]).fact.id.0@
                != files[at].fact.id.0@ && files.remove(at)[i].path != files[at].path,
        forall|i: int|
            0 <= i < files.remove(at).len() ==> exists|k: int|
                0 <= k < files.len() && k != at && (#[trigger] files[k]) == (
                #[trigger] files.remove(at)[i]),
        !held_twice(files, files[at].fact.id.0@),
{
    let rest = files.remove(at);
    lemma_held_without(files, at);
    assert forall|i: int| 0 <= i < rest.len() implies (#[trigger] rest[i]).fact.id.0@
        != files[at].fact.id.0@ && rest[i].path != files[at].path && exists|k: int|
        0 <= k < files.len() && k != at && (#[trigger] files[k]) == rest[i] by {
        let k = if i < at {
            i
        } else {
            i + 1
        };
        assert(rest[i] == files[k]);
        assert(files[k].path != files[at].path);
        assert(files[k].fact.id.0@ != files[at].fact.id.0@);
    }
    assert forall|i: int, j: int| 0 <= i < j < rest.len() implies (#[trigger] rest[i]).fact.id.0@
        != (#[trigger] rest[j]).fact.id.0@ by {
        let k = if i < at {
            i
        } else {
            i + 1
        };
        let l = if j < at {
            j
        } else {
            j + 1
        };
        assert(rest[i] == files[k] && rest[j] == files[l]);
    }
    let id = files[at].fact.id.0@;
    lemma_holder(files, id, 0);
    let first = holder(files, id, 0);
    if first < files.len() {
        lemma_holder(files, id, first + 1);
        let second = holder(files, id, first + 1);
        if second < files.len() {
            assert(files[first].fact.id.0@ != files[second].fact.id.0@);
        }
    }
}

/// Where the path is free, the fact is put there.
proof fn lemma_settling_free(files: Seq<crate::store::files::Filed>, fact: Fact)
    requires
        places_differ(files),
        ids_differ(files),
        at_path(files, home(fact), 0) >= files.len(),
        forall|i: int| 0 <= i < files.len() ==> (#[trigger] files[i]).fact.id.0@ != fact.id.0@,
    ensures
        adds(held(files).insert(home(fact), fact), files, fact),
        known_paths(held(files).insert(home(fact), fact), files, fact),
{
    let path = home(fact);
    let after = held(files).insert(path, fact);
    lemma_at_path(files, path, 0);
    lemma_held(files);
    assert forall|i: int| 0 <= i < files.len() implies exists|p: Seq<char>| #[trigger]
        after.contains_key(p) && after[p] == (#[trigger] files[i]).fact by {
        assert(files[i].path != path);
        assert(after.contains_key(files[i].path));
    }
    assert forall|p: Seq<char>, q: Seq<char>|
        p != q && #[trigger] after.contains_key(p) && #[trigger] after.contains_key(
            q,
        ) implies after[p].id.0@ != after[q].id.0@ by {
        if p != path && q != path {
            assert(held(files).contains_key(p) && held(files).contains_key(q));
            let i = choose|i: int|
                0 <= i < files.len() && (#[trigger] files[i]).path == p && files[i].fact
                    == held(files)[p];
            let j = choose|j: int|
                0 <= j < files.len() && (#[trigger] files[j]).path == q && files[j].fact
                    == held(files)[q];
            if i < j {
                assert(files[i].fact.id.0@ != files[j].fact.id.0@);
            } else {
                assert(files[j].fact.id.0@ != files[i].fact.id.0@);
            }
        } else {
            let other = if p == path {
                q
            } else {
                p
            };
            assert(held(files).contains_key(other));
        }
    }
    assert forall|p: Seq<char>| #[trigger] after.contains_key(p) implies p == home(fact)
        || exists|i: int|
        0 <= i < files.len() && ((#[trigger] files[i]).path == p || home(files[i].fact) == p) by {
        if p != path {
            assert(held(files).contains_key(p));
        }
    }
}

/// Once the fact at a path has moved, the path is free, and the fact that belongs
/// there can be added.
proof fn lemma_settling_moved(
    files: Seq<crate::store::files::Filed>,
    at: int,
    fact: Fact,
    middle: Map<Seq<char>, Fact>,
)
    requires
        places_differ(files),
        ids_differ(files),
        all_settled(files),
        crate::store::files::is_settled(fact),
        0 <= at < files.len(),
        files[at].path == home(fact),
        home(files[at].fact) != home(fact),
        forall|i: int| 0 <= i < files.len() ==> (#[trigger] files[i]).fact.id.0@ != fact.id.0@,
        adds(middle, files.remove(at), files[at].fact),
        known_paths(middle, files.remove(at), files[at].fact),
    ensures
        adds(middle.insert(home(fact), fact), files, fact),
        known_paths(middle.insert(home(fact), fact), files, fact),
{
    let rest = files.remove(at);
    let saved = files[at].fact;
    let path = home(fact);
    let after = middle.insert(path, fact);
    lemma_without(files, at);
    if middle.contains_key(path) {
        let i = choose|i: int|
            0 <= i < rest.len() && ((#[trigger] rest[i]).path == path || home(rest[i].fact)
                == path);
        let k = choose|k: int| 0 <= k < files.len() && k != at && (#[trigger] files[k]) == rest[i];
        assert(rest[i].path != path);
        lemma_home_tells_apart(rest[i].fact, fact);
        assert(files[k].fact.id.0@ != fact.id.0@);
    }
    lemma_adds_one_more(middle, after, files, at, fact);
    assert forall|p: Seq<char>| #[trigger] after.contains_key(p) implies p == home(fact)
        || exists|i: int|
        0 <= i < files.len() && ((#[trigger] files[i]).path == p || home(files[i].fact) == p) by {
        if p != path {
            assert(middle.contains_key(p));
            if p == home(saved) {
                assert(home(files[at].fact) == p);
            } else {
                let i = choose|i: int|
                    0 <= i < rest.len() && ((#[trigger] rest[i]).path == p || home(rest[i].fact)
                        == p);
                let k = choose|k: int|
                    0 <= k < files.len() && k != at && (#[trigger] files[k]) == rest[i];
                assert(files[k].path == p || home(files[k].fact) == p);
            }
        }
    }
}

/// Staging one file by itself.
proof fn lemma_staged_one(files: Map<Seq<char>, Fact>, write: Filing)
    ensures
        staged(files, seq![write]) == (match write.fact {
            Some(fact) => files.insert(write.path, fact),
            None => files.remove(write.path),
        }),
{
    let writes = seq![write];
    assert(writes.drop_last() =~= Seq::<Filing>::empty());
    assert(staged(files, writes.drop_last()) == files);
    assert(writes.last() == write);
}

proof fn lemma_settling(files: Seq<crate::store::files::Filed>, fact: Fact)
    requires
        places_differ(files),
        ids_differ(files),
        all_settled(files),
        crate::store::files::is_settled(fact),
        forall|i: int| 0 <= i < files.len() ==> (#[trigger] files[i]).fact.id.0@ != fact.id.0@,
    ensures
        settling(files, fact) is Ok,
        adds(staged(held(files), settling(files, fact)->Ok_0), files, fact),
        known_paths(staged(held(files), settling(files, fact)->Ok_0), files, fact),
    decreases files.len(),
{
    let path = home(fact);
    let at = at_path(files, path, 0);
    lemma_at_path(files, path, 0);
    let last = Filing { path, fact: Some(fact) };
    if at >= files.len() {
        lemma_staged_one(held(files), last);
        lemma_settling_free(files, fact);
    } else {
        let saved = files[at].fact;
        let rest = files.remove(at);
        if path == home(saved) {
            lemma_home_tells_apart(fact, saved);
        }
        lemma_without(files, at);
        lemma_settling(rest, saved);
        let more = settling(rest, saved)->Ok_0;
        let gone = Filing { path, fact: None::<Fact> };
        let middle = staged(held(rest), more);
        lemma_staged_one(held(files), gone);
        lemma_staged_parts(held(files), seq![gone], more);
        lemma_staged_parts(held(files), seq![gone] + more, seq![last]);
        lemma_staged_one(middle, last);
        lemma_settling_moved(files, at, fact, middle);
    }
}

/// Adding a fact at a free path, where a displaced one was added already.
proof fn lemma_adds_one_more(
    middle: Map<Seq<char>, Fact>,
    after: Map<Seq<char>, Fact>,
    files: Seq<crate::store::files::Filed>,
    at: int,
    fact: Fact,
)
    requires
        0 <= at < files.len(),
        adds(middle, files.remove(at), files[at].fact),
        !middle.contains_key(home(fact)),
        after == middle.insert(home(fact), fact),
        forall|i: int| 0 <= i < files.len() ==> (#[trigger] files[i]).fact.id.0@ != fact.id.0@,
    ensures
        adds(after, files, fact),
{
    let rest = files.remove(at);
    let saved = files[at].fact;
    assert forall|i: int| 0 <= i < files.len() implies exists|path: Seq<char>| #[trigger]
        after.contains_key(path) && after[path] == (#[trigger] files[i]).fact by {
        if i == at {
            assert(after.contains_key(home(saved)) && after[home(saved)] == saved);
        } else {
            let k = if i < at {
                i
            } else {
                i - 1
            };
            assert(rest[k] == files[i]);
            let path = choose|path: Seq<char>| #[trigger]
                middle.contains_key(path) && middle[path] == rest[k].fact;
            assert(after.contains_key(path) && after[path] == files[i].fact);
        }
    }
    assert forall|path: Seq<char>| #[trigger] after.contains_key(path) implies after[path] == fact
        || exists|i: int| 0 <= i < files.len() && (#[trigger] files[i]).fact == after[path] by {
        if path != home(fact) {
            assert(middle.contains_key(path));
            if middle[path] == saved {
                assert(files[at].fact == after[path]);
            } else {
                let k = choose|k: int|
                    0 <= k < rest.len() && (#[trigger] rest[k]).fact == middle[path];
                let i = if k < at {
                    k
                } else {
                    k + 1
                };
                assert(rest[k] == files[i]);
            }
        }
    }
    assert forall|p: Seq<char>, q: Seq<char>|
        p != q && #[trigger] after.contains_key(p) && #[trigger] after.contains_key(
            q,
        ) implies after[p].id.0@ != after[q].id.0@ by {
        if p != home(fact) && q != home(fact) {
            assert(middle.contains_key(p) && middle.contains_key(q));
        } else {
            let other = if p == home(fact) {
                q
            } else {
                p
            };
            assert(middle.contains_key(other));
            if middle[other] != saved {
                let k = choose|k: int|
                    0 <= k < rest.len() && (#[trigger] rest[k]).fact == middle[other];
                let i = if k < at {
                    k
                } else {
                    k + 1
                };
                assert(rest[k] == files[i]);
            } else {
                assert(files[at].fact == saved);
            }
        }
    }
}

/// Whether a file holds another fact than that with an identity.
pub open spec fn holds_other(id: Seq<char>) -> spec_fn(crate::store::files::Filed) -> bool {
    |f: crate::store::files::Filed| f.fact.id.0@ != id
}

/// The files that hold other facts than one.
pub open spec fn others(files: Seq<crate::store::files::Filed>, fact: Fact) -> Seq<crate::store::files::Filed> {
    files.filter(holds_other(fact.id.0@))
}

/// Where no fact lies twice, writing a fact succeeds, and loses none: afterwards
/// the fact lies at its path, every other fact still lies somewhere, what was there
/// under the same identity is gone, and again no fact lies twice. This holds also
/// where an old file name of one fact is the path of another.
pub proof fn law_writing_keeps_the_other_facts(files: Seq<crate::store::files::Filed>, fact: Fact)
    requires
        places_differ(files),
        ids_differ(files),
        all_settled(files),
        crate::store::files::is_settled(fact),
    ensures
        placing(files, fact) is Ok,
        adds(staged(held(files), placing(files, fact)->Ok_0), others(files, fact), fact),
{
    let id = fact.id.0@;
    let alias = holder(files, id, 0);
    let path = home(fact);
    let keep = holds_other(id);
    lemma_holder(files, id, 0);
    if alias >= files.len() {
        lemma_filter_all(files, keep);
        lemma_settling(files, fact);
    } else {
        let rest = files.remove(alias);
        lemma_without(files, alias);
        assert forall|i: int| 0 <= i < files.len() && i != alias implies keep(
            #[trigger] files[i],
        ) by {
            if i < alias {
                assert(files[i].fact.id.0@ != files[alias].fact.id.0@);
            } else {
                assert(files[alias].fact.id.0@ != files[i].fact.id.0@);
            }
        }
        lemma_filter_removed(files, keep, alias);
        lemma_settling(rest, fact);
        if files[alias].path == path {
            // The fact's own file: the path is free once it is taken away.
            lemma_at_path(rest, path, 0);
            let last = Filing { path, fact: Some(fact) };
            lemma_staged_one(held(rest), last);
            lemma_staged_one(held(files), last);
            assert(held(files).insert(path, fact) =~= held(rest).insert(path, fact));
        } else {
            let gone = Filing { path: files[alias].path, fact: None::<Fact> };
            lemma_staged_one(held(files), gone);
            lemma_staged_parts(held(files), seq![gone], settling(rest, fact)->Ok_0);
        }
    }
}

/// A fact that is written in place of one that lies in a file takes that file's place,
/// and no other's.
pub proof fn lemma_placed_alone(files: Seq<crate::store::files::Filed>, at: int, fact: Fact)
    requires
        places_differ(files),
        all_settled(files),
        crate::store::files::first_repeat(files, 0) >= files.len(),
        crate::store::files::is_settled(fact),
        0 <= at < files.len(),
        files[at].fact.id.0@ == fact.id.0@,
    ensures
        placing(files, fact) is Ok,
        ({
            let after = staged(held(files), placing(files, fact)->Ok_0);
            &&& after.contains_key(home(fact))
            &&& after[home(fact)] == fact
            &&& forall|i: int|
                0 <= i < files.len() && i != at ==> exists|path: Seq<char>| #[trigger]
                    after.contains_key(path) && after[path] == (#[trigger] files[i]).fact
            &&& forall|path: Seq<char>| #[trigger]
                after.contains_key(path) ==> after[path] == fact || exists|i: int|
                    0 <= i < files.len() && i != at && (#[trigger] files[i]).fact == after[path]
        }),
{
    lemma_ids_differ(files, 0);
    law_writing_keeps_the_other_facts(files, fact);
    let kept = others(files, fact);
    let keep = holds_other(fact.id.0@);
    let after = staged(held(files), placing(files, fact)->Ok_0);
    assert forall|i: int| 0 <= i < files.len() && i != at implies exists|path: Seq<char>|
        #[trigger] after.contains_key(path) && after[path] == (#[trigger] files[i]).fact by {
        assert(files[i].fact.id.0@ != files[at].fact.id.0@);
        assert(keep(files[i]));
        files.lemma_filter_contains(keep, i);
        assert(kept.contains(files[i]));
        let k = choose|k: int| 0 <= k < kept.len() && kept[k] == files[i];
        assert(kept[k].fact == files[i].fact);
    }
    assert forall|path: Seq<char>| #[trigger] after.contains_key(path) && after[path]
        != fact implies exists|i: int|
        0 <= i < files.len() && i != at && (#[trigger] files[i]).fact == after[path] by {
        let k = choose|k: int| 0 <= k < kept.len() && (#[trigger] kept[k]).fact == after[path];
        lemma_filter_within(files, keep, k);
        files.lemma_filter_pred(keep, k);
        let i = choose|i: int| 0 <= i < files.len() && files[i] == kept[k];
        assert(files[i].fact == after[path]);
        assert(keep(files[i]));
    }
}

/// Adding a fact again under the same key replaces it: afterwards that key's value is
/// the new one, ungrounded and without grounds, and nothing of the old fact is left.
pub proof fn law_ingest_replaces_the_fact(
    files: Seq<crate::store::files::Filed>,
    staged_op: crate::store::apply::Staged,
    op: crate::write::WriteOp,
    circumstances: crate::store::apply::Circumstances,
)
    requires
        places_differ(files),
        ids_differ(files),
        all_settled(files),
        op is Ingest,
        crate::store::apply::is_staged(staged_op, op, None, circumstances),
    ensures
        ({
            let after = staged(held(files), placing(files, staged_op.fact)->Ok_0);
            &&& placing(files, staged_op.fact) is Ok
            &&& forall|path: Seq<char>| #[trigger]
                after.contains_key(path) && after[path].id.0@ == staged_op.fact.id.0@
                    ==> after[path] == staged_op.fact
            &&& after.contains_key(home(staged_op.fact))
            &&& after[home(staged_op.fact)] == staged_op.fact
            &&& staged_op.fact.value == op->Ingest_value
            &&& staged_op.fact.epistemics.groundedness is Ungrounded
            &&& staged_op.fact.grounds@.len() == 0
        }),
{
    let fact = staged_op.fact;
    law_writing_keeps_the_other_facts(files, fact);
    let after = staged(held(files), placing(files, fact)->Ok_0);
    assert forall|path: Seq<char>| #[trigger]
        after.contains_key(path) && after[path].id.0@ == fact.id.0@ implies after[path] == fact by {
        if path != home(fact) {
            assert(after.contains_key(home(fact)));
        }
    }
}

/// What was written is read back: among the files as they are afterwards, listed in
/// any order, no fact lies twice, and the first with the key of the fact is the fact.
pub proof fn law_a_read_gives_back_what_was_written(
    files: Seq<crate::store::files::Filed>,
    fact: Fact,
    after: Seq<crate::store::files::Filed>,
)
    requires
        places_differ(files),
        ids_differ(files),
        all_settled(files),
        crate::store::files::is_settled(fact),
        places_differ(after),
        held(after) == staged(held(files), placing(files, fact)->Ok_0),
    ensures
        crate::store::files::first_repeat(after, 0) >= after.len(),
        ({
            let at = crate::store::files::keyed_at(after, fact.claim.key_spec(), 0);
            0 <= at < after.len() && after[at].fact == fact
        }),
{
    law_writing_keeps_the_other_facts(files, fact);
    let kept = others(files, fact);
    let key = fact.claim.key_spec();
    assert forall|i: int| 0 <= i < after.len() implies at_path(after, (#[trigger] after[i]).path, 0)
        == i && held(after).contains_key(after[i].path) && held(after)[after[i].path]
        == after[i].fact by {
        lemma_at_path(after, after[i].path, 0);
    }
    assert forall|i: int, j: int| 0 <= i < j < after.len() implies (#[trigger] after[i]).fact.id.0@
        != (#[trigger] after[j]).fact.id.0@ by {
        assert(after[i].path != after[j].path);
        assert(held(after).contains_key(after[i].path));
        assert(held(after).contains_key(after[j].path));
    }
    lemma_no_repeat(after, 0);
    assert(held(after).contains_key(home(fact)));
    let at = at_path(after, home(fact), 0);
    lemma_at_path(after, home(fact), 0);
    assert(after[at].fact == fact);
    assert forall|i: int| 0 <= i < after.len() implies crate::store::files::is_settled(
        (#[trigger] after[i]).fact,
    ) by {
        assert(held(after).contains_key(after[i].path));
        if after[i].fact != fact {
            let k = choose|k: int| 0 <= k < kept.len() && (#[trigger] kept[k]).fact == after[i].fact;
            assert(0 <= k < kept.len() && kept[k].fact == after[i].fact);
            lemma_filter_within(files, holds_other(fact.id.0@), k);
        }
    }
    lemma_first_with_key(after, fact, at, 0);
}

/// Where all identities differ, no file repeats a fact.
proof fn lemma_no_repeat(files: Seq<crate::store::files::Filed>, from: int)
    requires
        0 <= from <= files.len(),
        ids_differ(files),
    ensures
        crate::store::files::first_repeat(files, from) >= files.len(),
    decreases files.len() - from,
{
    if from < files.len() {
        lemma_no_repeat(files, from + 1);
    }
}

/// Where all facts are settled and differ, the only file with a fact's key holds the
/// fact.
proof fn lemma_first_with_key(
    files: Seq<crate::store::files::Filed>,
    fact: Fact,
    at: int,
    from: int,
)
    requires
        0 <= from <= at < files.len(),
        files[at].fact == fact,
        ids_differ(files),
        all_settled(files),
    ensures
        crate::store::files::keyed_at(files, fact.claim.key_spec(), from) == at,
    decreases at - from,
{
    assert(crate::store::files::is_settled(files[from].fact));
    assert(crate::store::files::is_settled(files[at].fact));
    if from < at {
        assert(files[from].fact.id.0@ != files[at].fact.id.0@);
        lemma_first_with_key(files, fact, at, from + 1);
    }
}

/// What passes a test is among what was tested.
proof fn lemma_filter_within(
    files: Seq<crate::store::files::Filed>,
    keep: spec_fn(crate::store::files::Filed) -> bool,
    k: int,
)
    requires
        0 <= k < files.filter(keep).len(),
    ensures
        exists|i: int| 0 <= i < files.len() && #[trigger] files[i] == files.filter(keep)[k],
    decreases files.len(),
{
    reveal(Seq::filter);
    if files.len() > 0 {
        let front = files.drop_last();
        if k < front.filter(keep).len() {
            lemma_filter_within(front, keep, k);
            let i = choose|i: int|
                0 <= i < front.len() && #[trigger] front[i] == front.filter(keep)[k];
            assert(files[i] == files.filter(keep)[k]);
        } else {
            assert(files[files.len() - 1] == files.filter(keep)[k]);
        }
    }
}

/// Where only one element fails a test, the elements that pass are the rest.
proof fn lemma_filter_removed(files: Seq<crate::store::files::Filed>, keep: spec_fn(crate::store::files::Filed) -> bool, at: int)
    requires
        0 <= at < files.len(),
        !keep(files[at]),
        forall|i: int| 0 <= i < files.len() && i != at ==> keep(#[trigger] files[i]),
    ensures
        files.filter(keep) == files.remove(at),
    decreases files.len(),
{
    reveal(Seq::filter);
    let front = files.drop_last();
    if at == files.len() - 1 {
        lemma_filter_all(front, keep);
        assert(files.remove(at) =~= front);
    } else {
        lemma_filter_removed(front, keep, at);
        assert(files.remove(at) =~= front.remove(at).push(files.last()));
    }
}

/// Where every element passes a test, they all do.
proof fn lemma_filter_all(files: Seq<crate::store::files::Filed>, keep: spec_fn(crate::store::files::Filed) -> bool)
    requires
        forall|i: int| 0 <= i < files.len() ==> keep(#[trigger] files[i]),
    ensures
        files.filter(keep) == files,
    decreases files.len(),
{
    reveal(Seq::filter);
    if files.len() > 0 {
        lemma_filter_all(files.drop_last(), keep);
        assert(files.drop_last().push(files.last()) =~= files);
    }
}

} // verus!
