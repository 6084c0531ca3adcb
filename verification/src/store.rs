//! Fact files and operation history.
//! A fact is a file at `facts/<entity>/<relation>.json`, so the store greps and
//! diffs like code.
//! Every write lands as one tagged record in an append-only op log
//! (`ops.jsonl`): the log is the audit, the fact files are the working state,
//! and `undo` replays a record's saved bytes in reverse.
//!
//! Files are read and written by the caller; what they come to mean, and what
//! they are to become, is decided here.

use crate::config::Config;
use crate::error::Error;
use crate::generator::GeneratorRegistry;
use crate::schema::Fact;
use crate::store::files::FactFile;
use crate::store::history::OpRecord;
use crate::store::placement::FactWrite;
use crate::text::{copy_option, same};
use crate::transaction::Change;
use vstd::prelude::*;

pub mod apply;
pub mod files;
pub mod history;
pub mod placement;

verus! {

// ---------------------------------------------------------------------------
// Staging
// ---------------------------------------------------------------------------

/// Where a path is among staged changes; their number where it is not staged.
pub open spec fn staged_at(changes: Seq<crate::transaction::FileChange>, path: Seq<char>) -> int
    decreases changes.len(),
{
    if changes.len() == 0 || changes[0].path == path {
        0
    } else {
        1 + staged_at(changes.skip(1), path)
    }
}

/// Whether no path is staged twice.
pub open spec fn staged_once(changes: Seq<crate::transaction::FileChange>) -> bool {
    forall|i: int, j: int|
        0 <= i < j < changes.len() ==> (#[trigger] changes[i]).path != (#[trigger] changes[j]).path
}

/// Where a path is staged, and that it is staged nowhere before.
pub proof fn lemma_staged_at(changes: Seq<crate::transaction::FileChange>, path: Seq<char>)
    ensures
        0 <= staged_at(changes, path) <= changes.len(),
        staged_at(changes, path) < changes.len() ==> changes[staged_at(changes, path)].path == path,
        forall|i: int|
            0 <= i < staged_at(changes, path) ==> (#[trigger] changes[i]).path != path,
    decreases changes.len(),
{
    if changes.len() > 0 && changes[0].path != path {
        let t = changes.skip(1);
        lemma_staged_at(t, path);
        assert forall|i: int| 0 <= i < staged_at(changes, path) implies (
        #[trigger] changes[i]).path != path by {
            if i > 0 {
                assert(t[i - 1] == changes[i]);
            }
        }
        if staged_at(changes, path) < changes.len() {
            assert(t[staged_at(t, path)] == changes[staged_at(changes, path)]);
        }
    }
}

proof fn lemma_staged_at_is(
    changes: Seq<crate::transaction::FileChange>,
    path: Seq<char>,
    n: int,
)
    requires
        0 <= n <= changes.len(),
        n < changes.len() ==> changes[n].path == path,
        forall|i: int| 0 <= i < n ==> (#[trigger] changes[i]).path != path,
    ensures
        staged_at(changes, path) == n,
{
    lemma_staged_at(changes, path);
    let k = staged_at(changes, path);
    if k < n {
        assert(changes[k].path != path);
    } else if n < k {
        assert(changes[n].path != path);
    }
}

/// What is staged for a path: a text, or that the file goes; `None` where the
/// path is not staged.
pub open spec fn staged_text(
    changes: Seq<crate::transaction::FileChange>,
    path: Seq<char>,
) -> Option<Option<Seq<char>>> {
    let n = staged_at(changes, path);
    if n < changes.len() {
        Some(changes[n].after)
    } else {
        None
    }
}

/// The changes once a file is staged. What the file held before is what it held
/// when it was staged first.
pub open spec fn with_staged(
    changes: Seq<crate::transaction::FileChange>,
    path: Seq<char>,
    on_disk: Option<Seq<char>>,
    after: Option<Seq<char>>,
) -> Seq<crate::transaction::FileChange> {
    let n = staged_at(changes, path);
    if n < changes.len() {
        changes.update(n, crate::transaction::FileChange { after, ..changes[n] })
    } else {
        changes.push(crate::transaction::FileChange { path, before: on_disk, after })
    }
}

/// Changes accumulated by the in-flight op, drained when it is committed. No
/// path is staged twice.
#[derive(Debug)]
pub struct Pending {
    changes: Vec<Change>,
}

impl View for Pending {
    type V = Seq<crate::transaction::FileChange>;

    closed spec fn view(&self) -> Seq<crate::transaction::FileChange> {
        crate::transaction::change_views(self.changes@)
    }
}

impl Pending {
    #[verifier::type_invariant]
    spec fn inv(self) -> bool {
        staged_once(crate::transaction::change_views(self.changes@))
    }

    /// Nothing staged.
    pub fn new() -> (r: Pending)
        ensures
            r@.len() == 0,
    {
        Pending { changes: Vec::new() }
    }

    fn position(&self, path: &str) -> (r: usize)
        ensures
            r == staged_at(self@, path@),
            r <= self.changes@.len(),
    {
        let mut i: usize = 0;
        while i < self.changes.len() && !same(self.changes[i].path.as_str(), path)
            invariant
                i <= self.changes.len(),
                self@ == crate::transaction::change_views(self.changes@),
                forall|k: int| 0 <= k < i ==> (#[trigger] self@[k]).path != path@,
            decreases self.changes.len() - i,
        {
            assert(self@[i as int] == self.changes@[i as int]@);
            i = i + 1;
        }
        proof {
            if i < self.changes.len() {
                assert(self@[i as int] == self.changes@[i as int]@);
            }
            lemma_staged_at_is(self@, path@, i as int);
        }
        i
    }

    /// What is staged for a path: a text, or that the file goes; `None` where
    /// the path is not staged, and the disk decides.
    pub fn read_text(&self, path: &str) -> (r: Option<Option<String>>)
        ensures
            match staged_text(self@, path@) {
                Some(text) => r matches Some(t) && crate::text::option_text(t) == text,
                None => r is None,
            },
    {
        let i = self.position(path);
        if i < self.changes.len() {
            assert(self@[i as int] == self.changes@[i as int]@);
            Some(copy_option(&self.changes[i].after))
        } else {
            None
        }
    }

    /// Stages a file: what it is to hold, or that it goes. `on_disk` is what it
    /// holds now; it counts where the file was not staged yet.
    pub fn stage_file(&mut self, path: &str, on_disk: Option<String>, after: Option<String>)
        ensures
            final(self)@ == with_staged(
                old(self)@,
                path@,
                crate::text::option_text(on_disk),
                crate::text::option_text(after),
            ),
            staged_text(final(self)@, path@) == Some(crate::text::option_text(after)),
            forall|other: Seq<char>|
                other != path@ ==> #[trigger] staged_text(final(self)@, other) == staged_text(
                    old(self)@,
                    other,
                ),
    {
        proof {
            use_type_invariant(&*self);
        }
        let i = self.position(path);
        let ghost before = self@;
        let ghost text = crate::text::option_text(after);
        let ghost next = with_staged(
            before,
            path@,
            crate::text::option_text(on_disk),
            text,
        );
        proof {
            lemma_staging(before, path@, crate::text::option_text(on_disk), text);
            lemma_staged_at(before, path@);
        }
        let mut changes: Vec<Change> = Vec::new();
        std::mem::swap(&mut changes, &mut self.changes);
        if i < changes.len() {
            let mut change = changes.remove(i);
            assert(before[i as int] == change@);
            change.after = after;
            let ghost view = change@;
            changes.insert(i, change);
            assert(crate::transaction::change_views(changes@) =~= before.update(i as int, view));
        } else {
            let change = Change { path: path.to_owned(), before: on_disk, after };
            let ghost view = change@;
            changes.push(change);
            assert(crate::transaction::change_views(changes@) =~= before.push(view));
        }
        assert(crate::transaction::change_views(changes@) == next);
        self.changes = changes;
    }

    /// The staged changes.
    pub fn changes(&self) -> (r: &Vec<Change>)
        ensures
            crate::transaction::change_views(r@) == self@,
            staged_once(self@),
    {
        proof {
            use_type_invariant(self);
        }
        &self.changes
    }

    /// Hands the staged changes over; nothing stays staged.
    pub fn take(&mut self) -> (r: Vec<Change>)
        ensures
            crate::transaction::change_views(r@) == old(self)@,
            staged_once(old(self)@),
            final(self)@.len() == 0,
    {
        proof {
            use_type_invariant(&*self);
        }
        let mut changes: Vec<Change> = Vec::new();
        std::mem::swap(&mut changes, &mut self.changes);
        changes
    }

    /// Drops the staged changes.
    pub fn discard_pending(&mut self)
        ensures
            final(self)@.len() == 0,
    {
        let mut changes: Vec<Change> = Vec::new();
        std::mem::swap(&mut changes, &mut self.changes);
    }
}

/// Staging a file keeps every path staged once, and changes what is staged for
/// that path alone.
pub proof fn lemma_staging(
    changes: Seq<crate::transaction::FileChange>,
    path: Seq<char>,
    on_disk: Option<Seq<char>>,
    after: Option<Seq<char>>,
)
    requires
        staged_once(changes),
    ensures
        staged_once(with_staged(changes, path, on_disk, after)),
        staged_text(with_staged(changes, path, on_disk, after), path) == Some(after),
        forall|other: Seq<char>|
            other != path ==> #[trigger] staged_text(
                with_staged(changes, path, on_disk, after),
                other,
            ) == staged_text(changes, other),
{
    let next = with_staged(changes, path, on_disk, after);
    let n = staged_at(changes, path);
    lemma_staged_at(changes, path);
    assert forall|i: int, j: int| 0 <= i < j < next.len() implies (#[trigger] next[i]).path != (
    #[trigger] next[j]).path by {
        if n < changes.len() {
            assert(next[i].path == changes[i].path);
            assert(next[j].path == changes[j].path);
        } else if j < changes.len() {
            assert(next[i] == changes[i] && next[j] == changes[j]);
        } else {
            assert(next[i] == changes[i]);
        }
    }
    assert forall|i: int| 0 <= i < n implies (#[trigger] next[i]).path != path by {
        assert(next[i] == changes[i]);
    }
    lemma_staged_at_is(next, path, n);
    assert forall|other: Seq<char>| other != path implies #[trigger] staged_text(next, other)
        == staged_text(changes, other) by {
        lemma_staged_at(changes, other);
        let k = staged_at(changes, other);
        assert forall|i: int| 0 <= i < k implies (#[trigger] next[i]).path != other by {
            assert(changes[i].path != other);
        }
        if k < changes.len() {
            assert(next[k] == changes[k]);
            lemma_staged_at_is(next, other, k);
        } else {
            assert forall|i: int| 0 <= i < next.len() implies (#[trigger] next[i]).path != other by {
                if i < changes.len() {
                    assert(changes[i].path != other);
                }
            }
            lemma_staged_at_is(next, other, next.len() as int);
        }
    }
}

// ---------------------------------------------------------------------------
// The store
// ---------------------------------------------------------------------------

/// A store: where it is, how it is configured, and what its in-flight op stages.
#[derive(Debug)]
pub struct JishukenStore {
    pub root: String,
    pub config: Config,
    /// Changes accumulated by the in-flight op, drained when it is committed.
    pub pending: Pending,
}

impl JishukenStore {
    /// Discovers the store by walking up for a `.ken/` directory, the way `git`
    /// finds `.git/`. `found` says of each directory, from the start upwards,
    /// whether it holds one; the nearest wins.
    pub fn discover(found: &Vec<bool>) -> (r: Result<usize, Error>)
        ensures
            match r {
                Ok(i) => i < found@.len() && found@[i as int] && forall|k: int|
                    0 <= k < i ==> !(#[trigger] found@[k]),
                Err(error) => error is StoreNotFound && forall|k: int|
                    0 <= k < found@.len() ==> !(#[trigger] found@[k]),
            },
    {
        let mut i: usize = 0;
        while i < found.len()
            invariant
                i <= found.len(),
                forall|k: int| 0 <= k < i ==> !(#[trigger] found@[k]),
            decreases found.len() - i,
        {
            if found[i] {
                return Ok(i);
            }
            i = i + 1;
        }
        Err(Error::StoreNotFound)
    }

    /// Opens an existing `.ken/` store at `root`. A directory without a
    /// configuration is no store.
    pub fn open(root: String, config: Option<Config>) -> (r: Result<JishukenStore, Error>)
        ensures
            match config {
                Some(config) => r matches Ok(store) && store.root == root && store.config == config
                    && store.pending@.len() == 0,
                None => r matches Err(Error::StoreNotFound),
            },
    {
        match config {
            Some(config) => Ok(JishukenStore { root, config, pending: Pending::new() }),
            None => Err(Error::StoreNotFound),
        }
    }

    pub fn root(&self) -> (r: &str)
        ensures
            r@ == self.root@,
    {
        self.root.as_str()
    }

    pub fn config(&self) -> (r: &Config)
        ensures
            *r == self.config,
    {
        &self.config
    }

    /// Where generators are kept.
    pub fn registry(&self) -> (r: GeneratorRegistry)
        ensures
            r.root@ == self.root@,
    {
        GeneratorRegistry::new(self.root.as_str())
    }

    /// Stages a fact for the next commit: the files to write. Where that fails,
    /// nothing stays staged.
    pub fn put_fact(&mut self, files: Vec<FactFile>, fact: Fact) -> (r: Result<
        Vec<FactWrite>,
        Error,
    >)
        ensures
            exists|kept: Fact| #[trigger]
                files::is_normalized(kept, fact) && files::is_settled(kept)
                    && placement::is_outcome(r, placement::placing(files::filed(files@), kept)),
            r is Ok ==> final(self).pending@ == old(self).pending@,
            r is Err ==> final(self).pending@.len() == 0,
            final(self).root == old(self).root,
            final(self).config == old(self).config,
    {
        let result = JishukenStore::write_fact(files, fact);
        if result.is_err() {
            self.pending.discard_pending();
        }
        result
    }

    /// Lands what is staged as one tagged operation: the record of it. Nothing stays
    /// staged.
    pub fn control_commit(
        &mut self,
        records: &Vec<OpRecord>,
        tag: &str,
        detail: &str,
        time: &str,
    ) -> (r: OpRecord)
        ensures
            r.id@ == history::op_id(history::last_id(records@), tag@, detail@, time@),
            r.time@ == time@,
            r.tag@ == tag@,
            r.detail@ == detail@,
            crate::transaction::change_views(r.changes@) == old(self).pending@,
            staged_once(old(self).pending@),
            final(self).pending@.len() == 0,
            final(self).root == old(self).root,
            final(self).config == old(self).config,
    {
        let changes = self.pending.take();
        JishukenStore::append_op(records, tag, detail, time, changes)
    }
}

} // verus!
