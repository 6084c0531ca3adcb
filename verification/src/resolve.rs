//! Read a ground binding's source to a hashed span. The source produces bytes
//! (a file read, an allowlisted command's stdout, or a sandboxed generator's
//! stdout); the locator projects to a span; the span is hashed for the replay
//! binding. A pure predicate (judging) happens later, in the engine.
//!
//! Reading itself is the caller's: what to read is planned here, and what came
//! back is judged here.

use crate::config::{Config, RootPath, Vcs};
use crate::digest::hash_text;
use crate::error::Error;
use crate::generator::{load_handler, GeneratorRun, GeneratorSrc, RunPlan, Sandbox};
use crate::schema::{
    Capabilities, GeneratorRef, GroundSource, HandlerRef, HandlerSource, Locator, SourceRef,
    SourceRoot,
};
use crate::text::{chars_of, contains_text, copy_option, decimal_text, join, same, string_of};
use crate::text::{to_small_text, trimmed, trimmed_start};
use vstd::prelude::*;

verus! {

// ---------------------------------------------------------------------------
// Spans
// ---------------------------------------------------------------------------

/// The lines of a text. A line ends with a line feed, or with a carriage return
/// and a line feed; the last line may go without.
pub open spec fn lines(s: Seq<char>) -> Seq<Seq<char>>
    decreases s.len(),
{
    let n = crate::text::first_at(s, '\n');
    if s.len() == 0 {
        Seq::empty()
    } else if n >= s.len() {
        seq![s]
    } else {
        proof {
            crate::text::lemma_first_at(s, '\n');
        }
        seq![without_return(s.take(n))] + lines(s.skip(n + 1))
    }
}

/// A line without the carriage return at its end.
pub open spec fn without_return(line: Seq<char>) -> Seq<char> {
    if line.len() > 0 && line.last() == '\r' {
        line.drop_last()
    } else {
        line
    }
}

/// The lines of a text.
pub fn lines_of(content: &str) -> (r: Vec<String>)
    ensures
        crate::text::texts(r@) == lines(content@),
{
    let v = chars_of(content);
    let mut out: Vec<String> = Vec::new();
    let mut at: usize = 0;
    assert(v@.skip(0) =~= v@);
    assert(crate::text::texts(out@) + lines(v@) =~= lines(content@));
    while at < v.len()
        invariant
            at <= v.len(),
            v@ == content@,
            crate::text::texts(out@) + lines(v@.skip(at as int)) == lines(content@),
        decreases v.len() - at,
    {
        let ghost rest = v@.skip(at as int);
        let ghost before = crate::text::texts(out@);
        let mut end: usize = at;
        while end < v.len() && v[end] != '\n'
            invariant
                at <= end <= v.len(),
                rest == v@.skip(at as int),
                forall|k: int| 0 <= k < end - at ==> #[trigger] rest[k] != '\n',
            decreases v.len() - end,
        {
            assert(rest[end - at] == v@[end as int]);
            end = end + 1;
        }
        proof {
            if end < v.len() {
                assert(rest[end - at] == v@[end as int]);
            }
            crate::text::lemma_first_at_is(rest, '\n', end - at);
        }
        if end == v.len() {
            assert(v@.subrange(at as int, end as int) =~= rest);
            out.push(string_of(&v, at, end));
            assert(crate::text::texts(out@) =~= before + seq![rest]);
            assert(lines(v@.skip(end as int)) =~= Seq::<Seq<char>>::empty());
            assert(crate::text::texts(out@) + lines(v@.skip(end as int)) =~= before + lines(rest));
            at = end;
        } else {
            let stop: usize = if end > at && v[end - 1] == '\r' {
                end - 1
            } else {
                end
            };
            let ghost line = without_return(rest.take(end - at));
            proof {
                if end > at {
                    assert(rest.take(end - at).last() == v@[end - 1]);
                }
                assert(v@.subrange(at as int, stop as int) =~= line);
            }
            out.push(string_of(&v, at, stop));
            assert(crate::text::texts(out@) =~= before.push(line));
            assert(rest.skip(end - at + 1) =~= v@.skip(end + 1));
            assert(crate::text::texts(out@) + lines(v@.skip(end + 1)) =~= before + (seq![line]
                + lines(v@.skip(end + 1))));
            at = end + 1;
        }
    }
    assert(lines(v@.skip(at as int)) =~= Seq::<Seq<char>>::empty());
    assert(crate::text::texts(out@) + Seq::<Seq<char>>::empty() =~= crate::text::texts(out@));
    out
}

/// Some of the lines, as one text.
pub open spec fn line_text(all: Seq<Seq<char>>, from: int, to: int) -> Seq<char> {
    crate::text::joined(all.subrange(from, to), "\n"@)
}

fn join_lines(all: &Vec<String>, from: usize, to: usize) -> (r: String)
    requires
        from <= to <= all.len(),
    ensures
        r@ == line_text(crate::text::texts(all@), from as int, to as int),
{
    let mut part: Vec<String> = Vec::new();
    let mut i: usize = from;
    while i < to
        invariant
            from <= i <= to <= all.len(),
            part@ == all@.subrange(from as int, i as int),
        decreases to - i,
    {
        part.push(all[i].clone());
        i = i + 1;
        assert(all@.subrange(from as int, i as int) =~= all@.subrange(from as int, i - 1).push(
            all@[i - 1],
        ));
    }
    assert(crate::text::texts(part@) =~= crate::text::texts(all@).subrange(from as int, to as int));
    join(&part, "\n")
}

/// The lines from `start` to `end`, counted from 1; `None` where the first of
/// them does not exist.
pub open spec fn range_spec(content: Seq<char>, start: int, end: int) -> Option<Seq<char>> {
    let all = lines(content);
    if start == 0 || start > all.len() {
        None
    } else {
        Some(line_text(all, start - 1, if end <= all.len() { end } else { all.len() as int }))
    }
}

/// Whether a range of lines does not end before the line in front of it.
pub open spec fn range_is_sound(content: Seq<char>, start: int, end: int) -> bool {
    1 <= start <= lines(content).len() ==> start - 1 <= end
}

/// The lines from `start` to `end`, counted from 1.
pub fn line_range(content: &str, start: usize, end: usize) -> (r: Option<String>)
    requires
        range_is_sound(content@, start as int, end as int),
    ensures
        crate::text::option_text(r) == range_spec(content@, start as int, end as int),
{
    let all = lines_of(content);
    assert(lines(content@).len() == all@.len());
    if start == 0 || start > all.len() {
        return None;
    }
    let end: usize = if end < all.len() {
        end
    } else {
        all.len()
    };
    Some(join_lines(&all, start - 1, end))
}

/// How many `#` a text starts with.
pub open spec fn hash_run(s: Seq<char>) -> nat
    decreases s.len(),
{
    if s.len() > 0 && s[0] == '#' {
        1 + hash_run(s.skip(1))
    } else {
        0
    }
}

/// The level and the text of a Markdown heading; `None` for any other line.
pub open spec fn heading_spec(line: Seq<char>) -> Option<(nat, Seq<char>)> {
    let s = crate::text::trim_start(line);
    let level = hash_run(s);
    let text = crate::text::trim(s.skip(level as int));
    if level == 0 || text.len() == 0 {
        None
    } else {
        Some((level, text))
    }
}

/// The level and the text of a Markdown heading.
pub fn parse_heading(line: &str) -> (r: Option<(usize, String)>)
    ensures
        match heading_spec(line@) {
            Some((level, text)) => r matches Some((l, t)) && l == level && t@ == text,
            None => r is None,
        },
{
    let s = trimmed_start(line);
    let v = chars_of(s.as_str());
    let mut i: usize = 0;
    assert(v@.skip(0) =~= v@);
    while i < v.len() && v[i] == '#'
        invariant
            i <= v.len(),
            v@ == s@,
            i + hash_run(v@.skip(i as int)) == hash_run(s@),
        decreases v.len() - i,
    {
        assert(v@.skip(i as int).skip(1) =~= v@.skip(i + 1));
        i = i + 1;
    }
    if i == 0 {
        return None;
    }
    assert(v@.subrange(i as int, v@.len() as int) =~= s@.skip(i as int));
    let text = trimmed(string_of(&v, i, v.len()).as_str());
    if text.as_str().is_empty() {
        return None;
    }
    Some((i, text))
}

/// The first line from `from` on that is a heading with the wanted text; the
/// number of lines where there is none.
pub open spec fn section_start(all: Seq<Seq<char>>, want: Seq<char>, from: int) -> int
    decreases all.len() - from,
{
    if from >= all.len() {
        all.len() as int
    } else if heading_spec(all[from]) matches Some((_, text)) && crate::text::small_text(text)
        == want {
        from
    } else {
        section_start(all, want, from + 1)
    }
}

/// The first line from `from` on that is a heading of the level or above; the
/// number of lines where there is none.
pub open spec fn section_end(all: Seq<Seq<char>>, level: nat, from: int) -> int
    decreases all.len() - from,
{
    if from >= all.len() {
        all.len() as int
    } else if heading_spec(all[from]) matches Some((l, _)) && l <= level {
        from
    } else {
        section_end(all, level, from + 1)
    }
}

/// The section under a heading.
pub open spec fn section_spec(content: Seq<char>, heading: Seq<char>) -> Option<Seq<char>> {
    let all = lines(content);
    let start = section_start(all, crate::text::small_text(crate::text::trim(heading)), 0);
    if start >= all.len() {
        None
    } else {
        let level = heading_spec(all[start]).unwrap().0;
        Some(line_text(all, start, section_end(all, level, start + 1)))
    }
}

proof fn lemma_section_start(all: Seq<Seq<char>>, want: Seq<char>, from: int)
    requires
        0 <= from <= all.len(),
    ensures
        from <= section_start(all, want, from) <= all.len(),
        section_start(all, want, from) < all.len() ==> heading_spec(
            all[section_start(all, want, from)],
        ) is Some,
    decreases all.len() - from,
{
    if from < all.len() {
        lemma_section_start(all, want, from + 1);
    }
}

proof fn lemma_section_end(all: Seq<Seq<char>>, level: nat, from: int)
    requires
        0 <= from <= all.len(),
    ensures
        from <= section_end(all, level, from) <= all.len(),
        forall|k: int|
            from <= k < section_end(all, level, from) ==> (heading_spec(#[trigger] all[k]) matches
                Some((l, _)) ==> l > level),
        section_end(all, level, from) < all.len() ==> (heading_spec(
            all[section_end(all, level, from)],
        ) matches Some((l, _)) && l <= level),
    decreases all.len() - from,
{
    if from < all.len() {
        lemma_section_end(all, level, from + 1);
    }
}

/// A section is its heading's line and all that follows up to the next heading
/// of the same or a higher level.
pub proof fn law_section_stops_at_its_level(content: Seq<char>, heading: Seq<char>)
    requires
        section_spec(content, heading) is Some,
    ensures
        exists|start: int, end: int|
            {
                let all = lines(content);
                &&& 0 <= start < end <= all.len()
                &&& section_spec(content, heading) == Some(
                    #[trigger] line_text(lines(content), start, end),
                )
                &&& heading_spec(all[start]) matches Some((level, text))
                &&& crate::text::small_text(text) == crate::text::small_text(
                    crate::text::trim(heading),
                )
                &&& forall|k: int|
                    start < k < end ==> (heading_spec(#[trigger] all[k]) matches Some((l, _)) ==> l
                        > level)
                &&& end < all.len() ==> (heading_spec(all[end]) matches Some((l, _)) && l <= level)
            },
{
    let all = lines(content);
    let want = crate::text::small_text(crate::text::trim(heading));
    let start = section_start(all, want, 0);
    lemma_section_start(all, want, 0);
    lemma_section_found(all, want, 0);
    let level = heading_spec(all[start]).unwrap().0;
    let end = section_end(all, level, start + 1);
    lemma_section_end(all, level, start + 1);
    assert(section_spec(content, heading) == Some(line_text(all, start, end)));
}

proof fn lemma_section_found(all: Seq<Seq<char>>, want: Seq<char>, from: int)
    requires
        0 <= from <= all.len(),
        section_start(all, want, from) < all.len(),
    ensures
        heading_spec(all[section_start(all, want, from)]) matches Some((_, text))
            && crate::text::small_text(text) == want,
    decreases all.len() - from,
{
    if from < all.len() && !(heading_spec(all[from]) matches Some((_, text))
        && crate::text::small_text(text) == want) {
        lemma_section_found(all, want, from + 1);
    }
}

/// Extracts a Markdown section: the heading line plus everything up to the next
/// heading of the same or higher level (case-insensitive on the trimmed text).
pub fn markdown_section(content: &str, heading: &str) -> (r: Option<String>)
    ensures
        crate::text::option_text(r) == section_spec(content@, heading@),
{
    let want = to_small_text(trimmed(heading).as_str());
    let all = lines_of(content);
    let ghost ls = lines(content@);
    assert(ls.len() == all@.len());
    let mut start: usize = 0;
    let mut level: usize = 0;
    let mut found = false;
    while start < all.len() && !found
        invariant
            start <= all.len(),
            ls == crate::text::texts(all@),
            !found ==> section_start(ls, want@, 0) == section_start(ls, want@, start as int),
            found ==> start < all.len() && section_start(ls, want@, 0) == start && (heading_spec(
                ls[start as int],
            ) matches Some((l, _)) && l == level),
        decreases all.len() - start, if found { 0int } else { 1 },
    {
        assert(ls[start as int] == all@[start as int]@);
        match parse_heading(all[start].as_str()) {
            Some((l, text)) => {
                if same(to_small_text(text.as_str()).as_str(), want.as_str()) {
                    level = l;
                    found = true;
                } else {
                    start = start + 1;
                }
            },
            None => {
                start = start + 1;
            },
        }
    }
    if !found {
        return None;
    }
    let mut end: usize = start + 1;
    let mut stopped = false;
    while end < all.len() && !stopped
        invariant
            start < end <= all.len(),
            ls == crate::text::texts(all@),
            !stopped ==> section_end(ls, level as nat, start + 1) == section_end(
                ls,
                level as nat,
                end as int,
            ),
            stopped ==> section_end(ls, level as nat, start + 1) == end,
        decreases all.len() - end, if stopped { 0int } else { 1 },
    {
        assert(ls[end as int] == all@[end as int]@);
        match parse_heading(all[end].as_str()) {
            Some((l, _text)) => {
                if l <= level {
                    stopped = true;
                } else {
                    end = end + 1;
                }
            },
            None => {
                end = end + 1;
            },
        }
    }
    Some(join_lines(&all, start, end))
}

/// What a locator picks out of a content: a span, nothing where it does not
/// resolve, or why it is not supported.
pub open spec fn located(locator: Locator, content: Seq<char>) -> Result<
    Option<Seq<char>>,
    Seq<char>,
> {
    match locator {
        Locator::Whole => Ok(Some(content)),
        Locator::LineRange { start, end } => Ok(range_spec(content, start as int, end as int)),
        Locator::Quote { needle } => Ok(
            if crate::text::holds_text(content, needle@) {
                Some(needle@)
            } else {
                None
            },
        ),
        Locator::Heading { heading } => Ok(section_spec(content, heading@)),
        Locator::TreeSitter { lang, .. } => Err(
            "tree-sitter ("@ + lang@
                + ") deferred; use a heading, quote, or line-range locator for now"@,
        ),
    }
}

/// Whether a locator can be projected over a content.
pub open spec fn locator_is_sound(locator: Locator, content: Seq<char>) -> bool {
    locator matches Locator::LineRange { start, end } ==> range_is_sound(
        content,
        start as int,
        end as int,
    )
}

/// Projects a locator over content. `Ok(None)` = does not resolve;
/// `Err(msg)` = unsupported locator (tree-sitter).
pub fn resolve_locator(locator: &Locator, content: &str) -> (r: Result<Option<String>, String>)
    requires
        locator_is_sound(*locator, content@),
    ensures
        match located(*locator, content@) {
            Ok(span) => r matches Ok(s) && crate::text::option_text(s) == span,
            Err(fault) => r matches Err(e) && e@ == fault,
        },
{
    match locator {
        Locator::Whole => Ok(Some(content.to_owned())),
        Locator::LineRange { start, end } => Ok(line_range(content, *start, *end)),
        Locator::Quote { needle } => {
            if contains_text(content, needle.as_str()) {
                Ok(Some(needle.clone()))
            } else {
                Ok(None)
            }
        },
        Locator::Heading { heading } => Ok(markdown_section(content, heading.as_str())),
        Locator::TreeSitter { lang, query: _ } => Err(
            "tree-sitter (".to_owned().concat(lang.as_str()).concat(
                ") deferred; use a heading, quote, or line-range locator for now",
            ),
        ),
    }
}

/// A resolved span: the revision it was read at, the span's content hash, and
/// the span text.
#[derive(Debug, Clone, PartialEq, Eq)]
pub struct ResolvedSpan {
    pub rev: String,
    pub span_hash: String,
    pub text: String,
}

/// The result of reading a source + projecting its locator.
#[derive(Debug, PartialEq, Eq)]
pub enum ReadResult {
    /// A span was read (judge it with the predicate).
    Resolved(ResolvedSpan),
    /// The locator no longer resolves: an existence failure (-> `Refuted`).
    Unresolved,
    /// A transient read failure on a non-deterministic channel (-> `Inconclusive`).
    Transient,
    /// The source could not be read in a trustworthy way (-> `Errored`).
    Errored(String),
}

/// Why a source could not be read.
#[derive(Debug, PartialEq, Eq)]
pub enum ReadFail {
    Transient,
    Errored(String),
}

/// A read that failed for good, with a given text.
pub open spec fn is_errored<T>(r: Result<T, ReadFail>, text: Seq<char>) -> bool {
    r matches Err(ReadFail::Errored(s)) && s@ == text
}

/// Whether a read gave a content and the revision to record for it.
pub open spec fn is_read(
    r: Result<(String, String), ReadFail>,
    content: Seq<char>,
    rev: Seq<char>,
) -> bool {
    r matches Ok((c, v)) && c@ == content && v@ == rev
}

/// Whether a result is what a read and a locator come to.
pub open spec fn is_reading(
    r: ReadResult,
    locator: Locator,
    read: Result<(String, String), ReadFail>,
) -> bool {
    match read {
        Err(ReadFail::Transient) => r is Transient,
        Err(ReadFail::Errored(text)) => r matches ReadResult::Errored(t) && t@ == text@,
        Ok((content, rev)) => match located(locator, content@) {
            Err(fault) => r matches ReadResult::Errored(t) && t@ == fault,
            Ok(None) => r is Unresolved,
            Ok(Some(text)) => {
                &&& r matches ReadResult::Resolved(span)
                &&& span.rev@ == rev@
                &&& span.text@ == text
                &&& span.span_hash@ == crate::digest::text_hash(text)
            },
        },
    }
}

/// Projects a binding's locator over what its source gave, and hashes the span.
pub fn read_binding(locator: &Locator, read: Result<(String, String), ReadFail>) -> (r: ReadResult)
    requires
        read matches Ok((content, _)) ==> locator_is_sound(*locator, content@),
    ensures
        is_reading(r, *locator, read),
{
    let (content, rev) = match read {
        Ok(pair) => pair,
        Err(ReadFail::Transient) => {
            return ReadResult::Transient;
        },
        Err(ReadFail::Errored(text)) => {
            return ReadResult::Errored(text);
        },
    };
    match resolve_locator(locator, content.as_str()) {
        Err(unsupported) => ReadResult::Errored(unsupported),
        Ok(None) => ReadResult::Unresolved,
        Ok(Some(text)) => {
            let span_hash = hash_text(text.as_str());
            ReadResult::Resolved(ResolvedSpan { rev, span_hash, text })
        },
    }
}

// ---------------------------------------------------------------------------
// Mounts
// ---------------------------------------------------------------------------

/// The handler module that a root is mounted with; `None` where it is a plain place.
pub open spec fn module_of(config: Config, root: crate::locator::Root) -> Option<Seq<char>> {
    match root {
        crate::locator::Root::Named(scheme) => match config.handler_spec(scheme) {
            Some((path, _)) => Some(path),
            None => None,
        },
        _ => None,
    }
}

/// The handler module to read before a ground source can be made of a
/// reference; `None` where the reference is a plain file.
pub fn handler_module(config: &Config, src: &SourceRef) -> (r: Option<String>)
    ensures
        crate::text::option_text(r) == module_of(*config, src.root@),
{
    match &src.root {
        SourceRoot::Named(scheme) => match config.handler_for(scheme.as_str()) {
            Some((path, _caps)) => Some(path),
            None => None,
        },
        _ => None,
    }
}

/// Whether a ground source is what a reference stands for: code where its scheme is
/// mounted, a file otherwise.
pub open spec fn is_ground_source(
    r: GroundSource,
    config: Config,
    src: SourceRef,
    module: Option<String>,
) -> bool {
    match src.root {
        SourceRoot::Named(scheme) => match config.handler_spec(scheme@) {
            Some((path, cfg)) => {
                &&& r matches GroundSource::Handler(h)
                &&& h.reference == src.path
                &&& h.rev == src.rev
                &&& h.handler.scheme@ == scheme@
                &&& h.handler.src_path@ == path
                &&& h.handler.caps.net@ == cfg.net@
                &&& h.handler.caps.read@ == cfg.read@
                &&& h.handler.caps.env@ == cfg.env@
                &&& h.handler.cost_estimate.bits == crate::generator::run_cost(h.handler.caps)
                &&& h.handler.hash.0@ == crate::generator::content_hash(
                    module.unwrap()@,
                    h.handler.caps,
                )
            },
            None => r == GroundSource::File(src),
        },
        _ => r == GroundSource::File(src),
    }
}

/// Builds a ground source from a parsed source reference.
/// A named root that is handler-backed in config (a CURIE scheme with
/// `[sources.<scheme>] handler`) mounts code, capturing the handler's content
/// hash now; any other root is a plain file read. `module` is the source of the
/// handler's module (see [`handler_module`]).
pub fn ground_source_for(config: &Config, src: SourceRef, module: Option<String>) -> (r:
    GroundSource)
    requires
        module_of(*config, src.root@) is Some ==> module is Some,
    ensures
        is_ground_source(r, *config, src, module),
{
    if let SourceRoot::Named(scheme) = &src.root {
        if let Some((src_path, caps)) = config.handler_for(scheme.as_str()) {
            if let Some(source) = module {
                let (_src, handler) = load_handler(
                    scheme.as_str(),
                    src_path.as_str(),
                    source,
                    caps,
                );
                proof {
                    lemma_same_caps(source@, caps, handler.caps);
                }
                return GroundSource::Handler(
                    HandlerSource { handler, reference: src.path, rev: src.rev },
                );
            }
        }
    }
    GroundSource::File(src)
}

proof fn lemma_same_caps(source: Seq<char>, a: Capabilities, b: Capabilities)
    requires
        a.same_as(&b),
    ensures
        crate::generator::content_hash(source, a) == crate::generator::content_hash(source, b),
        crate::generator::run_cost(a) == crate::generator::run_cost(b),
{
}

// ---------------------------------------------------------------------------
// Reading
// ---------------------------------------------------------------------------

/// What to read.
#[derive(Debug, PartialEq, Eq)]
pub enum ReadPlan {
    /// Read a file below a root; through the VCS where a revision is pinned.
    File { root: RootPath, path: String, rev: Option<String>, vcs: Vcs },
    /// Run a command in a root.
    Command { argv: Vec<String>, root: RootPath },
    /// Read a generator's source below the store, and run it.
    Generator { src_path: String },
    /// Read a handler's module below the store, and run it.
    Handler { src_path: String, caps: Capabilities },
}

/// Where a resolved root lies.
pub open spec fn is_root(path: RootPath, below: Option<Seq<char>>, parent: bool) -> bool {
    match (below, parent) {
        (Some(repo), _) => path matches RootPath::Below(p) && p@ == repo,
        (None, true) => path is Parent,
        (None, false) => path is Store,
    }
}

fn as_errored<T>(error: Error) -> (r: Result<T, ReadFail>)
    ensures
        is_errored(r, error.message()),
{
    Err(ReadFail::Errored(error.to_string()))
}

/// The message of a configuration error.
pub open spec fn config_message(text: Seq<char>) -> Seq<char> {
    "config error: "@ + text
}

/// Whether a result is the plan of a read, or why there is none.
pub open spec fn is_plan(
    r: Result<ReadPlan, ReadFail>,
    config: Config,
    source: GroundSource,
    has_parent: bool,
    parent_has_jj: bool,
) -> bool {
    match source {
        GroundSource::File(src) => match config.root_spec(
            src.root,
            has_parent,
            parent_has_jj,
        ) {
            Err(fault) => is_errored(r, config_message(fault)),
            Ok((below, parent, v)) => {
                &&& r matches Ok(ReadPlan::File { root, path, rev, vcs })
                &&& is_root(root, below, parent)
                &&& path == src.path
                &&& rev == src.rev
                &&& vcs == v
            },
        },
        GroundSource::Command(cmd) => if cmd.argv@.len() == 0 {
            is_errored(r, "empty command"@)
        } else if !config.command.listed(cmd.argv@[0]@) {
            is_errored(r, "command `"@ + cmd.argv@[0]@ + "` not in [command] allow list"@)
        } else {
            match config.root_spec(cmd.root, has_parent, parent_has_jj) {
                Err(fault) => is_errored(r, config_message(fault)),
                Ok((below, parent, _)) => {
                    &&& r matches Ok(ReadPlan::Command { argv, root })
                    &&& argv@ == cmd.argv@
                    &&& is_root(root, below, parent)
                },
            }
        },
        GroundSource::Generator(g) => r matches Ok(ReadPlan::Generator { src_path })
            && src_path == g.src_path,
        GroundSource::Handler(h) => match config.handler_spec(h.handler.scheme@) {
            None => is_errored(
                r,
                "source root `"@ + h.handler.scheme@ + "` is no longer handler-backed"@,
            ),
            Some((path, cfg)) => {
                &&& r matches Ok(ReadPlan::Handler { src_path, caps })
                &&& src_path@ == path
                &&& caps.net@ == cfg.net@
                &&& caps.read@ == cfg.read@
                &&& caps.env@ == cfg.env@
            },
        },
    }
}

/// Plans the read of a source. A command runs only if its program is on the
/// allow list; a handler only while its scheme is still handler-backed.
pub fn read_source(config: &Config, source: &GroundSource, has_parent: bool, parent_has_jj: bool) -> (
r: Result<ReadPlan, ReadFail>)
    ensures
        is_plan(r, *config, *source, has_parent, parent_has_jj),
{
    match source {
        GroundSource::File(src) => match config.resolve_root(&src.root, has_parent, parent_has_jj) {
            Err(error) => as_errored(error),
            Ok((root, vcs)) => Ok(
                ReadPlan::File { root, path: src.path.clone(), rev: copy_option(&src.rev), vcs },
            ),
        },
        GroundSource::Command(cmd) => {
            if cmd.argv.len() == 0 {
                return Err(ReadFail::Errored("empty command".to_owned()));
            }
            if !config.command.allows(cmd.argv[0].as_str()) {
                let text = "command `".to_owned().concat(cmd.argv[0].as_str()).concat(
                    "` not in [command] allow list",
                );
                return Err(ReadFail::Errored(text));
            }
            match config.resolve_root(&cmd.root, has_parent, parent_has_jj) {
                Err(error) => as_errored(error),
                Ok((root, _vcs)) => Ok(
                    ReadPlan::Command { argv: crate::text::copy_all(&cmd.argv), root },
                ),
            }
        },
        GroundSource::Generator(g) => Ok(ReadPlan::Generator { src_path: g.src_path.clone() }),
        // Rebuilt from the current config caps and live source, so drift in
        // either is a loud diff against the recorded hash.
        GroundSource::Handler(h) => match config.handler_for(h.handler.scheme.as_str()) {
            Some((src_path, caps)) => Ok(ReadPlan::Handler { src_path, caps }),
            None => {
                let text = "source root `".to_owned().concat(h.handler.scheme.as_str()).concat(
                    "` is no longer handler-backed",
                );
                Err(ReadFail::Errored(text))
            },
        },
    }
}

/// The revision recorded for a read: the pinned one, or what stands for it.
pub open spec fn rev_or(rev: Option<String>, otherwise: Seq<char>) -> Seq<char> {
    match rev {
        Some(rev) => rev@,
        None => otherwise,
    }
}

fn rev_label(rev: &Option<String>, otherwise: &str) -> (r: String)
    ensures
        r@ == rev_or(*rev, otherwise@),
{
    match rev {
        Some(rev) => rev.clone(),
        None => otherwise.to_owned(),
    }
}

/// The command that shows a file at a revision, run for a repo at `root`.
pub open spec fn show_command(
    vcs: Vcs,
    root: Seq<char>,
    rev: Seq<char>,
    path: Seq<char>,
) -> Seq<Seq<char>> {
    match vcs {
        Vcs::Jj => seq!["jj"@, "-R"@, root, "file"@, "show"@, "-r"@, rev, path],
        Vcs::Git => seq!["git"@, "-C"@, root, "show"@, rev + ":"@ + path],
    }
}

/// The command that shows a file at a revision, run for a repo at `root`.
pub fn show_args(vcs: Vcs, root: &str, rev: &str, path: &str) -> (r: Vec<String>)
    ensures
        crate::text::texts(r@) == show_command(vcs, root@, rev@, path@),
{
    let mut args: Vec<String> = Vec::new();
    match vcs {
        Vcs::Jj => {
            args.push("jj".to_owned());
            args.push("-R".to_owned());
            args.push(root.to_owned());
            args.push("file".to_owned());
            args.push("show".to_owned());
            args.push("-r".to_owned());
            args.push(rev.to_owned());
            args.push(path.to_owned());
        },
        Vcs::Git => {
            args.push("git".to_owned());
            args.push("-C".to_owned());
            args.push(root.to_owned());
            args.push("show".to_owned());
            args.push(rev.to_owned().concat(":").concat(path));
        },
    }
    assert(crate::text::texts(args@) =~= show_command(vcs, root@, rev@, path@));
    args
}

/// What came of reading a file.
#[derive(Debug, PartialEq, Eq)]
pub enum FileEvent {
    /// The file, or what the VCS showed.
    Text(String),
    /// The file could not be read, and why.
    Unreadable(String),
    /// The VCS could not be started, and why.
    NotStarted(String),
    /// The VCS failed, and what it said.
    Failed(String),
}

/// Whether a result is what reading a file came to.
pub open spec fn is_file_read(
    r: Result<(String, String), ReadFail>,
    path: Seq<char>,
    rev: Option<String>,
    event: FileEvent,
) -> bool {
    match event {
        FileEvent::Text(content) => is_read(r, content@, rev_or(rev, "working"@)),
        FileEvent::Unreadable(why) => is_errored(r, path + ": "@ + why@),
        FileEvent::NotStarted(why) => is_errored(r, "spawning vcs: "@ + why@),
        FileEvent::Failed(said) => is_errored(r, crate::text::trim(said@)),
    }
}

/// Takes a file that was read, or says why it could not be.
pub fn read_file(path: &str, rev: &Option<String>, event: FileEvent) -> (r: Result<
    (String, String),
    ReadFail,
>)
    ensures
        is_file_read(r, path@, *rev, event),
{
    match event {
        FileEvent::Text(content) => Ok((content, rev_label(rev, "working"))),
        FileEvent::Unreadable(why) => Err(
            ReadFail::Errored(path.to_owned().concat(": ").concat(why.as_str())),
        ),
        FileEvent::NotStarted(why) => Err(
            ReadFail::Errored("spawning vcs: ".to_owned().concat(why.as_str())),
        ),
        FileEvent::Failed(said) => Err(ReadFail::Errored(trimmed(said.as_str()))),
    }
}

/// What came of running a command.
#[derive(Debug, PartialEq, Eq)]
pub enum CommandEvent {
    /// No file for its output could be made, and why.
    NoOutputFile(String),
    /// It could not be started, and why.
    NotStarted(String),
    /// Its state could not be read, and why.
    Lost(String),
    /// It ran out of time.
    TimedOut,
    /// It ended, with its exit code unless a signal ended it, and its output.
    Exited { code: Option<i32>, stdout: String },
}

/// An exit code as people read it.
pub open spec fn code_text(code: Option<i32>) -> Seq<char> {
    match code {
        None => "signal"@,
        Some(code) => if code < 0 {
            seq!['-'] + crate::text::digits_of((-code) as nat)
        } else {
            crate::text::digits_of(code as nat)
        },
    }
}

fn exit_text(code: Option<i32>) -> (r: String)
    ensures
        r@ == code_text(code),
{
    match code {
        None => "signal".to_owned(),
        Some(code) => {
            if code < 0 {
                let mut out = String::new();
                out.push('-');
                let magnitude: i64 = -(code as i64);
                let digits = decimal_text(magnitude as u128);
                out.append(digits.as_str());
                assert(out@ =~= code_text(Some(code)));
                out
            } else {
                decimal_text(code as u128)
            }
        },
    }
}

/// The name of the file that takes a command's output: it tells commands apart by
/// the hash of their words.
pub fn command_output(argv: &Vec<String>) -> (r: String)
    ensures
        r@ == "ken-cmd-"@ + crate::digest::text_hash(
            crate::text::joined(crate::text::texts(argv@), " "@),
        ).take(16) + ".out"@,
{
    let digest = hash_text(join(argv, " ").as_str());
    let digits = chars_of(digest.as_str());
    let head = string_of(&digits, 0, 16);
    assert(head@ =~= digest@.take(16));
    "ken-cmd-".to_owned().concat(head.as_str()).concat(".out")
}

/// Whether a result is what running a command came to.
pub open spec fn is_command_read(
    r: Result<(String, String), ReadFail>,
    program: Seq<char>,
    event: CommandEvent,
) -> bool {
    match event {
        CommandEvent::NoOutputFile(why) => is_errored(r, "temp: "@ + why@),
        CommandEvent::NotStarted(why) => is_errored(
            r,
            "spawning "@ + program + ": "@ + why@,
        ),
        CommandEvent::Lost(why) => is_errored(r, why@),
        CommandEvent::TimedOut => r matches Err(ReadFail::Transient),
        CommandEvent::Exited { code, stdout } => if code == Some(0i32) {
            is_read(r, stdout@, "computed"@)
        } else {
            is_errored(r, "command exited with "@ + code_text(code))
        },
    }
}

/// Takes a command's output. Non-zero exit or spawn failure is `Errored`; a
/// timeout is `Transient`.
pub fn run_command(program: &str, event: CommandEvent) -> (r: Result<(String, String), ReadFail>)
    ensures
        is_command_read(r, program@, event),
{
    match event {
        CommandEvent::NoOutputFile(why) => Err(
            ReadFail::Errored("temp: ".to_owned().concat(why.as_str())),
        ),
        CommandEvent::NotStarted(why) => Err(
            ReadFail::Errored(
                "spawning ".to_owned().concat(program).concat(": ").concat(why.as_str()),
            ),
        ),
        CommandEvent::Lost(why) => Err(ReadFail::Errored(why)),
        CommandEvent::TimedOut => Err(ReadFail::Transient),
        CommandEvent::Exited { code, stdout } => {
            let clean = match code {
                Some(code) => code == 0,
                None => false,
            };
            if clean {
                Ok((stdout, "computed".to_owned()))
            } else {
                Err(
                    ReadFail::Errored(
                        "command exited with ".to_owned().concat(exit_text(code).as_str()),
                    ),
                )
            }
        },
    }
}

/// The generator that a reference and the source now on disk make.
fn current_generator(g: &GeneratorRef, source: String) -> (r: GeneratorSrc)
    ensures
        r.source == source,
        r.caps.same_as(&g.caps),
        r.name == g.name,
{
    GeneratorSrc {
        name: g.name.clone(),
        source,
        caps: g.caps.copy(),
        cost_estimate: g.cost_estimate,
    }
}

/// Whether a plan runs a generator that is still what was bound, and refuses any other.
pub open spec fn is_generator_plan(
    r: RunPlan,
    g: GeneratorRef,
    source: Seq<char>,
    claim: Seq<char>,
    process: u32,
    nonce: u64,
) -> bool {
    if g.hash.0@ != crate::generator::content_hash(source, g.caps) {
        r matches RunPlan::Refused(run) && crate::generator::is_unstarted(run, true)
    } else {
        r matches RunPlan::Start(launch) && crate::generator::is_generator_launch(
            launch,
            source,
            g.caps,
            claim,
            process,
            nonce,
        )
    }
}

/// Plans the run of a bound generator from the source now on disk; refused where
/// source or capabilities are not those that were bound.
pub fn run_generator(
    sandbox: &Sandbox,
    g: &GeneratorRef,
    source: String,
    claim: &str,
    process: u32,
    nonce: u64,
) -> (r: RunPlan)
    ensures
        is_generator_plan(r, *g, source@, claim@, process, nonce),
{
    let src = current_generator(g, source);
    proof {
        lemma_same_caps(source@, src.caps, g.caps);
    }
    sandbox.run(&src, Some(&g.hash), claim, process, nonce)
}

/// Whether a result is what the run of a generator came to.
pub open spec fn is_generator_read(
    r: Result<(String, String), ReadFail>,
    run: GeneratorRun,
) -> bool {
    if run.hash_changed {
        is_errored(r, "generator source or capabilities changed; update its binding"@)
    } else if run.timed_out {
        r matches Err(ReadFail::Transient)
    } else if !run.is_ok() {
        is_errored(r, "generator did not exit cleanly"@)
    } else {
        is_read(r, run.stdout@, "computed"@)
    }
}

/// Takes the value a generator produced, or says why it cannot be trusted.
pub fn finish_generator(run: GeneratorRun) -> (r: Result<(String, String), ReadFail>)
    ensures
        is_generator_read(r, run),
{
    if run.hash_changed {
        return Err(
            ReadFail::Errored(
                "generator source or capabilities changed; update its binding".to_owned(),
            ),
        );
    }
    if run.timed_out {
        return Err(ReadFail::Transient);
    }
    if !run.ok() {
        return Err(ReadFail::Errored("generator did not exit cleanly".to_owned()));
    }
    Ok((run.stdout, "computed".to_owned()))
}

/// Whether a plan runs a handler that is still what was bound, and refuses any other.
pub open spec fn is_handler_plan(
    r: RunPlan,
    h: HandlerSource,
    source: Seq<char>,
    caps: Capabilities,
    process: u32,
    nonce: u64,
) -> bool {
    if h.handler.hash.0@ != crate::generator::content_hash(source, caps) {
        r matches RunPlan::Refused(run) && crate::generator::is_unstarted(run, true)
    } else {
        r matches RunPlan::Start(launch) && crate::generator::is_handler_launch(
            launch,
            source,
            caps,
            h.reference@,
            h.rev,
            process,
            nonce,
        )
    }
}

/// Plans the run of a bound handler from the module now on disk and the
/// capabilities now configured; refused where either is not what was bound.
pub fn run_bound_handler(
    sandbox: &Sandbox,
    h: &HandlerSource,
    src_path: &str,
    source: String,
    caps: Capabilities,
    process: u32,
    nonce: u64,
) -> (r: RunPlan)
    ensures
        is_handler_plan(r, *h, source@, caps, process, nonce),
{
    let (src, _handler) = load_handler(h.handler.scheme.as_str(), src_path, source, caps);
    proof {
        lemma_same_caps(source@, src.caps, caps);
    }
    sandbox.run_handler(
        &src,
        Some(&h.handler.hash),
        h.reference.as_str(),
        &h.rev,
        process,
        nonce,
    )
}

/// Whether a result is what the run of a handler came to.
pub open spec fn is_handler_read(
    r: Result<(String, String), ReadFail>,
    h: HandlerSource,
    run: GeneratorRun,
) -> bool {
    if run.hash_changed {
        is_errored(
            r,
            "handler `"@ + h.handler.scheme@
                + "` source or capabilities changed; update its binding"@,
        )
    } else if run.timed_out {
        r matches Err(ReadFail::Transient)
    } else if !run.is_ok() {
        is_errored(r, "handler `"@ + h.handler.scheme@ + "` did not exit cleanly"@)
    } else {
        is_read(r, run.stdout@, rev_or(h.rev, "computed"@))
    }
}

/// Takes the document a handler produced, or says why it cannot be trusted.
pub fn finish_handler(h: &HandlerSource, run: GeneratorRun) -> (r: Result<
    (String, String),
    ReadFail,
>)
    ensures
        is_handler_read(r, *h, run),
{
    if run.hash_changed {
        let text = "handler `".to_owned().concat(h.handler.scheme.as_str()).concat(
            "` source or capabilities changed; update its binding",
        );
        return Err(ReadFail::Errored(text));
    }
    if run.timed_out {
        return Err(ReadFail::Transient);
    }
    if !run.ok() {
        let text = "handler `".to_owned().concat(h.handler.scheme.as_str()).concat(
            "` did not exit cleanly",
        );
        return Err(ReadFail::Errored(text));
    }
    Ok((run.stdout, rev_label(&h.rev, "computed")))
}

} // verus!
