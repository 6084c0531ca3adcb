//! Parse locator strings to a source reference and a locator, and render them
//! back for `why`/`recall`.
//! Grammar:
//!
//! - `path`                      whole file
//! - `path#heading`              Markdown section
//! - `path?q="needle"`           quoted substring
//! - `path#L40-58`               line range
//! - `path#ts:(query)`           tree-sitter match (parsed; resolution deferred)
//! - `<root>:` prefix            a named source root (`wiki:...`), or reserved `store:` / `project:`
//! - `@<rev>` suffix             a pinned revision (also settable via `--rev`)

use crate::error::Error;
use crate::schema::{GroundBinding, GroundSource, Locator, SourceRef, SourceRoot};
use crate::text::{begins_with, chars_of, decimal_text, digit, end_of_digits, join, letter};
use crate::text::{read_decimal, same, split_first, split_last, split_text, string_of, trimmed};
use crate::text::trimmed_end;
use vstd::prelude::*;

pub mod round_trip;

verus! {

// ---------------------------------------------------------------------------
// Models
// ---------------------------------------------------------------------------

/// A source root, with its name as characters.
pub enum Root {
    Project,
    Store,
    Named(Seq<char>),
}

impl View for SourceRoot {
    type V = Root;

    open spec fn view(&self) -> Root {
        match *self {
            SourceRoot::Project => Root::Project,
            SourceRoot::Store => Root::Store,
            SourceRoot::Named(name) => Root::Named(name@),
        }
    }
}

/// A source reference, with its texts as characters.
pub struct Reference {
    pub root: Root,
    pub path: Seq<char>,
    pub rev: Option<Seq<char>>,
}

impl View for SourceRef {
    type V = Reference;

    open spec fn view(&self) -> Reference {
        Reference {
            root: self.root@,
            path: self.path@,
            rev: crate::text::option_text(self.rev),
        }
    }
}

/// A locator, with its texts as characters.
pub enum Place {
    Heading(Seq<char>),
    Quote(Seq<char>),
    LineRange(int, int),
    TreeSitter(Seq<char>, Seq<char>),
    Whole,
}

impl View for Locator {
    type V = Place;

    open spec fn view(&self) -> Place {
        match *self {
            Locator::Heading { heading } => Place::Heading(heading@),
            Locator::Quote { needle } => Place::Quote(needle@),
            Locator::LineRange { start, end } => Place::LineRange(start as int, end as int),
            Locator::TreeSitter { lang, query } => Place::TreeSitter(lang@, query@),
            Locator::Whole => Place::Whole,
        }
    }
}

// ---------------------------------------------------------------------------
// Reading
// ---------------------------------------------------------------------------

/// A text without the double quotes at its start.
pub open spec fn without_start_quotes(s: Seq<char>) -> Seq<char>
    decreases s.len(),
{
    if s.len() > 0 && s[0] == '"' {
        without_start_quotes(s.skip(1))
    } else {
        s
    }
}

/// A text without the double quotes at its end.
pub open spec fn without_end_quotes(s: Seq<char>) -> Seq<char>
    decreases s.len(),
{
    if s.len() > 0 && s.last() == '"' {
        without_end_quotes(s.drop_last())
    } else {
        s
    }
}

/// A text without double quotes at either end.
pub open spec fn unquoted(s: Seq<char>) -> Seq<char> {
    without_end_quotes(without_start_quotes(s))
}

/// The characters of the name of a root.
pub open spec fn is_name_char(c: char) -> bool {
    crate::text::is_letter(c) || crate::text::is_digit(c) || c == '-' || c == '_'
}

/// Whether a text is the name of a root.
pub open spec fn is_name(s: Seq<char>) -> bool {
    s.len() > 0 && forall|i: int| 0 <= i < s.len() ==> is_name_char(#[trigger] s[i])
}

/// The root with a given name.
pub open spec fn root_named(name: Seq<char>) -> Root {
    if name == "store"@ {
        Root::Store
    } else if name == "project"@ {
        Root::Project
    } else {
        Root::Named(name)
    }
}

/// The root that a text starts with, and what follows. A name and a colon are a
/// root unless a `/` follows, so that `https://` stays a path.
pub open spec fn root_and_rest(body: Seq<char>) -> (Root, Seq<char>) {
    match crate::text::split_once(body, ':') {
        Some((name, rest)) => if is_name(name) && !(rest.len() > 0 && rest[0] == '/') {
            (root_named(name), rest)
        } else {
            (Root::Project, body)
        },
        None => (Root::Project, body),
    }
}

/// What stands before a revision suffix, and the revision. Only what follows
/// the last `@` can be one, and only if it is not empty and holds no `/`, so
/// that paths with `@` are not eaten.
pub open spec fn body_and_rev(input: Seq<char>) -> (Seq<char>, Option<Seq<char>>) {
    match crate::text::rsplit_once(input, '@') {
        Some((body, rev)) => if !rev.contains('/') && rev.len() > 0 {
            (crate::text::trim_end(body), Some(crate::text::trim(rev)))
        } else {
            (input, None)
        },
        None => (input, None),
    }
}

/// Whether a fragment is a line range.
pub open spec fn is_range(frag: Seq<char>) -> bool {
    frag.len() >= 2 && frag[0] == 'L' && crate::text::is_digit(frag[1])
}

/// The number that a text is: digits, perhaps behind a `+`.
pub open spec fn count_of(s: Seq<char>) -> Option<nat> {
    let digits = if s.len() > 0 && s[0] == '+' {
        s.skip(1)
    } else {
        s
    };
    if digits.len() > 0 && crate::text::all_digits(digits) && crate::text::decimal(digits)
        <= usize::MAX {
        Some(crate::text::decimal(digits))
    } else {
        None
    }
}

/// The line range that a fragment is.
pub open spec fn range_of(frag: Seq<char>) -> Option<Place> {
    let numbers = frag.skip(1);
    let (first, last) = match crate::text::split_once(numbers, '-') {
        Some((first, last)) => (first, last),
        None => (numbers, numbers),
    };
    match (count_of(first), count_of(last)) {
        (Some(start), Some(end)) => if start == 0 || end < start {
            None
        } else {
            Some(Place::LineRange(start as int, end as int))
        },
        _ => None,
    }
}

/// The language of a file, by its extension.
pub open spec fn language(path: Seq<char>) -> Seq<char> {
    match crate::text::rsplit_once(path, '.') {
        None => "text"@,
        Some((_, ext)) => if ext == "rs"@ {
            "rust"@
        } else if ext == "md"@ || ext == "markdown"@ {
            "markdown"@
        } else if ext == "ts"@ || ext == "tsx"@ {
            "typescript"@
        } else if ext == "js"@ || ext == "jsx"@ {
            "javascript"@
        } else if ext == "py"@ {
            "python"@
        } else if ext == "go"@ {
            "go"@
        } else {
            "text"@
        },
    }
}

/// The locator that a fragment is.
pub open spec fn fragment_place(path: Seq<char>, frag: Seq<char>) -> Result<Place, Seq<char>> {
    if crate::text::starts_with(frag, "ts:"@) {
        Ok(Place::TreeSitter(language(path), frag.skip(3)))
    } else if is_range(frag) {
        match range_of(frag) {
            Some(range) => Ok(range),
            None => Err("bad line range: "@ + frag),
        }
    } else {
        Ok(Place::Heading(frag))
    }
}

/// The path and the locator that a text is behind its root.
pub open spec fn path_and_place(rest: Seq<char>) -> Result<(Seq<char>, Place), Seq<char>> {
    match crate::text::split_at_text(rest, "?q="@) {
        Some((path, needle)) => Ok((path, Place::Quote(unquoted(crate::text::trim(needle))))),
        None => match crate::text::split_once(rest, '#') {
            None => Ok((rest, Place::Whole)),
            Some((path, frag)) => match fragment_place(path, frag) {
                Ok(place) => Ok((path, place)),
                Err(fault) => Err(fault),
            },
        },
    }
}

/// What a locator string means, or what is wrong with it. A given revision wins
/// over an inline one.
pub open spec fn source_reading(input: Seq<char>, rev: Option<Seq<char>>) -> Result<
    (Reference, Place),
    Seq<char>,
> {
    let text = crate::text::trim(input);
    let (body, inline) = body_and_rev(text);
    let (root, rest) = root_and_rest(body);
    if text.len() == 0 {
        Err("empty source locator"@)
    } else {
        match path_and_place(rest) {
            Err(fault) => Err(fault),
            Ok((path, place)) => Ok(
                (
                    Reference {
                        root,
                        path,
                        rev: match rev {
                            Some(rev) => Some(rev),
                            None => inline,
                        },
                    },
                    place,
                ),
            ),
        }
    }
}

fn trim_quotes(s: &str) -> (r: String)
    ensures
        r@ == unquoted(s@),
{
    let v = chars_of(s);
    let mut from: usize = 0;
    assert(v@.skip(0) =~= v@);
    while from < v.len() && v[from] == '"'
        invariant
            from <= v.len(),
            v@ == s@,
            without_start_quotes(v@.skip(from as int)) == without_start_quotes(s@),
        decreases v.len() - from,
    {
        assert(v@.skip(from as int).skip(1) =~= v@.skip(from + 1));
        from = from + 1;
    }
    let ghost started = v@.skip(from as int);
    let mut to: usize = v.len();
    assert(v@.subrange(from as int, to as int) =~= started);
    while to > from && v[to - 1] == '"'
        invariant
            from <= to <= v.len(),
            without_end_quotes(v@.subrange(from as int, to as int)) == without_end_quotes(started),
        decreases to,
    {
        assert(v@.subrange(from as int, to as int).drop_last() =~= v@.subrange(
            from as int,
            to - 1,
        ));
        to = to - 1;
    }
    string_of(&v, from, to)
}

fn valid_name(s: &str) -> (r: bool)
    ensures
        r == is_name(s@),
{
    let v = chars_of(s);
    let mut i: usize = 0;
    while i < v.len()
        invariant
            i <= v.len(),
            v@ == s@,
            forall|k: int| 0 <= k < i ==> is_name_char(#[trigger] v@[k]),
        decreases v.len() - i,
    {
        if !(letter(v[i]) || digit(v[i]) || v[i] == '-' || v[i] == '_') {
            assert(!is_name_char(s@[i as int]));
            return false;
        }
        i = i + 1;
    }
    v.len() > 0
}

fn holds_char(s: &str, c: char) -> (r: bool)
    ensures
        r == s@.contains(c),
{
    let v = chars_of(s);
    let mut i: usize = 0;
    while i < v.len()
        invariant
            i <= v.len(),
            v@ == s@,
            forall|k: int| 0 <= k < i ==> v@[k] != c,
        decreases v.len() - i,
    {
        if v[i] == c {
            return true;
        }
        i = i + 1;
    }
    false
}

/// Whether a text starts with a character.
fn first_is(s: &str, c: char) -> (r: bool)
    ensures
        r == (s@.len() > 0 && s@[0] == c),
{
    let v = chars_of(s);
    v.len() > 0 && v[0] == c
}

fn split_root(body: &str) -> (r: (SourceRoot, String))
    ensures
        r.0@ == root_and_rest(body@).0,
        r.1@ == root_and_rest(body@).1,
{
    if let Some((name, rest)) = split_first(body, ':') {
        if valid_name(name.as_str()) && !first_is(rest.as_str(), '/') {
            let root = if same(name.as_str(), "store") {
                SourceRoot::Store
            } else if same(name.as_str(), "project") {
                SourceRoot::Project
            } else {
                SourceRoot::Named(name)
            };
            return (root, rest);
        }
    }
    (SourceRoot::Project, body.to_owned())
}

fn is_line_range(frag: &str) -> (r: bool)
    ensures
        r == is_range(frag@),
{
    let v = chars_of(frag);
    v.len() >= 2 && v[0] == 'L' && digit(v[1])
}

fn parse_count(s: &str) -> (r: Option<usize>)
    ensures
        match count_of(s@) {
            Some(n) => r == Some(n as usize),
            None => r is None,
        },
{
    let v = chars_of(s);
    let from: usize = if v.len() > 0 && v[0] == '+' {
        1
    } else {
        0
    };
    let ghost digits = v@.skip(from as int);
    assert(from == 0 ==> digits =~= s@);
    let end = end_of_digits(&v, from);
    proof {
        crate::text::lemma_digit_run_bounds(digits);
    }
    if from == v.len() || end < v.len() {
        return None;
    }
    assert(v@.subrange(from as int, v@.len() as int) =~= digits);
    match read_decimal(&v, from, v.len()) {
        None => None,
        Some(n) => if n <= usize::MAX as u128 {
            Some(n as usize)
        } else {
            None
        },
    }
}

fn bad_range<T>(frag: &str) -> (r: Result<T, Error>)
    ensures
        crate::error::is_config(r, "bad line range: "@ + frag@),
{
    Err(Error::Config("bad line range: ".to_owned().concat(frag)))
}

fn parse_line_range(frag: &str) -> (r: Result<Locator, Error>)
    requires
        is_range(frag@),
    ensures
        match range_of(frag@) {
            Some(range) => r matches Ok(locator) && locator@ == range,
            None => crate::error::is_config(r, "bad line range: "@ + frag@),
        },
{
    let v = chars_of(frag);
    let numbers = string_of(&v, 1, v.len());
    assert(numbers@ =~= frag@.skip(1));
    let (first, last) = match split_first(numbers.as_str(), '-') {
        Some(split) => split,
        None => (numbers.clone(), numbers),
    };
    let start: usize = match parse_count(first.as_str()) {
        Some(n) => n,
        None => {
            return bad_range(frag);
        },
    };
    let end: usize = match parse_count(last.as_str()) {
        Some(n) => n,
        None => {
            return bad_range(frag);
        },
    };
    if start == 0 || end < start {
        return bad_range(frag);
    }
    Ok(Locator::LineRange { start, end })
}

fn lang_for(path: &str) -> (r: String)
    ensures
        r@ == language(path@),
{
    let ext = match split_last(path, '.') {
        Some((_before, ext)) => ext,
        None => {
            return "text".to_owned();
        },
    };
    let ext = ext.as_str();
    if same(ext, "rs") {
        "rust".to_owned()
    } else if same(ext, "md") || same(ext, "markdown") {
        "markdown".to_owned()
    } else if same(ext, "ts") || same(ext, "tsx") {
        "typescript".to_owned()
    } else if same(ext, "js") || same(ext, "jsx") {
        "javascript".to_owned()
    } else if same(ext, "py") {
        "python".to_owned()
    } else if same(ext, "go") {
        "go".to_owned()
    } else {
        "text".to_owned()
    }
}

fn source_ref(root: SourceRoot, path: String, rev: Option<String>) -> (r: SourceRef)
    ensures
        r == (SourceRef { root, path, rev }),
{
    SourceRef { root, path, rev }
}

fn fragment_locator(path: &str, frag: String) -> (r: Result<Locator, Error>)
    ensures
        match fragment_place(path@, frag@) {
            Ok(place) => r matches Ok(locator) && locator@ == place,
            Err(fault) => crate::error::is_config(r, fault),
        },
{
    if begins_with(frag.as_str(), "ts:") {
        proof {
            reveal_strlit("ts:");
        }
        let v = chars_of(frag.as_str());
        let query = string_of(&v, 3, v.len());
        assert(query@ =~= frag@.skip(3));
        Ok(Locator::TreeSitter { lang: lang_for(path), query })
    } else if is_line_range(frag.as_str()) {
        parse_line_range(frag.as_str())
    } else {
        Ok(Locator::Heading { heading: frag })
    }
}

/// Parses a locator string into a source reference and a locator. `rev` from a
/// `--rev` flag wins over any inline `@rev`.
///
/// Fails if the input is empty or contains a malformed line range.
pub fn parse_source(input: &str, rev: Option<String>) -> (r: Result<(SourceRef, Locator), Error>)
    ensures
        match source_reading(input@, crate::text::option_text(rev)) {
            Ok((reference, place)) => r matches Ok((source, locator)) && source@ == reference
                && locator@ == place,
            Err(fault) => crate::error::is_config(r, fault),
        },
{
    let text = trimmed(input);
    if text.as_str().is_empty() {
        return Err(Error::Config("empty source locator".to_owned()));
    }
    let (body, inline) = match split_last(text.as_str(), '@') {
        Some((before, suffix)) => {
            if !holds_char(suffix.as_str(), '/') && !suffix.as_str().is_empty() {
                (trimmed_end(before.as_str()), Some(trimmed(suffix.as_str())))
            } else {
                (text, None)
            }
        },
        None => (text, None),
    };
    let rev = match rev {
        Some(rev) => Some(rev),
        None => inline,
    };
    let (root, rest) = split_root(body.as_str());
    if let Some((path, quoted)) = split_text(rest.as_str(), "?q=") {
        let needle = trim_quotes(trimmed(quoted.as_str()).as_str());
        return Ok((source_ref(root, path, rev), Locator::Quote { needle }));
    }
    match split_first(rest.as_str(), '#') {
        None => Ok((source_ref(root, rest, rev), Locator::Whole)),
        Some((path, frag)) => match fragment_locator(path.as_str(), frag) {
            Ok(locator) => Ok((source_ref(root, path, rev), locator)),
            Err(error) => Err(error),
        },
    }
}

// ---------------------------------------------------------------------------
// Rendering
// ---------------------------------------------------------------------------

/// How a root is written in front of a path.
pub open spec fn root_text(root: Root) -> Seq<char> {
    match root {
        Root::Project => Seq::empty(),
        Root::Store => "store:"@,
        Root::Named(name) => name + seq![':'],
    }
}

/// How a locator is written behind a path.
pub open spec fn place_text(place: Place) -> Seq<char> {
    match place {
        Place::Whole => Seq::empty(),
        Place::Heading(heading) => seq!['#'] + heading,
        Place::Quote(needle) => "?q="@ + seq!['"'] + needle + seq!['"'],
        Place::LineRange(start, end) => if start == end {
            "#L"@ + crate::text::digits_of(start as nat)
        } else {
            "#L"@ + crate::text::digits_of(start as nat) + seq!['-'] + crate::text::digits_of(
                end as nat,
            )
        },
        Place::TreeSitter(_, query) => "#ts:"@ + query,
    }
}

/// How a revision is written behind a locator.
pub open spec fn rev_text(rev: Option<Seq<char>>) -> Seq<char> {
    match rev {
        Some(rev) => " @ "@ + rev,
        None => Seq::empty(),
    }
}

/// A source reference and a locator as one string.
pub open spec fn source_text(reference: Reference, place: Place) -> Seq<char> {
    root_text(reference.root) + reference.path + place_text(place) + rev_text(reference.rev)
}

/// Renders a source reference and a locator back to their string form, for
/// `why`/`recall`.
pub fn render_source(src: &SourceRef, loc: &Locator) -> (r: String)
    ensures
        r@ == source_text(src@, loc@),
{
    let mut out = String::new();
    match &src.root {
        SourceRoot::Project => {},
        SourceRoot::Store => {
            out.append("store:");
        },
        SourceRoot::Named(name) => {
            out.append(name.as_str());
            out.push(':');
        },
    }
    assert(out@ =~= root_text(src.root@));
    out.append(src.path.as_str());
    let ghost before = out@;
    match loc {
        Locator::Whole => {},
        Locator::Heading { heading } => {
            out.push('#');
            out.append(heading.as_str());
        },
        Locator::Quote { needle } => {
            out.append("?q=");
            out.push('"');
            out.append(needle.as_str());
            out.push('"');
        },
        Locator::LineRange { start, end } => {
            out.append("#L");
            out.append(decimal_text(*start as u128).as_str());
            if *start != *end {
                out.push('-');
                out.append(decimal_text(*end as u128).as_str());
            }
        },
        Locator::TreeSitter { lang: _, query } => {
            out.append("#ts:");
            out.append(query.as_str());
        },
    }
    assert(out@ =~= before + place_text(loc@));
    let ghost located = out@;
    if let Some(rev) = &src.rev {
        out.append(" @ ");
        out.append(rev.as_str());
    }
    assert(out@ =~= located + rev_text(src@.rev));
    out
}

/// A ground binding's source as people read it.
pub open spec fn ground_text(binding: GroundBinding) -> Seq<char> {
    match binding.source {
        GroundSource::File(src) => source_text(src@, binding.locator@),
        GroundSource::Command(cmd) => "$ "@ + crate::text::joined(
            crate::text::texts(cmd.argv@),
            " "@,
        ),
        GroundSource::Generator(g) => "gen "@ + crate::schema::name_at_hash(g.name@, g.hash.0@),
        GroundSource::Handler(h) => source_text(
            Reference {
                root: Root::Named(h.handler.scheme@),
                path: h.reference@,
                rev: crate::text::option_text(h.rev),
            },
            binding.locator@,
        ),
    }
}

/// Renders a ground binding's source to its human string form, shared by `why`,
/// `recall`, the MCP surface, and the tagged op-log label.
pub fn render_ground(binding: &GroundBinding) -> (r: String)
    requires
        binding.source matches GroundSource::Generator(g) ==> crate::schema::can_cut(g.hash.0@, 6),
    ensures
        r@ == ground_text(*binding),
{
    match &binding.source {
        GroundSource::File(src) => render_source(src, &binding.locator),
        GroundSource::Command(cmd) => "$ ".to_owned().concat(join(&cmd.argv, " ").as_str()),
        GroundSource::Generator(g) => "gen ".to_owned().concat(g.display().as_str()),
        GroundSource::Handler(h) => render_source(
            &SourceRef {
                root: SourceRoot::Named(h.handler.scheme.clone()),
                path: h.reference.clone(),
                rev: crate::text::copy_option(&h.rev),
            },
            &binding.locator,
        ),
    }
}

// ---------------------------------------------------------------------------
// What is rendered reads back
// ---------------------------------------------------------------------------

/// Whether a text is not empty and has no white space at its ends.
pub open spec fn is_trim(s: Seq<char>) -> bool {
    s.len() > 0 && !crate::text::is_space(s[0]) && !crate::text::is_space(s.last())
}

/// Whether the revision can be told from what is written before it.
pub open spec fn rev_is_clear(body: Seq<char>, rev: Option<Seq<char>>) -> bool {
    match rev {
        Some(rev) => is_trim(rev) && !rev.contains('/') && !rev.contains('@'),
        None => crate::text::rsplit_once(body, '@') matches Some((_, suffix)) ==> suffix.contains(
            '/',
        ) || suffix.len() == 0,
    }
}

/// Whether the root can be told from what is written behind it.
pub open spec fn root_is_clear(root: Root, rest: Seq<char>) -> bool {
    let slash = rest.len() > 0 && rest[0] == '/';
    match root {
        Root::Project => crate::text::split_once(rest, ':') matches Some((name, behind))
            ==> !is_name(name) || (behind.len() > 0 && behind[0] == '/'),
        Root::Store => !slash,
        Root::Named(name) => is_name(name) && name != "store"@ && name != "project"@ && !slash,
    }
}

/// Whether the locator can be told from the path before it.
pub open spec fn place_is_clear(path: Seq<char>, place: Place) -> bool {
    let rest = path + place_text(place);
    match place {
        Place::Quote(needle) => {
            &&& !crate::text::holds_text(path, "?q="@)
            &&& needle.len() > 0 ==> needle[0] != '"' && needle.last() != '"'
        },
        _ => {
            &&& !crate::text::holds_text(rest, "?q="@)
            &&& !path.contains('#')
            &&& match place {
                Place::Heading(heading) => !crate::text::starts_with(heading, "ts:"@) && !is_range(
                    heading,
                ),
                Place::LineRange(start, end) => 1 <= start <= end <= usize::MAX,
                Place::TreeSitter(lang, _) => lang == language(path),
                _ => true,
            }
        },
    }
}

/// Whether each part of a rendered source can be told from the others.
pub open spec fn is_clear(reference: Reference, place: Place) -> bool {
    let rest = reference.path + place_text(place);
    let body = root_text(reference.root) + rest;
    &&& is_trim(body) || (body.len() == 0 && reference.rev is Some)
    &&& rev_is_clear(body, reference.rev)
    &&& root_is_clear(reference.root, rest)
    &&& place_is_clear(reference.path, place)
}

proof fn lemma_trim_is(s: Seq<char>)
    requires
        is_trim(s),
    ensures
        crate::text::trim(s) == s,
        crate::text::trim_end(s) == s,
        crate::text::trim_start(s) == s,
        crate::text::trim_end(s.push(' ')) == s,
        crate::text::trim(seq![' '] + s) == s,
{
    assert(s.push(' ').drop_last() =~= s);
    let t = seq![' '] + s;
    assert(t.skip(1) =~= s);
    assert(crate::text::trim_start(t) == crate::text::trim_start(s));
}

/// A revision alone reads back.
proof fn lemma_lone_rev_back(rev: Seq<char>)
    requires
        rev_is_clear(Seq::empty(), Some(rev)),
    ensures
        ({
            let s = crate::text::trim(rev_text(Some(rev)));
            s.len() > 0 && body_and_rev(s) == (Seq::<char>::empty(), Some(rev))
        }),
{
    reveal_strlit(" @ ");
    let s = rev_text(Some(rev));
    let marked = seq!['@', ' '] + rev;
    assert(s.skip(1) =~= marked);
    assert(s[0] == ' ' && marked[0] == '@');
    assert(marked.last() == rev.last());
    assert(crate::text::trim_start(marked) == marked);
    assert(crate::text::trim_start(s) == marked);
    assert(crate::text::trim(s) == marked);
    assert forall|i: int| 0 < i < marked.len() implies #[trigger] marked[i] != '@' by {
        if i > 1 {
            assert(marked[i] == rev[i - 2]);
            assert(rev.contains(rev[i - 2]));
        }
    }
    crate::text::lemma_last_at_is(marked, '@', 0);
    assert(marked.take(0) =~= Seq::<char>::empty());
    let suffix = marked.skip(1);
    assert(suffix =~= seq![' '] + rev);
    assert(!suffix.contains('/')) by {
        assert forall|i: int| 0 <= i < suffix.len() implies suffix[i] != '/' by {
            if i > 0 {
                assert(suffix[i] == rev[i - 1]);
                assert(rev.contains(rev[i - 1]));
            }
        }
    }
    lemma_trim_is(rev);
}

proof fn lemma_rev_back(body: Seq<char>, rev: Option<Seq<char>>)
    requires
        rev_is_clear(body, rev),
        is_trim(body),
    ensures
        body_and_rev(body + rev_text(rev)) == (body, rev),
        is_trim(body + rev_text(rev)),
{
    let s = body + rev_text(rev);
    match rev {
        None => {
            assert(s =~= body);
        },
        Some(r) => {
            reveal_strlit(" @ ");
            assert(s =~= body.push(' ').push('@').push(' ') + r);
            let n = body.len() as int + 1;
            assert forall|i: int| n < i < s.len() implies #[trigger] s[i] != '@' by {
                if i > n + 1 {
                    assert(s[i] == r[i - n - 2]);
                    assert(r.contains(r[i - n - 2]));
                }
            }
            crate::text::lemma_last_at_is(s, '@', n);
            assert(s.take(n) =~= body.push(' '));
            let suffix = s.skip(n + 1);
            assert(suffix =~= seq![' '] + r);
            assert(!suffix.contains('/')) by {
                assert forall|i: int| 0 <= i < suffix.len() implies suffix[i] != '/' by {
                    if i > 0 {
                        assert(suffix[i] == r[i - 1]);
                        assert(r.contains(r[i - 1]));
                    }
                }
            }
            lemma_trim_is(body);
            lemma_trim_is(r);
        },
    }
}

proof fn lemma_named_root(name: Seq<char>, rest: Seq<char>)
    requires
        is_name(name),
        !(rest.len() > 0 && rest[0] == '/'),
    ensures
        root_and_rest(name + seq![':'] + rest) == (root_named(name), rest),
{
    let s = name + seq![':'] + rest;
    assert forall|i: int| 0 <= i < name.len() implies #[trigger] s[i] != ':' by {
        assert(s[i] == name[i]);
        assert(is_name_char(name[i]));
    }
    crate::text::lemma_first_at_is(s, ':', name.len() as int);
    assert(s.take(name.len() as int) =~= name);
    assert(s.skip(name.len() as int + 1) =~= rest);
}

proof fn lemma_root_back(root: Root, rest: Seq<char>)
    requires
        root_is_clear(root, rest),
    ensures
        root_and_rest(root_text(root) + rest) == (root, rest),
{
    match root {
        Root::Project => {
            assert(root_text(root) + rest =~= rest);
        },
        Root::Store => {
            reveal_strlit("store:");
            reveal_strlit("store");
            let name = "store"@;
            assert("store:"@ =~= name + seq![':']);
            assert(is_name(name));
            lemma_named_root(name, rest);
        },
        Root::Named(name) => {
            lemma_named_root(name, rest);
        },
    }
}

proof fn lemma_no_text(s: Seq<char>, p: Seq<char>)
    requires
        !crate::text::holds_text(s, p),
    ensures
        crate::text::split_at_text(s, p) is None,
{
    let n = crate::text::first_text_at(s, p);
    assert(!crate::text::occurs_at(s, p, n));
}

proof fn lemma_fragment_split(path: Seq<char>, frag: Seq<char>)
    requires
        !path.contains('#'),
    ensures
        crate::text::split_once(path + (seq!['#'] + frag), '#') == Some((path, frag)),
{
    let s = path + (seq!['#'] + frag);
    assert forall|i: int| 0 <= i < path.len() implies #[trigger] s[i] != '#' by {
        assert(s[i] == path[i]);
        assert(path.contains(path[i]));
    }
    crate::text::lemma_first_at_is(s, '#', path.len() as int);
    assert(s.take(path.len() as int) =~= path);
    assert(s.skip(path.len() as int + 1) =~= frag);
}

/// A number without a sign reads back.
proof fn lemma_count(n: nat)
    requires
        n <= usize::MAX,
    ensures
        count_of(crate::text::digits_of(n)) == Some(n),
        !crate::text::digits_of(n).contains('-'),
        crate::text::digits_of(n).len() >= 1,
        crate::text::is_digit(crate::text::digits_of(n)[0]),
{
    crate::text::lemma_decimal_digits(n);
    let d = crate::text::digits_of(n);
    assert(crate::text::is_digit(d[0]));
    assert(!d.contains('-')) by {
        assert forall|i: int| 0 <= i < d.len() implies d[i] != '-' by {
            assert(crate::text::is_digit(d[i]));
        }
    }
}

proof fn lemma_range_back(start: int, end: int)
    requires
        1 <= start <= end <= usize::MAX,
    ensures
        ({
            let frag = place_text(Place::LineRange(start, end)).skip(1);
            &&& place_text(Place::LineRange(start, end)) == seq!['#'] + frag
            &&& is_range(frag)
            &&& !crate::text::starts_with(frag, "ts:"@)
            &&& range_of(frag) == Some(Place::LineRange(start, end))
        }),
{
    reveal_strlit("#L");
    reveal_strlit("ts:");
    let text = place_text(Place::LineRange(start, end));
    let frag = text.skip(1);
    let first = crate::text::digits_of(start as nat);
    let last = crate::text::digits_of(end as nat);
    lemma_count(start as nat);
    lemma_count(end as nat);
    assert(text =~= seq!['#'] + frag);
    assert(frag[0] == 'L');
    assert(frag[1] == first[0]);
    if crate::text::starts_with(frag, "ts:"@) {
        assert(frag.subrange(0, 3)[0] == frag[0]);
    }
    let numbers = frag.skip(1);
    if start == end {
        assert(numbers =~= first);
        crate::text::lemma_first_at(numbers, '-');
        let n = crate::text::first_at(numbers, '-');
        if n < numbers.len() {
            assert(numbers.contains(numbers[n]));
        }
    } else {
        assert(numbers =~= first + (seq!['-'] + last));
        assert forall|i: int| 0 <= i < first.len() implies #[trigger] numbers[i] != '-' by {
            assert(numbers[i] == first[i]);
            assert(first.contains(first[i]));
        }
        crate::text::lemma_first_at_is(numbers, '-', first.len() as int);
        assert(numbers.take(first.len() as int) =~= first);
        assert(numbers.skip(first.len() as int + 1) =~= last);
    }
}

proof fn lemma_quote_back(path: Seq<char>, needle: Seq<char>)
    requires
        place_is_clear(path, Place::Quote(needle)),
    ensures
        path_and_place(path + place_text(Place::Quote(needle))) == Ok::<
            (Seq<char>, Place),
            Seq<char>,
        >((path, Place::Quote(needle))),
{
    reveal_strlit("?q=");
    let mark = "?q="@;
    let text = place_text(Place::Quote(needle));
    let s = path + text;
    let quoted = seq!['"'] + needle + seq!['"'];
    let n = path.len() as int;
    assert(s.subrange(n, n + 3) =~= mark);
    assert forall|k: int| 0 <= k < n implies !crate::text::occurs_at(s, mark, k) by {
        if crate::text::occurs_at(s, mark, k) {
            assert(s.subrange(k, k + 3)[0] == s[k] && s.subrange(k, k + 3)[1] == s[k + 1]
                && s.subrange(k, k + 3)[2] == s[k + 2]);
            assert(s[k] == '?' && s[k + 1] == 'q' && s[k + 2] == '=');
            if k + 3 <= n {
                assert(path.subrange(k, k + 3) =~= mark);
                assert(crate::text::occurs_at(path, mark, k));
            } else {
                assert(s[n] == '?');
            }
        }
    }
    crate::text::lemma_first_text_at(s, mark, n);
    assert(s.take(n) =~= path);
    assert(s.skip(n + 3) =~= quoted);
    assert(is_trim(quoted));
    lemma_trim_is(quoted);
    let t = quoted.skip(1);
    assert(t =~= needle.push('"'));
    assert(needle.push('"').drop_last() =~= needle);
    if needle.len() > 0 {
        assert(without_start_quotes(t) == t);
        assert(without_start_quotes(quoted) == t);
        assert(without_end_quotes(t) == without_end_quotes(needle));
    } else {
        assert(t.skip(1) =~= Seq::<char>::empty());
        assert(without_start_quotes(t) == without_start_quotes(t.skip(1)));
        assert(without_start_quotes(quoted) == without_start_quotes(t));
        assert(needle =~= Seq::<char>::empty());
    }
}

proof fn lemma_place_back(path: Seq<char>, place: Place)
    requires
        place_is_clear(path, place),
    ensures
        path_and_place(path + place_text(place)) == Ok::<(Seq<char>, Place), Seq<char>>(
            (path, place),
        ),
{
    let s = path + place_text(place);
    match place {
        Place::Quote(needle) => {
            lemma_quote_back(path, needle);
        },
        Place::Whole => {
            lemma_no_text(s, "?q="@);
            assert(s =~= path);
            crate::text::lemma_first_at(path, '#');
            let n = crate::text::first_at(path, '#');
            if n < path.len() {
                assert(path.contains(path[n]));
            }
        },
        Place::Heading(heading) => {
            lemma_no_text(s, "?q="@);
            lemma_fragment_split(path, heading);
        },
        Place::LineRange(start, end) => {
            lemma_no_text(s, "?q="@);
            lemma_range_back(start, end);
            lemma_fragment_split(path, place_text(place).skip(1));
        },
        Place::TreeSitter(lang, query) => {
            lemma_no_text(s, "?q="@);
            reveal_strlit("#ts:");
            reveal_strlit("ts:");
            let frag = "ts:"@ + query;
            assert(place_text(place) =~= seq!['#'] + frag);
            lemma_fragment_split(path, frag);
            assert(frag.subrange(0, 3) =~= "ts:"@);
            assert(frag.skip(3) =~= query);
        },
    }
}

/// A rendered source reads back as what was rendered, wherever its parts can be
/// told apart.
pub proof fn law_rendered_source_reads_back(reference: Reference, place: Place)
    requires
        is_clear(reference, place),
    ensures
        source_reading(source_text(reference, place), None) == Ok::<(Reference, Place), Seq<char>>(
            (reference, place),
        ),
{
    let s = source_text(reference, place);
    let rest = reference.path + place_text(place);
    let body = root_text(reference.root) + rest;
    assert(s =~= body + rev_text(reference.rev));
    if body.len() == 0 {
        assert(s =~= rev_text(reference.rev));
        assert(body =~= Seq::<char>::empty());
        lemma_lone_rev_back(reference.rev->Some_0);
    } else {
        lemma_rev_back(body, reference.rev);
        lemma_trim_is(s);
    }
    lemma_root_back(reference.root, rest);
    lemma_place_back(reference.path, place);
}

} // verus!
