//! How sources are written down and read.

use crate::schema::{GroundBinding, GroundSource};
use vstd::prelude::*;

verus! {

/// How a source is written: its root, its path, its place and its revision.
pub open spec fn as_written(
    reference: crate::locator::Reference,
    place: crate::locator::Place,
) -> Seq<char> {
    (match reference.root {
        crate::locator::Root::Project => Seq::<char>::empty(),
        crate::locator::Root::Store => seq!['s', 't', 'o', 'r', 'e', ':'],
        crate::locator::Root::Named(name) => name + seq![':'],
    }) + reference.path + (match place {
        crate::locator::Place::Whole => Seq::<char>::empty(),
        crate::locator::Place::Heading(heading) => seq!['#'] + heading,
        crate::locator::Place::Quote(needle) => seq!['?', 'q', '=', '"'] + needle + seq!['"'],
        crate::locator::Place::LineRange(start, end) => if start == end {
            seq!['#', 'L'] + crate::text::digits_of(start as nat)
        } else {
            seq!['#', 'L'] + crate::text::digits_of(start as nat) + seq!['-']
                + crate::text::digits_of(end as nat)
        },
        crate::locator::Place::TreeSitter(_, query) => seq!['#', 't', 's', ':'] + query,
    }) + (match reference.rev {
        Some(rev) => seq![' ', '@', ' '] + rev,
        None => Seq::<char>::empty(),
    })
}

/// A source is shown as it is written, and what is written is read as what it was, where
/// each of its parts can be told from the others.
pub proof fn law_sources_are_read_as_written(
    reference: crate::locator::Reference,
    place: crate::locator::Place,
)
    ensures
        crate::locator::source_text(reference, place) == as_written(reference, place),
        crate::locator::is_clear(reference, place) ==> crate::locator::source_reading(
            as_written(reference, place),
            None,
        ) == Ok::<(crate::locator::Reference, crate::locator::Place), Seq<char>>(
            (reference, place),
        ),
{
    reveal_strlit("store:");
    reveal_strlit("?q=");
    reveal_strlit("#L");
    reveal_strlit("#ts:");
    reveal_strlit(" @ ");
    let s = crate::locator::source_text(reference, place);
    assert(s =~= as_written(reference, place));
    if crate::locator::is_clear(reference, place) {
        crate::locator::law_rendered_source_reads_back(reference, place);
    }
}

/// White space around a source makes no difference. A revision that is given wins over one
/// that is written, and nothing else of the source depends on it.
pub proof fn law_given_revisions_win(
    a: Seq<char>,
    s: Seq<char>,
    b: Seq<char>,
    rev: Seq<char>,
)
    requires
        super::text::is_blank(a),
        super::text::is_blank(b),
    ensures
        crate::locator::source_reading(a + s + b, None) == crate::locator::source_reading(s, None),
        super::text::is_blank(s) ==> crate::locator::source_reading(s, None) is Err,
        crate::locator::source_reading(s, Some(rev)) is Ok <==> crate::locator::source_reading(
            s,
            None,
        ) is Ok,
        crate::locator::source_reading(s, Some(rev)) is Ok ==> {
            let (given, place) = crate::locator::source_reading(s, Some(rev))->Ok_0;
            let (written, same) = crate::locator::source_reading(s, None)->Ok_0;
            &&& given.rev == Some(rev)
            &&& given.root == written.root
            &&& given.path == written.path
            &&& place == same
        },
{
    super::text::lemma_trim_around(a, s, b);
    super::text::lemma_trim_empty(s);
}

/// What stands before the first colon is a root, where it is a name and no slash follows;
/// `store` and `project` are names of their own. Without a root, a path is one of the
/// project, and an address of the web is a path.
pub proof fn law_roots_stand_before_a_colon(name: Seq<char>, rest: Seq<char>)
    requires
        !name.contains(':'),
    ensures
        crate::locator::root_and_rest(name) == (crate::locator::Root::Project, name),
        ({
            let body = name + seq![':'] + rest;
            let (root, behind) = crate::locator::root_and_rest(body);
            let is_root = crate::locator::is_name(name) && (rest.len() == 0 || rest[0] != '/');
            &&& !is_root ==> root == crate::locator::Root::Project && behind == body
            &&& is_root ==> behind == rest
            &&& is_root && name == seq!['s', 't', 'o', 'r', 'e'] ==> root
                == crate::locator::Root::Store
            &&& is_root && name == seq!['p', 'r', 'o', 'j', 'e', 'c', 't'] ==> root
                == crate::locator::Root::Project
            &&& is_root && name != seq!['s', 't', 'o', 'r', 'e'] && name != seq![
                'p',
                'r',
                'o',
                'j',
                'e',
                'c',
                't',
            ] ==> root == crate::locator::Root::Named(name)
        }),
{
    reveal_strlit("store");
    reveal_strlit("project");
    assert("store"@ =~= seq!['s', 't', 'o', 'r', 'e']);
    assert("project"@ =~= seq!['p', 'r', 'o', 'j', 'e', 'c', 't']);
    assert("store"@.len() == 5 && "project"@.len() == 7);
    let body = name + seq![':'] + rest;
    let n = name.len() as int;
    assert forall|i: int| 0 <= i < n implies #[trigger] body[i] != ':' by {
        assert(body[i] == name[i]);
        assert(name.contains(name[i]));
    }
    assert(body[n] == ':');
    crate::text::lemma_first_at_is(body, ':', n);
    assert(body.take(n) =~= name);
    assert(body.skip(n + 1) =~= rest);
    crate::text::lemma_first_at(name, ':');
    let m = crate::text::first_at(name, ':');
    if m < n {
        assert(name.contains(name[m]));
    }
}

/// The characters of a root's name.
pub proof fn law_names_of_roots(s: Seq<char>)
    ensures
        crate::locator::is_name(s) <==> s.len() > 0 && forall|i: int|
            0 <= i < s.len() ==> {
                let c = #[trigger] s[i];
                ('a' <= c && c <= 'z') || ('A' <= c && c <= 'Z') || ('0' <= c && c <= '9') || c
                    == '-' || c == '_'
            },
{
    if crate::locator::is_name(s) {
        assert forall|i: int| 0 <= i < s.len() implies {
            let c = #[trigger] s[i];
            ('a' <= c && c <= 'z') || ('A' <= c && c <= 'Z') || ('0' <= c && c <= '9') || c == '-'
                || c == '_'
        } by {
            assert(crate::locator::is_name_char(s[i]));
        }
    }
}

/// A range names its first line and its last, or one line that is both. The first line is
/// no less than one, and the last no less than the first.
pub proof fn law_line_ranges(path: Seq<char>, start: nat, end: nat)
    requires
        start <= usize::MAX,
        end <= usize::MAX,
    ensures
        ({
            let frag = seq!['L'] + crate::text::digits_of(start) + seq!['-']
                + crate::text::digits_of(end);
            let place = crate::locator::fragment_place(path, frag);
            &&& 1 <= start <= end ==> place == Ok::<crate::locator::Place, Seq<char>>(
                crate::locator::Place::LineRange(start as int, end as int),
            )
            &&& start == 0 || end < start ==> place is Err
        }),
        ({
            let place = crate::locator::fragment_place(
                path,
                seq!['L'] + crate::text::digits_of(start),
            );
            &&& 1 <= start ==> place == Ok::<crate::locator::Place, Seq<char>>(
                crate::locator::Place::LineRange(start as int, start as int),
            )
            &&& start == 0 ==> place is Err
        }),
{
    let a = crate::text::digits_of(start);
    let b = crate::text::digits_of(end);
    let frag = seq!['L'] + a + seq!['-'] + b;
    let one = seq!['L'] + a;
    reveal_strlit("ts:");
    crate::text::lemma_decimal_digits(start);
    crate::text::lemma_decimal_digits(end);
    assert(crate::text::is_digit(a[0]) && crate::text::is_digit(b[0]));
    assert(frag[0] == 'L' && frag[1] == a[0] && one[0] == 'L' && one[1] == a[0]);
    if crate::text::starts_with(frag, "ts:"@) {
        assert(frag.subrange(0, 3)[0] == 'L');
    }
    if crate::text::starts_with(one, "ts:"@) {
        assert(one.subrange(0, 3)[0] == 'L');
    }
    let numbers = frag.skip(1);
    assert(numbers =~= a + seq!['-'] + b);
    let n = a.len() as int;
    assert forall|i: int| 0 <= i < n implies #[trigger] numbers[i] != '-' by {
        assert(numbers[i] == a[i]);
        assert(crate::text::is_digit(a[i]));
    }
    assert(numbers[n] == '-');
    crate::text::lemma_first_at_is(numbers, '-', n);
    assert(numbers.take(n) =~= a);
    assert(numbers.skip(n + 1) =~= b);
    assert(one.skip(1) =~= a);
    assert forall|i: int| 0 <= i < n implies #[trigger] a[i] != '-' by {
        assert(crate::text::is_digit(a[i]));
    }
    crate::text::lemma_first_at_is(a, '-', n);
}

/// The extensions that tell a language, and the language of each.
pub open spec fn languages() -> Seq<(Seq<char>, Seq<char>)> {
    seq![
        ("rs"@, "rust"@),
        ("md"@, "markdown"@),
        ("markdown"@, "markdown"@),
        ("ts"@, "typescript"@),
        ("tsx"@, "typescript"@),
        ("js"@, "javascript"@),
        ("jsx"@, "javascript"@),
        ("py"@, "python"@),
        ("go"@, "go"@),
    ]
}

/// The language of a file is told by what follows the last full stop of its path; any
/// other file is text.
pub proof fn law_extensions_tell_languages(stem: Seq<char>, k: int, other: Seq<char>)
    requires
        0 <= k < languages().len(),
        !other.contains('.'),
        forall|i: int| 0 <= i < languages().len() ==> (#[trigger] languages()[i]).0 != other,
    ensures
        crate::locator::language(stem + seq!['.'] + languages()[k].0) == languages()[k].1,
        crate::locator::language(stem + seq!['.'] + other) == "text"@,
        crate::locator::language(other) == "text"@,
{
    reveal_strlit("rs");
    reveal_strlit("md");
    reveal_strlit("markdown");
    reveal_strlit("ts");
    reveal_strlit("tsx");
    reveal_strlit("js");
    reveal_strlit("jsx");
    reveal_strlit("py");
    reveal_strlit("go");
    let ext = languages()[k].0;
    assert(!ext.contains('.'));
    assert(ext[0] == 'r' || ext[0] == 'm' || ext[0] == 't' || ext[0] == 'j' || ext[0] == 'p'
        || ext[0] == 'g');
    lemma_extension(stem, ext);
    lemma_extension(stem, other);
    assert(languages()[0].0 != other && languages()[1].0 != other && languages()[2].0 != other
        && languages()[3].0 != other && languages()[4].0 != other && languages()[5].0 != other
        && languages()[6].0 != other && languages()[7].0 != other && languages()[8].0 != other);
    crate::text::lemma_last_at(other, '.');
    let m = crate::text::last_at(other, '.');
    if m >= 0 {
        assert(other.contains(other[m]));
    }
    assert("rs"@[0] == 'r' && "md"@[0] == 'm' && "markdown"@[0] == 'm' && "ts"@[0] == 't'
        && "tsx"@[0] == 't' && "js"@[0] == 'j' && "jsx"@[0] == 'j' && "py"@[0] == 'p' && "go"@[0]
        == 'g');
    assert("md"@.len() == 2 && "markdown"@.len() == 8 && "ts"@.len() == 2 && "tsx"@.len() == 3
        && "js"@.len() == 2 && "jsx"@.len() == 3);
}

proof fn lemma_extension(stem: Seq<char>, ext: Seq<char>)
    requires
        !ext.contains('.'),
    ensures
        crate::text::rsplit_once(stem + seq!['.'] + ext, '.') == Some((stem, ext)),
{
    let path = stem + seq!['.'] + ext;
    let n = stem.len() as int;
    assert forall|i: int| n < i < path.len() implies #[trigger] path[i] != '.' by {
        assert(path[i] == ext[i - n - 1]);
        assert(ext.contains(ext[i - n - 1]));
    }
    crate::text::lemma_last_at_is(path, '.', n);
    assert(path.take(n) =~= stem);
    assert(path.skip(n + 1) =~= ext);
}

/// Quotes around a quoted text are taken off, and none within it.
pub proof fn law_quotes_are_taken_off(s: Seq<char>)
    requires
        s.len() > 0 ==> s[0] != '"' && s.last() != '"',
    ensures
        crate::locator::unquoted(seq!['"'] + s + seq!['"']) == s,
        crate::locator::unquoted(s) == s,
{
    let t = s + seq!['"'];
    let q = seq!['"'] + s + seq!['"'];
    assert(q.skip(1) =~= t);
    assert(t.drop_last() =~= s);
    if s.len() > 0 {
        assert(t[0] == s[0]);
        assert(crate::locator::without_start_quotes(t) == t);
        assert(crate::locator::without_start_quotes(q) == t);
        assert(crate::locator::without_end_quotes(t) == crate::locator::without_end_quotes(s));
    } else {
        assert(t.skip(1) =~= s);
        assert(crate::locator::without_start_quotes(t) == crate::locator::without_start_quotes(s));
    }
}

/// A ground is shown by its source: a file as it is written, a command behind a dollar
/// sign, a generator by its name and its hash, and a handler as a source of its scheme.
pub proof fn law_grounds_are_written(binding: GroundBinding)
    ensures
        binding.source matches GroundSource::File(src) ==> crate::locator::ground_text(binding)
            == as_written(src@, binding.locator@),
        binding.source matches GroundSource::Command(cmd) ==> crate::locator::ground_text(binding)
            == seq!['$', ' '] + crate::text::joined(crate::text::texts(cmd.argv@), seq![' ']),
        binding.source matches GroundSource::Generator(g) ==> crate::locator::ground_text(binding)
            == seq!['g', 'e', 'n', ' '] + crate::schema::name_at_hash(g.name@, g.hash.0@),
        binding.source matches GroundSource::Handler(h) ==> crate::locator::ground_text(binding)
            == as_written(
            crate::locator::Reference {
                root: crate::locator::Root::Named(h.handler.scheme@),
                path: h.reference@,
                rev: crate::text::option_text(h.rev),
            },
            binding.locator@,
        ),
{
    reveal_strlit("$ ");
    reveal_strlit(" ");
    reveal_strlit("gen ");
    assert("$ "@ =~= seq!['$', ' ']);
    assert(" "@ =~= seq![' ']);
    assert("gen "@ =~= seq!['g', 'e', 'n', ' ']);
    match binding.source {
        GroundSource::File(src) => {
            law_sources_are_read_as_written(src@, binding.locator@);
        },
        GroundSource::Handler(h) => {
            law_sources_are_read_as_written(
                crate::locator::Reference {
                    root: crate::locator::Root::Named(h.handler.scheme@),
                    path: h.reference@,
                    rev: crate::text::option_text(h.rev),
                },
                binding.locator@,
            );
        },
        _ => {},
    }
}

} // verus!
