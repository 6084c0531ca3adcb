//! What a locator selects of a text.

use crate::schema::Locator;
use vstd::prelude::*;

verus! {

// ---------------------------------------------------------------------------
// Lines
// ---------------------------------------------------------------------------

/// Whether a text is a line: it holds no line feed, and ends in no carriage return.
pub open spec fn is_line(s: Seq<char>) -> bool {
    &&& forall|i: int| 0 <= i < s.len() ==> #[trigger] s[i] != '\n'
    &&& s.len() > 0 ==> s.last() != '\r'
}

/// A line feed, behind a carriage return where one is wanted.
pub open spec fn line_end(crs: bool) -> Seq<char> {
    if crs {
        seq!['\r', '\n']
    } else {
        seq!['\n']
    }
}

/// Lines written one below the other, each with its end.
pub open spec fn written(lines: Seq<Seq<char>>, crs: Seq<bool>) -> Seq<char>
    decreases lines.len(),
{
    if lines.len() == 0 {
        Seq::empty()
    } else {
        lines[0] + line_end(crs[0]) + written(lines.skip(1), crs.skip(1))
    }
}

/// Lines with a line feed between each two.
pub open spec fn stacked(lines: Seq<Seq<char>>) -> Seq<char>
    decreases lines.len(),
{
    if lines.len() == 0 {
        Seq::empty()
    } else if lines.len() == 1 {
        lines[0]
    } else {
        lines[0] + seq!['\n'] + stacked(lines.skip(1))
    }
}

/// Whether a text is some lines, each ended by a line feed, with or without a carriage
/// return, but perhaps for the last.
pub open spec fn consists_of(
    content: Seq<char>,
    lines: Seq<Seq<char>>,
    crs: Seq<bool>,
    ended: bool,
) -> bool {
    &&& crs.len() == lines.len()
    &&& forall|i: int| 0 <= i < lines.len() ==> is_line(#[trigger] lines[i])
    &&& if ended {
        content == written(lines, crs)
    } else {
        &&& lines.len() > 0
        &&& lines.last().len() > 0
        &&& content == written(lines.drop_last(), crs.drop_last()) + lines.last()
    }
}

/// The lines of a text that starts with a line.
proof fn lemma_first_line(line: Seq<char>, crs: bool, rest: Seq<char>)
    requires
        is_line(line),
    ensures
        crate::resolve::lines(line + line_end(crs) + rest) == seq![line]
            + crate::resolve::lines(rest),
{
    let s = line + line_end(crs) + rest;
    let n = line.len() + line_end(crs).len() - 1;
    assert forall|i: int| 0 <= i < n implies #[trigger] s[i] != '\n' by {
        if i < line.len() {
            assert(s[i] == line[i]);
        }
    }
    assert(s[n] == '\n');
    crate::text::lemma_first_at_is(s, '\n', n);
    assert(s.skip(n + 1) =~= rest);
    if crs {
        assert(s.take(n) =~= line.push('\r'));
        assert(line.push('\r').drop_last() =~= line);
    } else {
        assert(s.take(n) =~= line);
    }
}

proof fn lemma_lines_written(lines: Seq<Seq<char>>, crs: Seq<bool>, tail: Seq<char>)
    requires
        crs.len() == lines.len(),
        forall|i: int| 0 <= i < lines.len() ==> is_line(#[trigger] lines[i]),
        forall|i: int| 0 <= i < tail.len() ==> #[trigger] tail[i] != '\n',
    ensures
        crate::resolve::lines(written(lines, crs) + tail) == if tail.len() == 0 {
            lines
        } else {
            lines.push(tail)
        },
    decreases lines.len(),
{
    if lines.len() == 0 {
        assert(written(lines, crs) + tail =~= tail);
        crate::text::lemma_first_at_is(tail, '\n', tail.len() as int);
        assert(crate::resolve::lines(tail) =~= if tail.len() == 0 {
            lines
        } else {
            lines.push(tail)
        });
    } else {
        let rest = lines.skip(1);
        let more = crs.skip(1);
        assert forall|i: int| 0 <= i < rest.len() implies is_line(#[trigger] rest[i]) by {
            assert(rest[i] == lines[i + 1]);
        }
        lemma_lines_written(rest, more, tail);
        assert(written(lines, crs) + tail =~= lines[0] + line_end(crs[0]) + (written(
            rest,
            more,
        ) + tail));
        assert(is_line(lines[0]));
        lemma_first_line(lines[0], crs[0], written(rest, more) + tail);
        assert(seq![lines[0]] + rest =~= lines);
        assert(seq![lines[0]] + rest.push(tail) =~= lines.push(tail));
    }
}

/// The lines of a text are the lines it consists of.
pub proof fn lemma_lines_are(
    content: Seq<char>,
    lines: Seq<Seq<char>>,
    crs: Seq<bool>,
    ended: bool,
)
    requires
        consists_of(content, lines, crs, ended),
    ensures
        crate::resolve::lines(content) == lines,
{
    let empty = Seq::<char>::empty();
    if ended {
        lemma_lines_written(lines, crs, empty);
        assert(written(lines, crs) + empty =~= written(lines, crs));
    } else {
        let front = lines.drop_last();
        assert forall|i: int| 0 <= i < front.len() implies is_line(#[trigger] front[i]) by {
            assert(front[i] == lines[i]);
        }
        assert(is_line(lines[lines.len() - 1]));
        lemma_lines_written(front, crs.drop_last(), lines.last());
        assert(front.push(lines.last()) =~= lines);
    }
}

proof fn lemma_stacked_joined(lines: Seq<Seq<char>>)
    ensures
        crate::text::joined(lines, "\n"@) == stacked(lines),
    decreases lines.len(),
{
    reveal_strlit("\n");
    assert("\n"@ =~= seq!['\n']);
    if lines.len() > 1 {
        let front = lines.drop_last();
        lemma_stacked_joined(front);
        lemma_stacked_last(lines);
    }
}

proof fn lemma_stacked_last(lines: Seq<Seq<char>>)
    requires
        lines.len() > 1,
    ensures
        stacked(lines) == stacked(lines.drop_last()) + seq!['\n'] + lines.last(),
    decreases lines.len(),
{
    let rest = lines.skip(1);
    if lines.len() > 2 {
        lemma_stacked_last(rest);
        assert(rest.drop_last() =~= lines.drop_last().skip(1));
        assert(rest.last() == lines.last());
        assert(lines.drop_last()[0] == lines[0]);
        assert(stacked(lines) =~= stacked(lines.drop_last()) + seq!['\n'] + lines.last());
    } else {
        assert(rest[0] == lines.last());
        assert(lines.drop_last()[0] == lines[0]);
        assert(stacked(rest) == rest[0]);
        assert(stacked(lines.drop_last()) == lines[0]);
        assert(stacked(lines) =~= stacked(lines.drop_last()) + seq!['\n'] + lines.last());
    }
}

/// A range of lines selects exactly the lines from its start to its end, with a line
/// feed between each two. An end behind the last line selects up to the last line, and
/// a start behind it selects nothing.
pub proof fn law_range_selects_its_lines(
    content: Seq<char>,
    lines: Seq<Seq<char>>,
    crs: Seq<bool>,
    ended: bool,
    start: usize,
    end: usize,
)
    requires
        consists_of(content, lines, crs, ended),
        1 <= start <= end,
    ensures
        ({
            let span = crate::resolve::located(Locator::LineRange { start, end }, content);
            let last = if end <= lines.len() {
                end as int
            } else {
                lines.len() as int
            };
            if start <= lines.len() {
                span == Ok::<Option<Seq<char>>, Seq<char>>(
                    Some(stacked(lines.subrange(start - 1, last))),
                )
            } else {
                span == Ok::<Option<Seq<char>>, Seq<char>>(None)
            }
        }),
        crate::resolve::range_is_sound(content, start as int, end as int),
{
    lemma_lines_are(content, lines, crs, ended);
    let last = if end <= lines.len() {
        end as int
    } else {
        lines.len() as int
    };
    if start <= lines.len() {
        lemma_stacked_joined(lines.subrange(start - 1, last));
    }
}

/// A range that starts at line zero selects nothing.
pub proof fn law_no_line_is_the_zeroth(content: Seq<char>, end: usize)
    ensures
        crate::resolve::located(Locator::LineRange { start: 0, end }, content) == Ok::<
            Option<Seq<char>>,
            Seq<char>,
        >(None),
{
}

/// The whole is the text as it is.
pub proof fn law_whole_selects_everything(content: Seq<char>)
    ensures
        crate::resolve::located(Locator::Whole, content) == Ok::<Option<Seq<char>>, Seq<char>>(
            Some(content),
        ),
{
}

/// A quote selects itself where the text holds it, and nothing elsewhere.
pub proof fn law_quote_selects_itself(content: Seq<char>, needle: String)
    ensures
        crate::resolve::located(Locator::Quote { needle }, content) == Ok::<
            Option<Seq<char>>,
            Seq<char>,
        >(
            if super::text::is_around(content, needle@) {
                Some(needle@)
            } else {
                None
            },
        ),
{
    super::text::law_holding(content, needle@);
}

// ---------------------------------------------------------------------------
// Sections
// ---------------------------------------------------------------------------

/// Some `#`.
pub open spec fn hashes(n: nat) -> Seq<char> {
    Seq::new(n, |i: int| '#')
}

proof fn lemma_hash_run(n: nat, tail: Seq<char>)
    requires
        tail.len() > 0 ==> tail[0] != '#',
    ensures
        crate::resolve::hash_run(hashes(n) + tail) == n,
    decreases n,
{
    let s = hashes(n) + tail;
    if n > 0 {
        assert(s[0] == '#');
        assert(s.skip(1) =~= hashes((n - 1) as nat) + tail);
        lemma_hash_run((n - 1) as nat, tail);
    } else {
        assert(s =~= tail);
    }
}

/// A heading is some `#`, perhaps behind white space, and then a text, with any white
/// space around it. Its level is the number of `#`.
pub proof fn law_headings(
    level: nat,
    text: Seq<char>,
    a: Seq<char>,
    b: Seq<char>,
    c: Seq<char>,
)
    requires
        level > 0,
        text.len() > 0,
        super::text::is_tight(text),
        super::text::is_blank(a),
        super::text::is_blank(b),
        super::text::is_blank(c),
        b.len() > 0 || text[0] != '#',
    ensures
        crate::resolve::heading_spec(a + hashes(level) + b + text + c) == Some((level, text)),
{
    let rest = b + text + c;
    let s = hashes(level) + rest;
    let line = a + hashes(level) + b + text + c;
    assert(line =~= a + s);
    assert(s[0] == '#');
    super::text::lemma_blank_before(a, s);
    assert(crate::text::trim_start(s) == s);
    if b.len() > 0 {
        assert(rest[0] == b[0]);
        assert(crate::text::is_space(b[0]));
    } else {
        assert(rest[0] == text[0]);
    }
    lemma_hash_run(level, rest);
    assert(s.skip(level as int) =~= rest);
    super::text::lemma_trim_around(b, text, c);
    super::text::lemma_trim_tight(text);
}

/// A line is no heading where something else than a `#` stands first, or nothing but
/// white space behind the `#`.
pub proof fn law_no_headings(line: Seq<char>, a: Seq<char>, n: nat, b: Seq<char>)
    requires
        super::text::is_blank(a),
        ({
            ||| line == a + b && b.len() > 0 && b[0] != '#' && !crate::text::is_space(b[0])
            ||| line == a + hashes(n) + b && super::text::is_blank(b)
        }),
    ensures
        crate::resolve::heading_spec(line) is None,
{
    if line == a + b && b.len() > 0 && b[0] != '#' && !crate::text::is_space(b[0]) {
        super::text::lemma_blank_before(a, b);
    } else {
        let s = hashes(n) + b;
        assert(line =~= a + s);
        super::text::lemma_blank_before(a, s);
        if n == 0 {
            assert(s =~= b);
            super::text::lemma_blank_before(b, Seq::empty());
            assert(b + Seq::<char>::empty() =~= b);
        } else {
            assert(s[0] == '#');
            if b.len() > 0 {
                assert(crate::text::is_space(b[0]));
            }
            lemma_hash_run(n, b);
            assert(s.skip(n as int) =~= b);
            super::text::lemma_trim_empty(b);
        }
    }
}

/// Whether a line is the heading that is asked for, in whatever case.
pub open spec fn is_wanted(line: Seq<char>, wanted: Seq<char>) -> bool {
    crate::resolve::heading_spec(line) matches Some((_, text)) && super::text::same_letters(
        text,
        wanted,
    )
}

/// Whether a line is a heading of a level, or of one above it.
pub open spec fn is_heading_up_to(line: Seq<char>, level: nat) -> bool {
    crate::resolve::heading_spec(line) matches Some((l, _)) && l <= level
}

proof fn lemma_start_is(all: Seq<Seq<char>>, wanted: Seq<char>, from: int, start: int)
    requires
        0 <= from <= start <= all.len(),
        start < all.len() ==> is_wanted(all[start], wanted),
        forall|k: int| from <= k < start ==> !is_wanted(#[trigger] all[k], wanted),
    ensures
        crate::resolve::section_start(all, crate::text::small_text(wanted), from) == start,
    decreases start - from,
{
    if from < all.len() {
        if crate::resolve::heading_spec(all[from]) is Some {
            let text = crate::resolve::heading_spec(all[from])->Some_0.1;
            super::text::law_small_letters(text, wanted);
        }
        if from < start {
            assert(!is_wanted(all[from], wanted));
            lemma_start_is(all, wanted, from + 1, start);
        }
    }
}

proof fn lemma_end_is(all: Seq<Seq<char>>, level: nat, from: int, end: int)
    requires
        0 <= from <= end <= all.len(),
        end < all.len() ==> is_heading_up_to(all[end], level),
        forall|k: int| from <= k < end ==> !is_heading_up_to(#[trigger] all[k], level),
    ensures
        crate::resolve::section_end(all, level, from) == end,
    decreases end - from,
{
    if from < end {
        assert(!is_heading_up_to(all[from], level));
        lemma_end_is(all, level, from + 1, end);
    }
}

/// A heading selects its section: the first line that is this heading, in whatever case
/// and with whatever white space around what is asked for, and all lines behind it up to
/// the next heading of its level or above.
pub proof fn law_heading_selects_its_section(
    content: Seq<char>,
    lines: Seq<Seq<char>>,
    crs: Seq<bool>,
    ended: bool,
    heading: String,
    wanted: Seq<char>,
    a: Seq<char>,
    b: Seq<char>,
    start: int,
    end: int,
)
    requires
        consists_of(content, lines, crs, ended),
        heading@ == a + wanted + b,
        super::text::is_blank(a),
        super::text::is_blank(b),
        super::text::is_tight(wanted),
        0 <= start < end <= lines.len(),
        is_wanted(lines[start], wanted),
        forall|k: int| 0 <= k < start ==> !is_wanted(#[trigger] lines[k], wanted),
        forall|k: int|
            start < k < end ==> !is_heading_up_to(
                #[trigger] lines[k],
                crate::resolve::heading_spec(lines[start])->Some_0.0,
            ),
        end < lines.len() ==> is_heading_up_to(
            lines[end],
            crate::resolve::heading_spec(lines[start])->Some_0.0,
        ),
    ensures
        crate::resolve::located(Locator::Heading { heading }, content) == Ok::<
            Option<Seq<char>>,
            Seq<char>,
        >(Some(stacked(lines.subrange(start, end)))),
{
    lemma_lines_are(content, lines, crs, ended);
    super::text::lemma_trim_around(a, wanted, b);
    super::text::lemma_trim_tight(wanted);
    lemma_start_is(lines, wanted, 0, start);
    lemma_end_is(lines, crate::resolve::heading_spec(lines[start])->Some_0.0, start + 1, end);
    lemma_stacked_joined(lines.subrange(start, end));
}

/// A heading that no line is selects nothing.
pub proof fn law_missing_heading_selects_nothing(
    content: Seq<char>,
    lines: Seq<Seq<char>>,
    crs: Seq<bool>,
    ended: bool,
    heading: String,
)
    requires
        consists_of(content, lines, crs, ended),
        forall|k: int|
            0 <= k < lines.len() ==> !is_wanted(
                #[trigger] lines[k],
                crate::text::trim(heading@),
            ),
    ensures
        crate::resolve::located(Locator::Heading { heading }, content) == Ok::<
            Option<Seq<char>>,
            Seq<char>,
        >(None),
{
    lemma_lines_are(content, lines, crs, ended);
    lemma_start_is(lines, crate::text::trim(heading@), 0, lines.len() as int);
}

} // verus!
