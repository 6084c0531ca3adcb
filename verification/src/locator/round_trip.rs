//! What is read can be written and read again.

use super::{Place, Reference, Root};
use vstd::prelude::*;

verus! {

// ---------------------------------------------------------------------------
// What is left when the ends are taken off
// ---------------------------------------------------------------------------

/// What `trim_start` leaves, and what it takes.
proof fn lemma_trim_start(s: Seq<char>) -> (k: int)
    ensures
        0 <= k <= s.len(),
        crate::text::trim_start(s) == s.skip(k),
        forall|i: int| 0 <= i < k ==> crate::text::is_space(#[trigger] s[i]),
        k < s.len() ==> !crate::text::is_space(s[k]),
    decreases s.len(),
{
    if s.len() > 0 && crate::text::is_space(s[0]) {
        let t = s.skip(1);
        let k = lemma_trim_start(t) + 1;
        assert(t.skip(k - 1) =~= s.skip(k));
        assert forall|i: int| 0 <= i < k implies crate::text::is_space(#[trigger] s[i]) by {
            if i > 0 {
                assert(t[i - 1] == s[i]);
            }
        }
        if k < s.len() {
            assert(t[k - 1] == s[k]);
        }
        k
    } else {
        assert(s.skip(0) =~= s);
        0
    }
}

/// What `trim_end` leaves, and what it takes.
proof fn lemma_trim_end(s: Seq<char>) -> (k: int)
    ensures
        0 <= k <= s.len(),
        crate::text::trim_end(s) == s.take(k),
        forall|i: int| k <= i < s.len() ==> crate::text::is_space(#[trigger] s[i]),
        k > 0 ==> !crate::text::is_space(s[k - 1]),
    decreases s.len(),
{
    if s.len() > 0 && crate::text::is_space(s.last()) {
        let t = s.drop_last();
        let k = lemma_trim_end(t);
        assert(t.take(k) =~= s.take(k));
        assert forall|i: int| k <= i < s.len() implies crate::text::is_space(#[trigger] s[i]) by {
            if i < s.len() - 1 {
                assert(t[i] == s[i]);
            }
        }
        if k > 0 {
            assert(t[k - 1] == s[k - 1]);
        }
        k
    } else {
        assert(s.take(s.len() as int) =~= s);
        s.len() as int
    }
}

/// What `trim` leaves, and what it takes.
proof fn lemma_trim(s: Seq<char>) -> (r: (int, int))
    ensures
        0 <= r.0 <= r.1 <= s.len(),
        crate::text::trim(s) == s.subrange(r.0, r.1),
        forall|i: int|
            0 <= i < r.0 || r.1 <= i < s.len() ==> crate::text::is_space(#[trigger] s[i]),
        r.0 < r.1 ==> super::is_trim(crate::text::trim(s)),
{
    let a = lemma_trim_start(s);
    let t = s.skip(a);
    let n = lemma_trim_end(t);
    let b = a + n;
    assert(t.take(n) =~= s.subrange(a, b));
    assert forall|i: int| 0 <= i < a || b <= i < s.len() implies crate::text::is_space(
        #[trigger] s[i],
    ) by {
        if i >= b {
            assert(t[i - a] == s[i]);
        }
    }
    if a < b {
        assert(t[n - 1] == s[b - 1]);
    }
    (a, b)
}

/// What is left without the double quotes at the start.
proof fn lemma_start_quotes(s: Seq<char>) -> (k: int)
    ensures
        0 <= k <= s.len(),
        super::without_start_quotes(s) == s.skip(k),
        forall|i: int| 0 <= i < k ==> #[trigger] s[i] == '"',
        k < s.len() ==> s[k] != '"',
    decreases s.len(),
{
    if s.len() > 0 && s[0] == '"' {
        let t = s.skip(1);
        let k = lemma_start_quotes(t) + 1;
        assert(t.skip(k - 1) =~= s.skip(k));
        assert forall|i: int| 0 <= i < k implies #[trigger] s[i] == '"' by {
            if i > 0 {
                assert(t[i - 1] == s[i]);
            }
        }
        if k < s.len() {
            assert(t[k - 1] == s[k]);
        }
        k
    } else {
        assert(s.skip(0) =~= s);
        0
    }
}

/// What is left without the double quotes at the end.
proof fn lemma_end_quotes(s: Seq<char>) -> (k: int)
    ensures
        0 <= k <= s.len(),
        super::without_end_quotes(s) == s.take(k),
        forall|i: int| k <= i < s.len() ==> #[trigger] s[i] == '"',
        k > 0 ==> s[k - 1] != '"',
    decreases s.len(),
{
    if s.len() > 0 && s.last() == '"' {
        let t = s.drop_last();
        let k = lemma_end_quotes(t);
        assert(t.take(k) =~= s.take(k));
        assert forall|i: int| k <= i < s.len() implies #[trigger] s[i] == '"' by {
            if i < s.len() - 1 {
                assert(t[i] == s[i]);
            }
        }
        if k > 0 {
            assert(t[k - 1] == s[k - 1]);
        }
        k
    } else {
        assert(s.take(s.len() as int) =~= s);
        s.len() as int
    }
}

/// What is taken off a quoted text to get at what it quotes: white space and double
/// quotes.
proof fn lemma_needle(s: Seq<char>) -> (r: (int, int))
    ensures
        0 <= r.0 <= r.1 <= s.len(),
        ({
            let needle = super::unquoted(crate::text::trim(s));
            &&& needle == s.subrange(r.0, r.1)
            &&& needle.len() > 0 ==> needle[0] != '"' && needle.last() != '"'
        }),
        forall|i: int|
            0 <= i < r.0 || r.1 <= i < s.len() ==> crate::text::is_space(#[trigger] s[i]) || s[i]
                == '"',
{
    let (a, b) = lemma_trim(s);
    let t = s.subrange(a, b);
    let p = lemma_start_quotes(t);
    let u = t.skip(p);
    let q = lemma_end_quotes(u);
    let from = a + p;
    let to = from + q;
    assert(u.take(q) =~= s.subrange(from, to));
    assert forall|i: int| 0 <= i < from || to <= i < s.len() implies crate::text::is_space(
        #[trigger] s[i],
    ) || s[i] == '"' by {
        if a <= i < from {
            assert(t[i - a] == s[i]);
        } else if to <= i < b {
            assert(u[i - from] == s[i]);
        }
    }
    if q > 0 {
        assert(u[0] == t[p]);
        assert(u[q - 1] == s[to - 1]);
    }
    (from, to)
}

// ---------------------------------------------------------------------------
// The parts of what is read
// ---------------------------------------------------------------------------

/// What stands before the revision, and the revision.
proof fn lemma_rev_parts(text: Seq<char>)
    requires
        super::is_trim(text),
    ensures
        ({
            let (body, rev) = super::body_and_rev(text);
            &&& body.len() > 0 ==> super::is_trim(body) && body[0] == text[0]
            &&& body.len() <= text.len() && body == text.take(body.len() as int)
            &&& match rev {
                Some(rev) => super::rev_is_clear(body, Some(rev)),
                None => body == text && super::rev_is_clear(body, None),
            }
        }),
{
    crate::text::lemma_last_at(text, '@');
    let n = crate::text::last_at(text, '@');
    assert(text.take(text.len() as int) =~= text);
    if n >= 0 {
        let before = text.take(n);
        let suffix = text.skip(n + 1);
        if !suffix.contains('/') && suffix.len() > 0 {
            let k = lemma_trim_end(before);
            let body = before.take(k);
            assert(body =~= text.take(k));
            if k > 0 {
                assert(body.last() == before[k - 1]);
                assert(body[0] == text[0]);
            }
            let (a, b) = lemma_trim(suffix);
            let rev = suffix.subrange(a, b);
            assert(suffix.last() == text.last());
            assert(a < b) by {
                if a == b {
                    assert(crate::text::is_space(suffix[suffix.len() - 1]));
                }
            }
            assert forall|i: int| 0 <= i < rev.len() implies rev[i] != '/' && rev[i] != '@' by {
                assert(rev[i] == suffix[a + i]);
                assert(suffix.contains(suffix[a + i]));
                assert(suffix[a + i] == text[n + 1 + a + i]);
            }
        }
    }
}

/// Whether a text names the project as its root.
pub open spec fn names_project(text: Seq<char>) -> bool {
    crate::text::starts_with(text, "project:"@)
}

/// The root, and what stands behind it.
proof fn lemma_root_parts(body: Seq<char>)
    ensures
        ({
            let (root, rest) = super::root_and_rest(body);
            &&& body.len() >= rest.len() && rest == body.skip(body.len() - rest.len())
            &&& match root {
                Root::Project => if rest == body {
                    super::root_is_clear(root, body)
                } else {
                    names_project(body)
                },
                _ => body == super::root_text(root) + rest && super::root_is_clear(root, rest),
            }
        }),
{
    crate::text::lemma_first_at(body, ':');
    let n = crate::text::first_at(body, ':');
    assert(body.skip(0) =~= body);
    if n < body.len() {
        let name = body.take(n);
        let rest = body.skip(n + 1);
        assert(body =~= name + seq![':'] + rest);
        if super::is_name(name) && !(rest.len() > 0 && rest[0] == '/') {
            reveal_strlit("store:");
            reveal_strlit("store");
            reveal_strlit("project:");
            reveal_strlit("project");
            if name == "store"@ {
                assert("store:"@ =~= name + seq![':']);
            } else if name == "project"@ {
                assert(body.subrange(0, 8) =~= "project:"@);
            }
        }
    }
}

/// A place in a text before which another does not stand.
proof fn lemma_first_text(s: Seq<char>, p: Seq<char>)
    requires
        p.len() > 0,
    ensures
        0 <= crate::text::first_text_at(s, p) <= s.len(),
        forall|k: int| 0 <= k < crate::text::first_text_at(s, p) ==> !crate::text::occurs_at(s, p, k),
        crate::text::holds_text(s, p) ==> crate::text::occurs_at(
            s,
            p,
            crate::text::first_text_at(s, p),
        ),
    decreases s.len(),
{
    if !crate::text::starts_with(s, p) && s.len() > 0 {
        let t = s.skip(1);
        lemma_first_text(t, p);
        let n = crate::text::first_text_at(s, p);
        assert forall|k: int| 0 <= k < n implies !crate::text::occurs_at(s, p, k) by {
            if k > 0 && crate::text::occurs_at(s, p, k) {
                assert(t.subrange(k - 1, k - 1 + p.len()) =~= s.subrange(k, k + p.len()));
                assert(crate::text::occurs_at(t, p, k - 1));
            }
        }
        if crate::text::holds_text(s, p) {
            let i = choose|i: int| crate::text::occurs_at(s, p, i);
            assert(t.subrange(i - 1, i - 1 + p.len()) =~= s.subrange(i, i + p.len()));
            assert(crate::text::occurs_at(t, p, i - 1));
            assert(t.subrange(n - 1, n - 1 + p.len()) =~= s.subrange(n, n + p.len()));
        }
    } else if s.len() == 0 {
        assert forall|i: int| !crate::text::occurs_at(s, p, i) by {}
    }
}

/// A number is written in digits, perhaps behind a plus.
proof fn lemma_count_chars(s: Seq<char>)
    requires
        super::count_of(s) is Some,
    ensures
        forall|i: int| 0 <= i < s.len() ==> crate::text::is_digit(#[trigger] s[i]) || s[i] == '+',
{
    let digits = if s.len() > 0 && s[0] == '+' {
        s.skip(1)
    } else {
        s
    };
    assert forall|i: int| 0 <= i < s.len() implies crate::text::is_digit(#[trigger] s[i]) || s[i]
        == '+' by {
        if s[0] == '+' {
            if i > 0 {
                assert(digits[i - 1] == s[i]);
            }
        } else {
            assert(digits[i] == s[i]);
        }
    }
}

/// The characters of a line range.
pub open spec fn is_range_char(c: char) -> bool {
    crate::text::is_digit(c) || c == '+' || c == '-' || c == 'L' || c == '#'
}

/// A line range is written in its own characters.
proof fn lemma_range_chars(frag: Seq<char>)
    requires
        super::is_range(frag),
        super::range_of(frag) is Some,
    ensures
        forall|i: int| 0 <= i < frag.len() ==> is_range_char(#[trigger] frag[i]),
        super::range_of(frag) matches Some(Place::LineRange(start, end)) && 1 <= start <= end
            <= usize::MAX,
{
    let numbers = frag.skip(1);
    crate::text::lemma_first_at(numbers, '-');
    let n = crate::text::first_at(numbers, '-');
    if n < numbers.len() {
        lemma_count_chars(numbers.take(n));
        lemma_count_chars(numbers.skip(n + 1));
    } else {
        lemma_count_chars(numbers);
    }
    assert forall|i: int| 0 <= i < frag.len() implies is_range_char(#[trigger] frag[i]) by {
        if i > 0 {
            let k = i - 1;
            assert(numbers[k] == frag[i]);
            if n < numbers.len() {
                if k < n {
                    assert(numbers.take(n)[k] == numbers[k]);
                } else if k > n {
                    assert(numbers.skip(n + 1)[k - n - 1] == numbers[k]);
                }
            }
        }
    }
}

/// How a line range is written.
proof fn lemma_range_text(start: int, end: int)
    requires
        1 <= start <= end <= usize::MAX,
    ensures
        ({
            let text = super::place_text(Place::LineRange(start, end));
            &&& text.len() > 1 && text[0] == '#'
            &&& forall|i: int| 0 <= i < text.len() ==> is_range_char(#[trigger] text[i])
        }),
{
    reveal_strlit("#L");
    let text = super::place_text(Place::LineRange(start, end));
    let first = crate::text::digits_of(start as nat);
    let last = crate::text::digits_of(end as nat);
    crate::text::lemma_decimal_digits(start as nat);
    crate::text::lemma_decimal_digits(end as nat);
    let head = "#L"@ + first;
    assert forall|i: int| 0 <= i < text.len() implies is_range_char(#[trigger] text[i]) by {
        if 2 <= i < head.len() {
            assert(text[i] == first[i - 2]);
        } else if i > head.len() {
            assert(text[i] == last[i - head.len() - 1]);
        }
    }
}

/// Whether a place is written as it was read.
pub open spec fn is_verbatim(place: Place) -> bool {
    place is Whole || place is Heading || place is TreeSitter
}

/// The path, the place, and what they were read from.
proof fn lemma_place_parts(rest: Seq<char>)
    requires
        super::path_and_place(rest) is Ok,
    ensures
        ({
            let (path, place) = super::path_and_place(rest)->Ok_0;
            &&& super::place_is_clear(path, place)
            &&& path.len() <= rest.len() && path == rest.take(path.len() as int)
            &&& place is Whole ==> path == rest
            &&& !(place is Whole) ==> {
                &&& path.len() < rest.len()
                &&& super::place_text(place).len() > 0
                &&& rest[path.len() as int] == super::place_text(place)[0]
                &&& rest[path.len() as int] == '#' || rest[path.len() as int] == '?'
            }
            &&& is_verbatim(place) ==> path + super::place_text(place) == rest
            &&& match place {
                Place::Quote(needle) => rest == path + "?q="@ + rest.skip(path.len() as int + 3)
                    && needle == super::unquoted(crate::text::trim(rest.skip(path.len() as int + 3))),
                Place::LineRange(start, end) => forall|i: int|
                    path.len() <= i < rest.len() ==> is_range_char(#[trigger] rest[i]),
                _ => true,
            }
        }),
{
    reveal_strlit("?q=");
    reveal_strlit("#ts:");
    reveal_strlit("ts:");
    let mark = "?q="@;
    lemma_first_text(rest, mark);
    let n = crate::text::first_text_at(rest, mark);
    if crate::text::occurs_at(rest, mark, n) {
        let path = rest.take(n);
        let quoted = rest.skip(n + 3);
        assert(rest.subrange(n, n + 3)[0] == rest[n]);
        assert(rest =~= path + mark + quoted) by {
            assert(rest =~= path + rest.subrange(n, n + 3) + quoted);
        }
        let (a, b) = lemma_needle(quoted);
        assert(!crate::text::holds_text(path, mark)) by {
            assert forall|i: int| !crate::text::occurs_at(path, mark, i) by {
                if crate::text::occurs_at(path, mark, i) {
                    assert(path.subrange(i, i + 3) =~= rest.subrange(i, i + 3));
                    assert(crate::text::occurs_at(rest, mark, i));
                }
            }
        }
    } else {
        assert(!crate::text::holds_text(rest, mark));
        crate::text::lemma_first_at(rest, '#');
        let m = crate::text::first_at(rest, '#');
        let path = rest.take(m);
        assert(!path.contains('#')) by {
            assert forall|i: int| 0 <= i < path.len() implies path[i] != '#' by {
                assert(path[i] == rest[i]);
            }
        }
        if m < rest.len() {
            lemma_fragment_parts(rest, m);
        } else {
            assert(path =~= rest);
            assert(path + super::place_text(Place::Whole) =~= rest);
        }
    }
}

/// The path and the place of a fragment.
proof fn lemma_fragment_parts(rest: Seq<char>, m: int)
    requires
        0 <= m < rest.len(),
        rest[m] == '#',
        !rest.take(m).contains('#'),
        !crate::text::holds_text(rest, "?q="@),
        super::fragment_place(rest.take(m), rest.skip(m + 1)) is Ok,
    ensures
        ({
            let path = rest.take(m);
            let place = super::fragment_place(path, rest.skip(m + 1))->Ok_0;
            &&& !(place is Quote) && !(place is Whole)
            &&& super::place_is_clear(path, place)
            &&& super::place_text(place).len() > 0 && super::place_text(place)[0] == '#'
            &&& is_verbatim(place) ==> path + super::place_text(place) == rest
            &&& place is LineRange ==> forall|i: int|
                m <= i < rest.len() ==> is_range_char(#[trigger] rest[i])
        }),
{
    reveal_strlit("?q=");
    reveal_strlit("#ts:");
    reveal_strlit("ts:");
    let mark = "?q="@;
    let path = rest.take(m);
    let frag = rest.skip(m + 1);
    assert(rest =~= path + (seq!['#'] + frag));
    let place = super::fragment_place(path, frag)->Ok_0;
    let written = path + super::place_text(place);
    if crate::text::starts_with(frag, "ts:"@) {
        assert(frag =~= frag.subrange(0, 3) + frag.skip(3));
        assert("#ts:"@ =~= seq!['#'] + "ts:"@);
        assert(super::place_text(place) =~= seq!['#'] + frag);
    } else if super::is_range(frag) {
        lemma_range_chars(frag);
        if let Place::LineRange(start, end) = place {
            lemma_range_text(start, end);
            assert forall|i: int| m <= i < rest.len() implies is_range_char(
                #[trigger] rest[i],
            ) by {
                if i > m {
                    assert(rest[i] == frag[i - m - 1]);
                }
            }
            let text = super::place_text(place);
            assert forall|i: int| !crate::text::occurs_at(written, mark, i) by {
                if crate::text::occurs_at(written, mark, i) {
                    assert(written.subrange(i, i + 3)[0] == written[i] && written.subrange(
                        i,
                        i + 3,
                    )[1] == written[i + 1] && written.subrange(i, i + 3)[2] == written[i + 2]);
                    if i + 2 < m {
                        assert(written.subrange(i, i + 3) =~= rest.subrange(i, i + 3));
                        assert(crate::text::occurs_at(rest, mark, i));
                    } else {
                        assert(written[i + 2] == text[i + 2 - m]);
                        assert(is_range_char(text[i + 2 - m]));
                    }
                }
            }
        }
    } else {
        assert(super::place_text(place) =~= seq!['#'] + frag);
    }
}

// ---------------------------------------------------------------------------
// The parts can be told apart
// ---------------------------------------------------------------------------

/// No revision is seen in a line range that is written anew.
proof fn lemma_range_has_no_rev(head: Seq<char>, read: Seq<char>, written: Seq<char>)
    requires
        forall|i: int| 0 <= i < read.len() ==> is_range_char(#[trigger] read[i]),
        forall|i: int| 0 <= i < written.len() ==> is_range_char(#[trigger] written[i]),
        read.len() > 0,
        super::rev_is_clear(head + read, None),
    ensures
        super::rev_is_clear(head + written, None),
{
    let a = head + read;
    let b = head + written;
    crate::text::lemma_last_at(head, '@');
    let k = crate::text::last_at(head, '@');
    assert forall|i: int| k < i < a.len() implies #[trigger] a[i] != '@' by {
        if i >= head.len() {
            assert(is_range_char(read[i - head.len()]));
        } else {
            assert(a[i] == head[i]);
        }
    }
    assert forall|i: int| k < i < b.len() implies #[trigger] b[i] != '@' by {
        if i >= head.len() {
            assert(is_range_char(written[i - head.len()]));
        } else {
            assert(b[i] == head[i]);
        }
    }
    if k >= 0 {
        assert(a[k] == head[k] && b[k] == head[k]);
    }
    crate::text::lemma_last_at_is(a, '@', k);
    crate::text::lemma_last_at_is(b, '@', k);
    if k >= 0 {
        let suffix = a.skip(k + 1);
        assert(suffix.len() > 0);
        assert(suffix.contains('/'));
        let i = choose|i: int| 0 <= i < suffix.len() && suffix[i] == '/';
        let at = k + 1 + i;
        assert(a[at] == '/');
        assert(at < head.len()) by {
            if at >= head.len() {
                assert(is_range_char(read[at - head.len()]));
            }
        }
        assert(b[at] == '/');
        assert(b.skip(k + 1)[i] == '/');
        assert(b.skip(k + 1).contains('/'));
    }
}

/// No revision is seen in a quote that is written anew, unless the text ended in `@`.
proof fn lemma_quote_has_no_rev(head: Seq<char>, quoted: Seq<char>)
    requires
        super::rev_is_clear(head + quoted, None),
        head.len() > 0,
        head.last() != '@',
        quoted.len() > 0 ==> quoted.last() != '@',
    ensures
        super::rev_is_clear(
            head + (seq!['"'] + super::unquoted(crate::text::trim(quoted)) + seq!['"']),
            None,
        ),
{
    let (from, to) = lemma_needle(quoted);
    let needle = super::unquoted(crate::text::trim(quoted));
    let written = seq!['"'] + needle + seq!['"'];
    let a = head + quoted;
    let b = head + written;
    let h = head.len() as int;
    crate::text::lemma_last_at(b, '@');
    let kb = crate::text::last_at(b, '@');
    if kb >= 0 {
        assert(b[b.len() - 1] == '"');
        assert(kb != h) by {
            if kb == h {
                assert(b[h] == '"');
            }
        }
        // Where the same character stands in the text that was read.
        let ka = if kb < h {
            kb
        } else {
            kb - 1 + from
        };
        if kb > h {
            assert(b[kb] == needle[kb - h - 1]);
            assert(a[ka] == quoted[from + kb - h - 1]);
        } else {
            assert(b[kb] == head[kb]);
        }
        assert(a[ka] == '@');
        assert forall|i: int| ka < i < a.len() implies #[trigger] a[i] != '@' by {
            if i < h {
                assert(b[i] == a[i]);
            } else {
                let q = i - h;
                assert(a[i] == quoted[q]);
                if from <= q < to {
                    assert(b[h + 1 + q - from] == needle[q - from]);
                }
            }
        }
        crate::text::lemma_last_at_is(a, '@', ka);
        let suffix = a.skip(ka + 1);
        assert(suffix.len() > 0) by {
            if ka == a.len() - 1 {
                if quoted.len() > 0 {
                    assert(a[ka] == quoted.last());
                } else {
                    assert(a[ka] == head.last());
                }
            }
        }
        assert(suffix.contains('/'));
        let i = choose|i: int| 0 <= i < suffix.len() && suffix[i] == '/';
        let sa = ka + 1 + i;
        assert(a[sa] == '/');
        let sb = if sa < h {
            sa
        } else {
            sa + 1 - from
        };
        if sa >= h {
            let q = sa - h;
            assert(a[sa] == quoted[q]);
            assert(from <= q < to);
            assert(b[sb] == needle[q - from]);
        } else {
            assert(b[sb] == head[sb]);
        }
        assert(b[sb] == '/');
        assert(b.skip(kb + 1)[sb - kb - 1] == '/');
        assert(b.skip(kb + 1).contains('/'));
    }
}

/// Whether a source of the project can be written without the name of its root: what
/// is written is not empty, starts with no white space, and names no other root.
pub open spec fn stands_alone(reference: Reference, place: Place) -> bool {
    let rest = reference.path + super::place_text(place);
    reference.root is Project ==> {
        &&& super::root_is_clear(Root::Project, rest)
        &&& rest.len() > 0 ==> !crate::text::is_space(rest[0])
        &&& rest.len() > 0 || reference.rev is Some
    }
}

/// A text that is no other root stays none when its place is written anew.
proof fn lemma_project_stays_clear(rest: Seq<char>)
    requires
        super::path_and_place(rest) is Ok,
        super::root_is_clear(Root::Project, rest),
    ensures
        ({
            let (path, place) = super::path_and_place(rest)->Ok_0;
            super::root_is_clear(Root::Project, path + super::place_text(place))
        }),
{
    lemma_place_parts(rest);
    let (path, place) = super::path_and_place(rest)->Ok_0;
    let text = super::place_text(place);
    let written = path + text;
    let n = path.len() as int;
    crate::text::lemma_first_at(written, ':');
    let k = crate::text::first_at(written, ':');
    if k < written.len() {
        if place is Whole {
            assert(written =~= rest);
        } else if k < n {
            assert forall|i: int| 0 <= i < k implies #[trigger] rest[i] != ':' by {
                assert(written[i] == rest[i]);
            }
            assert(rest[k] == written[k]);
            crate::text::lemma_first_at_is(rest, ':', k);
            assert(rest.take(k) =~= written.take(k));
            assert(rest.skip(k + 1)[0] == written.skip(k + 1)[0]) by {
                assert(rest[k + 1] == written[k + 1]) by {
                    if k + 1 == n {
                        assert(written[n] == text[0]);
                    }
                }
            }
        } else {
            assert(written[n] == text[0]);
            assert(k > n);
            let name = written.take(k);
            assert(name[n] == text[0]);
            assert(!super::is_name_char(name[n]));
        }
    }
}

/// What holds no revision holds none behind any part of it.
proof fn lemma_no_rev_behind(body: Seq<char>, n: int)
    requires
        0 <= n <= body.len(),
        super::rev_is_clear(body, None),
    ensures
        super::rev_is_clear(body.skip(n), None),
{
    let rest = body.skip(n);
    crate::text::lemma_last_at(rest, '@');
    let k = crate::text::last_at(rest, '@');
    if k >= 0 {
        assert(body[n + k] == rest[k]);
        assert forall|i: int| n + k < i < body.len() implies #[trigger] body[i] != '@' by {
            assert(rest[i - n] == body[i]);
        }
        crate::text::lemma_last_at_is(body, '@', n + k);
        assert(body.skip(n + k + 1) =~= rest.skip(k + 1));
    }
}

/// No revision is seen in what is written where none was read.
proof fn lemma_written_has_no_rev(head: Seq<char>, rest: Seq<char>)
    requires
        super::path_and_place(rest) is Ok,
        super::rev_is_clear(head + rest, None),
        super::path_and_place(rest)->Ok_0.1 is Quote ==> rest.last() != '@',
    ensures
        ({
            let (path, place) = super::path_and_place(rest)->Ok_0;
            super::rev_is_clear(head + (path + super::place_text(place)), None)
        }),
{
    lemma_place_parts(rest);
    let (path, place) = super::path_and_place(rest)->Ok_0;
    let written = head + (path + super::place_text(place));
    let n = path.len() as int;
    match place {
        Place::Quote(needle) => {
            reveal_strlit("?q=");
            let quoted = rest.skip(n + 3);
            let marked = head + path + "?q="@;
            assert(head + rest =~= marked + quoted);
            assert(marked.last() == '=');
            lemma_quote_has_no_rev(marked, quoted);
            assert(written =~= marked + (seq!['"'] + needle + seq!['"']));
        },
        Place::LineRange(start, end) => {
            let read = rest.skip(n);
            let before = head + path;
            assert(head + rest =~= before + read);
            assert forall|i: int| 0 <= i < read.len() implies is_range_char(#[trigger] read[i]) by {
                assert(read[i] == rest[n + i]);
            }
            lemma_range_text(start, end);
            lemma_range_has_no_rev(before, read, super::place_text(place));
            assert(written =~= before + super::place_text(place));
        },
        _ => {},
    }
}

/// What is written ends in no white space where what was read ends in none.
proof fn lemma_written_ends(rest: Seq<char>)
    requires
        super::path_and_place(rest) is Ok,
        rest.len() > 0 ==> !crate::text::is_space(rest.last()),
    ensures
        ({
            let (path, place) = super::path_and_place(rest)->Ok_0;
            let written = path + super::place_text(place);
            &&& written.len() == 0 <==> rest.len() == 0
            &&& rest.len() > 0 ==> !crate::text::is_space(written.last())
            &&& rest.len() > 0 ==> written[0] == rest[0]
        }),
{
    lemma_place_parts(rest);
    let (path, place) = super::path_and_place(rest)->Ok_0;
    let text = super::place_text(place);
    let written = path + text;
    if path.len() == 0 && !(place is Whole) {
        assert(written[0] == text[0]);
    }
    match place {
        Place::Quote(_) => {
            assert(written.last() == '"');
        },
        Place::LineRange(start, end) => {
            lemma_range_text(start, end);
            assert(written.last() == text[text.len() - 1]);
            assert(is_range_char(text[text.len() - 1]));
        },
        _ => {},
    }
}

/// What is read of a text can be told apart when it is written, but for a source of
/// the project that needs the name of its root, and for a quote that ended the text
/// in `@`.
proof fn lemma_read_is_clear(s: Seq<char>)
    requires
        super::source_reading(s, None) is Ok,
        ({
            let (reference, place) = super::source_reading(s, None)->Ok_0;
            let text = crate::text::trim(s);
            &&& names_project(text) ==> stands_alone(reference, place)
            &&& place is Quote ==> text.last() != '@'
        }),
    ensures
        ({
            let (reference, place) = super::source_reading(s, None)->Ok_0;
            super::is_clear(reference, place)
        }),
{
    let text = crate::text::trim(s);
    let (from, to) = lemma_trim(s);
    lemma_rev_parts(text);
    let (body, rev) = super::body_and_rev(text);
    lemma_root_parts(body);
    let (root, rest) = super::root_and_rest(body);
    lemma_place_parts(rest);
    let (path, place) = super::path_and_place(rest)->Ok_0;
    let written = path + super::place_text(place);
    let again = super::root_text(root) + written;
    if rest.len() > 0 {
        assert(rest.last() == body.last());
    }
    lemma_written_ends(rest);
    if names_project(body) {
        reveal_strlit("project:");
        assert(text.subrange(0, 8) =~= body.subrange(0, 8));
    }
    let kept = root is Project && rest == body;
    // The root.
    match root {
        Root::Project => {
            assert(again =~= written);
            if kept {
                lemma_project_stays_clear(rest);
            }
        },
        Root::Store => {
            reveal_strlit("store:");
        },
        Root::Named(name) => {
            assert(super::is_name_char(name[0]));
            assert(again[0] == name[0]);
        },
    }
    if written.len() > 0 {
        assert(again.last() == written.last());
    }
    // The revision.
    if rev is None {
        let head = super::root_text(root);
        if root is Project {
            lemma_no_rev_behind(body, body.len() - rest.len());
            assert(head + rest =~= rest);
        }
        lemma_written_has_no_rev(head, rest);
    }
}

/// Every source that is read reads back from how it is written, but for two that
/// cannot: a source named in the project that needs the name of its root, as in
/// `project:a:b`, and a quote that ends the text in `@`, as in `a?q=b@`.
pub proof fn law_source_reads_back(s: Seq<char>)
    requires
        super::source_reading(s, None) is Ok,
        ({
            let (reference, place) = super::source_reading(s, None)->Ok_0;
            let text = crate::text::trim(s);
            &&& names_project(text) ==> stands_alone(reference, place)
            &&& place is Quote ==> text.last() != '@'
        }),
    ensures
        ({
            let (reference, place) = super::source_reading(s, None)->Ok_0;
            super::source_reading(super::source_text(reference, place), None)
                == super::source_reading(s, None)
        }),
{
    lemma_read_is_clear(s);
    let (reference, place) = super::source_reading(s, None)->Ok_0;
    super::law_rendered_source_reads_back(reference, place);
}

} // verus!
