//! White space, and what is left without it.

use vstd::prelude::*;

verus! {

/// Whether a text is white space only.
pub open spec fn is_blank(s: Seq<char>) -> bool {
    forall|i: int| 0 <= i < s.len() ==> crate::text::is_space(#[trigger] s[i])
}

/// Whether a text has no white space at its ends.
pub open spec fn is_tight(s: Seq<char>) -> bool {
    s.len() > 0 ==> !crate::text::is_space(s[0]) && !crate::text::is_space(s.last())
}

/// Among the characters of ASCII, white space is the space, the tab, the line feed, the
/// vertical tab, the form feed and the carriage return.
pub proof fn law_white_space(c: char)
    requires
        (c as u32) < 128,
    ensures
        crate::text::is_space(c) <==> c == ' ' || c == '\t' || c == '\n' || c == '\u{b}' || c
            == '\u{c}' || c == '\r',
{
}

/// Blank text in front makes no difference.
pub proof fn lemma_blank_before(a: Seq<char>, s: Seq<char>)
    requires
        is_blank(a),
    ensures
        crate::text::trim_start(a + s) == crate::text::trim_start(s),
    decreases a.len(),
{
    if a.len() > 0 {
        let all = a + s;
        assert(all[0] == a[0]);
        assert(crate::text::is_space(a[0]));
        assert(all.skip(1) =~= a.skip(1) + s);
        assert forall|i: int| 0 <= i < a.skip(1).len() implies crate::text::is_space(
            #[trigger] a.skip(1)[i],
        ) by {
            assert(a.skip(1)[i] == a[i + 1]);
        }
        lemma_blank_before(a.skip(1), s);
    } else {
        assert(a + s =~= s);
    }
}

/// Blank text behind makes no difference.
pub proof fn lemma_blank_behind(s: Seq<char>, b: Seq<char>)
    requires
        is_blank(b),
    ensures
        crate::text::trim_end(s + b) == crate::text::trim_end(s),
    decreases b.len(),
{
    if b.len() > 0 {
        let all = s + b;
        assert(all.last() == b.last());
        assert(crate::text::is_space(b[b.len() - 1]));
        assert(all.drop_last() =~= s + b.drop_last());
        assert forall|i: int| 0 <= i < b.drop_last().len() implies crate::text::is_space(
            #[trigger] b.drop_last()[i],
        ) by {
            assert(b.drop_last()[i] == b[i]);
        }
        lemma_blank_behind(s, b.drop_last());
    } else {
        assert(s + b =~= s);
    }
}

/// What starts without white space is left as it is at the start, whatever follows;
/// a blank text is left empty.
pub proof fn lemma_trim_start_with(s: Seq<char>, b: Seq<char>)
    requires
        is_blank(b),
    ensures
        ({
            let t = crate::text::trim_start(s);
            &&& t.len() > 0 ==> crate::text::trim_start(s + b) == t + b
            &&& t.len() == 0 ==> crate::text::trim_start(s + b).len() == 0
        }),
    decreases s.len(),
{
    if s.len() > 0 {
        let all = s + b;
        assert(all[0] == s[0]);
        if crate::text::is_space(s[0]) {
            assert(all.skip(1) =~= s.skip(1) + b);
            lemma_trim_start_with(s.skip(1), b);
        }
    } else {
        lemma_blank_before(b, Seq::empty());
        assert(s + b =~= b);
        assert(b + Seq::<char>::empty() =~= b);
    }
}

/// White space around a text is taken off with the white space that it has itself.
pub proof fn lemma_trim_around(a: Seq<char>, s: Seq<char>, b: Seq<char>)
    requires
        is_blank(a),
        is_blank(b),
    ensures
        crate::text::trim(a + s + b) == crate::text::trim(s),
{
    assert(a + s + b =~= a + (s + b));
    lemma_blank_before(a, s + b);
    lemma_trim_start_with(s, b);
    let t = crate::text::trim_start(s);
    if t.len() > 0 {
        lemma_blank_behind(t, b);
    }
}

/// A text without white space at its ends stays as it is.
pub proof fn lemma_trim_tight(s: Seq<char>)
    requires
        is_tight(s),
    ensures
        crate::text::trim(s) == s,
{
}

/// What is left is empty only where the text is blank.
pub proof fn lemma_trim_empty(s: Seq<char>)
    ensures
        crate::text::trim(s).len() == 0 <==> is_blank(s),
{
    if is_blank(s) {
        lemma_blank_before(s, Seq::empty());
        assert(s + Seq::<char>::empty() =~= s);
    } else {
        lemma_trim_start_left(s);
        let t = crate::text::trim_start(s);
        assert(!crate::text::is_space(t[0]));
        lemma_trim_end_left(t);
    }
}

proof fn lemma_trim_start_left(s: Seq<char>)
    requires
        !is_blank(s),
    ensures
        crate::text::trim_start(s).len() > 0,
        !crate::text::is_space(crate::text::trim_start(s)[0]),
    decreases s.len(),
{
    let i = choose|i: int| 0 <= i < s.len() && !crate::text::is_space(#[trigger] s[i]);
    if crate::text::is_space(s[0]) {
        assert(s.skip(1)[i - 1] == s[i]);
        lemma_trim_start_left(s.skip(1));
    }
}

proof fn lemma_trim_end_left(s: Seq<char>)
    requires
        s.len() > 0,
        !crate::text::is_space(s[0]),
    ensures
        crate::text::trim_end(s).len() > 0,
    decreases s.len(),
{
    if crate::text::is_space(s.last()) {
        assert(s.drop_last()[0] == s[0]);
        lemma_trim_end_left(s.drop_last());
    }
}

/// Whether a text is another with something, or nothing, before and behind.
pub open spec fn is_around(s: Seq<char>, t: Seq<char>) -> bool {
    exists|a: Seq<char>, b: Seq<char>| s == #[trigger] (a + t + b)
}

/// A text stands in another where the other is it with something before and behind.
pub proof fn lemma_holds_parts(a: Seq<char>, t: Seq<char>, b: Seq<char>)
    ensures
        crate::text::holds_text(a + t + b, t),
{
    let s = a + t + b;
    assert(s.subrange(a.len() as int, a.len() as int + t.len()) =~= t);
    assert(crate::text::occurs_at(s, t, a.len() as int));
}

/// A text that another holds splits it.
pub proof fn lemma_held_parts(s: Seq<char>, t: Seq<char>)
    requires
        crate::text::holds_text(s, t),
    ensures
        exists|a: Seq<char>, b: Seq<char>| s == #[trigger] (a + t + b),
{
    let i = choose|i: int| crate::text::occurs_at(s, t, i);
    let a = s.take(i);
    let b = s.skip(i + t.len());
    assert(s =~= a + s.subrange(i, i + t.len()) + b);
    assert(s == a + t + b);
}

/// One text holds another exactly where it is the other with something, or nothing,
/// before and behind.
pub proof fn law_holding(s: Seq<char>, t: Seq<char>)
    ensures
        crate::text::holds_text(s, t) <==> is_around(s, t),
{
    if crate::text::holds_text(s, t) {
        lemma_held_parts(s, t);
    }
    if is_around(s, t) {
        let (a, b) = choose|a: Seq<char>, b: Seq<char>| s == #[trigger] (a + t + b);
        lemma_holds_parts(a, t, b);
    }
}

/// Whether two characters are the same letter, in whatever case, among those of ASCII;
/// any other character is the same as itself alone.
pub open spec fn same_letter(a: char, b: char) -> bool {
    ||| a == b
    ||| 'a' <= a && a <= 'z' && b as u32 + 32 == a as u32
    ||| 'a' <= b && b <= 'z' && a as u32 + 32 == b as u32
}

/// Whether two texts are the same but for the case of letters of ASCII.
pub open spec fn same_letters(a: Seq<char>, b: Seq<char>) -> bool {
    &&& a.len() == b.len()
    &&& forall|i: int| 0 <= i < a.len() ==> same_letter(#[trigger] a[i], b[i])
}

/// Texts are the same in small letters exactly where they differ in the case of letters
/// of ASCII alone.
pub proof fn law_small_letters(a: Seq<char>, b: Seq<char>)
    ensures
        crate::text::small_text(a) == crate::text::small_text(b) <==> same_letters(a, b),
{
    let x = crate::text::small_text(a);
    let y = crate::text::small_text(b);
    if x == y {
        assert(a.len() == x.len() && b.len() == y.len());
        assert forall|i: int| 0 <= i < a.len() implies same_letter(#[trigger] a[i], b[i]) by {
            assert(x[i] == y[i]);
            assert(x[i] == crate::text::small(a[i]));
            assert(y[i] == crate::text::small(b[i]));
        }
    }
    if same_letters(a, b) {
        assert forall|i: int| 0 <= i < x.len() implies x[i] == y[i] by {
            assert(same_letter(a[i], b[i]));
            assert(x[i] == crate::text::small(a[i]));
            assert(y[i] == crate::text::small(b[i]));
        }
        assert(x =~= y);
    }
}

} // verus!
