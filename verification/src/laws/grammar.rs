//! How predicates are written down.

use crate::number::Real;
use crate::predicate::{NumOp, Question};
use vstd::prelude::*;

verus! {

/// Whether a sign stands for a comparison.
pub open spec fn stands_for(sign: Seq<char>, op: NumOp) -> bool {
    match op {
        NumOp::Lt => sign == seq!['<'] || sign == seq!['l', 't'],
        NumOp::Le => sign == seq!['<', '='] || sign == seq!['l', 'e'],
        NumOp::Gt => sign == seq!['>'] || sign == seq!['g', 't'],
        NumOp::Ge => sign == seq!['>', '='] || sign == seq!['g', 'e'],
        NumOp::Eq => sign == seq!['='] || sign == seq!['=', '='] || sign == seq!['e', 'q'],
    }
}

/// A word, and behind a colon what it is about.
pub open spec fn about(word: Seq<char>, what: Option<Seq<char>>) -> Seq<char> {
    match what {
        Some(what) => word + seq![':'] + what,
        None => word,
    }
}

/// How a predicate is written, its comparison as a sign and its number as a numeral.
pub open spec fn written(q: Question, sign: Seq<char>, numeral: Seq<char>) -> Seq<char>
    decreases q,
{
    match q {
        Question::Exists => "exists"@,
        Question::Equals { literal } => about("equals"@, literal),
        Question::Contains { literal } => about("contains"@, literal),
        Question::Matches { regex } => about("matches"@, Some(regex)),
        Question::Numeric { .. } => about("num"@, Some(about(sign, Some(numeral)))),
        Question::JsonPointer { pointer, then } => about(
            "ptr"@,
            Some(about(pointer, Some(written(*then, sign, numeral)))),
        ),
    }
}

/// Whether a predicate can be written: no pointer holds a colon, and a sign stands for
/// its comparison.
pub open spec fn can_be_written(q: Question, sign: Seq<char>) -> bool
    decreases q,
{
    match q {
        Question::Numeric { op, .. } => stands_for(sign, op),
        Question::JsonPointer { pointer, then } => !pointer.contains(':') && can_be_written(
            *then,
            sign,
        ),
        _ => true,
    }
}

/// Every comparison is read from each of its signs, and from no other text.
pub proof fn law_comparison_signs(sign: Seq<char>, op: NumOp)
    ensures
        NumOp::named(sign) == Some(op) <==> stands_for(sign, op),
{
    reveal_strlit("lt");
    reveal_strlit("<");
    reveal_strlit("le");
    reveal_strlit("<=");
    reveal_strlit("gt");
    reveal_strlit(">");
    reveal_strlit("ge");
    reveal_strlit(">=");
    reveal_strlit("eq");
    reveal_strlit("==");
    reveal_strlit("=");
    assert("lt"@ =~= seq!['l', 't']);
    assert("<"@ =~= seq!['<']);
    assert("le"@ =~= seq!['l', 'e']);
    assert("<="@ =~= seq!['<', '=']);
    assert("gt"@ =~= seq!['g', 't']);
    assert(">"@ =~= seq!['>']);
    assert("ge"@ =~= seq!['g', 'e']);
    assert(">="@ =~= seq!['>', '=']);
    assert("eq"@ =~= seq!['e', 'q']);
    assert("=="@ =~= seq!['=', '=']);
    assert("="@ =~= seq!['=']);
    let signs = seq![
        seq!['l', 't'],
        seq!['<'],
        seq!['l', 'e'],
        seq!['<', '='],
        seq!['g', 't'],
        seq!['>'],
        seq!['g', 'e'],
        seq!['>', '='],
        seq!['e', 'q'],
        seq!['=', '='],
        seq!['='],
    ];
    assert forall|i: int, j: int| 0 <= i < j < signs.len() implies signs[i] != signs[j] by {
        assert(signs[i].len() != signs[j].len() || signs[i][0] != signs[j][0] || signs[i][1]
            != signs[j][1]);
    }
}

proof fn lemma_split(word: Seq<char>, what: Seq<char>)
    requires
        !word.contains(':'),
    ensures
        crate::text::split_once(about(word, Some(what)), ':') == Some((word, what)),
{
    let all = about(word, Some(what));
    let n = word.len() as int;
    assert forall|i: int| 0 <= i < n implies #[trigger] all[i] != ':' by {
        assert(all[i] == word[i]);
        assert(word.contains(word[i]));
    }
    assert(all[n] == ':');
    crate::text::lemma_first_at_is(all, ':', n);
    assert(all.take(n) =~= word);
    assert(all.skip(n + 1) =~= what);
}

proof fn lemma_no_split(word: Seq<char>)
    requires
        !word.contains(':'),
    ensures
        crate::text::split_once(word, ':') is None,
{
    crate::text::lemma_first_at(word, ':');
    let n = crate::text::first_at(word, ':');
    if n < word.len() {
        assert(word.contains(word[n]));
    }
}

proof fn lemma_words()
    ensures
        forall|w: Seq<char>|
            (w == "exists"@ || w == "equals"@ || w == "contains"@ || w == "matches"@ || w
                == "num"@ || w == "ptr"@) ==> !(#[trigger] w.contains(':')) && w.len() > 0
                && !crate::text::is_space(w[0]) && !crate::text::is_space(w.last()),
        "exists"@ != "equals"@,
        "exists"@ != "contains"@,
        "exists"@ != "matches"@,
        "exists"@ != "num"@,
        "exists"@ != "ptr"@,
        "equals"@ != "contains"@,
        "equals"@ != "matches"@,
        "equals"@ != "num"@,
        "equals"@ != "ptr"@,
        "contains"@ != "matches"@,
        "contains"@ != "num"@,
        "contains"@ != "ptr"@,
        "matches"@ != "num"@,
        "matches"@ != "ptr"@,
        "num"@ != "ptr"@,
{
    reveal_strlit("exists");
    reveal_strlit("equals");
    reveal_strlit("contains");
    reveal_strlit("matches");
    reveal_strlit("num");
    reveal_strlit("ptr");
    assert("exists"@[1] != "equals"@[1]);
    assert("num"@[0] != "ptr"@[0]);
    assert("exists"@.len() == 6 && "contains"@.len() == 8 && "matches"@.len() == 7 && "num"@.len()
        == 3);
}

proof fn lemma_starts(word: Seq<char>, what: Seq<char>)
    requires
        word.len() > 0,
    ensures
        about(word, Some(what))[0] == word[0],
        about(word, Some(what)).len() == word.len() + 1 + what.len(),
        what.len() > 0 ==> about(word, Some(what)).last() == what.last(),
{
}

proof fn lemma_written_starts(q: Question, sign: Seq<char>, numeral: Seq<char>)
    ensures
        written(q, sign, numeral).len() > 0,
        !crate::text::is_space(written(q, sign, numeral)[0]),
{
    lemma_words();
    assert(!"exists"@.contains(':'));
    assert(!"equals"@.contains(':'));
    assert(!"contains"@.contains(':'));
    assert(!"matches"@.contains(':'));
    assert(!"num"@.contains(':'));
    assert(!"ptr"@.contains(':'));
}

/// A predicate that is written down and is well-formed is read as what it is, with white
/// space around it or without. Only what ends in white space cannot be written so.
pub proof fn law_predicates_read_back(
    a: Seq<char>,
    q: Question,
    sign: Seq<char>,
    numeral: Seq<char>,
    b: Seq<char>,
    number: Option<Real>,
)
    requires
        super::text::is_blank(a),
        super::text::is_blank(b),
        can_be_written(q, sign),
        super::text::is_tight(written(q, sign, numeral)),
        crate::predicate::fault_of(q) is None,
        crate::predicate::number_in(q) is Some ==> number == crate::predicate::number_in(q),
    ensures
        crate::predicate::reading(a + written(q, sign, numeral) + b, number) == Ok::<
            Question,
            Seq<char>,
        >(q),
        crate::predicate::number_in(q) is Some ==> crate::predicate::numeral_in(
            a + written(q, sign, numeral) + b,
        ) == Some(crate::text::trim(numeral)),
    decreases q,
{
    let w = written(q, sign, numeral);
    let s = a + w + b;
    lemma_words();
    lemma_written_starts(q, sign, numeral);
    super::text::lemma_trim_around(a, w, b);
    super::text::lemma_trim_tight(w);
    assert(crate::text::trim(s) == w);
    assert(!"exists"@.contains(':'));
    assert(!"equals"@.contains(':'));
    assert(!"contains"@.contains(':'));
    assert(!"matches"@.contains(':'));
    assert(!"num"@.contains(':'));
    assert(!"ptr"@.contains(':'));
    match q {
        Question::Exists => {
            lemma_no_split("exists"@);
        },
        Question::Equals { literal } => match literal {
            Some(text) => {
                lemma_split("equals"@, text);
            },
            None => {
                lemma_no_split("equals"@);
            },
        },
        Question::Contains { literal } => match literal {
            Some(text) => {
                lemma_split("contains"@, text);
            },
            None => {
                lemma_no_split("contains"@);
            },
        },
        Question::Matches { regex } => {
            lemma_split("matches"@, regex);
        },
        Question::Numeric { op, value } => {
            law_comparison_signs(sign, op);
            lemma_split("num"@, about(sign, Some(numeral)));
            assert(!sign.contains(':'));
            lemma_split(sign, numeral);
        },
        Question::JsonPointer { pointer, then } => {
            let sub = written(*then, sign, numeral);
            lemma_written_starts(*then, sign, numeral);
            lemma_split("ptr"@, about(pointer, Some(sub)));
            lemma_split(pointer, sub);
            assert(w.last() == sub.last());
            let none = Seq::<char>::empty();
            law_predicates_read_back(none, *then, sign, numeral, none, number);
            assert(none + sub + none =~= sub);
            crate::predicate::lemma_rest_shorter(s);
        },
    }
}

/// A pointer without a predicate behind it asks whether there is anything.
pub proof fn law_a_bare_pointer_asks_for_existence(pointer: Seq<char>, number: Option<Real>)
    requires
        !pointer.contains(':'),
        super::text::is_tight(about("ptr"@, Some(pointer))),
        pointer.len() == 0 || pointer[0] == '/',
    ensures
        crate::predicate::reading(about("ptr"@, Some(pointer)), number) == Ok::<
            Question,
            Seq<char>,
        >((Question::JsonPointer { pointer, then: Box::new(Question::Exists) })),
{
    lemma_words();
    assert(!"ptr"@.contains(':'));
    super::text::lemma_trim_tight(about("ptr"@, Some(pointer)));
    lemma_split("ptr"@, pointer);
    lemma_no_split(pointer);
}

/// A text whose first word is none of these is no predicate, and some words are none by
/// themselves.
pub proof fn law_other_texts_are_no_predicates(
    word: Seq<char>,
    what: Option<Seq<char>>,
    number: Option<Real>,
)
    requires
        !word.contains(':'),
        super::text::is_tight(about(word, what)),
    ensures
        word != "exists"@ && word != "equals"@ && word != "contains"@ && word != "matches"@ && word
            != "num"@ && word != "ptr"@ ==> crate::predicate::reading(
            about(word, what),
            number,
        ) is Err,
        what is None && (word == "matches"@ || word == "num"@ || word == "ptr"@)
            ==> crate::predicate::reading(about(word, what), number) is Err,
        word == "num"@ && number is None ==> crate::predicate::reading(
            about(word, what),
            number,
        ) is Err,
{
    lemma_words();
    super::text::lemma_trim_tight(about(word, what));
    match what {
        Some(text) => {
            lemma_split(word, text);
        },
        None => {
            lemma_no_split(word);
        },
    }
}

/// What a person is told of a predicate is its first word, but for the one that compares
/// and the one that points.
pub proof fn law_labels(q: Question, sign: Seq<char>, numeral: Seq<char>, shown: Seq<char>)
    requires
        !(q is Numeric),
        !(q is JsonPointer),
    ensures
        ({
            let label = crate::predicate::label_of(q, shown);
            let all = written(q, sign, numeral);
            &&& all.len() >= label.len()
            &&& all.take(label.len() as int) == label
            &&& all.len() > label.len() ==> all[label.len() as int] == ':'
        }),
{
    let label = crate::predicate::label_of(q, shown);
    let all = written(q, sign, numeral);
    assert(all.take(label.len() as int) =~= label);
}

} // verus!
