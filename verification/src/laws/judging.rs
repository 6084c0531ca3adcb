//! What a predicate says of a span.

use crate::number::{Real, INFINITY, SIGN};
use crate::predicate::{NumOp, Predicate};
use vstd::prelude::*;

verus! {

/// What a predicate finds of a span.
pub open spec fn found(p: Predicate, claim: Seq<char>, span: Seq<char>) -> crate::predicate::Finding {
    crate::predicate::judged(crate::predicate::question(p), claim, span)
}

/// Whether a finding is a plain yes or no.
pub open spec fn says(finding: crate::predicate::Finding, answer: bool) -> bool {
    finding == crate::predicate::Finding::Decided(answer)
}

/// `equals` holds of the text it asks for with any white space around either.
pub proof fn law_equals_ignores_white_space_around(
    literal: Option<String>,
    claim: Seq<char>,
    t: Seq<char>,
    a: Seq<char>,
    b: Seq<char>,
    c: Seq<char>,
    d: Seq<char>,
)
    requires
        super::text::is_blank(a),
        super::text::is_blank(b),
        super::text::is_blank(c),
        super::text::is_blank(d),
        match literal {
            Some(s) => s@ == c + t + d,
            None => claim == c + t + d,
        },
    ensures
        says(found(Predicate::Equals { literal }, claim, a + t + b), true),
{
    super::text::lemma_trim_around(a, t, b);
    super::text::lemma_trim_around(c, t, d);
}

/// `equals` fails of any other text than the one it asks for, whatever white space
/// stands around them.
pub proof fn law_equals_tells_texts_apart(
    literal: Option<String>,
    claim: Seq<char>,
    s: Seq<char>,
    t: Seq<char>,
    a: Seq<char>,
    b: Seq<char>,
    c: Seq<char>,
    d: Seq<char>,
)
    requires
        super::text::is_blank(a),
        super::text::is_blank(b),
        super::text::is_blank(c),
        super::text::is_blank(d),
        super::text::is_tight(s),
        super::text::is_tight(t),
        s != t,
        match literal {
            Some(text) => text@ == c + t + d,
            None => claim == c + t + d,
        },
    ensures
        says(found(Predicate::Equals { literal }, claim, a + s + b), false),
{
    super::text::lemma_trim_around(a, s, b);
    super::text::lemma_trim_around(c, t, d);
    super::text::lemma_trim_tight(s);
    super::text::lemma_trim_tight(t);
}

/// `contains` holds exactly of the spans that are the text it asks for, as it is, with
/// something before and behind.
pub proof fn law_contains_finds_the_text(
    literal: Option<String>,
    claim: Seq<char>,
    span: Seq<char>,
)
    ensures
        ({
            let t = match literal {
                Some(s) => s@,
                None => claim,
            };
            says(
                found(Predicate::Contains { literal }, claim, span),
                super::text::is_around(span, t),
            )
        }),
{
    let t = match literal {
        Some(s) => s@,
        None => claim,
    };
    super::text::law_holding(span, t);
}

/// `exists` holds exactly of the spans that hold more than white space, whatever the
/// claim.
pub proof fn law_exists_wants_something(claim: Seq<char>, span: Seq<char>)
    ensures
        says(
            found(Predicate::Exists, claim, span),
            exists|i: int| 0 <= i < span.len() && !crate::text::is_space(#[trigger] span[i]),
        ),
{
    super::text::lemma_trim_empty(span);
}

/// `matches` holds exactly where the expression is found in the span as it is; one that
/// does not compile is found nowhere, and the claim plays no part.
pub proof fn law_matches_searches_the_span(regex: String, claim: Seq<char>, span: Seq<char>)
    ensures
        crate::predicate::regex_fault(regex@) is Some ==> says(
            found(Predicate::Matches { regex }, claim, span),
            false,
        ),
        crate::predicate::regex_fault(regex@) is None ==> says(
            found(Predicate::Matches { regex }, claim, span),
            crate::predicate::regex_found(regex@, span),
        ),
{
}

/// A number is compared for what stands in the span without the white space around it,
/// with the predicate's own comparison and value, whatever the claim.
pub proof fn law_numbers_are_read_without_white_space(
    op: NumOp,
    value: Real,
    claim: Seq<char>,
    t: Seq<char>,
    a: Seq<char>,
    b: Seq<char>,
)
    requires
        super::text::is_blank(a),
        super::text::is_blank(b),
        super::text::is_tight(t),
    ensures
        found(Predicate::Numeric { op, value }, claim, a + t + b) == (
        crate::predicate::Finding::Compare { op, text: t, value }),
{
    super::text::lemma_trim_around(a, t, b);
    super::text::lemma_trim_tight(t);
}

/// A pointer that addresses nothing is a no. One that addresses a string is judged by
/// the string itself, and one that addresses anything else by its JSON text.
pub proof fn law_pointers_judge_what_they_address(
    pointer: String,
    then: Predicate,
    claim: Seq<char>,
    span: Seq<char>,
)
    ensures
        ({
            let whole = found(
                Predicate::JsonPointer { pointer, then: Box::new(then) },
                claim,
                span,
            );
            match crate::json::json_at(span, pointer@) {
                None => says(whole, false),
                Some(text) => match crate::json::json_string(text) {
                    Some(plain) => whole == found(then, claim, plain),
                    None => whole == found(then, claim, text),
                },
            }
        }),
{
}

/// Whether bits stand for a number.
pub open spec fn is_number(x: Real) -> bool {
    x.bits <= INFINITY || SIGN <= x.bits <= SIGN + INFINITY
}

/// The magnitude of a number, in the order of magnitudes.
pub open spec fn magnitude(x: Real) -> int {
    if x.bits < SIGN {
        x.bits as int
    } else {
        x.bits - SIGN
    }
}

/// The place of a number on the line: zero, of either sign, in the middle.
pub open spec fn on_the_line(x: Real) -> int {
    if x.bits < SIGN {
        magnitude(x)
    } else {
        -magnitude(x)
    }
}

/// Numbers compare by their places on the line, zeros being equal; no comparison but
/// the one of closeness holds of what is no number.
pub proof fn law_comparisons_follow_the_line(lhs: Real, rhs: Real, close: bool)
    ensures
        is_number(lhs) && is_number(rhs) ==> {
            &&& NumOp::Lt.compares(lhs, rhs, close) == (on_the_line(lhs) < on_the_line(rhs))
            &&& NumOp::Le.compares(lhs, rhs, close) == (on_the_line(lhs) <= on_the_line(rhs))
            &&& NumOp::Gt.compares(lhs, rhs, close) == (on_the_line(lhs) > on_the_line(rhs))
            &&& NumOp::Ge.compares(lhs, rhs, close) == (on_the_line(lhs) >= on_the_line(rhs))
        },
        !(is_number(lhs) && is_number(rhs)) ==> {
            &&& !NumOp::Lt.compares(lhs, rhs, close)
            &&& !NumOp::Le.compares(lhs, rhs, close)
            &&& !NumOp::Gt.compares(lhs, rhs, close)
            &&& !NumOp::Ge.compares(lhs, rhs, close)
        },
        NumOp::Eq.compares(lhs, rhs, close) == close,
{
}

/// A predicate that compares numbers says no of what is no number, and of a number what
/// the comparison says; any other answers for itself.
pub proof fn law_answers(finding: crate::predicate::Finding, number: Option<Real>, close: bool)
    ensures
        match finding {
            crate::predicate::Finding::Decided(answer) => crate::predicate::is_yes(
                finding,
                number,
                close,
            ) == answer,
            crate::predicate::Finding::Compare { op, value, .. } => {
                &&& number is None ==> !crate::predicate::is_yes(finding, number, close)
                &&& number matches Some(n) ==> crate::predicate::is_yes(finding, number, close)
                    == op.compares(n, value, close)
            },
        },
{
}

} // verus!
