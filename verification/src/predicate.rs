//! The judge: a pure, deterministic, capability-free predicate over a resolved
//! span. A predicate cannot rot (same span -> same verdict), so a refute is
//! unambiguous: the span moved. All non-determinism lives in the source layer
//! (reading), never here.

use regex::Regex;

use crate::error::Error;
use crate::json::{resolve_pointer, Json};
use crate::number::Real;
use crate::text::{begins_with, contains_text, copy_option, same, split_first, trimmed};
use vstd::prelude::*;

verus! {

/// How two numbers are compared.
#[derive(Debug, Clone, Copy, PartialEq, Eq, Structural)]
pub enum NumOp {
    Lt,
    Le,
    Gt,
    Ge,
    Eq,
}

impl NumOp {
    /// The comparison with a given name.
    pub open spec fn named(s: Seq<char>) -> Option<NumOp> {
        if s == "lt"@ || s == "<"@ {
            Some(NumOp::Lt)
        } else if s == "le"@ || s == "<="@ {
            Some(NumOp::Le)
        } else if s == "gt"@ || s == ">"@ {
            Some(NumOp::Gt)
        } else if s == "ge"@ || s == ">="@ {
            Some(NumOp::Ge)
        } else if s == "eq"@ || s == "=="@ || s == "="@ {
            Some(NumOp::Eq)
        } else {
            None
        }
    }

    /// Reads the name of a comparison.
    pub fn parse(s: &str) -> (r: Result<NumOp, Error>)
        ensures
            match NumOp::named(s@) {
                Some(op) => r == Ok::<NumOp, Error>(op),
                None => crate::error::is_config(r, "unknown numeric op: "@ + s@),
            },
    {
        if same(s, "lt") || same(s, "<") {
            Ok(NumOp::Lt)
        } else if same(s, "le") || same(s, "<=") {
            Ok(NumOp::Le)
        } else if same(s, "gt") || same(s, ">") {
            Ok(NumOp::Gt)
        } else if same(s, "ge") || same(s, ">=") {
            Ok(NumOp::Ge)
        } else if same(s, "eq") || same(s, "==") || same(s, "=") {
            Ok(NumOp::Eq)
        } else {
            Err(Error::Config("unknown numeric op: ".to_owned().concat(s)))
        }
    }

    /// The name shown to people.
    pub open spec fn name_spec(&self) -> Seq<char> {
        match *self {
            NumOp::Lt => "Lt"@,
            NumOp::Le => "Le"@,
            NumOp::Gt => "Gt"@,
            NumOp::Ge => "Ge"@,
            NumOp::Eq => "Eq"@,
        }
    }

    /// The name shown to people.
    pub fn name(&self) -> (r: &'static str)
        ensures
            r@ == self.name_spec(),
    {
        match self {
            NumOp::Lt => "Lt",
            NumOp::Le => "Le",
            NumOp::Gt => "Gt",
            NumOp::Ge => "Ge",
            NumOp::Eq => "Eq",
        }
    }
}

impl NumOp {
    /// Whether two numbers compare so. `close` says whether they lie next to each
    /// other, which is what equality asks.
    pub open spec fn compares(&self, lhs: Real, rhs: Real, close: bool) -> bool {
        match *self {
            NumOp::Lt => lhs.less(&rhs),
            NumOp::Le => lhs.less(&rhs) || lhs.equals(&rhs),
            NumOp::Gt => rhs.less(&lhs),
            NumOp::Ge => rhs.less(&lhs) || lhs.equals(&rhs),
            NumOp::Eq => close,
        }
    }

    /// Compares two numbers. `close` says whether they lie next to each other, which
    /// is what equality asks.
    pub fn apply(&self, lhs: Real, rhs: Real, close: bool) -> (r: bool)
        ensures
            r == self.compares(lhs, rhs, close),
    {
        match self {
            NumOp::Lt => lhs.is_less(&rhs),
            NumOp::Le => lhs.is_less(&rhs) || lhs.is_equal(&rhs),
            NumOp::Gt => rhs.is_less(&lhs),
            NumOp::Ge => rhs.is_less(&lhs) || lhs.is_equal(&rhs),
            NumOp::Eq => close,
        }
    }
}

/// A pure judgment over `(claim, span)`. Holds no capabilities and never spawns.
#[derive(Debug, PartialEq)]
pub enum Predicate {
    /// The span resolved to something non-empty (tier-1 existence).
    Exists,
    /// The span equals `literal`, or the claim value if absent.
    Equals { literal: Option<String> },
    /// The span contains `literal`, or the claim value if absent.
    Contains { literal: Option<String> },
    /// The span matches a regular expression.
    Matches { regex: String },
    /// The span parses as a number and compares to `value`.
    Numeric { op: NumOp, value: Real },
    /// Resolve an RFC 6901 JSON Pointer into the span (parsed as JSON), then
    /// judge the addressed value with `then`.
    JsonPointer { pointer: String, then: Box<Predicate> },
}

impl Default for Predicate {
    fn default() -> (r: Self)
        ensures
            r == Predicate::Exists,
    {
        Predicate::Exists
    }
}

impl Clone for Predicate {
    fn clone(&self) -> (r: Self)
        ensures
            r == *self,
        decreases self,
    {
        match self {
            Predicate::Exists => Predicate::Exists,
            Predicate::Equals { literal } => Predicate::Equals { literal: copy_option(literal) },
            Predicate::Contains { literal } => Predicate::Contains {
                literal: copy_option(literal),
            },
            Predicate::Matches { regex } => Predicate::Matches { regex: regex.clone() },
            Predicate::Numeric { op, value } => Predicate::Numeric { op: *op, value: *value },
            Predicate::JsonPointer { pointer, then } => Predicate::JsonPointer {
                pointer: pointer.clone(),
                then: Box::new((&**then).clone()),
            },
        }
    }
}

/// What a predicate asks, with its texts as character sequences.
pub enum Question {
    Exists,
    Equals { literal: Option<Seq<char>> },
    Contains { literal: Option<Seq<char>> },
    Matches { regex: Seq<char> },
    Numeric { op: NumOp, value: Real },
    JsonPointer { pointer: Seq<char>, then: Box<Question> },
}

/// What a predicate asks.
pub open spec fn question(p: Predicate) -> Question
    decreases p,
{
    match p {
        Predicate::Exists => Question::Exists,
        Predicate::Equals { literal } => Question::Equals { literal: crate::text::option_text(literal) },
        Predicate::Contains { literal } => Question::Contains { literal: crate::text::option_text(literal) },
        Predicate::Matches { regex } => Question::Matches { regex: regex@ },
        Predicate::Numeric { op, value } => Question::Numeric { op, value },
        Predicate::JsonPointer { pointer, then } => Question::JsonPointer {
            pointer: pointer@,
            then: Box::new(question(*then)),
        },
    }
}

// ---------------------------------------------------------------------------
// Judging
// ---------------------------------------------------------------------------

/// What a predicate says of a span: yes or no, or that it comes down to
/// comparing the number that a text is (no, where it is none) with another.
#[derive(Debug, PartialEq)]
pub enum Judgment {
    Decided(bool),
    Compare { op: NumOp, text: String, value: Real },
}

/// A judgment, with its text as characters.
pub enum Finding {
    Decided(bool),
    Compare { op: NumOp, text: Seq<char>, value: Real },
}

impl View for Judgment {
    type V = Finding;

    open spec fn view(&self) -> Finding {
        match *self {
            Judgment::Decided(holds) => Finding::Decided(holds),
            Judgment::Compare { op, text, value } => Finding::Compare { op, text: text@, value },
        }
    }
}

/// Whether a finding is a yes. `number` is what the text to compare stands for, `None`
/// where it is no number.
pub open spec fn is_yes(finding: Finding, number: Option<Real>, close: bool) -> bool {
    match finding {
        Finding::Decided(holds) => holds,
        Finding::Compare { op, value, .. } => match number {
            Some(number) => op.compares(number, value, close),
            None => false,
        },
    }
}

impl Judgment {
    /// Decides a judgment. `number` is what the text to compare stands for, `None` where
    /// it is no number; `close` says whether it lies next to the value it is held
    /// against.
    pub fn holds(&self, number: Option<Real>, close: bool) -> (r: bool)
        ensures
            r == is_yes(self@, number, close),
    {
        match self {
            Judgment::Decided(holds) => *holds,
            Judgment::Compare { op, value, .. } => match number {
                Some(number) => op.apply(number, *value, close),
                None => false,
            },
        }
    }
}

/// Whether a text holds a match of a regular expression; false where the
/// expression is none.
pub uninterp spec fn regex_found(regex: Seq<char>, text: Seq<char>) -> bool;

/// What is wrong with a regular expression; `None` where nothing is.
pub uninterp spec fn regex_fault(regex: Seq<char>) -> Option<Seq<char>>;

/// A text in quotes, with escapes, as for a programmer.
pub uninterp spec fn debug_form(s: Seq<char>) -> Seq<char>;

/// `regex::Regex::new` and `Regex::is_match`. Claimed: the result is a function
/// of the expression and the text, and nothing is found where the expression does
/// not compile.
#[verifier::external_body]
pub(crate) fn find_regex(regex: &str, text: &str) -> (r: bool)
    ensures
        r == regex_found(regex@, text@),
        r ==> regex_fault(regex@) is None,
{
    Regex::new(regex).map(|re| re.is_match(text)).unwrap_or(false)
}

/// `regex::Regex::new`, and `regex::Error`'s `Display`. Claimed: the result is a
/// function of the expression.
#[verifier::external_body]
fn compile_fault(regex: &str) -> (r: Option<String>)
    ensures
        match r {
            Some(fault) => regex_fault(regex@) == Some(fault@),
            None => regex_fault(regex@) is None,
        },
{
    Regex::new(regex).err().map(|e| e.to_string())
}

/// `str`'s `Debug`. Claimed: the result is a function of the text.
#[verifier::external_body]
fn debug_text(s: &str) -> (r: String)
    ensures
        r@ == debug_form(s@),
{
    format!("{s:?}")
}

/// What a span is held against: the literal, or the claim where there is none.
pub open spec fn literal_or(literal: Option<Seq<char>>, claim: Seq<char>) -> Seq<char> {
    match literal {
        Some(s) => s,
        None => claim,
    }
}

/// What a predicate says of a span.
pub open spec fn judged(q: Question, claim: Seq<char>, span: Seq<char>) -> Finding
    decreases q,
{
    match q {
        Question::Exists => Finding::Decided(crate::text::trim(span).len() > 0),
        Question::Equals { literal } => Finding::Decided(
            crate::text::trim(span) == crate::text::trim(literal_or(literal, claim)),
        ),
        Question::Contains { literal } => Finding::Decided(
            crate::text::holds_text(span, literal_or(literal, claim)),
        ),
        Question::Matches { regex } => Finding::Decided(
            regex_fault(regex) is None && regex_found(regex, span),
        ),
        Question::Numeric { op, value } => Finding::Compare {
            op,
            text: crate::text::trim(span),
            value,
        },
        Question::JsonPointer { pointer, then } => match crate::json::json_at(span, pointer) {
            Some(text) => judged(*then, claim, Json::plain_spec(text)),
            None => Finding::Decided(false),
        },
    }
}

fn chosen<'a>(literal: &'a Option<String>, claim: &'a str) -> (r: &'a str)
    ensures
        r@ == literal_or(crate::text::option_text(*literal), claim@),
{
    match literal {
        Some(s) => s.as_str(),
        None => claim,
    }
}

impl Predicate {
    /// Evaluates against the claim value and the resolved span. Total and
    /// deterministic: any malformed input is a no, never an error (shape is
    /// caught by [`Predicate::validate`] at ground time).
    pub fn eval(&self, claim: &str, span: &str) -> (r: Judgment)
        ensures
            r@ == judged(question(*self), claim@, span@),
        decreases self,
    {
        match self {
            Predicate::Exists => Judgment::Decided(!trimmed(span).as_str().is_empty()),
            Predicate::Equals { literal } => Judgment::Decided(
                same(trimmed(span).as_str(), trimmed(chosen(literal, claim)).as_str()),
            ),
            Predicate::Contains { literal } => Judgment::Decided(
                contains_text(span, chosen(literal, claim)),
            ),
            Predicate::Matches { regex } => Judgment::Decided(find_regex(regex.as_str(), span)),
            Predicate::Numeric { op, value } => Judgment::Compare {
                op: *op,
                text: trimmed(span),
                value: *value,
            },
            Predicate::JsonPointer { pointer, then } => {
                match resolve_pointer(span, pointer.as_str()) {
                    Some(text) => {
                        let value = Json { text };
                        then.eval(claim, value.plain().as_str())
                    },
                    None => Judgment::Decided(false),
                }
            },
        }
    }
}

/// A predicate that asks for no number decides by itself.
pub proof fn law_judged_without_numbers(q: Question, claim: Seq<char>, span: Seq<char>)
    requires
        number_in(q) is None,
    ensures
        judged(q, claim, span) is Decided,
    decreases q,
{
    if let Question::JsonPointer { pointer, then } = q {
        if let Some(text) = crate::json::json_at(span, pointer) {
            law_judged_without_numbers(*then, claim, Json::plain_spec(text));
        }
    }
}

// ---------------------------------------------------------------------------
// Shape
// ---------------------------------------------------------------------------

/// What is wrong with a predicate: a regular expression that does not compile,
/// or a pointer that is neither empty nor starts with `/`.
pub open spec fn fault_of(q: Question) -> Option<Seq<char>>
    decreases q,
{
    match q {
        Question::Matches { regex } => match regex_fault(regex) {
            Some(fault) => Some("invalid regex: "@ + fault),
            None => None,
        },
        Question::JsonPointer { pointer, then } => if pointer.len() > 0 && pointer[0] != '/' {
            Some(
                "invalid JSON pointer (RFC 6901): "@ + debug_form(pointer)
                    + " must be empty or start with '/'"@,
            )
        } else {
            fault_of(*then)
        },
        _ => None,
    }
}

impl Predicate {
    /// Checks the predicate is well-formed (regex compiles, pointer is a valid
    /// RFC 6901 string, sub-predicates recurse). Run at ground time so a bad
    /// predicate can never surface as a runtime outcome.
    pub fn validate(&self) -> (r: Result<(), Error>)
        ensures
            match fault_of(question(*self)) {
                Some(fault) => crate::error::is_config(r, fault),
                None => r is Ok,
            },
        decreases self,
    {
        match self {
            Predicate::Matches { regex } => match compile_fault(regex.as_str()) {
                Some(fault) => Err(
                    Error::Config("invalid regex: ".to_owned().concat(fault.as_str())),
                ),
                None => Ok(()),
            },
            Predicate::JsonPointer { pointer, then } => {
                // RFC 6901: the empty string is the whole document; otherwise a
                // pointer is a sequence of `/`-prefixed reference tokens.
                proof {
                    reveal_strlit("/");
                    if pointer@.len() > 0 {
                        assert(pointer@.subrange(0, 1)[0] == pointer@[0]);
                        if pointer@[0] == '/' {
                            assert(pointer@.subrange(0, 1) =~= "/"@);
                        }
                    }
                }
                if !pointer.as_str().is_empty() && !begins_with(pointer.as_str(), "/") {
                    let mut text = "invalid JSON pointer (RFC 6901): ".to_owned();
                    text.append(debug_text(pointer.as_str()).as_str());
                    text.append(" must be empty or start with '/'");
                    return Err(Error::Config(text));
                }
                then.validate()
            },
            _ => Ok(()),
        }
    }
}

// ---------------------------------------------------------------------------
// Reading
// ---------------------------------------------------------------------------

/// The head of a predicate text, and what follows its colon.
pub open spec fn head_and_rest(s: Seq<char>) -> (Seq<char>, Option<Seq<char>>) {
    let text = crate::text::trim(s);
    match crate::text::split_once(text, ':') {
        Some((head, rest)) => (head, Some(rest)),
        None => (text, None),
    }
}

/// A predicate, unless something is wrong with it.
pub open spec fn validated(q: Question) -> Result<Question, Seq<char>> {
    match fault_of(q) {
        Some(fault) => Err(fault),
        None => Ok(q),
    }
}

/// The predicate a text stands for, or what is wrong with it. `number` is the
/// number that the text's numeral stands for, where it has one and that is a
/// number.
pub open spec fn reading(s: Seq<char>, number: Option<Real>) -> Result<Question, Seq<char>>
    decreases s.len(),
{
    let (head, rest) = head_and_rest(s);
    if head == "exists"@ {
        validated(Question::Exists)
    } else if head == "equals"@ {
        validated(Question::Equals { literal: rest })
    } else if head == "contains"@ {
        validated(Question::Contains { literal: rest })
    } else if head == "matches"@ {
        match rest {
            None => Err("matches needs a regex: matches:<re>"@),
            Some(regex) => validated(Question::Matches { regex }),
        }
    } else if head == "num"@ {
        match rest {
            None => Err("num needs op and value: num:<op>:<n>"@),
            Some(rest) => match crate::text::split_once(rest, ':') {
                None => Err("num needs op and value: num:<op>:<n>"@),
                Some((op, n)) => match (NumOp::named(op), number) {
                    (None, _) => Err("unknown numeric op: "@ + op),
                    (Some(_), None) => Err("bad number: "@ + n),
                    (Some(op), Some(value)) => validated(Question::Numeric { op, value }),
                },
            },
        }
    } else if head == "ptr"@ {
        match rest {
            None => Err("ptr needs a pointer: ptr:<rfc6901>"@),
            Some(rest) => match crate::text::split_once(rest, ':') {
                None => validated(
                    Question::JsonPointer { pointer: rest, then: Box::new(Question::Exists) },
                ),
                Some((pointer, sub)) => {
                    proof {
                        lemma_rest_shorter(s);
                    }
                    match reading(sub, number) {
                        Err(fault) => Err(fault),
                        Ok(then) => validated(
                            Question::JsonPointer { pointer, then: Box::new(then) },
                        ),
                    }
                },
            },
        }
    } else {
        Err("unknown predicate: "@ + head)
    }
}

/// The numeral in a predicate text.
pub open spec fn numeral_in(s: Seq<char>) -> Option<Seq<char>>
    decreases s.len(),
{
    let (head, rest) = head_and_rest(s);
    match rest {
        None => None,
        Some(rest) => match crate::text::split_once(rest, ':') {
            None => None,
            Some((before, behind)) => if head == "num"@ {
                Some(crate::text::trim(behind))
            } else if head == "ptr"@ {
                proof {
                    lemma_rest_shorter(s);
                }
                numeral_in(behind)
            } else {
                None
            },
        },
    }
}

proof fn lemma_trim_shorter(s: Seq<char>)
    ensures
        crate::text::trim_start(s).len() <= s.len(),
        crate::text::trim_end(s).len() <= s.len(),
    decreases s.len(),
{
    if s.len() > 0 {
        lemma_trim_shorter(s.skip(1));
        lemma_trim_shorter(s.drop_last());
    }
}

/// What follows the colon of a predicate text is shorter than the text.
pub proof fn lemma_rest_shorter(s: Seq<char>)
    ensures
        head_and_rest(s).1 matches Some(rest) ==> rest.len() < s.len() && (
        crate::text::split_once(rest, ':') matches Some((_, behind)) ==> behind.len() < s.len()),
{
    lemma_trim_shorter(s);
    lemma_trim_shorter(crate::text::trim_start(s));
    crate::text::lemma_first_at(crate::text::trim(s), ':');
    if let Some(rest) = head_and_rest(s).1 {
        crate::text::lemma_first_at(rest, ':');
    }
}

fn head_of(spec_text: &str) -> (r: (String, Option<String>))
    ensures
        r.0@ == head_and_rest(spec_text@).0,
        crate::text::option_text(r.1) == head_and_rest(spec_text@).1,
{
    let text = trimmed(spec_text);
    match split_first(text.as_str(), ':') {
        Some((head, rest)) => (head, Some(rest)),
        None => (text, None),
    }
}

fn config<T>(text: &str) -> (r: Result<T, Error>)
    ensures
        crate::error::is_config(r, text@),
{
    Err(Error::Config(text.to_owned()))
}

/// The number that a predicate compares with.
pub open spec fn number_in(q: Question) -> Option<Real>
    decreases q,
{
    match q {
        Question::Numeric { op, value } => Some(value),
        Question::JsonPointer { pointer, then } => number_in(*then),
        _ => None,
    }
}

/// A short human label; `shown` is how the number is shown.
pub open spec fn label_of(q: Question, shown: Seq<char>) -> Seq<char>
    decreases q,
{
    match q {
        Question::Exists => "exists"@,
        Question::Equals { .. } => "equals"@,
        Question::Contains { .. } => "contains"@,
        Question::Matches { .. } => "matches"@,
        Question::Numeric { op, value } => "num "@ + op.name_spec() + " "@ + shown,
        Question::JsonPointer { pointer, then } => "ptr "@ + pointer + " "@ + label_of(
            *then,
            shown,
        ),
    }
}

impl Predicate {
    /// The numeral in a predicate text, for which [`Predicate::parse`] takes the
    /// number it stands for.
    pub fn numeral(spec_text: &str) -> (r: Option<String>)
        ensures
            crate::text::option_text(r) == numeral_in(spec_text@),
        decreases spec_text@.len(),
    {
        let (head, rest) = head_of(spec_text);
        proof {
            lemma_rest_shorter(spec_text@);
        }
        let rest = match rest {
            Some(rest) => rest,
            None => {
                return None;
            },
        };
        match split_first(rest.as_str(), ':') {
            None => None,
            Some((_before, behind)) => {
                if same(head.as_str(), "num") {
                    Some(trimmed(behind.as_str()))
                } else if same(head.as_str(), "ptr") {
                    Predicate::numeral(behind.as_str())
                } else {
                    None
                }
            },
        }
    }

    /// Checked, and handed on.
    fn checked(self) -> (r: Result<Predicate, Error>)
        ensures
            match validated(question(self)) {
                Ok(q) => r matches Ok(p) && question(p) == q,
                Err(fault) => crate::error::is_config(r, fault),
            },
    {
        match self.validate() {
            Ok(_) => Ok(self),
            Err(error) => Err(error),
        }
    }

    /// Parses the CLI mini-grammar: `exists | equals[:lit] | contains[:lit] |
    /// matches:<re> | num:<op>:<n> | ptr:<rfc6901>[:<sub>]`. `number` is the
    /// number that the numeral of the text stands for (see
    /// [`Predicate::numeral`]), or `None` where that is no number.
    pub fn parse(spec_text: &str, number: Option<Real>) -> (r: Result<Predicate, Error>)
        ensures
            match reading(spec_text@, number) {
                Ok(q) => r matches Ok(p) && question(p) == q,
                Err(fault) => crate::error::is_config(r, fault),
            },
        decreases spec_text@.len(),
    {
        let (head, rest) = head_of(spec_text);
        proof {
            lemma_rest_shorter(spec_text@);
        }
        if same(head.as_str(), "exists") {
            Predicate::Exists.checked()
        } else if same(head.as_str(), "equals") {
            Predicate::Equals { literal: rest }.checked()
        } else if same(head.as_str(), "contains") {
            Predicate::Contains { literal: rest }.checked()
        } else if same(head.as_str(), "matches") {
            match rest {
                Some(regex) => Predicate::Matches { regex }.checked(),
                None => config("matches needs a regex: matches:<re>"),
            }
        } else if same(head.as_str(), "num") {
            let rest = match rest {
                Some(rest) => rest,
                None => {
                    return config("num needs op and value: num:<op>:<n>");
                },
            };
            let (op, n) = match split_first(rest.as_str(), ':') {
                Some(split) => split,
                None => {
                    return config("num needs op and value: num:<op>:<n>");
                },
            };
            let op = match NumOp::parse(op.as_str()) {
                Ok(op) => op,
                Err(error) => {
                    return Err(error);
                },
            };
            match number {
                Some(value) => Predicate::Numeric { op, value }.checked(),
                None => Err(Error::Config("bad number: ".to_owned().concat(n.as_str()))),
            }
        } else if same(head.as_str(), "ptr") {
            let rest = match rest {
                Some(rest) => rest,
                None => {
                    return config("ptr needs a pointer: ptr:<rfc6901>");
                },
            };
            // The pointer runs up to the first `:`, the remainder is the
            // sub-predicate (defaults to `exists`).
            match split_first(rest.as_str(), ':') {
                Some((pointer, sub)) => {
                    match Predicate::parse(sub.as_str(), number) {
                        Ok(then) => Predicate::JsonPointer {
                            pointer,
                            then: Box::new(then),
                        }.checked(),
                        Err(error) => Err(error),
                    }
                },
                None => Predicate::JsonPointer {
                    pointer: rest,
                    then: Box::new(Predicate::Exists),
                }.checked(),
            }
        } else {
            Err(Error::Config("unknown predicate: ".to_owned().concat(head.as_str())))
        }
    }

    /// The number the predicate compares with.
    pub fn number(&self) -> (r: Option<Real>)
        ensures
            r == number_in(question(*self)),
        decreases self,
    {
        match self {
            Predicate::Numeric { op: _, value } => Some(*value),
            Predicate::JsonPointer { pointer: _, then } => then.number(),
            _ => None,
        }
    }

    /// Short human label for `why`/`recall`; `shown` is the number as shown to
    /// people (see [`Predicate::number`]).
    pub fn label(&self, shown: &str) -> (r: String)
        ensures
            r@ == label_of(question(*self), shown@),
        decreases self,
    {
        match self {
            Predicate::Exists => "exists".to_owned(),
            Predicate::Equals { .. } => "equals".to_owned(),
            Predicate::Contains { .. } => "contains".to_owned(),
            Predicate::Matches { .. } => "matches".to_owned(),
            Predicate::Numeric { op, value: _ } => "num ".to_owned().concat(op.name()).concat(
                " ",
            ).concat(shown),
            Predicate::JsonPointer { pointer, then } => "ptr ".to_owned().concat(
                pointer.as_str(),
            ).concat(" ").concat(then.label(shown).as_str()),
        }
    }
}

/// A predicate that was read is well-formed: nothing is left to go wrong when a
/// span is judged.
pub proof fn law_read_predicates_are_valid(s: Seq<char>, number: Option<Real>)
    ensures
        reading(s, number) matches Ok(q) ==> fault_of(q) is None,
{
}

} // verus!
