//! Positive durations with ISO 8601 and human-readable input.
//!
//! ISO input follows Temporal's duration-string grammar, including combined
//! weeks and a leading `+`. Fractions are allowed on the final time component.
//! Letters count in any case, so that the long s designates seconds too; digits
//! outside ASCII are told from letters, but none is a number that a duration holds.
//! Shorthand is a list of numbers with units, such as `1h30m` or
//! `1 hour, 30 minutes`; a bare number counts seconds.
//! Calendar months and years are resolved relative to a UTC date, with the day
//! constrained to the destination month's last day. Days always have 24 hours.

use std::str::FromStr;

use crate::predicate::find_regex;
use crate::text::{chars_of, decimal_text, digit, end_of_digits, letter, read_decimal, same};
use crate::text::{skip_space, string_of, to_small, to_small_text, trimmed};
use crate::time::{calendar_days, later_instant, Elapsed, Timestamp, DAY_SECS, NANOS};
use vstd::prelude::*;

pub mod shorthand;
pub mod units;

verus! {

pub const SECOND: u128 = 1_000_000_000;

pub const MINUTE: u128 = 60_000_000_000;

pub const HOUR: u128 = 3_600_000_000_000;

pub const DAY: u128 = 86_400_000_000_000;

pub const WEEK: u128 = 604_800_000_000_000;

/// The most seconds a duration may hold beside its calendar months.
pub const MOST_SECONDS: u64 = 9_223_372_036_854_775;

/// What is wrong with a duration text.
#[derive(Debug, Clone, Copy, PartialEq, Eq, Structural)]
pub enum Fault {
    /// Neither an ISO 8601 duration nor a duration with units.
    Syntax,
    /// The duration is too large.
    Range,
    /// The duration is zero or negative.
    Positive,
    /// The duration is not a whole number of nanoseconds.
    Precision,
    /// A count of years or months is not a whole number within range.
    CalendarNumber,
    /// A fraction stands before the final ISO time component.
    EarlyFraction,
    /// Years and months where only elapsed time will do.
    Unanchored,
}

/// Invalid syntax, precision, sign, or magnitude in a duration.
#[derive(Debug, Clone, Copy, PartialEq, Eq, Structural)]
pub struct ParseDurationError(pub Fault);

impl ParseDurationError {
    /// What a person is told.
    pub open spec fn message_spec(&self) -> Seq<char> {
        match self.0 {
            Fault::Syntax =>
                "expected an ISO 8601 duration (PT1H30M) or a duration with units (1h30m)"@,
            Fault::Range => "duration is too large"@,
            Fault::Positive => "duration must be greater than zero"@,
            Fault::Precision =>
                "duration must be exact to nanoseconds, with at most nine decimal places"@,
            Fault::CalendarNumber => "years and months must be whole numbers within range"@,
            Fault::EarlyFraction => "only the final ISO time component may have a fraction"@,
            Fault::Unanchored =>
                "years and months require a reference date; use days or smaller units here"@,
        }
    }

    /// The message for a person.
    pub fn to_string(&self) -> (r: String)
        ensures
            r@ == self.message_spec(),
    {
        (match self.0 {
            Fault::Syntax =>
                "expected an ISO 8601 duration (PT1H30M) or a duration with units (1h30m)",
            Fault::Range => "duration is too large",
            Fault::Positive => "duration must be greater than zero",
            Fault::Precision =>
                "duration must be exact to nanoseconds, with at most nine decimal places",
            Fault::CalendarNumber => "years and months must be whole numbers within range",
            Fault::EarlyFraction => "only the final ISO time component may have a fraction",
            Fault::Unanchored =>
                "years and months require a reference date; use days or smaller units here",
        }).to_owned()
    }
}

// ---------------------------------------------------------------------------
// What a duration is
// ---------------------------------------------------------------------------

/// Calendar months and, beside them, nanoseconds.
pub struct Span {
    pub months: nat,
    pub nanos: nat,
}

/// A span that a duration can hold: positive, and not too large.
pub open spec fn is_duration(span: Span) -> bool {
    &&& span.months <= u32::MAX
    &&& span.nanos / (SECOND as nat) <= MOST_SECONDS
    &&& span.months > 0 || span.nanos > 0
}

/// A positive duration, precise to one nanosecond.
/// Parse ISO 8601 (`P1DT2H`, `PT0.5S`) or shorthand (`1d2h`, `500ms`).
#[derive(Debug, Clone, Copy, PartialEq, Eq)]
pub struct Duration {
    months: u32,
    time: Elapsed,
}

impl View for Duration {
    type V = Span;

    closed spec fn view(&self) -> Span {
        Span { months: self.months as nat, nanos: self.time.total() }
    }
}

impl Duration {
    #[verifier::type_invariant]
    spec fn inv(self) -> bool {
        &&& self.time.secs <= MOST_SECONDS
        &&& self.time.nanos < NANOS
        &&& self.months > 0 || self.time.secs > 0 || self.time.nanos > 0
    }

    /// Every duration is positive and within range.
    pub fn positive(&self) -> (r: bool)
        ensures
            r,
            is_duration(self@),
    {
        proof {
            use_type_invariant(self);
            lemma_split(self.time);
        }
        true
    }
}

/// Whole seconds and the nanoseconds beyond them are quotient and remainder.
proof fn lemma_split(time: Elapsed)
    requires
        time.wf(),
    ensures
        time.total() / (SECOND as nat) == time.secs,
        time.total() % (SECOND as nat) == time.nanos,
{
}

// ---------------------------------------------------------------------------
// Numbers and units
// ---------------------------------------------------------------------------

/// The two decimal separators.
pub open spec fn is_separator(c: char) -> bool {
    c == '.' || c == ','
}

/// How many characters stand before the first decimal separator.
pub open spec fn before_separator(s: Seq<char>) -> nat
    decreases s.len(),
{
    if s.len() == 0 || is_separator(s[0]) {
        0
    } else {
        1 + before_separator(s.skip(1))
    }
}

/// What stands before the first decimal separator.
pub open spec fn whole_part(number: Seq<char>) -> Seq<char> {
    number.take(before_separator(number) as int)
}

/// What stands after the first decimal separator.
pub open spec fn fraction_part(number: Seq<char>) -> Seq<char> {
    if before_separator(number) < number.len() {
        number.skip(before_separator(number) as int + 1)
    } else {
        Seq::empty()
    }
}

/// A power of ten.
pub open spec fn ten_to(n: nat) -> nat
    decreases n,
{
    if n == 0 {
        1
    } else {
        10 * ten_to((n - 1) as nat)
    }
}

/// The number that a text is: ASCII digits, perhaps behind a plus.
pub open spec fn count_in(s: Seq<char>) -> Option<nat> {
    let digits = if s.len() > 0 && s[0] == '+' {
        s.skip(1)
    } else {
        s
    };
    if digits.len() > 0 && crate::text::all_digits(digits) {
        Some(crate::text::decimal(digits))
    } else {
        None
    }
}

/// How many bytes a character takes in UTF-8.
pub open spec fn byte_width(c: char) -> nat {
    if (c as u32) < 0x80 {
        1
    } else if (c as u32) < 0x800 {
        2
    } else if (c as u32) < 0x1_0000 {
        3
    } else {
        4
    }
}

/// How many bytes a text takes in UTF-8.
pub open spec fn byte_length(s: Seq<char>) -> nat
    decreases s.len(),
{
    if s.len() == 0 {
        0
    } else {
        byte_length(s.drop_last()) + byte_width(s.last())
    }
}

/// The nanoseconds in `number` units of `unit` nanoseconds each.
pub open spec fn fixed_value(number: Seq<char>, unit: nat) -> Result<nat, Fault> {
    let whole = whole_part(number);
    let fraction = fraction_part(number);
    let units = if whole.len() == 0 {
        Some(0nat)
    } else {
        count_in(whole)
    };
    if byte_length(fraction) > 9 {
        Err(Fault::Precision)
    } else {
        match units {
            None => Err(Fault::Range),
            Some(n) => if n > u128::MAX || n * unit > u128::MAX {
                Err(Fault::Range)
            } else if fraction.len() == 0 {
                Ok(n * unit)
            } else {
                with_fraction(n * unit, fraction, unit)
            },
        }
    }
}

/// Some nanoseconds with a decimal fraction of a unit more, exact.
pub open spec fn with_fraction(nanos: nat, fraction: Seq<char>, unit: nat) -> Result<nat, Fault> {
    let denominator = ten_to(fraction.len());
    match count_in(fraction) {
        None => Err(Fault::Syntax),
        Some(n) => if n * unit > u128::MAX {
            Err(Fault::Range)
        } else if n * unit % denominator != 0 {
            Err(Fault::Precision)
        } else if nanos + n * unit / denominator > u128::MAX {
            Err(Fault::Range)
        } else {
            Ok(nanos + n * unit / denominator)
        },
    }
}

/// A span with `number` units of fixed length more.
pub open spec fn add_fixed(span: Span, number: Seq<char>, unit: nat) -> Result<Span, Fault> {
    match fixed_value(number, unit) {
        Err(fault) => Err(fault),
        Ok(nanos) => if span.nanos + nanos > u128::MAX {
            Err(Fault::Range)
        } else {
            Ok(Span { months: span.months, nanos: span.nanos + nanos })
        },
    }
}

/// A span with `number` times `months` calendar months more.
pub open spec fn add_calendar(span: Span, number: Seq<char>, months: nat) -> Result<Span, Fault> {
    match count_in(number) {
        None => Err(Fault::CalendarNumber),
        Some(count) => if count > u32::MAX {
            Err(Fault::CalendarNumber)
        } else if span.months + count * months > u32::MAX {
            Err(Fault::Range)
        } else {
            Ok(Span { months: span.months + count * months, nanos: span.nanos })
        },
    }
}

/// The duration that a span is, if it is one.
pub open spec fn finished(span: Span) -> Result<Span, Fault> {
    if span.months == 0 && span.nanos == 0 {
        Err(Fault::Positive)
    } else if span.nanos / (SECOND as nat) > MOST_SECONDS {
        Err(Fault::Range)
    } else {
        Ok(span)
    }
}

/// Whether a text holds nothing but digits and decimal separators.
pub open spec fn is_numeral(s: Seq<char>) -> bool {
    forall|i: int|
        0 <= i < s.len() ==> crate::text::is_digit(#[trigger] s[i]) || is_separator(s[i])
}

proof fn lemma_separator(s: Seq<char>)
    ensures
        before_separator(s) <= s.len(),
        forall|i: int| 0 <= i < before_separator(s) ==> !is_separator(#[trigger] s[i]),
        before_separator(s) < s.len() ==> is_separator(s[before_separator(s) as int]),
    decreases s.len(),
{
    if s.len() > 0 && !is_separator(s[0]) {
        let t = s.skip(1);
        lemma_separator(t);
        assert forall|i: int| 0 <= i < before_separator(s) implies !is_separator(
            #[trigger] s[i],
        ) by {
            if i > 0 {
                assert(t[i - 1] == s[i]);
            }
        }
        if before_separator(s) < s.len() {
            assert(t[before_separator(t) as int] == s[before_separator(s) as int]);
        }
    }
}

proof fn lemma_separator_at(s: Seq<char>, n: int)
    requires
        0 <= n <= s.len(),
        forall|i: int| 0 <= i < n ==> !is_separator(#[trigger] s[i]),
        n == s.len() || is_separator(s[n]),
    ensures
        before_separator(s) == n,
{
    lemma_separator(s);
    let k = before_separator(s) as int;
    if k < n {
        assert(is_separator(s[k]));
    } else if n < k {
        assert(!is_separator(s[n]));
    }
}

fn separator(c: char) -> (r: bool)
    ensures
        r == is_separator(c),
{
    c == '.' || c == ','
}

/// A power of ten.
fn power_of_ten(n: usize) -> (r: u128)
    requires
        n <= 9,
    ensures
        r == ten_to(n as nat),
        1 <= r <= 1_000_000_000,
{
    let mut r: u128 = 1;
    let mut i: usize = 0;
    assert(ten_to(0) == 1);
    proof {
        reveal_with_fuel(ten_to, 10);
    }
    while i < n
        invariant
            i <= n <= 9,
            r == ten_to(i as nat),
            1 <= r,
            ten_to(0) == 1 && ten_to(1) == 10 && ten_to(2) == 100 && ten_to(3) == 1_000 && ten_to(4)
                == 10_000 && ten_to(5) == 100_000 && ten_to(6) == 1_000_000 && ten_to(7)
                == 10_000_000 && ten_to(8) == 100_000_000 && ten_to(9) == 1_000_000_000,
        decreases n - i,
    {
        r = r * 10;
        i = i + 1;
        assert(ten_to(i as nat) == 10 * ten_to((i - 1) as nat));
    }
    r
}

/// Reads the number `v[from..to]`; `None` where it is none, or does not fit in 128
/// bits.
fn read_count(v: &Vec<char>, from: usize, to: usize) -> (r: Option<u128>)
    requires
        from <= to <= v.len(),
    ensures
        match count_in(v@.subrange(from as int, to as int)) {
            Some(n) => if n <= u128::MAX {
                r matches Some(m) && m == n
            } else {
                r is None
            },
            None => r is None,
        },
{
    let ghost s = v@.subrange(from as int, to as int);
    let start: usize = if from < to && v[from] == '+' {
        from + 1
    } else {
        from
    };
    let ghost digits = v@.subrange(start as int, to as int);
    assert(digits =~= if s.len() > 0 && s[0] == '+' {
        s.skip(1)
    } else {
        s
    });
    let end = end_of_digits(v, start);
    let ghost tail = v@.skip(start as int);
    proof {
        crate::text::lemma_digit_run_bounds(tail);
    }
    if start == to || end < to {
        proof {
            if end < to {
                assert(digits[end - start] == tail[end - start]);
            }
        }
        return None;
    }
    assert forall|i: int| 0 <= i < digits.len() implies crate::text::is_digit(
        #[trigger] digits[i],
    ) by {
        assert(digits[i] == tail[i]);
    }
    read_decimal(v, start, to)
}

/// A part of a text takes no more bytes than the text.
proof fn lemma_byte_length(s: Seq<char>, n: int)
    requires
        0 <= n <= s.len(),
    ensures
        byte_length(s.take(n)) <= byte_length(s),
        byte_length(s) >= s.len(),
    decreases s.len(),
{
    if s.len() > 0 {
        let t = s.drop_last();
        if n < s.len() {
            lemma_byte_length(t, n);
            assert(t.take(n) =~= s.take(n));
        } else {
            lemma_byte_length(t, 0);
            assert(s.take(n) =~= s);
        }
    } else {
        assert(s.take(n) =~= s);
    }
}

/// Whether `v[from..to]` takes more than nine bytes.
fn longer_than_nine(v: &Vec<char>, from: usize, to: usize) -> (r: bool)
    requires
        from <= to <= v.len(),
    ensures
        r == (byte_length(v@.subrange(from as int, to as int)) > 9),
{
    let ghost s = v@.subrange(from as int, to as int);
    let mut bytes: usize = 0;
    let mut i: usize = from;
    while i < to
        invariant
            from <= i <= to <= v.len(),
            s == v@.subrange(from as int, to as int),
            bytes <= 9,
            bytes == byte_length(s.take(i - from)),
        decreases to - i,
    {
        assert(s.take(i - from + 1).drop_last() =~= s.take(i - from));
        assert(s.take(i - from + 1).last() == v@[i as int]);
        let n: u32 = v[i] as u32;
        let width: usize = if n < 0x80 {
            1
        } else if n < 0x800 {
            2
        } else if n < 0x1_0000 {
            3
        } else {
            4
        };
        bytes = bytes + width;
        i = i + 1;
        if bytes > 9 {
            proof {
                lemma_byte_length(s, i - from);
            }
            return true;
        }
    }
    assert(s.take(to - from) =~= s);
    false
}

/// Adds the fraction `v[from..to]` of a unit to some nanoseconds.
fn fraction_of(v: &Vec<char>, from: usize, to: usize, unit: u128, nanos: u128) -> (r: Result<
    u128,
    ParseDurationError,
>)
    requires
        from < to <= v.len(),
        byte_length(v@.subrange(from as int, to as int)) <= 9,
    ensures
        match with_fraction(nanos as nat, v@.subrange(from as int, to as int), unit as nat) {
            Ok(sum) => r matches Ok(n) && n == sum,
            Err(fault) => r == Err::<u128, _>(ParseDurationError(fault)),
        },
{
    let ghost fraction = v@.subrange(from as int, to as int);
    proof {
        lemma_byte_length(fraction, 0);
        lemma_count_bound(fraction);
    }
    let count: u128 = match read_count(v, from, to) {
        Some(n) => n,
        None => {
            return Err(ParseDurationError(Fault::Syntax));
        },
    };
    let scale = power_of_ten(to - from);
    let scaled: u128 = match count.checked_mul(unit) {
        Some(n) => n,
        None => {
            return Err(ParseDurationError(Fault::Range));
        },
    };
    if scaled % scale != 0 {
        return Err(ParseDurationError(Fault::Precision));
    }
    match nanos.checked_add(scaled / scale) {
        Some(n) => Ok(n),
        None => Err(ParseDurationError(Fault::Range)),
    }
}

/// A number of nine digits fits.
proof fn lemma_count_bound(s: Seq<char>)
    requires
        s.len() <= 9,
    ensures
        count_in(s) matches Some(n) ==> n <= 1_000_000_000,
{
    if count_in(s) is Some {
        let digits = if s[0] == '+' {
            s.skip(1)
        } else {
            s
        };
        lemma_decimal_bound(digits);
        lemma_ten_to_bound(digits.len());
    }
}

/// Digits are the number that they are.
proof fn lemma_count_of_digits(s: Seq<char>)
    requires
        s.len() > 0,
        crate::text::all_digits(s),
    ensures
        count_in(s) == Some(crate::text::decimal(s)),
        byte_length(s) == s.len(),
    decreases s.len(),
{
    assert(crate::text::is_digit(s[0]));
    assert(crate::text::is_digit(s[s.len() - 1]));
    let t = s.drop_last();
    if t.len() > 0 {
        assert forall|i: int| 0 <= i < t.len() implies crate::text::is_digit(#[trigger] t[i]) by {
            assert(t[i] == s[i]);
        }
        lemma_count_of_digits(t);
    } else {
        assert(byte_length(t) == 0);
    }
}

/// The parts of a duration while it is read.
pub struct Parts {
    pub months: u32,
    pub nanos: u128,
}

impl View for Parts {
    type V = Span;

    open spec fn view(&self) -> Span {
        Span { months: self.months as nat, nanos: self.nanos as nat }
    }
}

impl Default for Parts {
    fn default() -> (r: Self)
        ensures
            r@ == (Span { months: 0, nanos: 0 }),
    {
        Parts { months: 0, nanos: 0 }
    }
}

impl Parts {
    /// Adds the number `v[from..to]` times some calendar months.
    fn calendar(&mut self, v: &Vec<char>, from: usize, to: usize, months: u32) -> (r: Result<
        (),
        ParseDurationError,
    >)
        requires
            from <= to <= v.len(),
        ensures
            match add_calendar(old(self)@, v@.subrange(from as int, to as int), months as nat) {
                Ok(span) => r is Ok && final(self)@ == span,
                Err(fault) => r == Err::<(), _>(ParseDurationError(fault)) && final(self)@ == old(
                    self,
                )@,
            },
    {
        let count: u128 = match read_count(v, from, to) {
            Some(n) => n,
            None => {
                return Err(ParseDurationError(Fault::CalendarNumber));
            },
        };
        if count > 0xffff_ffff {
            return Err(ParseDurationError(Fault::CalendarNumber));
        }
        assert(count * months <= 0xffff_ffff * 0xffff_ffff) by (nonlinear_arith)
            requires
                count <= 0xffff_ffff,
                months <= 0xffff_ffff,
        ;
        let sum: u128 = self.months as u128 + count * (months as u128);
        if sum > 0xffff_ffff {
            return Err(ParseDurationError(Fault::Range));
        }
        self.months = sum as u32;
        Ok(())
    }

    /// Adds the number `v[from..to]` times a unit of fixed length.
    fn fixed(&mut self, v: &Vec<char>, from: usize, to: usize, unit: u128) -> (r: Result<
        (),
        ParseDurationError,
    >)
        requires
            from <= to <= v.len(),
        ensures
            match add_fixed(old(self)@, v@.subrange(from as int, to as int), unit as nat) {
                Ok(span) => r is Ok && final(self)@ == span,
                Err(fault) => r == Err::<(), _>(ParseDurationError(fault)) && final(self)@ == old(
                    self,
                )@,
            },
    {
        let ghost number = v@.subrange(from as int, to as int);
        let mut at: usize = from;
        while at < to && !separator(v[at])
            invariant
                from <= at <= to <= v.len(),
                number == v@.subrange(from as int, to as int),
                forall|i: int| 0 <= i < at - from ==> !is_separator(#[trigger] number[i]),
            decreases to - at,
        {
            assert(number[at - from] == v@[at as int]);
            at = at + 1;
        }
        proof {
            if at < to {
                assert(number[at - from] == v@[at as int]);
            }
            lemma_separator_at(number, at - from);
        }
        let next: usize = if at < to {
            at + 1
        } else {
            to
        };
        let ghost whole = v@.subrange(from as int, at as int);
        let ghost fraction = v@.subrange(next as int, to as int);
        assert(whole =~= whole_part(number));
        assert(fraction =~= fraction_part(number));
        if longer_than_nine(v, next, to) {
            return Err(ParseDurationError(Fault::Precision));
        }
        let units: u128 = if from == at {
            0
        } else {
            match read_count(v, from, at) {
                Some(n) => n,
                None => {
                    return Err(ParseDurationError(Fault::Range));
                },
            }
        };
        let mut nanos: u128 = match units.checked_mul(unit) {
            Some(n) => n,
            None => {
                return Err(ParseDurationError(Fault::Range));
            },
        };
        if next < to {
            nanos = match fraction_of(v, next, to, unit, nanos) {
                Ok(n) => n,
                Err(error) => {
                    return Err(error);
                },
            };
        }
        match self.nanos.checked_add(nanos) {
            Some(n) => {
                self.nanos = n;
                Ok(())
            },
            None => Err(ParseDurationError(Fault::Range)),
        }
    }

    /// Makes the duration.
    pub fn finish(self) -> (r: Result<Duration, ParseDurationError>)
        ensures
            match finished(self@) {
                Ok(span) => r matches Ok(d) && d@ == span,
                Err(fault) => r == Err::<Duration, _>(ParseDurationError(fault)),
            },
    {
        if self.months == 0 && self.nanos == 0 {
            return Err(ParseDurationError(Fault::Positive));
        }
        // Leave room for calendar months beside the elapsed time. The narrower
        // range of instants is checked separately by `deadline`.
        if self.nanos / SECOND > MOST_SECONDS as u128 {
            return Err(ParseDurationError(Fault::Range));
        }
        let time = Elapsed {
            secs: (self.nanos / SECOND) as u64,
            nanos: (self.nanos % SECOND) as u32,
        };
        Ok(Duration { months: self.months, time })
    }
}

proof fn lemma_decimal_bound(s: Seq<char>)
    requires
        crate::text::all_digits(s),
    ensures
        crate::text::decimal(s) < ten_to(s.len()),
    decreases s.len(),
{
    if s.len() > 0 {
        assert forall|i: int| 0 <= i < s.drop_last().len() implies crate::text::is_digit(
            #[trigger] s.drop_last()[i],
        ) by {
            assert(s.drop_last()[i] == s[i]);
        }
        lemma_decimal_bound(s.drop_last());
        assert(crate::text::is_digit(s[s.len() - 1]));
    }
}

proof fn lemma_ten_to_bound(n: nat)
    requires
        n <= 9,
    ensures
        1 <= ten_to(n) <= 1_000_000_000,
{
    reveal_with_fuel(ten_to, 10);
}

// ---------------------------------------------------------------------------
// ISO 8601
// ---------------------------------------------------------------------------

/// The decimal digits of any script.
pub open spec fn is_decimal(c: char) -> bool {
    crate::text::is_digit(c) || (c as u32 >= 0x80 && crate::predicate::regex_found(
        "\\d"@,
        seq![c],
    ))
}

/// How many decimal digits, of any script, a text starts with.
pub open spec fn decimal_run(s: Seq<char>) -> nat
    decreases s.len(),
{
    if s.len() > 0 && is_decimal(s[0]) {
        1 + decimal_run(s.skip(1))
    } else {
        0
    }
}

/// Whether a character is a designator, in any case. The long s is an s.
pub open spec fn is_designator(c: char, designator: char) -> bool {
    crate::text::small(c) == designator || (c == '\u{17f}' && designator == 's')
}

/// Reads one component of an ISO duration off the start of a text: the number,
/// and what follows its designator.
pub open spec fn component(s: Seq<char>, designator: char, fractions: bool) -> Option<
    (Seq<char>, Seq<char>),
> {
    let n = decimal_run(s) as int;
    let m = decimal_run(s.skip(n + 1)) as int;
    let end = n + 1 + m;
    if n == 0 || n >= s.len() {
        None
    } else if is_designator(s[n], designator) {
        Some((s.take(n), s.skip(n + 1)))
    } else if fractions && is_separator(s[n]) && 1 <= m <= 9 && end < s.len() && is_designator(
        s[end],
        designator,
    ) {
        Some((s.take(end), s.skip(end + 1)))
    } else {
        None
    }
}

/// The numbers of the components of an ISO duration, in the order of their
/// designators, and what follows the last of them.
pub open spec fn components(s: Seq<char>, designators: Seq<char>, fractions: bool) -> (
    Seq<Option<Seq<char>>>,
    Seq<char>,
)
    decreases designators.len(),
{
    if designators.len() == 0 {
        (Seq::empty(), s)
    } else {
        match component(s, designators[0], fractions) {
            Some((number, rest)) => {
                let (numbers, end) = components(rest, designators.skip(1), fractions);
                (seq![Some(number)] + numbers, end)
            },
            None => {
                let (numbers, end) = components(s, designators.skip(1), fractions);
                (seq![None::<Seq<char>>] + numbers, end)
            },
        }
    }
}

/// The designators of years, months, weeks and days.
pub open spec fn date_designators() -> Seq<char> {
    seq!['y', 'm', 'w', 'd']
}

/// The designators of hours, minutes and seconds.
pub open spec fn time_designators() -> Seq<char> {
    seq!['h', 'm', 's']
}

/// The seven numbers of an ISO duration (years, months, weeks, days, hours,
/// minutes, seconds), each where it is given; `None` for any other text.
pub open spec fn iso_numbers(s: Seq<char>) -> Option<Seq<Option<Seq<char>>>> {
    if s.len() == 0 || crate::text::small(s[0]) != 'p' {
        None
    } else {
        let (date, rest) = components(s.skip(1), date_designators(), false);
        if rest.len() == 0 {
            Some(date + seq![None, None, None])
        } else if crate::text::small(rest[0]) == 't' {
            let (time, end) = components(rest.skip(1), time_designators(), true);
            if end.len() == 0 {
                Some(date + time)
            } else {
                None
            }
        } else {
            None
        }
    }
}

/// A span with the ISO component at `index` more.
pub open spec fn add_component(span: Span, index: int, number: Seq<char>) -> Result<Span, Fault> {
    if index == 0 {
        add_calendar(span, number, 12)
    } else if index == 1 {
        add_calendar(span, number, 1)
    } else if index == 2 {
        add_fixed(span, number, WEEK as nat)
    } else if index == 3 {
        add_fixed(span, number, DAY as nat)
    } else if index == 4 {
        add_fixed(span, number, HOUR as nat)
    } else if index == 5 {
        add_fixed(span, number, MINUTE as nat)
    } else {
        add_fixed(span, number, SECOND as nat)
    }
}

/// Whether a number has a fraction.
pub open spec fn has_separator(number: Seq<char>) -> bool {
    exists|i: int| 0 <= i < number.len() && is_separator(#[trigger] number[i])
}

/// The sum of the components from `index` on, the last of which may have a
/// fraction.
pub open spec fn iso_sum(
    numbers: Seq<Option<Seq<char>>>,
    index: int,
    span: Span,
    fraction: bool,
) -> Result<Span, Fault>
    decreases numbers.len() - index,
{
    if index >= numbers.len() {
        Ok(span)
    } else {
        match numbers[index] {
            None => iso_sum(numbers, index + 1, span, fraction),
            Some(number) => if fraction {
                Err(Fault::EarlyFraction)
            } else {
                match add_component(span, index, number) {
                    Err(fault) => Err(fault),
                    Ok(more) => iso_sum(numbers, index + 1, more, has_separator(number)),
                }
            },
        }
    }
}

/// Whether a component from `from` on is given.
pub open spec fn any_number(numbers: Seq<Option<Seq<char>>>, from: int) -> bool {
    exists|i: int| from <= i < numbers.len() && (#[trigger] numbers[i]) is Some
}

/// Whether a text holds the designator of the time part.
pub open spec fn has_time_designator(s: Seq<char>) -> bool {
    exists|i: int| 0 <= i < s.len() && crate::text::small(#[trigger] s[i]) == 't'
}

/// What an ISO duration text means.
pub open spec fn iso_reading(s: Seq<char>) -> Result<Span, Fault> {
    match iso_numbers(s) {
        None => Err(Fault::Syntax),
        Some(numbers) => match iso_sum(numbers, 0, Span { months: 0, nanos: 0 }, false) {
            Err(fault) => Err(fault),
            Ok(span) => if !any_number(numbers, 0) || (has_time_designator(s) && !any_number(
                numbers,
                4,
            )) {
                Err(Fault::Syntax)
            } else {
                finished(span)
            },
        },
    }
}

// ---------------------------------------------------------------------------
// Shorthand
// ---------------------------------------------------------------------------

/// How long the number is that a shorthand text starts with; 0 for none.
pub open spec fn number_run(s: Seq<char>) -> int {
    let n = crate::text::digit_run(s) as int;
    let m = crate::text::digit_run(s.skip(n + 1)) as int;
    if n < s.len() && is_separator(s[n]) && m > 0 {
        n + 1 + m
    } else {
        n
    }
}

/// The letters of unit names, in any case: those of ASCII and the two signs for micro,
/// and with them the long s, the Kelvin sign and the capital mu.
pub open spec fn is_unit_letter(c: char) -> bool {
    ||| crate::text::is_letter(c)
    ||| c == 'µ' || c == 'μ' || c == '\u{39c}'
    ||| c == '\u{17f}' || c == '\u{212a}'
}

/// How many letters of a unit name a text starts with.
pub open spec fn unit_run(s: Seq<char>) -> nat
    decreases s.len(),
{
    if s.len() > 0 && is_unit_letter(s[0]) {
        1 + unit_run(s.skip(1))
    } else {
        0
    }
}

/// A span with `number` of the named unit more.
#[verifier::opaque]
pub open spec fn add_unit(span: Span, number: Seq<char>, unit: Seq<char>) -> Result<Span, Fault> {
    if unit == "y"@ || unit == "yr"@ || unit == "yrs"@ || unit == "year"@ || unit == "years"@ {
        add_calendar(span, number, 12)
    } else if unit == "mo"@ || unit == "mos"@ || unit == "month"@ || unit == "months"@ {
        add_calendar(span, number, 1)
    } else if unit == "w"@ || unit == "wk"@ || unit == "wks"@ || unit == "week"@ || unit
        == "weeks"@ {
        add_fixed(span, number, WEEK as nat)
    } else if unit == "d"@ || unit == "day"@ || unit == "days"@ {
        add_fixed(span, number, DAY as nat)
    } else if unit == "h"@ || unit == "hr"@ || unit == "hrs"@ || unit == "hour"@ || unit
        == "hours"@ {
        add_fixed(span, number, HOUR as nat)
    } else if unit == "m"@ || unit == "min"@ || unit == "mins"@ || unit == "minute"@ || unit
        == "minutes"@ {
        add_fixed(span, number, MINUTE as nat)
    } else if unit == "s"@ || unit == "sec"@ || unit == "secs"@ || unit == "second"@ || unit
        == "seconds"@ {
        add_fixed(span, number, SECOND as nat)
    } else if unit == "ms"@ || unit == "millisecond"@ || unit == "milliseconds"@ {
        add_fixed(span, number, 1_000_000)
    } else if unit == "us"@ || unit == "µs"@ || unit == "μs"@ || unit == "microsecond"@ || unit
        == "microseconds"@ {
        add_fixed(span, number, 1_000)
    } else if unit == "ns"@ || unit == "nanosecond"@ || unit == "nanoseconds"@ {
        add_fixed(span, number, 1)
    } else {
        Err(Fault::Syntax)
    }
}

/// What follows a unit: white space, and then perhaps a comma, which needs
/// another term behind it.
pub open spec fn after_unit(s: Seq<char>) -> Option<Seq<char>> {
    let rest = crate::text::trim_start(s);
    if rest.len() > 0 && rest[0] == ',' {
        let next = crate::text::trim_start(rest.skip(1));
        if next.len() == 0 {
            None
        } else {
            Some(next)
        }
    } else {
        Some(rest)
    }
}

/// The sum of the terms of a shorthand text: each a number, its unit, and
/// perhaps white space around them and a comma between.
pub open spec fn shorthand_sum(s: Seq<char>, span: Span) -> Result<Span, Fault>
    decreases s.len(),
{
    let n = number_run(s);
    let spaced = s.skip(n);
    let unit_on = crate::text::trim_start(spaced);
    let u = unit_run(unit_on) as int;
    if s.len() == 0 {
        Ok(span)
    } else if n == 0 || u == 0 {
        Err(Fault::Syntax)
    } else {
        match add_unit(span, s.take(n), crate::text::small_text(unit_on.take(u))) {
            Err(fault) => Err(fault),
            Ok(more) => match after_unit(unit_on.skip(u)) {
                None => Err(Fault::Syntax),
                Some(rest) => {
                    proof {
                        lemma_term_shrinks(s);
                    }
                    shorthand_sum(rest, more)
                },
            },
        }
    }
}

/// What a shorthand text means. A bare number counts seconds.
pub open spec fn shorthand_reading(s: Seq<char>) -> Result<Span, Fault> {
    let zero = Span { months: 0, nanos: 0 };
    let sum = if is_numeral(s) {
        add_fixed(zero, s, SECOND as nat)
    } else {
        shorthand_sum(s, zero)
    };
    match sum {
        Err(fault) => Err(fault),
        Ok(span) => finished(span),
    }
}

/// A duration text without white space at the ends and without its sign.
pub open spec fn unsigned(s: Seq<char>) -> Seq<char> {
    let text = crate::text::trim(s);
    if text.len() > 0 && text[0] == '+' {
        crate::text::trim_start(text.skip(1))
    } else {
        crate::text::trim_start(text)
    }
}

/// What a duration text means.
pub open spec fn reading(s: Seq<char>) -> Result<Span, Fault> {
    let text = unsigned(s);
    if text.len() > 0 && (text[0] == '-' || text[0] == '−') {
        Err(Fault::Positive)
    } else if text.len() > 0 && (text[0] == 'P' || text[0] == 'p') {
        iso_reading(text)
    } else {
        shorthand_reading(text)
    }
}

// ---------------------------------------------------------------------------
// Reading
// ---------------------------------------------------------------------------

proof fn lemma_trim_start_len(s: Seq<char>)
    ensures
        crate::text::trim_start(s).len() <= s.len(),
    decreases s.len(),
{
    if s.len() > 0 && crate::text::is_space(s[0]) {
        lemma_trim_start_len(s.skip(1));
    }
}

proof fn lemma_unit_run_len(s: Seq<char>)
    ensures
        unit_run(s) <= s.len(),
    decreases s.len(),
{
    if s.len() > 0 && is_unit_letter(s[0]) {
        lemma_unit_run_len(s.skip(1));
    }
}

/// A number is no longer than the text it starts.
proof fn lemma_number_run(s: Seq<char>)
    ensures
        0 <= number_run(s) <= s.len(),
{
    let n = crate::text::digit_run(s) as int;
    crate::text::lemma_digit_run_bounds(s);
    crate::text::lemma_digit_run_bounds(s.skip(n + 1));
}

/// What follows a term is shorter than the text it starts.
pub proof fn lemma_term_shrinks(s: Seq<char>)
    ensures
        ({
            let n = number_run(s);
            let unit_on = crate::text::trim_start(s.skip(n));
            let u = unit_run(unit_on) as int;
            n > 0 && u > 0 ==> (after_unit(unit_on.skip(u)) matches Some(rest) ==> rest.len()
                < s.len())
        }),
{
    lemma_number_run(s);
    let n = number_run(s);
    let unit_on = crate::text::trim_start(s.skip(n));
    let u = unit_run(unit_on) as int;
    lemma_trim_start_len(s.skip(n));
    lemma_unit_run_len(unit_on);
    let rest = crate::text::trim_start(unit_on.skip(u));
    lemma_trim_start_len(unit_on.skip(u));
    lemma_trim_start_len(rest.skip(1));
}

/// The texts of some ranges of a text.
spec fn range_texts(s: Seq<char>, ranges: Seq<Option<(usize, usize)>>) -> Seq<Option<Seq<char>>> {
    ranges.map_values(
        |range: Option<(usize, usize)>|
            match range {
                Some((from, to)) => Some(s.subrange(from as int, to as int)),
                None => None,
            },
    )
}

/// Whether each range lies in a text.
spec fn are_within(s: Seq<char>, ranges: Seq<Option<(usize, usize)>>) -> bool {
    forall|i: int|
        0 <= i < ranges.len() ==> ((#[trigger] ranges[i]) matches Some((from, to)) ==> from <= to
            <= s.len())
}

/// Whether a character is a decimal digit of any script.
fn decimal(c: char) -> (r: bool)
    ensures
        r == is_decimal(c),
{
    if digit(c) {
        return true;
    }
    if (c as u32) < 0x80 {
        return false;
    }
    let mut text = String::new();
    text.push(c);
    assert(text@ =~= seq![c]);
    find_regex("\\d", text.as_str())
}

/// The end of the run of decimal digits that starts at `from`.
fn end_of_decimals(v: &Vec<char>, from: usize) -> (r: usize)
    requires
        from <= v.len(),
    ensures
        from <= r <= v.len(),
        r - from == decimal_run(v@.skip(from as int)),
{
    let mut i: usize = from;
    while i < v.len() && decimal(v[i])
        invariant
            from <= i <= v.len(),
            i - from + decimal_run(v@.skip(i as int)) == decimal_run(v@.skip(from as int)),
        decreases v.len() - i,
    {
        assert(v@.skip(i as int).skip(1) =~= v@.skip(i + 1));
        i = i + 1;
    }
    i
}

/// Whether a character is a designator.
fn designates(c: char, designator: char) -> (r: bool)
    ensures
        r == is_designator(c, designator),
{
    to_small(c) == designator || (c == '\u{17f}' && designator == 's')
}

/// Reads one component at `at`: the end of its number, and where the text goes
/// on behind the designator.
fn read_component(v: &Vec<char>, at: usize, designator: char, fractions: bool) -> (r: Option<
    (usize, usize),
>)
    requires
        at <= v.len(),
    ensures
        match component(v@.skip(at as int), designator, fractions) {
            Some((number, rest)) => {
                &&& r matches Some((end, next))
                &&& at <= end < next <= v.len()
                &&& number == v@.subrange(at as int, end as int)
                &&& rest == v@.skip(next as int)
            },
            None => r is None,
        },
{
    let ghost s = v@.skip(at as int);
    let end = end_of_decimals(v, at);
    let ghost n = decimal_run(s) as int;
    proof {
        assert(n == end - at);
        if n < s.len() {
            assert(s[n] == v@[end as int]);
        }
    }
    if end == at || end == v.len() {
        return None;
    }
    if designates(v[end], designator) {
        proof {
            assert(s.take(n) =~= v@.subrange(at as int, end as int));
            assert(s.skip(n + 1) =~= v@.skip(end + 1));
        }
        return Some((end, end + 1));
    }
    if !fractions || !separator(v[end]) {
        return None;
    }
    let stop = end_of_decimals(v, end + 1);
    let ghost m = decimal_run(s.skip(n + 1)) as int;
    proof {
        assert(s.skip(n + 1) =~= v@.skip(end + 1));
        assert(stop == end + 1 + m);
        if n + 1 + m < s.len() {
            assert(s[n + 1 + m] == v@[stop as int]);
        }
    }
    if stop == end + 1 || stop - end - 1 > 9 || stop == v.len() {
        return None;
    }
    if designates(v[stop], designator) {
        proof {
            assert(s.take(n + 1 + m) =~= v@.subrange(at as int, stop as int));
            assert(s.skip(n + 1 + m + 1) =~= v@.skip(stop + 1));
        }
        return Some((stop, stop + 1));
    }
    None
}

/// Reads the components with the given designators, in order, appending their
/// ranges; returns where the text goes on.
fn read_components(
    v: &Vec<char>,
    start: usize,
    designators: &Vec<char>,
    fractions: bool,
    ranges: &mut Vec<Option<(usize, usize)>>,
) -> (r: usize)
    requires
        start <= v.len(),
        are_within(v@, old(ranges)@),
    ensures
        r <= v.len(),
        are_within(v@, final(ranges)@),
        final(ranges)@.len() == old(ranges)@.len() + designators@.len(),
        ({
            let (numbers, end) = components(v@.skip(start as int), designators@, fractions);
            &&& range_texts(v@, final(ranges)@) == range_texts(v@, old(ranges)@) + numbers
            &&& v@.skip(r as int) == end
        }),
{
    let ghost before = range_texts(v@, ranges@);
    let ghost (numbers, end) = components(v@.skip(start as int), designators@, fractions);
    let mut at: usize = start;
    let mut i: usize = 0;
    assert(designators@.skip(0) =~= designators@);
    while i < designators.len()
        invariant
            i <= designators.len(),
            at <= v.len(),
            are_within(v@, ranges@),
            ranges@.len() == old(ranges)@.len() + i,
            ({
                let (more, last) = components(
                    v@.skip(at as int),
                    designators@.skip(i as int),
                    fractions,
                );
                &&& range_texts(v@, ranges@) + more == before + numbers
                &&& last == end
            }),
        decreases designators.len() - i,
    {
        let ghost old_ranges = ranges@;
        let ghost here = v@.skip(at as int);
        let ghost left = designators@.skip(i as int);
        assert(left.skip(1) =~= designators@.skip(i + 1));
        assert(left[0] == designators@[i as int]);
        match read_component(v, at, designators[i], fractions) {
            Some((to, next)) => {
                let ghost (more, last) = components(v@.skip(next as int), left.skip(1), fractions);
                let ghost number = v@.subrange(at as int, to as int);
                ranges.push(Some((at, to)));
                assert(range_texts(v@, ranges@) =~= range_texts(v@, old_ranges).push(Some(number)));
                assert(range_texts(v@, ranges@) + more =~= range_texts(v@, old_ranges) + (seq![
                    Some(number),
                ] + more));
                at = next;
            },
            None => {
                let ghost (more, last) = components(here, left.skip(1), fractions);
                ranges.push(None);
                assert(range_texts(v@, ranges@) =~= range_texts(v@, old_ranges).push(None));
                assert(range_texts(v@, ranges@) + more =~= range_texts(v@, old_ranges) + (seq![
                    None::<Seq<char>>,
                ] + more));
            },
        }
        i = i + 1;
    }
    assert(range_texts(v@, ranges@) + Seq::<Option<Seq<char>>>::empty() =~= range_texts(
        v@,
        ranges@,
    ));
    at
}

/// The ranges of the seven numbers of an ISO duration.
fn iso_ranges(v: &Vec<char>) -> (r: Option<Vec<Option<(usize, usize)>>>)
    ensures
        match iso_numbers(v@) {
            Some(numbers) => {
                &&& r matches Some(ranges)
                &&& are_within(v@, ranges@)
                &&& range_texts(v@, ranges@) == numbers
                &&& ranges@.len() == 7
            },
            None => r is None,
        },
{
    if v.len() == 0 || to_small(v[0]) != 'p' {
        return None;
    }
    let mut ranges: Vec<Option<(usize, usize)>> = Vec::new();
    let dates: Vec<char> = vec!['y', 'm', 'w', 'd'];
    let times: Vec<char> = vec!['h', 'm', 's'];
    assert(dates@ =~= date_designators());
    assert(times@ =~= time_designators());
    let at = read_components(v, 1, &dates, false, &mut ranges);
    let ghost (date, rest) = components(v@.skip(1), date_designators(), false);
    assert(range_texts(v@, Seq::empty()) =~= Seq::empty());
    assert(Seq::<Option<Seq<char>>>::empty() + date =~= date);
    assert(rest.len() == v@.len() - at);
    if at == v.len() {
        let ghost before = ranges@;
        ranges.push(None);
        ranges.push(None);
        ranges.push(None);
        assert(range_texts(v@, ranges@) =~= range_texts(v@, before) + seq![
            None::<Seq<char>>,
            None,
            None,
        ]);
        return Some(ranges);
    }
    assert(rest[0] == v@[at as int]);
    if to_small(v[at]) != 't' {
        return None;
    }
    assert(rest.skip(1) =~= v@.skip(at + 1));
    let end = read_components(v, at + 1, &times, true, &mut ranges);
    if end == v.len() {
        Some(ranges)
    } else {
        None
    }
}

impl Duration {
    /// Reads an ISO 8601 duration.
    fn iso(v: &Vec<char>) -> (r: Result<Self, ParseDurationError>)
        ensures
            match iso_reading(v@) {
                Ok(span) => r matches Ok(d) && d@ == span,
                Err(fault) => r == Err::<Duration, _>(ParseDurationError(fault)),
            },
    {
        let ranges = match iso_ranges(v) {
            Some(ranges) => ranges,
            None => {
                return Err(ParseDurationError(Fault::Syntax));
            },
        };
        let ghost numbers = range_texts(v@, ranges@);
        let mut parts = Parts { months: 0, nanos: 0 };
        let mut any = false;
        let mut time = false;
        let mut fraction = false;
        let mut index: usize = 0;
        while index < 7
            invariant
                index <= 7,
                ranges@.len() == 7,
                are_within(v@, ranges@),
                numbers == range_texts(v@, ranges@),
                iso_sum(numbers, 0, Span { months: 0, nanos: 0 }, false) == iso_sum(
                    numbers,
                    index as int,
                    parts@,
                    fraction,
                ),
                iso_reading(v@) == (match iso_sum(
                    numbers,
                    0,
                    Span { months: 0, nanos: 0 },
                    false,
                ) {
                    Err(fault) => Err(fault),
                    Ok(span) => if !any_number(numbers, 0) || (has_time_designator(v@)
                        && !any_number(numbers, 4)) {
                        Err(Fault::Syntax)
                    } else {
                        finished(span)
                    },
                }),
                any == (exists|i: int| 0 <= i < index && (#[trigger] numbers[i]) is Some),
                time == (exists|i: int| 4 <= i < index && (#[trigger] numbers[i]) is Some),
            decreases 7 - index,
        {
            assert(numbers[index as int] is Some == ranges@[index as int] is Some);
            if let Some((from, to)) = ranges[index] {
                let ghost number = v@.subrange(from as int, to as int);
                assert(numbers[index as int] == Some(number));
                if fraction {
                    return Err(ParseDurationError(Fault::EarlyFraction));
                }
                any = true;
                if index >= 4 {
                    time = true;
                }
                let added = if index == 0 {
                    parts.calendar(v, from, to, 12)
                } else if index == 1 {
                    parts.calendar(v, from, to, 1)
                } else if index == 2 {
                    parts.fixed(v, from, to, WEEK)
                } else if index == 3 {
                    parts.fixed(v, from, to, DAY)
                } else if index == 4 {
                    parts.fixed(v, from, to, HOUR)
                } else if index == 5 {
                    parts.fixed(v, from, to, MINUTE)
                } else {
                    parts.fixed(v, from, to, SECOND)
                };
                if let Err(error) = added {
                    return Err(error);
                }
                fraction = contains_separator(v, from, to);
            }
            index = index + 1;
        }
        if !any || (contains_time_designator(v) && !time) {
            return Err(ParseDurationError(Fault::Syntax));
        }
        parts.finish()
    }
}

fn contains_separator(v: &Vec<char>, from: usize, to: usize) -> (r: bool)
    requires
        from <= to <= v.len(),
    ensures
        r == has_separator(v@.subrange(from as int, to as int)),
{
    let ghost number = v@.subrange(from as int, to as int);
    let mut i: usize = from;
    while i < to
        invariant
            from <= i <= to <= v.len(),
            number == v@.subrange(from as int, to as int),
            forall|k: int| 0 <= k < i - from ==> !is_separator(#[trigger] number[k]),
        decreases to - i,
    {
        assert(number[i - from] == v@[i as int]);
        if separator(v[i]) {
            return true;
        }
        i = i + 1;
    }
    false
}

fn contains_time_designator(v: &Vec<char>) -> (r: bool)
    ensures
        r == has_time_designator(v@),
{
    let mut i: usize = 0;
    while i < v.len()
        invariant
            i <= v.len(),
            forall|k: int| 0 <= k < i ==> crate::text::small(#[trigger] v@[k]) != 't',
        decreases v.len() - i,
    {
        if to_small(v[i]) == 't' {
            return true;
        }
        i = i + 1;
    }
    false
}

/// The end of the number at `at`.
fn end_of_number(v: &Vec<char>, at: usize) -> (r: usize)
    requires
        at <= v.len(),
    ensures
        at <= r <= v.len(),
        r - at == number_run(v@.skip(at as int)),
{
    let ghost s = v@.skip(at as int);
    let end = end_of_digits(v, at);
    let ghost n = crate::text::digit_run(s) as int;
    if end < v.len() && separator(v[end]) {
        assert(s[n] == v@[end as int]);
        assert(s.skip(n + 1) =~= v@.skip(end + 1));
        let stop = end_of_digits(v, end + 1);
        if stop > end + 1 {
            return stop;
        }
    } else if end < v.len() {
        assert(s[n] == v@[end as int]);
    }
    end
}

/// The end of the unit name at `at`.
fn end_of_unit(v: &Vec<char>, at: usize) -> (r: usize)
    requires
        at <= v.len(),
    ensures
        at <= r <= v.len(),
        r - at == unit_run(v@.skip(at as int)),
{
    let mut i: usize = at;
    while i < v.len() && (letter(v[i]) || v[i] == 'µ' || v[i] == 'μ' || v[i] == '\u{39c}' || v[i]
        == '\u{17f}' || v[i] == '\u{212a}')
        invariant
            at <= i <= v.len(),
            i - at + unit_run(v@.skip(i as int)) == unit_run(v@.skip(at as int)),
        decreases v.len() - i,
    {
        assert(v@.skip(i as int).skip(1) =~= v@.skip(i + 1));
        i = i + 1;
    }
    i
}

impl Parts {
    /// Adds the number `v[from..to]` of the named unit.
    fn unit(&mut self, v: &Vec<char>, from: usize, to: usize, unit: &str) -> (r: Result<
        (),
        ParseDurationError,
    >)
        requires
            from <= to <= v.len(),
        ensures
            match add_unit(old(self)@, v@.subrange(from as int, to as int), unit@) {
                Ok(span) => r is Ok && final(self)@ == span,
                Err(fault) => r == Err::<(), _>(ParseDurationError(fault)) && final(self)@ == old(
                    self,
                )@,
            },
    {
        proof {
            reveal(add_unit);
        }
        if same(unit, "y") || same(unit, "yr") || same(unit, "yrs") || same(unit, "year") || same(
            unit,
            "years",
        ) {
            self.calendar(v, from, to, 12)
        } else if same(unit, "mo") || same(unit, "mos") || same(unit, "month") || same(
            unit,
            "months",
        ) {
            self.calendar(v, from, to, 1)
        } else if same(unit, "w") || same(unit, "wk") || same(unit, "wks") || same(unit, "week")
            || same(unit, "weeks") {
            self.fixed(v, from, to, WEEK)
        } else if same(unit, "d") || same(unit, "day") || same(unit, "days") {
            self.fixed(v, from, to, DAY)
        } else if same(unit, "h") || same(unit, "hr") || same(unit, "hrs") || same(unit, "hour")
            || same(unit, "hours") {
            self.fixed(v, from, to, HOUR)
        } else if same(unit, "m") || same(unit, "min") || same(unit, "mins") || same(
            unit,
            "minute",
        ) || same(unit, "minutes") {
            self.fixed(v, from, to, MINUTE)
        } else if same(unit, "s") || same(unit, "sec") || same(unit, "secs") || same(
            unit,
            "second",
        ) || same(unit, "seconds") {
            self.fixed(v, from, to, SECOND)
        } else if same(unit, "ms") || same(unit, "millisecond") || same(unit, "milliseconds") {
            self.fixed(v, from, to, 1_000_000)
        } else if same(unit, "us") || same(unit, "µs") || same(unit, "μs") || same(
            unit,
            "microsecond",
        ) || same(unit, "microseconds") {
            self.fixed(v, from, to, 1_000)
        } else if same(unit, "ns") || same(unit, "nanosecond") || same(unit, "nanoseconds") {
            self.fixed(v, from, to, 1)
        } else {
            Err(ParseDurationError(Fault::Syntax))
        }
    }
}

fn numeral(v: &Vec<char>) -> (r: bool)
    ensures
        r == is_numeral(v@),
{
    let mut i: usize = 0;
    while i < v.len()
        invariant
            i <= v.len(),
            forall|k: int|
                0 <= k < i ==> crate::text::is_digit(#[trigger] v@[k]) || is_separator(v@[k]),
        decreases v.len() - i,
    {
        if !digit(v[i]) && !separator(v[i]) {
            assert(!crate::text::is_digit(v@[i as int]) && !is_separator(v@[i as int]));
            return false;
        }
        i = i + 1;
    }
    true
}

impl Duration {
    /// Reads a shorthand duration.
    pub fn human(input: &str) -> (r: Result<Self, ParseDurationError>)
        ensures
            match shorthand_reading(input@) {
                Ok(span) => r matches Ok(d) && d@ == span,
                Err(fault) => r == Err::<Duration, _>(ParseDurationError(fault)),
            },
    {
        let chars = chars_of(input);
        let v = &chars;
        let mut parts = Parts { months: 0, nanos: 0 };
        // Bare numbers keep the conventional interpretation as seconds.
        if numeral(v) {
            assert(v@.subrange(0, v@.len() as int) =~= v@);
            if let Err(error) = parts.fixed(v, 0, v.len(), SECOND) {
                return Err(error);
            }
            return parts.finish();
        }
        let ghost sum = shorthand_sum(v@, Span { months: 0, nanos: 0 });
        let mut at: usize = 0;
        assert(v@.skip(0) =~= v@);
        while at < v.len()
            invariant
                at <= v.len(),
                v@ == input@,
                sum == shorthand_sum(v@, Span { months: 0, nanos: 0 }),
                sum == shorthand_sum(v@.skip(at as int), parts@),
                !is_numeral(v@),
            decreases v.len() - at,
        {
            let ghost s = v@.skip(at as int);
            let end = end_of_number(v, at);
            let ghost n = number_run(s);
            proof {
                lemma_number_run(s);
                lemma_term_shrinks(s);
                assert(s.skip(n) =~= v@.skip(end as int));
                assert(s.take(n) =~= v@.subrange(at as int, end as int));
            }
            if end == at {
                return Err(ParseDurationError(Fault::Syntax));
            }
            let name = skip_space(v, end);
            let stop = end_of_unit(v, name);
            let ghost unit_on = crate::text::trim_start(s.skip(n));
            let ghost u = unit_run(unit_on) as int;
            if stop == name {
                return Err(ParseDurationError(Fault::Syntax));
            }
            let unit = to_small_text(string_of(v, name, stop).as_str());
            assert(v@.subrange(name as int, stop as int) =~= unit_on.take(u));
            if let Err(error) = parts.unit(v, at, end, unit.as_str()) {
                return Err(error);
            }
            assert(unit_on.skip(u) =~= v@.skip(stop as int));
            let mut next = skip_space(v, stop);
            let ghost rest = crate::text::trim_start(unit_on.skip(u));
            assert(rest == v@.skip(next as int));
            if next < v.len() && v[next] == ',' {
                assert(rest[0] == ',');
                assert(rest.skip(1) =~= v@.skip(next + 1));
                next = skip_space(v, next + 1);
                if next == v.len() {
                    return Err(ParseDurationError(Fault::Syntax));
                }
            } else {
                assert(rest.len() > 0 ==> rest[0] == v@[next as int]);
            }
            at = next;
        }
        parts.finish()
    }

    /// Reads a duration: ISO 8601, or a number with units. White space around
    /// it and a leading `+` are ignored.
    pub fn parse(input: &str) -> (r: Result<Self, ParseDurationError>)
        ensures
            match reading(input@) {
                Ok(span) => r matches Ok(d) && d@ == span,
                Err(fault) => r == Err::<Duration, _>(ParseDurationError(fault)),
            },
    {
        let text = chars_of(trimmed(input).as_str());
        let sign: usize = if text.len() > 0 && text[0] == '+' {
            1
        } else {
            0
        };
        assert(text@.skip(0) =~= text@);
        let from = skip_space(&text, sign);
        let unsigned_text = string_of(&text, from, text.len());
        let rest = chars_of(unsigned_text.as_str());
        assert(rest@ =~= text@.skip(from as int));
        assert(rest@ == unsigned(input@));
        if rest.len() > 0 && (rest[0] == '-' || rest[0] == '−') {
            Err(ParseDurationError(Fault::Positive))
        } else if rest.len() > 0 && (rest[0] == 'P' || rest[0] == 'p') {
            Self::iso(&rest)
        } else {
            Self::human(unsigned_text.as_str())
        }
    }
}

impl FromStr for Duration {
    type Err = ParseDurationError;

    fn from_str(input: &str) -> (r: Result<Self, ParseDurationError>)
        ensures
            match reading(input@) {
                Ok(span) => r matches Ok(d) && d@ == span,
                Err(fault) => r == Err::<Duration, _>(ParseDurationError(fault)),
            },
    {
        Duration::parse(input)
    }
}

// ---------------------------------------------------------------------------
// Elapsed time and deadlines
// ---------------------------------------------------------------------------

/// The nanoseconds a span takes from an instant.
pub open spec fn elapsed_nanos(span: Span, start: Timestamp) -> int {
    span.nanos + crate::time::days_in_months(span.months as int, start) * DAY
}

impl Duration {
    /// Converts to elapsed time when the duration contains no calendar units.
    /// Years and months require a reference date; use [`Self::at`] for those.
    pub fn fixed(self) -> (r: Result<Elapsed, ParseDurationError>)
        ensures
            self@.months == 0 ==> (r matches Ok(time) && time.wf() && time.total() == self@.nanos),
            self@.months != 0 ==> r == Err::<Elapsed, _>(ParseDurationError(Fault::Unanchored)),
    {
        proof {
            use_type_invariant(&self);
        }
        if self.months == 0 {
            Ok(self.time)
        } else {
            Err(ParseDurationError(Fault::Unanchored))
        }
    }

    /// Resolves calendar units from `start`, constraining the day to the target
    /// month's last day. UTC days are 24 hours, including across DST changes.
    pub fn at(self, start: Timestamp) -> (r: Elapsed)
        requires
            start.wf(),
        ensures
            r.wf(),
            r.total() == elapsed_nanos(self@, start),
    {
        proof {
            use_type_invariant(&self);
        }
        let days = calendar_days(self.months, start);
        Elapsed { secs: self.time.secs + days * DAY_SECS, nanos: self.time.nanos }
    }

    /// The end of the duration, or `None` if it lies beyond the last
    /// representable day.
    pub fn deadline(self, start: Timestamp) -> (r: Option<Timestamp>)
        requires
            start.wf(),
        ensures
            match r {
                Some(end) => end.wf() && end.total() == start.total() + elapsed_nanos(self@, start),
                None => start.total() + elapsed_nanos(self@, start) >= (
                crate::time::LAST_SECOND + 1) * NANOS,
            },
    {
        later_instant(start, self.at(start))
    }
}

// ---------------------------------------------------------------------------
// Canonical text
// ---------------------------------------------------------------------------

/// A count with its designator; nothing for zero.
pub open spec fn field(count: nat, designator: char) -> Seq<char> {
    if count == 0 {
        Seq::empty()
    } else {
        crate::text::digits_of(count).push(designator)
    }
}

/// The last `width` decimal digits of a number.
pub open spec fn padded(n: nat, width: nat) -> Seq<char>
    decreases width,
{
    if width == 0 {
        Seq::empty()
    } else {
        padded(n / 10, (width - 1) as nat).push(crate::text::digit_char(n % 10))
    }
}

/// A text without the zeros at its end.
pub open spec fn without_end_zeros(s: Seq<char>) -> Seq<char>
    decreases s.len(),
{
    if s.len() > 0 && s.last() == '0' {
        without_end_zeros(s.drop_last())
    } else {
        s
    }
}

/// Seconds and the nanoseconds beyond them, with their designator.
pub open spec fn seconds_field(seconds: nat, nanos: nat) -> Seq<char> {
    if nanos == 0 {
        field(seconds, 'S')
    } else {
        (crate::text::digits_of(seconds).push('.') + without_end_zeros(padded(nanos, 9))).push('S')
    }
}

/// The time part of a canonical duration.
pub open spec fn time_text(seconds: nat, nanos: nat) -> Seq<char> {
    if seconds == 0 && nanos == 0 {
        Seq::empty()
    } else {
        seq!['T'] + (field(seconds / 3600, 'H') + (field(seconds % 3600 / 60, 'M') + seconds_field(
            seconds % 60,
            nanos,
        )))
    }
}

/// The canonical text of a duration: ISO 8601, without weeks and without
/// components that are zero.
pub open spec fn canonical(span: Span) -> Seq<char> {
    let seconds = span.nanos / (SECOND as nat);
    seq!['P'] + (field(span.months / 12, 'Y') + (field(span.months % 12, 'M') + (field(
        seconds / (DAY_SECS as nat),
        'D',
    ) + time_text(seconds % (DAY_SECS as nat), span.nanos % (SECOND as nat)))))
}

fn push_text(out: &mut String, s: &str)
    ensures
        final(out)@ == old(out)@ + s@,
{
    out.append(s);
}

fn push_field(out: &mut String, count: u64, designator: char)
    ensures
        final(out)@ == old(out)@ + field(count as nat, designator),
{
    if count != 0 {
        let ghost before = out@;
        push_text(out, decimal_text(count as u128).as_str());
        out.push(designator);
        assert(out@ =~= before + field(count as nat, designator));
    } else {
        assert(out@ =~= out@ + Seq::<char>::empty());
    }
}

/// Nine digits, as characters.
fn nine_digits(n: u32) -> (r: Vec<char>)
    ensures
        r@ == padded(n as nat, 9),
{
    let mut left: Vec<char> = Vec::new();
    let mut rest: u32 = n;
    let mut i: usize = 0;
    // Collected from the last digit to the first.
    let ghost whole = padded(n as nat, 9);
    assert(padded(rest as nat, 9) + left@.reverse() =~= whole);
    while i < 9
        invariant
            i <= 9,
            left@.len() == i,
            whole == padded(n as nat, 9),
            padded(rest as nat, (9 - i) as nat) + left@.reverse() == whole,
        decreases 9 - i,
    {
        let d: u8 = (rest % 10) as u8;
        let ghost before = left@;
        let ghost width = (9 - i) as nat;
        left.push((48u8 + d) as char);
        proof {
            let c = crate::text::digit_char(rest as nat % 10);
            assert(left@ =~= before.push(c));
            assert(left@.reverse() =~= seq![c] + before.reverse());
            assert(padded(rest as nat, width) == padded(rest as nat / 10, (width - 1) as nat).push(
                c,
            ));
            assert(padded(rest as nat / 10, (width - 1) as nat) + left@.reverse() =~= padded(
                rest as nat,
                width,
            ) + before.reverse());
        }
        rest = rest / 10;
        i = i + 1;
    }
    let mut out: Vec<char> = Vec::new();
    assert(left@.reverse() =~= whole);
    let mut k: usize = 0;
    while k < 9
        invariant
            k <= 9,
            left@.len() == 9,
            out@.len() == k,
            left@.reverse() == whole,
            forall|j: int| 0 <= j < k ==> out@[j] == whole[j],
        decreases 9 - k,
    {
        out.push(left[8 - k]);
        k = k + 1;
    }
    assert(out@ =~= whole);
    out
}

/// The digits of a fraction of a second, without zeros at the end.
fn fraction_text(nanos: u32) -> (r: String)
    ensures
        r@ == without_end_zeros(padded(nanos as nat, 9)),
{
    let digits = nine_digits(nanos);
    let mut end: usize = digits.len();
    assert(digits@.take(end as int) =~= digits@);
    while end > 0 && digits[end - 1] == '0'
        invariant
            end <= digits.len(),
            without_end_zeros(digits@.take(end as int)) == without_end_zeros(digits@),
        decreases end,
    {
        assert(digits@.take(end as int).drop_last() =~= digits@.take(end - 1));
        end = end - 1;
    }
    assert(digits@.subrange(0, end as int) =~= digits@.take(end as int));
    string_of(&digits, 0, end)
}

/// Appends the time part of a canonical duration.
fn push_time(out: &mut String, seconds: u64, nanos: u32)
    ensures
        final(out)@ == old(out)@ + time_text(seconds as nat, nanos as nat),
{
    let ghost before = out@;
    if seconds == 0 && nanos == 0 {
        assert(out@ =~= before + Seq::<char>::empty());
        return;
    }
    out.push('T');
    push_field(out, seconds / 3600, 'H');
    push_field(out, seconds % 3600 / 60, 'M');
    let ghost hours = field(seconds as nat / 3600, 'H');
    let ghost minutes = field(seconds as nat % 3600 / 60, 'M');
    push_seconds(out, seconds % 60, nanos);
    let ghost rest = seconds_field(seconds as nat % 60, nanos as nat);
    assert(before.push('T') + hours + minutes + rest =~= before + (seq!['T'] + (hours + (minutes
        + rest))));
}

/// Appends the seconds of a canonical duration.
fn push_seconds(out: &mut String, seconds: u64, nanos: u32)
    ensures
        final(out)@ == old(out)@ + seconds_field(seconds as nat, nanos as nat),
{
    if nanos == 0 {
        push_field(out, seconds, 'S');
        return;
    }
    let ghost before = out@;
    push_text(out, decimal_text(seconds as u128).as_str());
    out.push('.');
    push_text(out, fraction_text(nanos).as_str());
    out.push('S');
    let ghost whole = crate::text::digits_of(seconds as nat);
    let ghost fraction = without_end_zeros(padded(nanos as nat, 9));
    assert(((before + whole).push('.') + fraction).push('S') =~= before + (whole.push('.')
        + fraction).push('S'));
}

impl Duration {
    /// The canonical text.
    pub fn to_string(&self) -> (r: String)
        ensures
            r@ == canonical(self@),
    {
        proof {
            use_type_invariant(self);
            lemma_split(self.time);
        }
        let mut out = String::new();
        out.push('P');
        assert(out@ =~= seq!['P']);
        push_field(&mut out, (self.months / 12) as u64, 'Y');
        push_field(&mut out, (self.months % 12) as u64, 'M');
        push_field(&mut out, self.time.secs / DAY_SECS, 'D');
        push_time(&mut out, self.time.secs % DAY_SECS, self.time.nanos);
        proof {
            let seconds = self@.nanos / (SECOND as nat);
            let years = field(self@.months / 12, 'Y');
            let months = field(self@.months % 12, 'M');
            let days = field(seconds / (DAY_SECS as nat), 'D');
            let time = time_text(seconds % (DAY_SECS as nat), self@.nanos % (SECOND as nat));
            lemma_concat(seq!['P'], years, months, days, time);
        }
        out
    }
}

proof fn lemma_concat(a: Seq<char>, b: Seq<char>, c: Seq<char>, d: Seq<char>, e: Seq<char>)
    ensures
        a + b + c + d + e == a + (b + (c + (d + e))),
{
    assert(a + b + c + d + e =~= a + (b + (c + (d + e))));
}

/// A positive elapsed duration for timeouts and scheduler intervals.
/// Calendar years and months require an anchor and are rejected here.
#[derive(Debug, Clone, Copy, PartialEq, Eq)]
pub struct FixedDuration(Duration);

impl View for FixedDuration {
    type V = nat;

    closed spec fn view(&self) -> nat {
        self.0@.nanos
    }
}

impl FixedDuration {
    #[verifier::type_invariant]
    spec fn inv(self) -> bool {
        self.0@.months == 0
    }

    /// Reads an elapsed duration.
    pub fn parse(input: &str) -> (r: Result<Self, ParseDurationError>)
        ensures
            match reading(input@) {
                Ok(span) => if span.months == 0 {
                    r matches Ok(d) && d@ == span.nanos
                } else {
                    r == Err::<FixedDuration, _>(ParseDurationError(Fault::Unanchored))
                },
                Err(fault) => r == Err::<FixedDuration, _>(ParseDurationError(fault)),
            },
    {
        match Duration::parse(input) {
            Err(error) => Err(error),
            Ok(duration) => match duration.fixed() {
                Err(error) => Err(error),
                Ok(_) => Ok(FixedDuration(duration)),
            },
        }
    }

    /// The elapsed time.
    pub fn elapsed(&self) -> (r: Elapsed)
        ensures
            r.wf(),
            r.total() == self@,
            r.total() > 0,
    {
        proof {
            use_type_invariant(self);
            use_type_invariant(&self.0);
        }
        self.0.time
    }

    /// The canonical text.
    pub fn to_string(&self) -> (r: String)
        ensures
            r@ == canonical(Span { months: 0, nanos: self@ }),
    {
        proof {
            use_type_invariant(self);
        }
        self.0.to_string()
    }
}

impl FromStr for FixedDuration {
    type Err = ParseDurationError;

    fn from_str(input: &str) -> (r: Result<Self, ParseDurationError>)
        ensures
            match reading(input@) {
                Ok(span) => if span.months == 0 {
                    r matches Ok(d) && d@ == span.nanos
                } else {
                    r == Err::<FixedDuration, _>(ParseDurationError(Fault::Unanchored))
                },
                Err(fault) => r == Err::<FixedDuration, _>(ParseDurationError(fault)),
            },
    {
        FixedDuration::parse(input)
    }
}

impl Duration {
    /// A duration of whole seconds.
    pub fn of_seconds(secs: u64) -> (r: Duration)
        requires
            0 < secs <= MOST_SECONDS,
        ensures
            r@ == (Span { months: 0, nanos: (secs * SECOND) as nat }),
    {
        Duration { months: 0, time: Elapsed { secs, nanos: 0 } }
    }
}

impl FixedDuration {
    /// A duration of whole seconds.
    pub fn of_seconds(secs: u64) -> (r: FixedDuration)
        requires
            0 < secs <= MOST_SECONDS,
        ensures
            r@ == secs * SECOND,
    {
        FixedDuration(Duration::of_seconds(secs))
    }
}

/// A fact's half-life. `Never` disables aging without asserting truth.
#[derive(Debug, Clone, Copy, PartialEq, Eq)]
pub enum HalfLife {
    After(Duration),
    Never,
}

impl Default for HalfLife {
    fn default() -> (r: Self)
        ensures
            r matches HalfLife::After(d) && d@ == (Span { months: 0, nanos: 3 * DAY as nat }),
    {
        HalfLife::After(Duration::of_seconds(259_200))
    }
}

impl HalfLife {
    /// The time from `start` until belief has halved; `None` means no decay.
    pub fn elapsed_at(self, start: Timestamp) -> (r: Option<Elapsed>)
        requires
            start.wf(),
        ensures
            match self {
                HalfLife::Never => r is None,
                HalfLife::After(d) => r matches Some(time) && time.wf() && time.total()
                    == elapsed_nanos(d@, start),
            },
    {
        match self {
            HalfLife::Never => None,
            HalfLife::After(duration) => Some(duration.at(start)),
        }
    }

    /// `None` means no decay, or a deadline beyond the last representable day.
    pub fn deadline(self, start: Timestamp) -> (r: Option<Timestamp>)
        requires
            start.wf(),
        ensures
            match (self, r) {
                (HalfLife::Never, _) => r is None,
                (HalfLife::After(d), Some(end)) => end.wf() && end.total() == start.total()
                    + elapsed_nanos(d@, start),
                (HalfLife::After(d), None) => start.total() + elapsed_nanos(d@, start) >= (
                crate::time::LAST_SECOND + 1) * NANOS,
            },
    {
        match self {
            HalfLife::Never => None,
            HalfLife::After(duration) => duration.deadline(start),
        }
    }

    /// Whether a text asks for no decay.
    pub open spec fn is_never(s: Seq<char>) -> bool {
        crate::text::small_text(crate::text::trim(s)) == "never"@
    }

    /// Reads a half-life: `never` in any case, or a duration.
    pub fn parse(input: &str) -> (r: Result<Self, ParseDurationError>)
        ensures
            if HalfLife::is_never(input@) {
                r == Ok::<HalfLife, ParseDurationError>(HalfLife::Never)
            } else {
                match reading(input@) {
                    Ok(span) => r matches Ok(HalfLife::After(d)) && d@ == span,
                    Err(fault) => r == Err::<HalfLife, _>(ParseDurationError(fault)),
                }
            },
    {
        if same(to_small_text(trimmed(input).as_str()).as_str(), "never") {
            Ok(HalfLife::Never)
        } else {
            match Duration::parse(input) {
                Ok(duration) => Ok(HalfLife::After(duration)),
                Err(error) => Err(error),
            }
        }
    }

    /// The canonical text.
    pub open spec fn text_spec(&self) -> Seq<char> {
        match *self {
            HalfLife::Never => "never"@,
            HalfLife::After(d) => canonical(d@),
        }
    }

    /// The canonical text.
    pub fn to_string(&self) -> (r: String)
        ensures
            r@ == self.text_spec(),
    {
        match self {
            HalfLife::Never => "never".to_owned(),
            HalfLife::After(duration) => duration.to_string(),
        }
    }
}

impl FromStr for HalfLife {
    type Err = ParseDurationError;

    fn from_str(input: &str) -> (r: Result<Self, ParseDurationError>)
        ensures
            if HalfLife::is_never(input@) {
                r == Ok::<HalfLife, ParseDurationError>(HalfLife::Never)
            } else {
                match reading(input@) {
                    Ok(span) => r matches Ok(HalfLife::After(d)) && d@ == span,
                    Err(fault) => r == Err::<HalfLife, _>(ParseDurationError(fault)),
                }
            },
    {
        HalfLife::parse(input)
    }
}

// ---------------------------------------------------------------------------
// The canonical text reads back
// ---------------------------------------------------------------------------

/// The run of digits at the start of `digits + tail` is `digits`, where `tail` goes on
/// with another character of ASCII.
proof fn lemma_decimal_run(digits: Seq<char>, tail: Seq<char>)
    requires
        crate::text::all_digits(digits),
        tail.len() > 0 ==> (tail[0] as u32) < 0x80 && !crate::text::is_digit(tail[0]),
    ensures
        decimal_run(digits + tail) == digits.len(),
    decreases digits.len(),
{
    let s = digits + tail;
    if digits.len() > 0 {
        let t = digits.skip(1);
        assert(s[0] == digits[0]);
        assert(s.skip(1) =~= t + tail);
        assert forall|i: int| 0 <= i < t.len() implies crate::text::is_digit(#[trigger] t[i]) by {
            assert(t[i] == digits[i + 1]);
        }
        lemma_decimal_run(t, tail);
    } else {
        assert(s =~= tail);
    }
}

/// How a text reads that starts with a field.
proof fn lemma_field_head(count: nat, designator: char, tail: Seq<char>)
    requires
        crate::text::is_letter(designator),
    ensures
        ({
            let s = field(count, designator) + tail;
            let digits = crate::text::digits_of(count);
            let n = digits.len() as int;
            &&& count == 0 ==> s == tail
            &&& count != 0 ==> {
                &&& n >= 1
                &&& decimal_run(s) == n
                &&& n < s.len()
                &&& s[n] == designator
                &&& s.take(n) == digits
                &&& s.skip(n + 1) == tail
            }
        }),
{
    let s = field(count, designator) + tail;
    let digits = crate::text::digits_of(count);
    if count == 0 {
        assert(s =~= tail);
    } else {
        crate::text::lemma_decimal_digits(count);
        let rest = seq![designator] + tail;
        assert(s =~= digits + rest);
        lemma_decimal_run(digits, rest);
        assert(s.take(digits.len() as int) =~= digits);
        assert(s.skip(digits.len() as int + 1) =~= tail);
    }
}

proof fn lemma_padded(n: nat, width: nat)
    requires
        n < ten_to(width),
    ensures
        padded(n, width).len() == width,
        crate::text::all_digits(padded(n, width)),
        crate::text::decimal(padded(n, width)) == n,
    decreases width,
{
    if width > 0 {
        let s = padded(n, width);
        lemma_padded(n / 10, (width - 1) as nat);
        assert(s.drop_last() =~= padded(n / 10, (width - 1) as nat));
        assert(crate::text::digit_value(crate::text::digit_char(n % 10)) == n % 10);
    }
}

proof fn lemma_end_zeros(s: Seq<char>)
    requires
        crate::text::all_digits(s),
    ensures
        without_end_zeros(s).len() <= s.len(),
        crate::text::all_digits(without_end_zeros(s)),
        crate::text::decimal(without_end_zeros(s)) * ten_to(
            (s.len() - without_end_zeros(s).len()) as nat,
        ) == crate::text::decimal(s),
    decreases s.len(),
{
    if s.len() > 0 && s.last() == '0' {
        let t = s.drop_last();
        assert forall|i: int| 0 <= i < t.len() implies crate::text::is_digit(#[trigger] t[i]) by {
            assert(t[i] == s[i]);
        }
        lemma_end_zeros(t);
        let d = crate::text::decimal(without_end_zeros(s));
        let k = (t.len() - without_end_zeros(s).len()) as nat;
        assert(d * (10 * ten_to(k)) == 10 * (d * ten_to(k))) by (nonlinear_arith);
        assert(ten_to(k + 1) == 10 * ten_to(k));
    } else {
        let d = crate::text::decimal(s);
        assert(ten_to((s.len() - s.len()) as nat) == 1);
        assert(d * 1 == d) by (nonlinear_arith);
    }
}

proof fn lemma_ten_to_sum(a: nat, b: nat)
    ensures
        ten_to(a + b) == ten_to(a) * ten_to(b),
        ten_to(a) >= 1,
    decreases a,
{
    if a > 0 {
        lemma_ten_to_sum((a - 1) as nat, b);
        assert((10 * ten_to((a - 1) as nat)) * ten_to(b) == 10 * (ten_to((a - 1) as nat) * ten_to(
            b,
        ))) by (nonlinear_arith);
        assert(ten_to(a + b) == 10 * ten_to((a - 1 + b) as nat));
    } else {
        assert(ten_to(0) == 1);
    }
}

/// The fraction of a canonical duration: one to nine digits, worth its
/// nanoseconds.
proof fn lemma_fraction(nanos: nat)
    requires
        0 < nanos < SECOND,
    ensures
        ({
            let fraction = without_end_zeros(padded(nanos, 9));
            &&& 1 <= fraction.len() <= 9
            &&& crate::text::all_digits(fraction)
            &&& crate::text::decimal(fraction) * (SECOND as nat) == nanos * ten_to(fraction.len())
            &&& ten_to(fraction.len()) >= 1
        }),
{
    reveal_with_fuel(ten_to, 10);
    assert(ten_to(9) == 1_000_000_000);
    lemma_padded(nanos, 9);
    let s = padded(nanos, 9);
    lemma_end_zeros(s);
    let f = without_end_zeros(s);
    let d = crate::text::decimal(f);
    let k = (9 - f.len()) as nat;
    lemma_ten_to_sum(k, f.len());
    lemma_ten_to_sum(f.len(), k);
    assert(k + f.len() == 9);
    if f.len() == 0 {
        assert(d == 0);
        assert(d * ten_to(9) == 0) by (nonlinear_arith)
            requires
                d == 0,
        ;
    }
    assert(d * (ten_to(k) * ten_to(f.len())) == (d * ten_to(k)) * ten_to(f.len()))
        by (nonlinear_arith);
}

/// A number without a separator is worth its whole units.
proof fn lemma_whole_value(count: nat, unit: nat)
    requires
        count <= u128::MAX,
        count * unit <= u128::MAX,
    ensures
        fixed_value(crate::text::digits_of(count), unit) == Ok::<nat, Fault>(count * unit),
        !has_separator(crate::text::digits_of(count)),
{
    let digits = crate::text::digits_of(count);
    crate::text::lemma_decimal_digits(count);
    lemma_separator_at(digits, digits.len() as int);
    assert(whole_part(digits) =~= digits);
    assert(fraction_part(digits) =~= Seq::<char>::empty());
    lemma_count_of_digits(digits);
}

/// Seconds with a fraction are worth their nanoseconds.
proof fn lemma_fraction_value(seconds: nat, nanos: nat)
    requires
        seconds < 60,
        0 < nanos < SECOND,
    ensures
        fixed_value(
            crate::text::digits_of(seconds).push('.') + without_end_zeros(padded(nanos, 9)),
            SECOND as nat,
        ) == Ok::<nat, Fault>(seconds * SECOND as nat + nanos),
{
    let digits = crate::text::digits_of(seconds);
    let fraction = without_end_zeros(padded(nanos, 9));
    let number = digits.push('.') + fraction;
    crate::text::lemma_decimal_digits(seconds);
    lemma_fraction(nanos);
    assert forall|i: int| 0 <= i < digits.len() implies !is_separator(#[trigger] number[i]) by {
        assert(number[i] == digits[i]);
    }
    assert(number[digits.len() as int] == '.');
    lemma_separator_at(number, digits.len() as int);
    assert(whole_part(number) =~= digits);
    assert(fraction_part(number) =~= fraction);
    lemma_count_of_digits(digits);
    lemma_count_of_digits(fraction);
    lemma_count_bound(fraction);
    let d = ten_to(fraction.len()) as int;
    vstd::arithmetic::div_mod::lemma_mod_multiples_basic(nanos as int, d);
    vstd::arithmetic::div_mod::lemma_div_by_multiple(nanos as int, d);
}

/// How a text reads that is the seconds of a canonical duration.
proof fn lemma_seconds_head(seconds: nat, nanos: nat)
    requires
        0 < nanos < SECOND,
    ensures
        ({
            let s = seconds_field(seconds, nanos);
            let digits = crate::text::digits_of(seconds);
            let fraction = without_end_zeros(padded(nanos, 9));
            let n = digits.len() as int;
            let m = fraction.len() as int;
            &&& n >= 1
            &&& 1 <= m <= 9
            &&& s.len() == n + m + 2
            &&& decimal_run(s) == n
            &&& s[n] == '.'
            &&& decimal_run(s.skip(n + 1)) == m
            &&& s[n + 1 + m] == 'S'
            &&& s.take(n + 1 + m) == digits.push('.') + fraction
            &&& s.skip(n + 1 + m + 1) == Seq::<char>::empty()
        }),
{
    let s = seconds_field(seconds, nanos);
    let digits = crate::text::digits_of(seconds);
    let fraction = without_end_zeros(padded(nanos, 9));
    let n = digits.len() as int;
    let m = fraction.len() as int;
    crate::text::lemma_decimal_digits(seconds);
    lemma_fraction(nanos);
    let tail = (seq!['.'] + fraction).push('S');
    assert(s =~= digits + tail);
    lemma_decimal_run(digits, tail);
    assert(s.skip(n + 1) =~= fraction + seq!['S']);
    lemma_decimal_run(fraction, seq!['S']);
    assert(s.take(n + 1 + m) =~= digits.push('.') + fraction);
    assert(s.skip(n + 1 + m + 1) =~= Seq::<char>::empty());
}

/// The number that a field gives, if any.
spec fn field_number(count: nat) -> Option<Seq<char>> {
    if count == 0 {
        None
    } else {
        Some(crate::text::digits_of(count))
    }
}

/// The number that the seconds of a canonical duration give, if any.
spec fn seconds_number(seconds: nat, nanos: nat) -> Option<Seq<char>> {
    if nanos == 0 {
        field_number(seconds)
    } else {
        Some(crate::text::digits_of(seconds).push('.') + without_end_zeros(padded(nanos, 9)))
    }
}

/// The time part reads back as its three numbers.
#[verifier::spinoff_prover]
#[verifier::rlimit(40)]
proof fn lemma_time_components(hours: nat, minutes: nat, seconds: nat, nanos: nat)
    requires
        nanos < SECOND,
    ensures
        components(
            field(hours, 'H') + (field(minutes, 'M') + seconds_field(seconds, nanos)),
            time_designators(),
            true,
        ) == (
            seq![field_number(hours), field_number(minutes), seconds_number(seconds, nanos)],
            Seq::<char>::empty(),
        ),
{
    let s2 = seconds_field(seconds, nanos);
    let s1 = field(minutes, 'M') + s2;
    let s0 = field(hours, 'H') + s1;
    lemma_field_head(hours, 'H', s1);
    lemma_field_head(minutes, 'M', s2);
    if nanos == 0 {
        lemma_field_head(seconds, 'S', Seq::empty());
        assert(s2 + Seq::<char>::empty() =~= s2);
    } else {
        lemma_seconds_head(seconds, nanos);
    }
    let d0 = time_designators();
    let d1 = d0.skip(1);
    let d2 = d1.skip(1);
    let d3 = d2.skip(1);
    assert(d1 =~= seq!['m', 's']);
    assert(d2 =~= seq!['s']);
    assert(d3 =~= Seq::<char>::empty());
    let empty = Seq::<char>::empty();
    assert(decimal_run(empty) == 0);
    assert(component(s2, 's', true) == match seconds_number(seconds, nanos) {
        Some(number) => Some((number, empty)),
        None => None,
    });
    assert(seconds_number(seconds, nanos) is None ==> s2 =~= empty);
    assert(component(s1, 'm', true) == match field_number(minutes) {
        Some(number) => Some((number, s2)),
        None => None,
    });
    assert(component(s0, 'h', true) == match field_number(hours) {
        Some(number) => Some((number, s1)),
        None => None,
    });
    assert(components(empty, d3, true) == (Seq::<Option<Seq<char>>>::empty(), empty));
    let c2 = components(s2, d2, true);
    assert(c2.0 =~= seq![seconds_number(seconds, nanos)]);
    assert(c2.1 == empty);
    let c1 = components(s1, d1, true);
    assert(c1.0 =~= seq![field_number(minutes), seconds_number(seconds, nanos)]);
    assert(c1.1 == empty);
    let c0 = components(s0, d0, true);
    assert(c0.0 =~= seq![
        field_number(hours),
        field_number(minutes),
        seconds_number(seconds, nanos),
    ]);
}

/// The date part reads back as its numbers, up to the time part.
proof fn lemma_date_components(years: nat, months: nat, days: nat, rest: Seq<char>)
    requires
        rest.len() == 0 || rest[0] == 'T',
    ensures
        components(
            field(years, 'Y') + (field(months, 'M') + (field(days, 'D') + rest)),
            date_designators(),
            false,
        ) == (
            seq![field_number(years), field_number(months), None, field_number(days)],
            rest,
        ),
{
    let s2 = field(days, 'D') + rest;
    let s1 = field(months, 'M') + s2;
    let s0 = field(years, 'Y') + s1;
    lemma_field_head(years, 'Y', s1);
    lemma_field_head(months, 'M', s2);
    lemma_field_head(days, 'D', rest);
    let d0 = date_designators();
    let d1 = d0.skip(1);
    let d2 = d1.skip(1);
    let d3 = d2.skip(1);
    let d4 = d3.skip(1);
    assert(d1 =~= seq!['m', 'w', 'd']);
    assert(d2 =~= seq!['w', 'd']);
    assert(d3 =~= seq!['d']);
    assert(d4 =~= Seq::<char>::empty());
    assert(decimal_run(rest) == 0);
    assert(component(s2, 'd', false) == match field_number(days) {
        Some(number) => Some((number, rest)),
        None => None,
    });
    assert(component(s2, 'w', false) is None);
    assert(component(s1, 'm', false) == match field_number(months) {
        Some(number) => Some((number, s2)),
        None => None,
    });
    assert(component(s0, 'y', false) == match field_number(years) {
        Some(number) => Some((number, s1)),
        None => None,
    });
    assert(components(rest, d4, false) == (Seq::<Option<Seq<char>>>::empty(), rest));
    let c3 = components(s2, d3, false);
    assert(c3.0 =~= seq![field_number(days)]);
    assert(c3.1 == rest);
    let c2 = components(s2, d2, false);
    assert(c2.0 =~= seq![None, field_number(days)]);
    assert(c2.1 == rest);
    let c1 = components(s1, d1, false);
    assert(c1.0 =~= seq![field_number(months), None, field_number(days)]);
    assert(c1.1 == rest);
    let c0 = components(s0, d0, false);
    assert(c0.0 =~= seq![field_number(years), field_number(months), None, field_number(days)]);
}

/// The seven numbers of a canonical duration.
spec fn canonical_numbers(span: Span) -> Seq<Option<Seq<char>>> {
    let seconds = span.nanos / (SECOND as nat);
    let time = seconds % (DAY_SECS as nat);
    seq![
        field_number(span.months / 12),
        field_number(span.months % 12),
        None,
        field_number(seconds / (DAY_SECS as nat)),
        field_number(time / 3600),
        field_number(time % 3600 / 60),
        seconds_number(time % 60, span.nanos % (SECOND as nat)),
    ]
}

proof fn lemma_canonical_numbers(span: Span)
    ensures
        iso_numbers(canonical(span)) == Some(canonical_numbers(span)),
{
    let s = canonical(span);
    let seconds = span.nanos / (SECOND as nat);
    let nanos = span.nanos % (SECOND as nat);
    let time = seconds % (DAY_SECS as nat);
    let rest = time_text(time, nanos);
    lemma_date_components(span.months / 12, span.months % 12, seconds / (DAY_SECS as nat), rest);
    assert(s.skip(1) =~= field(span.months / 12, 'Y') + (field(span.months % 12, 'M') + (field(
        seconds / (DAY_SECS as nat),
        'D',
    ) + rest)));
    assert(s[0] == 'P');
    let date = components(s.skip(1), date_designators(), false).0;
    if time == 0 && nanos == 0 {
        assert(date + seq![None::<Seq<char>>, None, None] =~= canonical_numbers(span));
    } else {
        lemma_time_components(time / 3600, time % 3600 / 60, time % 60, nanos);
        assert(rest[0] == 'T');
        assert(rest.skip(1) =~= field(time / 3600, 'H') + (field(time % 3600 / 60, 'M')
            + seconds_field(time % 60, nanos)));
        let clock = components(rest.skip(1), time_designators(), true).0;
        assert(date + clock =~= canonical_numbers(span));
    }
}

/// A field of calendar months is one step of the sum.
proof fn lemma_calendar_step(
    numbers: Seq<Option<Seq<char>>>,
    index: int,
    span: Span,
    count: nat,
    months: nat,
)
    requires
        numbers.len() == 7,
        (index == 0 && months == 12) || (index == 1 && months == 1),
        numbers[index] == field_number(count),
        span.months + count * months <= u32::MAX,
        count <= u32::MAX,
    ensures
        iso_sum(numbers, index, span, false) == iso_sum(
            numbers,
            index + 1,
            Span { months: span.months + count * months, nanos: span.nanos },
            false,
        ),
{
    crate::text::lemma_decimal_digits(count);
    lemma_count_of_digits(crate::text::digits_of(count));
    lemma_whole_value(count, 1);
}

/// A field of fixed length is one step of the sum.
proof fn lemma_fixed_step(
    numbers: Seq<Option<Seq<char>>>,
    index: int,
    span: Span,
    count: nat,
    unit: nat,
)
    requires
        numbers.len() == 7,
        3 <= index <= 6,
        unit == if index == 3 {
            DAY
        } else if index == 4 {
            HOUR
        } else if index == 5 {
            MINUTE
        } else {
            SECOND
        },
        numbers[index] == field_number(count),
        span.nanos + count * unit <= u128::MAX,
    ensures
        iso_sum(numbers, index, span, false) == iso_sum(
            numbers,
            index + 1,
            Span { months: span.months, nanos: span.nanos + count * unit },
            false,
        ),
{
    assert(count <= count * unit) by (nonlinear_arith)
        requires
            unit >= 1,
    ;
    lemma_whole_value(count, unit);
    if count == 0 {
        assert(count * unit == 0) by (nonlinear_arith)
            requires
                count == 0,
        ;
    } else {
        let more = Span { months: span.months, nanos: span.nanos + count * unit };
        assert(add_component(span, index, crate::text::digits_of(count)) == Ok::<Span, Fault>(
            more,
        ));
    }
}

/// Days, hours, minutes, seconds and nanoseconds add up again.
proof fn lemma_clock(nanos: nat)
    ensures
        ({
            let seconds = nanos / (SECOND as nat);
            let time = seconds % (DAY_SECS as nat);
            nanos == seconds / (DAY_SECS as nat) * (DAY as nat) + time / 3600 * (HOUR as nat)
                + time % 3600 / 60 * (MINUTE as nat) + time % 60 * (SECOND as nat) + nanos % (
            SECOND as nat)
        }),
{
}

/// The sum of the numbers of a canonical duration is the duration.
#[verifier::spinoff_prover]
#[verifier::rlimit(40)]
proof fn lemma_canonical_sum(span: Span)
    requires
        is_duration(span),
    ensures
        iso_sum(canonical_numbers(span), 0, Span { months: 0, nanos: 0 }, false) == Ok::<
            Span,
            Fault,
        >(span),
{
    let numbers = canonical_numbers(span);
    let seconds = span.nanos / (SECOND as nat);
    let nanos = span.nanos % (SECOND as nat);
    let days = seconds / (DAY_SECS as nat);
    let time = seconds % (DAY_SECS as nat);
    let hours = time / 3600;
    let minutes = time % 3600 / 60;
    let rest = time % 60;
    lemma_clock(span.nanos);
    assert(span.nanos <= 10_000_000_000_000_000_000_000_000);
    let s1 = Span { months: span.months / 12 * 12, nanos: 0 };
    let s2 = Span { months: span.months, nanos: 0 };
    let s3 = Span { months: span.months, nanos: days * DAY as nat };
    let s4 = Span { months: span.months, nanos: s3.nanos + hours * HOUR as nat };
    let s5 = Span { months: span.months, nanos: s4.nanos + minutes * MINUTE as nat };
    lemma_calendar_step(numbers, 0, Span { months: 0, nanos: 0 }, span.months / 12, 12);
    assert(s1.months + span.months % 12 * 1 == span.months);
    lemma_calendar_step(numbers, 1, s1, span.months % 12, 1);
    assert(iso_sum(numbers, 2, s2, false) == iso_sum(numbers, 3, s2, false));
    lemma_fixed_step(numbers, 3, s2, days, DAY as nat);
    lemma_fixed_step(numbers, 4, s3, hours, HOUR as nat);
    lemma_fixed_step(numbers, 5, s4, minutes, MINUTE as nat);
    if nanos == 0 {
        lemma_fixed_step(numbers, 6, s5, rest, SECOND as nat);
    } else {
        lemma_fraction_value(rest, nanos);
        assert(add_component(s5, 6, numbers[6].unwrap()) == Ok::<Span, Fault>(span));
    }
    assert(iso_sum(numbers, 7, span, false) == Ok::<Span, Fault>(span));
    assert(iso_sum(numbers, 7, span, true) == Ok::<Span, Fault>(span));
}

/// Reading the canonical text of a duration gives the duration back.
pub proof fn law_canonical_reads_back(span: Span)
    requires
        is_duration(span),
    ensures
        reading(canonical(span)) == Ok::<Span, Fault>(span),
{
    let s = canonical(span);
    assert(s[0] == 'P');
    lemma_canonical_end(span);
    assert(crate::text::trim_start(s) == s);
    assert(crate::text::trim_end(s) == s);
    assert(unsigned(s) == s);
    lemma_canonical_numbers(span);
    lemma_canonical_sum(span);
    let numbers = canonical_numbers(span);
    let seconds = span.nanos / (SECOND as nat);
    let nanos = span.nanos % (SECOND as nat);
    let time = seconds % (DAY_SECS as nat);
    assert(any_number(numbers, 0)) by {
        if span.months > 0 {
            if span.months / 12 > 0 {
                assert(numbers[0] is Some);
            } else {
                assert(numbers[1] is Some);
            }
        } else if seconds / (DAY_SECS as nat) > 0 {
            assert(numbers[3] is Some);
        } else {
            lemma_time_given(numbers, time, nanos);
        }
    }
    if has_time_designator(s) {
        assert(any_number(numbers, 4)) by {
            if time == 0 && nanos == 0 {
                lemma_no_time_designator(span);
            } else {
                lemma_time_given(numbers, time, nanos);
            }
        }
    }
}

/// A time that is not zero gives one of its three numbers.
proof fn lemma_time_given(numbers: Seq<Option<Seq<char>>>, time: nat, nanos: nat)
    requires
        time > 0 || nanos > 0,
        numbers.len() == 7,
        numbers[4] == field_number(time / 3600),
        numbers[5] == field_number(time % 3600 / 60),
        numbers[6] == seconds_number(time % 60, nanos),
    ensures
        any_number(numbers, 4),
        any_number(numbers, 0),
{
    if nanos > 0 || time % 60 > 0 {
        assert(numbers[6] is Some);
    } else if time % 3600 / 60 > 0 {
        assert(numbers[5] is Some);
    } else {
        assert(numbers[4] is Some);
    }
}

/// A field holds digits and ends with its designator.
proof fn lemma_field_chars(count: nat, designator: char)
    ensures
        forall|i: int|
            0 <= i < field(count, designator).len() ==> crate::text::is_digit(
                #[trigger] field(count, designator)[i],
            ) || field(count, designator)[i] == designator,
        count > 0 ==> field(count, designator).len() > 0 && field(count, designator).last()
            == designator,
{
    crate::text::lemma_decimal_digits(count);
    if count > 0 {
        let digits = crate::text::digits_of(count);
        assert forall|i: int| 0 <= i < field(count, designator).len() implies crate::text::is_digit(
            #[trigger] field(count, designator)[i],
        ) || field(count, designator)[i] == designator by {
            if i < digits.len() {
                assert(field(count, designator)[i] == digits[i]);
            }
        }
    }
}

/// A duration of whole days has no time designator.
proof fn lemma_no_time_designator(span: Span)
    requires
        span.nanos % (SECOND as nat) == 0,
        span.nanos / (SECOND as nat) % (DAY_SECS as nat) == 0,
    ensures
        !has_time_designator(canonical(span)),
{
    let s = canonical(span);
    let days = span.nanos / (SECOND as nat) / (DAY_SECS as nat);
    let a = field(span.months / 12, 'Y');
    let b = field(span.months % 12, 'M');
    let c = field(days, 'D');
    lemma_field_chars(span.months / 12, 'Y');
    lemma_field_chars(span.months % 12, 'M');
    lemma_field_chars(days, 'D');
    assert(s =~= seq!['P'] + a + b + c);
    assert forall|i: int| 0 <= i < s.len() implies crate::text::small(#[trigger] s[i]) != 't' by {
        let j = i - 1;
        if i > 0 {
            if j < a.len() {
                assert(s[i] == a[j]);
            } else if j < a.len() + b.len() {
                assert(s[i] == b[j - a.len()]);
            } else {
                assert(s[i] == c[j - a.len() - b.len()]);
            }
        }
    }
}

/// Whether a text is empty or ends with a letter.
spec fn ends_well(s: Seq<char>) -> bool {
    s.len() == 0 || crate::text::is_letter(s.last())
}

proof fn lemma_ends_well(a: Seq<char>, b: Seq<char>)
    requires
        ends_well(a),
        ends_well(b),
    ensures
        ends_well(a + b),
{
    if b.len() > 0 {
        assert((a + b).last() == b.last());
    } else {
        assert(a + b =~= a);
    }
}

/// A canonical duration ends with a letter.
proof fn lemma_canonical_end(span: Span)
    ensures
        crate::text::is_letter(canonical(span).last()),
{
    let seconds = span.nanos / (SECOND as nat);
    let nanos = span.nanos % (SECOND as nat);
    let time = seconds % (DAY_SECS as nat);
    let days = seconds / (DAY_SECS as nat);
    let a = field(span.months / 12, 'Y');
    let b = field(span.months % 12, 'M');
    let c = field(days, 'D');
    let d = time_text(time, nanos);
    let f = field(time / 3600, 'H');
    let g = field(time % 3600 / 60, 'M');
    let h = seconds_field(time % 60, nanos);
    assert(ends_well(f) && ends_well(g) && ends_well(h));
    lemma_ends_well(g, h);
    lemma_ends_well(f, g + h);
    lemma_ends_well(seq!['T'], f + (g + h));
    lemma_ends_well(c, d);
    lemma_ends_well(b, c + d);
    lemma_ends_well(a, b + (c + d));
    lemma_ends_well(seq!['P'], a + (b + (c + d)));
}

/// Reading the text of a half-life gives the half-life back.
pub proof fn law_half_life_reads_back(half_life: HalfLife)
    requires
        half_life matches HalfLife::After(d) ==> is_duration(d@),
    ensures
        match half_life {
            HalfLife::Never => HalfLife::is_never(half_life.text_spec()),
            HalfLife::After(d) => !HalfLife::is_never(half_life.text_spec()) && reading(
                half_life.text_spec(),
            ) == Ok::<Span, Fault>(d@),
        },
{
    reveal_strlit("never");
    let s = half_life.text_spec();
    match half_life {
        HalfLife::Never => {
            assert(crate::text::trim_start(s) == s);
            assert(crate::text::trim_end(s) == s);
            assert(crate::text::small_text(s) =~= s);
        },
        HalfLife::After(d) => {
            law_canonical_reads_back(d@);
            lemma_canonical_end(d@);
            assert(s[0] == 'P');
            assert(crate::text::trim_start(s) == s);
            assert(crate::text::trim_end(s) == s);
            assert(crate::text::small_text(s)[0] == 'p');
        },
    }
}

} // verus!
