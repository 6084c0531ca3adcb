//! What each unit of a duration is worth.

use super::{Fault, Span, MOST_SECONDS};
use vstd::prelude::*;

verus! {

/// The span of some months and some nanoseconds.
pub open spec fn span_of(months: nat, nanos: nat) -> Result<Span, Fault> {
    Ok(Span { months, nanos })
}

/// What a count with a name behind it means.
pub open spec fn meaning(n: nat, name: Seq<char>) -> Result<Span, Fault> {
    super::reading(crate::text::digits_of(n) + name)
}

/// Whether a spelling differs from a name in the case of letters of ASCII alone.
pub open spec fn spells(spelling: Seq<char>, name: Seq<char>) -> bool {
    crate::text::small_text(spelling) == name
}

proof fn lemma_digit_run(digits: Seq<char>, tail: Seq<char>)
    requires
        crate::text::all_digits(digits),
        tail.len() > 0 ==> !crate::text::is_digit(tail[0]),
    ensures
        crate::text::digit_run(digits + tail) == digits.len(),
    decreases digits.len(),
{
    let s = digits + tail;
    if digits.len() > 0 {
        let t = digits.skip(1);
        assert(s[0] == digits[0]);
        assert(s.skip(1) =~= t + tail);
        assert forall|i: int| 0 <= i < t.len() implies crate::text::is_digit(#[trigger] t[i]) by {
            assert(t[i] == digits[i + 1]);
        }
        lemma_digit_run(t, tail);
    } else {
        assert(s =~= tail);
    }
}

proof fn lemma_unit_run(name: Seq<char>)
    requires
        forall|i: int| 0 <= i < name.len() ==> super::is_unit_letter(#[trigger] name[i]),
    ensures
        super::unit_run(name) == name.len(),
    decreases name.len(),
{
    if name.len() > 0 {
        let t = name.skip(1);
        assert forall|i: int| 0 <= i < t.len() implies super::is_unit_letter(#[trigger] t[i]) by {
            assert(t[i] == name[i + 1]);
        }
        lemma_unit_run(t);
    }
}

/// A text of one number and one unit means what the unit adds to nothing.
proof fn lemma_one_term(number: Seq<char>, name: Seq<char>, span: Span)
    requires
        number.len() > 0,
        crate::text::is_digit(number[0]),
        super::number_run(number + name) == number.len(),
        name.len() > 0,
        forall|i: int| 0 <= i < name.len() ==> super::is_unit_letter(#[trigger] name[i]),
        super::add_unit(
            Span { months: 0, nanos: 0 },
            number,
            crate::text::small_text(name),
        ) == Ok::<Span, Fault>(span),
        super::is_duration(span),
    ensures
        super::reading(number + name) == Ok::<Span, Fault>(span),
{
    let s = number + name;
    let n = number.len() as int;
    assert(s.take(n) =~= number);
    assert(s.skip(n) =~= name);
    assert(super::is_unit_letter(name[0]));
    assert(crate::text::trim_start(name) == name);
    lemma_unit_run(name);
    assert(name.take(name.len() as int) =~= name);
    let none = name.skip(name.len() as int);
    assert(none =~= Seq::<char>::empty());
    assert(crate::text::trim_start(none) =~= none);
    assert(super::after_unit(none) == Some(none));
    assert(super::shorthand_sum(none, span) == Ok::<Span, Fault>(span));
    assert(s.last() == name.last());
    assert(super::is_unit_letter(name[name.len() - 1]));
    assert(!super::is_numeral(s)) by {
        assert(s[s.len() - 1] == name.last());
    }
    assert(s[0] == number[0]);
    assert(crate::text::trim_start(s) == s);
    assert(crate::text::trim_end(s) == s);
}

proof fn lemma_letters(spelling: Seq<char>, name: Seq<char>)
    requires
        spells(spelling, name),
        forall|i: int| 0 <= i < name.len() ==> super::is_unit_letter(#[trigger] name[i]),
    ensures
        forall|i: int| 0 <= i < spelling.len() ==> super::is_unit_letter(#[trigger] spelling[i]),
        spelling.len() == name.len(),
{
    assert(crate::text::small_text(spelling).len() == spelling.len());
    assert forall|i: int| 0 <= i < spelling.len() implies super::is_unit_letter(
        #[trigger] spelling[i],
    ) by {
        assert(crate::text::small_text(spelling)[i] == crate::text::small(spelling[i]));
        assert(super::is_unit_letter(name[i]));
    }
}

proof fn lemma_count(n: nat, spelling: Seq<char>)
    requires
        spelling.len() > 0,
        super::is_unit_letter(spelling[0]),
    ensures
        super::number_run(crate::text::digits_of(n) + spelling) == crate::text::digits_of(n).len(),
        crate::text::digits_of(n).len() > 0,
        crate::text::is_digit(crate::text::digits_of(n)[0]),
{
    let digits = crate::text::digits_of(n);
    crate::text::lemma_decimal_digits(n);
    lemma_digit_run(digits, spelling);
    assert((digits + spelling)[digits.len() as int] == spelling[0]);
}

/// A count of a unit of fixed length, spelled in any case, is that many times its length.
proof fn lemma_fixed_unit(n: nat, spelling: Seq<char>, name: Seq<char>, unit: nat)
    requires
        spells(spelling, name),
        name.len() > 0,
        forall|i: int| 0 <= i < name.len() ==> super::is_unit_letter(#[trigger] name[i]),
        forall|span: Span, number: Seq<char>| #[trigger]
            super::add_unit(span, number, name) == super::add_fixed(span, number, unit),
        0 < n * unit <= MOST_SECONDS * 1_000_000_000,
        n <= u128::MAX,
    ensures
        meaning(n, spelling) == span_of(0, n * unit),
{
    lemma_letters(spelling, name);
    lemma_count(n, spelling);
    super::lemma_whole_value(n, unit);
    lemma_one_term(crate::text::digits_of(n), spelling, Span { months: 0, nanos: n * unit });
}

/// A count of calendar units, spelled in any case, is that many times its months.
proof fn lemma_calendar_unit(n: nat, spelling: Seq<char>, name: Seq<char>, months: nat)
    requires
        spells(spelling, name),
        name.len() > 0,
        forall|i: int| 0 <= i < name.len() ==> super::is_unit_letter(#[trigger] name[i]),
        forall|span: Span, number: Seq<char>| #[trigger]
            super::add_unit(span, number, name) == super::add_calendar(span, number, months),
        0 < n,
        0 < n * months <= u32::MAX,
        n <= u32::MAX,
    ensures
        meaning(n, spelling) == span_of(n * months, 0),
{
    lemma_letters(spelling, name);
    lemma_count(n, spelling);
    crate::text::lemma_decimal_digits(n);
    super::lemma_count_of_digits(crate::text::digits_of(n));
    lemma_one_term(crate::text::digits_of(n), spelling, Span { months: n * months, nanos: 0 });
}

/// The names of the units of fixed length, and the length of each in nanoseconds.
pub open spec fn fixed_units() -> Seq<(Seq<char>, nat)> {
    seq![
        ("ns"@, 1),
        ("nanosecond"@, 1),
        ("nanoseconds"@, 1),
        ("us"@, 1_000),
        ("µs"@, 1_000),
        ("μs"@, 1_000),
        ("microsecond"@, 1_000),
        ("microseconds"@, 1_000),
        ("ms"@, 1_000_000),
        ("millisecond"@, 1_000_000),
        ("milliseconds"@, 1_000_000),
        ("s"@, 1_000_000_000),
        ("sec"@, 1_000_000_000),
        ("secs"@, 1_000_000_000),
        ("second"@, 1_000_000_000),
        ("seconds"@, 1_000_000_000),
        ("m"@, 60_000_000_000),
        ("min"@, 60_000_000_000),
        ("mins"@, 60_000_000_000),
        ("minute"@, 60_000_000_000),
        ("minutes"@, 60_000_000_000),
        ("h"@, 3_600_000_000_000),
        ("hr"@, 3_600_000_000_000),
        ("hrs"@, 3_600_000_000_000),
        ("hour"@, 3_600_000_000_000),
        ("hours"@, 3_600_000_000_000),
        ("d"@, 86_400_000_000_000),
        ("day"@, 86_400_000_000_000),
        ("days"@, 86_400_000_000_000),
        ("w"@, 604_800_000_000_000),
        ("wk"@, 604_800_000_000_000),
        ("wks"@, 604_800_000_000_000),
        ("week"@, 604_800_000_000_000),
        ("weeks"@, 604_800_000_000_000),
    ]
}

/// The names of the calendar units, and the months in each.
pub open spec fn calendar_units() -> Seq<(Seq<char>, nat)> {
    seq![
        ("mo"@, 1),
        ("mos"@, 1),
        ("month"@, 1),
        ("months"@, 1),
        ("y"@, 12),
        ("yr"@, 12),
        ("yrs"@, 12),
        ("year"@, 12),
        ("years"@, 12),
    ]
}

spec fn is_unit_name(name: Seq<char>) -> bool {
    name.len() > 0 && forall|i: int|
        0 <= i < name.len() ==> super::is_unit_letter(#[trigger] name[i])
}

/// A number that tells the names of units apart: the length, the first character, the
/// last, and the third.
spec fn mark(name: Seq<char>) -> int {
    name.len() * 1_000_000_000_000_000_000_000int + name[0] as int * 100_000_000_000_000 + name.last() as int
        * 10_000_000 + if name.len() > 2 {
        name[2] as int
    } else {
        0
    }
}

proof fn lemma_marks()
    ensures
        mark("ns"@) == 2000011000001150000000int && is_unit_name("ns"@),
        mark("nanosecond"@) == 10000011000001000000110int && is_unit_name("nanosecond"@),
        mark("nanoseconds"@) == 11000011000001150000110int && is_unit_name("nanoseconds"@),
        mark("us"@) == 2000011700001150000000int && is_unit_name("us"@),
        mark("µs"@) == 2000018100001150000000int && is_unit_name("µs"@),
        mark("μs"@) == 2000095600001150000000int && is_unit_name("μs"@),
        mark("microsecond"@) == 11000010900001000000099int && is_unit_name("microsecond"@),
        mark("microseconds"@) == 12000010900001150000099int && is_unit_name("microseconds"@),
        mark("ms"@) == 2000010900001150000000int && is_unit_name("ms"@),
        mark("millisecond"@) == 11000010900001000000108int && is_unit_name("millisecond"@),
        mark("milliseconds"@) == 12000010900001150000108int && is_unit_name("milliseconds"@),
        mark("s"@) == 1000011500001150000000int && is_unit_name("s"@),
        mark("sec"@) == 3000011500000990000099int && is_unit_name("sec"@),
        mark("secs"@) == 4000011500001150000099int && is_unit_name("secs"@),
        mark("second"@) == 6000011500001000000099int && is_unit_name("second"@),
        mark("seconds"@) == 7000011500001150000099int && is_unit_name("seconds"@),
        mark("m"@) == 1000010900001090000000int && is_unit_name("m"@),
        mark("min"@) == 3000010900001100000110int && is_unit_name("min"@),
        mark("mins"@) == 4000010900001150000110int && is_unit_name("mins"@),
        mark("minute"@) == 6000010900001010000110int && is_unit_name("minute"@),
        mark("minutes"@) == 7000010900001150000110int && is_unit_name("minutes"@),
        mark("h"@) == 1000010400001040000000int && is_unit_name("h"@),
        mark("hr"@) == 2000010400001140000000int && is_unit_name("hr"@),
        mark("hrs"@) == 3000010400001150000115int && is_unit_name("hrs"@),
        mark("hour"@) == 4000010400001140000117int && is_unit_name("hour"@),
        mark("hours"@) == 5000010400001150000117int && is_unit_name("hours"@),
        mark("d"@) == 1000010000001000000000int && is_unit_name("d"@),
        mark("day"@) == 3000010000001210000121int && is_unit_name("day"@),
        mark("days"@) == 4000010000001150000121int && is_unit_name("days"@),
        mark("w"@) == 1000011900001190000000int && is_unit_name("w"@),
        mark("wk"@) == 2000011900001070000000int && is_unit_name("wk"@),
        mark("wks"@) == 3000011900001150000115int && is_unit_name("wks"@),
        mark("week"@) == 4000011900001070000101int && is_unit_name("week"@),
        mark("weeks"@) == 5000011900001150000101int && is_unit_name("weeks"@),
        mark("mo"@) == 2000010900001110000000int && is_unit_name("mo"@),
        mark("mos"@) == 3000010900001150000115int && is_unit_name("mos"@),
        mark("month"@) == 5000010900001040000110int && is_unit_name("month"@),
        mark("months"@) == 6000010900001150000110int && is_unit_name("months"@),
        mark("y"@) == 1000012100001210000000int && is_unit_name("y"@),
        mark("yr"@) == 2000012100001140000000int && is_unit_name("yr"@),
        mark("yrs"@) == 3000012100001150000115int && is_unit_name("yrs"@),
        mark("year"@) == 4000012100001140000097int && is_unit_name("year"@),
        mark("years"@) == 5000012100001150000097int && is_unit_name("years"@),
{
    reveal_strlit("ns");
    reveal_strlit("nanosecond");
    reveal_strlit("nanoseconds");
    reveal_strlit("us");
    reveal_strlit("µs");
    reveal_strlit("μs");
    reveal_strlit("microsecond");
    reveal_strlit("microseconds");
    reveal_strlit("ms");
    reveal_strlit("millisecond");
    reveal_strlit("milliseconds");
    reveal_strlit("s");
    reveal_strlit("sec");
    reveal_strlit("secs");
    reveal_strlit("second");
    reveal_strlit("seconds");
    reveal_strlit("m");
    reveal_strlit("min");
    reveal_strlit("mins");
    reveal_strlit("minute");
    reveal_strlit("minutes");
    reveal_strlit("h");
    reveal_strlit("hr");
    reveal_strlit("hrs");
    reveal_strlit("hour");
    reveal_strlit("hours");
    reveal_strlit("d");
    reveal_strlit("day");
    reveal_strlit("days");
    reveal_strlit("w");
    reveal_strlit("wk");
    reveal_strlit("wks");
    reveal_strlit("week");
    reveal_strlit("weeks");
    reveal_strlit("mo");
    reveal_strlit("mos");
    reveal_strlit("month");
    reveal_strlit("months");
    reveal_strlit("y");
    reveal_strlit("yr");
    reveal_strlit("yrs");
    reveal_strlit("year");
    reveal_strlit("years");
}

/// A name of a unit of fixed length adds that length.
proof fn lemma_fixed_name(k: int)
    requires
        0 <= k < fixed_units().len(),
    ensures
        is_unit_name(fixed_units()[k].0),
        forall|span: Span, number: Seq<char>| #[trigger]
            super::add_unit(span, number, fixed_units()[k].0) == super::add_fixed(
                span,
                number,
                fixed_units()[k].1,
            ),
{
    lemma_marks();
    reveal(super::add_unit);
}

/// A name of a calendar unit adds its months.
proof fn lemma_calendar_name(k: int)
    requires
        0 <= k < calendar_units().len(),
    ensures
        is_unit_name(calendar_units()[k].0),
        forall|span: Span, number: Seq<char>| #[trigger]
            super::add_unit(span, number, calendar_units()[k].0) == super::add_calendar(
                span,
                number,
                calendar_units()[k].1,
            ),
{
    lemma_marks();
    reveal(super::add_unit);
}

/// A count with the name of a unit of fixed length behind it, in any case of letters, is
/// that many times the length of the unit.
pub proof fn law_fixed_units(n: nat, k: int, spelling: Seq<char>)
    requires
        0 <= k < fixed_units().len(),
        spells(spelling, fixed_units()[k].0),
        0 < n * fixed_units()[k].1 <= MOST_SECONDS * 1_000_000_000,
        n <= u128::MAX,
    ensures
        meaning(n, spelling) == span_of(0, n * fixed_units()[k].1),
{
    lemma_fixed_name(k);
    lemma_fixed_unit(n, spelling, fixed_units()[k].0, fixed_units()[k].1);
}

/// A count with the name of a calendar unit behind it, in any case of letters, is that
/// many times its months.
pub proof fn law_calendar_units(n: nat, k: int, spelling: Seq<char>)
    requires
        0 <= k < calendar_units().len(),
        spells(spelling, calendar_units()[k].0),
        0 < n,
        n * calendar_units()[k].1 <= u32::MAX,
    ensures
        meaning(n, spelling) == span_of(n * calendar_units()[k].1, 0),
{
    lemma_calendar_name(k);
    assert(0 < n * calendar_units()[k].1 && n <= n * calendar_units()[k].1) by (nonlinear_arith)
        requires
            0 < n,
            calendar_units()[k].1 >= 1,
    ;
    lemma_calendar_unit(n, spelling, calendar_units()[k].0, calendar_units()[k].1);
}

// ---------------------------------------------------------------------------
// Numbers
// ---------------------------------------------------------------------------

/// A bare number counts seconds.
pub proof fn law_bare_numbers_count_seconds(n: nat)
    requires
        0 < n <= MOST_SECONDS,
    ensures
        super::reading(crate::text::digits_of(n)) == span_of(0, n * 1_000_000_000),
{
    let s = crate::text::digits_of(n);
    crate::text::lemma_decimal_digits(n);
    super::lemma_whole_value(n, 1_000_000_000);
    assert(crate::text::is_digit(s[0]));
    assert(crate::text::is_digit(s[s.len() - 1]));
    assert(crate::text::trim_start(s) == s);
    assert(crate::text::trim_end(s) == s);
    assert(super::is_numeral(s));
}

/// A fraction of a second, behind a full stop or a comma, counts its digits down from
/// tenths to nanoseconds.
pub proof fn law_fractions_of_a_second(n: nat, mark: char, fraction: Seq<char>, zeros: nat)
    requires
        mark == '.' || mark == ',',
        crate::text::all_digits(fraction),
        1 <= fraction.len() <= 9,
        zeros == 9 - fraction.len(),
        n < MOST_SECONDS,
        n > 0 || crate::text::decimal(fraction) > 0,
    ensures
        super::reading(crate::text::digits_of(n) + seq![mark] + fraction + seq!['s']) == span_of(
            0,
            n * 1_000_000_000 + crate::text::decimal(fraction) * super::ten_to(zeros),
        ),
{
    let unit = 1_000_000_000nat;
    let digits = crate::text::digits_of(n);
    let number = digits + seq![mark] + fraction;
    let name = seq!['s'];
    let s = number + name;
    crate::text::lemma_decimal_digits(n);
    assert forall|i: int| 0 <= i < digits.len() implies !super::is_separator(
        #[trigger] number[i],
    ) by {
        assert(number[i] == digits[i]);
    }
    assert(number[digits.len() as int] == mark);
    super::lemma_separator_at(number, digits.len() as int);
    assert(super::whole_part(number) =~= digits);
    assert(super::fraction_part(number) =~= fraction);
    super::lemma_count_of_digits(digits);
    super::lemma_count_of_digits(fraction);
    let f = crate::text::decimal(fraction);
    let den = super::ten_to(fraction.len());
    let more = super::ten_to(zeros);
    lemma_nine_zeros(fraction.len(), zeros);
    lemma_below_ten_to(fraction);
    assert(f * unit == (f * more) * den && den > 0) by (nonlinear_arith)
        requires
            more * den == unit,
            unit > 0,
    ;
    vstd::arithmetic::div_mod::lemma_mod_multiples_basic((f * more) as int, den as int);
    vstd::arithmetic::div_mod::lemma_div_by_multiple((f * more) as int, den as int);
    assert(f * more < unit) by (nonlinear_arith)
        requires
            f < den,
            more * den == unit,
            more > 0,
    ;
    assert(f * unit <= den * unit) by (nonlinear_arith)
        requires
            f < den,
    ;
    let total = n * unit + f * more;
    assert(super::fixed_value(number, unit) == Ok::<nat, Fault>(total));
    assert(total > 0) by (nonlinear_arith)
        requires
            n > 0 || f > 0,
            more > 0,
            unit == 1_000_000_000nat,
            total == n * unit + f * more,
    ;
    reveal_strlit("s");
    assert("s"@ =~= name);
    assert(crate::text::small_text(name) =~= name);
    assert(fixed_units()[11].0 == "s"@);
    lemma_fixed_name(11);
    lemma_digit_run(digits, seq![mark] + fraction + name);
    assert(s =~= digits + (seq![mark] + fraction + name));
    lemma_digit_run(fraction, name);
    assert(s.skip(digits.len() as int + 1) =~= fraction + name);
    assert(s[digits.len() as int] == mark);
    assert(super::number_run(s) == number.len());
    assert(number[0] == digits[0]);
    lemma_one_term(number, name, Span { months: 0, nanos: total });
}

proof fn lemma_ten_to_sum(a: nat, b: nat)
    ensures
        super::ten_to(a) * super::ten_to(b) == super::ten_to(a + b),
        super::ten_to(a) > 0,
    decreases a,
{
    let x = super::ten_to(a);
    let y = super::ten_to(b);
    if a > 0 {
        let c = (a - 1) as nat;
        let z = super::ten_to(c);
        lemma_ten_to_sum(c, b);
        assert(super::ten_to(a + b) == 10 * super::ten_to(c + b));
        assert(x * y == 10 * (z * y)) by (nonlinear_arith)
            requires
                x == 10 * z,
        ;
    } else {
        assert(x * y == y) by (nonlinear_arith)
            requires
                x == 1,
        ;
    }
}

proof fn lemma_nine_zeros(a: nat, b: nat)
    requires
        a + b == 9,
    ensures
        super::ten_to(b) * super::ten_to(a) == 1_000_000_000,
        super::ten_to(b) > 0,
        super::ten_to(a) > 0,
        super::ten_to(a) <= 1_000_000_000,
{
    lemma_ten_to_sum(b, a);
    lemma_ten_to_sum(a, b);
    assert(super::ten_to(9) == 1_000_000_000) by {
        reveal_with_fuel(super::ten_to, 10);
    }
    assert(super::ten_to(a) <= super::ten_to(b) * super::ten_to(a)) by (nonlinear_arith)
        requires
            super::ten_to(b) > 0,
            super::ten_to(a) > 0,
    ;
}

proof fn lemma_below_ten_to(s: Seq<char>)
    requires
        crate::text::all_digits(s),
    ensures
        crate::text::decimal(s) < super::ten_to(s.len()),
    decreases s.len(),
{
    if s.len() > 0 {
        let t = s.drop_last();
        assert forall|i: int| 0 <= i < t.len() implies crate::text::is_digit(#[trigger] t[i]) by {
            assert(t[i] == s[i]);
        }
        assert(crate::text::is_digit(s[s.len() - 1]));
        lemma_below_ten_to(t);
    }
}

// ---------------------------------------------------------------------------
// ISO 8601
// ---------------------------------------------------------------------------

proof fn lemma_letter_behind(n: nat, c: char)
    requires
        crate::text::is_letter(c),
    ensures
        ({
            let digits = crate::text::digits_of(n);
            let s = digits + seq![c];
            let k = digits.len() as int;
            &&& k >= 1
            &&& super::decimal_run(s) == k
            &&& s[k] == c
            &&& s.len() == k + 1
            &&& s.take(k) == digits
            &&& s.skip(k + 1) == Seq::<char>::empty()
        }),
{
    let digits = crate::text::digits_of(n);
    let s = digits + seq![c];
    crate::text::lemma_decimal_digits(n);
    super::lemma_decimal_run(digits, seq![c]);
    assert(s.take(digits.len() as int) =~= digits);
    assert(s.skip(digits.len() as int + 1) =~= Seq::<char>::empty());
}

/// The component with one designator, in small letters: years, months, weeks, days, and
/// behind the sign of time hours, minutes, seconds.
pub open spec fn designated(i: int) -> char {
    seq!['y', 'm', 'w', 'd', 'h', 'm', 's'][i]
}

/// The months in one unit of a component.
pub open spec fn months_of(i: int) -> nat {
    if i == 0 {
        12
    } else if i == 1 {
        1
    } else {
        0
    }
}

/// The nanoseconds in one unit of a component.
pub open spec fn nanos_of(i: int) -> nat {
    if i == 2 {
        604_800_000_000_000
    } else if i == 3 {
        86_400_000_000_000
    } else if i == 4 {
        3_600_000_000_000
    } else if i == 5 {
        60_000_000_000
    } else if i == 6 {
        1_000_000_000
    } else {
        0
    }
}

/// An ISO duration of one component.
pub open spec fn iso_text(n: nat, i: int, c: char) -> Seq<char> {
    if i < 4 {
        seq!['P'] + (crate::text::digits_of(n) + seq![c])
    } else {
        seq!['P'] + (seq!['T'] + (crate::text::digits_of(n) + seq![c]))
    }
}

/// Numbers of which only one is given.
spec fn only(count: nat, i: int, digits: Seq<char>) -> Seq<Option<Seq<char>>> {
    Seq::new(count, |k: int| if k == i { Some(digits) } else { None })
}

proof fn lemma_no_components(s: Seq<char>, designators: Seq<char>, fractions: bool)
    requires
        super::decimal_run(s) == 0,
    ensures
        super::components(s, designators, fractions).0 =~= only(
            designators.len(),
            -1,
            Seq::empty(),
        ),
        super::components(s, designators, fractions).1 == s,
    decreases designators.len(),
{
    if designators.len() > 0 {
        lemma_no_components(s, designators.skip(1), fractions);
    }
}

proof fn lemma_one_component(
    n: nat,
    c: char,
    designators: Seq<char>,
    i: int,
    fractions: bool,
)
    requires
        crate::text::is_letter(c),
        0 <= i < designators.len(),
        crate::text::small(c) == designators[i],
        forall|k: int| 0 <= k < i ==> #[trigger] designators[k] != designators[i],
    ensures
        ({
            let digits = crate::text::digits_of(n);
            let (numbers, end) = super::components(digits + seq![c], designators, fractions);
            &&& numbers =~= only(designators.len(), i, digits)
            &&& end == Seq::<char>::empty()
        }),
    decreases i,
{
    let digits = crate::text::digits_of(n);
    let one = digits + seq![c];
    let rest = designators.skip(1);
    lemma_letter_behind(n, c);
    if i == 0 {
        let empty = Seq::<char>::empty();
        assert(super::component(one, designators[0], fractions) == Some((digits, empty)));
        lemma_no_components(empty, rest, fractions);
    } else {
        assert(designators[0] != designators[i]);
        assert(super::component(one, designators[0], fractions) is None);
        assert forall|k: int| 0 <= k < i - 1 implies #[trigger] rest[k] != rest[i - 1] by {
            assert(rest[k] == designators[k + 1]);
        }
        lemma_one_component(n, c, rest, i - 1, fractions);
    }
}

proof fn lemma_iso_numbers(n: nat, i: int, c: char)
    requires
        0 <= i < 7,
        crate::text::small(c) == designated(i),
        crate::text::is_letter(c),
    ensures
        super::iso_numbers(iso_text(n, i, c)) == Some(only(7, i, crate::text::digits_of(n))),
{
    let digits = crate::text::digits_of(n);
    let one = digits + seq![c];
    let s = iso_text(n, i, c);
    let date = super::date_designators();
    let time = super::time_designators();
    assert(s[0] == 'P');
    if i < 4 {
        assert(s.skip(1) =~= one);
        lemma_one_component(n, c, date, i, false);
        let none = None::<Seq<char>>;
        assert(only(4, i, digits) + seq![none, none, none] =~= only(7, i, digits));
    } else {
        let behind = seq!['T'] + one;
        assert(s.skip(1) =~= behind);
        assert(behind[0] == 'T');
        assert(super::decimal_run(behind) == 0);
        lemma_no_components(behind, date, false);
        assert(behind.skip(1) =~= one);
        lemma_one_component(n, c, time, i - 4, true);
        assert(only(4, -1, Seq::empty()) + only(3, i - 4, digits) =~= only(7, i, digits));
    }
}

proof fn lemma_component_adds(n: nat, i: int)
    requires
        0 <= i < 7,
        0 < n <= u32::MAX,
        n * months_of(i) <= u32::MAX,
        n * nanos_of(i) <= MOST_SECONDS * 1_000_000_000,
    ensures
        super::add_component(Span { months: 0, nanos: 0 }, i, crate::text::digits_of(n)) == span_of(
            n * months_of(i),
            n * nanos_of(i),
        ),
        !super::has_separator(crate::text::digits_of(n)),
        n * months_of(i) > 0 || n * nanos_of(i) > 0,
{
    let digits = crate::text::digits_of(n);
    crate::text::lemma_decimal_digits(n);
    super::lemma_count_of_digits(digits);
    if i >= 2 {
        super::lemma_whole_value(n, nanos_of(i));
    } else {
        super::lemma_whole_value(n, 1);
    }
    assert(n * months_of(i) > 0 || n * nanos_of(i) > 0) by (nonlinear_arith)
        requires
            n > 0,
            months_of(i) > 0 || nanos_of(i) > 0,
    ;
}

/// An ISO duration of one component, its designator in any case, is that many times what
/// the component counts.
pub proof fn law_iso_components(n: nat, i: int, c: char)
    requires
        0 <= i < 7,
        crate::text::small(c) == designated(i),
        crate::text::is_letter(c),
        0 < n <= u32::MAX,
        n * months_of(i) <= u32::MAX,
        n * nanos_of(i) <= MOST_SECONDS * 1_000_000_000,
    ensures
        super::reading(iso_text(n, i, c)) == span_of(n * months_of(i), n * nanos_of(i)),
{
    let s = iso_text(n, i, c);
    let digits = crate::text::digits_of(n);
    let numbers = only(7, i, digits);
    let span = Span { months: n * months_of(i), nanos: n * nanos_of(i) };
    lemma_iso_numbers(n, i, c);
    lemma_component_adds(n, i);
    crate::text::lemma_decimal_digits(n);
    lemma_sum_from(numbers, i + 1, span, i);
    lemma_sum_to(numbers, 0, i, digits, span);
    assert(numbers[i] is Some);
    assert(super::any_number(numbers, 0));
    if i >= 4 {
        assert(super::any_number(numbers, 4));
    } else {
        assert forall|k: int| 0 <= k < s.len() implies crate::text::small(#[trigger] s[k]) != 't' by {
            if 1 <= k < 1 + digits.len() {
                assert(s[k] == digits[k - 1]);
                assert(crate::text::is_digit(digits[k - 1]));
            }
        }
        assert(!super::has_time_designator(s));
    }
    assert(s[0] == 'P');
    assert(s.last() == c);
    assert(crate::text::trim_start(s) == s);
    assert(crate::text::trim_end(s) == s);
}

proof fn lemma_sum_from(numbers: Seq<Option<Seq<char>>>, from: int, span: Span, i: int)
    requires
        i < from <= numbers.len(),
        forall|k: int| i < k < numbers.len() ==> (#[trigger] numbers[k]) is None,
    ensures
        super::iso_sum(numbers, from, span, false) == Ok::<Span, Fault>(span),
    decreases numbers.len() - from,
{
    if from < numbers.len() {
        lemma_sum_from(numbers, from + 1, span, i);
    }
}

proof fn lemma_sum_to(
    numbers: Seq<Option<Seq<char>>>,
    from: int,
    i: int,
    number: Seq<char>,
    span: Span,
)
    requires
        0 <= from <= i < numbers.len(),
        forall|k: int| 0 <= k < i ==> (#[trigger] numbers[k]) is None,
        numbers[i] == Some(number),
        !super::has_separator(number),
        super::add_component(Span { months: 0, nanos: 0 }, i, number) == Ok::<Span, Fault>(span),
        super::iso_sum(numbers, i + 1, span, false) == Ok::<Span, Fault>(span),
    ensures
        super::iso_sum(numbers, from, Span { months: 0, nanos: 0 }, false) == Ok::<Span, Fault>(
            span,
        ),
    decreases i - from,
{
    if from < i {
        lemma_sum_to(numbers, from + 1, i, number, span);
    }
}

// ---------------------------------------------------------------------------
// Around a duration
// ---------------------------------------------------------------------------

/// White space around a duration makes no difference.
pub proof fn law_white_space_around_durations(a: Seq<char>, s: Seq<char>, b: Seq<char>)
    requires
        crate::laws::text::is_blank(a),
        crate::laws::text::is_blank(b),
    ensures
        super::reading(a + s + b) == super::reading(s),
{
    crate::laws::text::lemma_trim_around(a, s, b);
}

/// A plus before a duration makes no difference; a minus makes it none.
pub proof fn law_signs(s: Seq<char>)
    requires
        crate::laws::text::is_tight(s),
        s.len() > 0,
        s[0] != '+',
    ensures
        super::reading(seq!['+'] + s) == super::reading(s),
        super::reading(seq!['-'] + s) == Err::<Span, Fault>(Fault::Positive),
{
    let plus = seq!['+'] + s;
    let minus = seq!['-'] + s;
    assert(plus.last() == s.last() && minus.last() == s.last());
    assert(plus[0] == '+' && minus[0] == '-');
    assert(plus.skip(1) =~= s);
    assert(crate::text::trim_start(plus) == plus);
    assert(crate::text::trim_end(plus) == plus);
    assert(crate::text::trim_start(minus) == minus);
    assert(crate::text::trim_end(minus) == minus);
    assert(crate::text::trim_start(s) == s);
    assert(crate::text::trim_end(s) == s);
}

/// What is read is a duration: positive, and not too large.
pub proof fn law_only_durations_are_read(s: Seq<char>)
    ensures
        super::reading(s) matches Ok(span) ==> (span.months > 0 || span.nanos > 0) && span.nanos
            / 1_000_000_000 <= MOST_SECONDS,
{
}

} // verus!
