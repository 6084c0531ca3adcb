//! Shorthand durations add up.

use super::{Fault, Span, MOST_SECONDS, SECOND};
use vstd::prelude::*;

verus! {

/// The sum of two spans.
pub open spec fn sum_of(a: Span, b: Span) -> Span {
    Span { months: a.months + b.months, nanos: a.nanos + b.nanos }
}

/// Whether a text ends in a unit.
pub open spec fn ends_in_unit(s: Seq<char>) -> bool {
    s.len() > 0 && super::is_unit_letter(s.last())
}

/// Whether a text starts with a digit.
pub open spec fn starts_in_digit(s: Seq<char>) -> bool {
    s.len() > 0 && crate::text::is_digit(s[0])
}

/// White space before a text that ends in none is dropped as if nothing followed.
proof fn lemma_trim_start_before(s: Seq<char>, tail: Seq<char>)
    requires
        ends_in_unit(s),
    ensures
        crate::text::trim_start(s + tail) == crate::text::trim_start(s) + tail,
        ends_in_unit(crate::text::trim_start(s)),
    decreases s.len(),
{
    let all = s + tail;
    assert(all[0] == s[0]);
    if crate::text::is_space(s[0]) {
        assert(s.len() > 1) by {
            if s.len() == 1 {
                assert(s[0] == s.last());
            }
        }
        assert(s.skip(1).last() == s.last());
        assert(all.skip(1) =~= s.skip(1) + tail);
        lemma_trim_start_before(s.skip(1), tail);
    }
}

/// The digits at the start of a text that ends in a unit end before it does.
proof fn lemma_digit_run_before(s: Seq<char>, tail: Seq<char>)
    requires
        ends_in_unit(s),
    ensures
        crate::text::digit_run(s + tail) == crate::text::digit_run(s),
        crate::text::digit_run(s) < s.len(),
    decreases s.len(),
{
    let all = s + tail;
    assert(all[0] == s[0]);
    if crate::text::is_digit(s[0]) {
        assert(s.len() > 1) by {
            if s.len() == 1 {
                assert(s[0] == s.last());
            }
        }
        assert(s.skip(1).last() == s.last());
        assert(all.skip(1) =~= s.skip(1) + tail);
        lemma_digit_run_before(s.skip(1), tail);
    }
}

/// The number at the start of a text that ends in a unit ends before it does.
proof fn lemma_number_run_before(s: Seq<char>, tail: Seq<char>)
    requires
        ends_in_unit(s),
    ensures
        super::number_run(s + tail) == super::number_run(s),
        0 <= super::number_run(s) < s.len(),
{
    let all = s + tail;
    lemma_digit_run_before(s, tail);
    let n = crate::text::digit_run(s) as int;
    assert(all[n] == s[n]);
    if super::is_separator(s[n]) {
        assert(n < s.len() - 1) by {
            if n == s.len() - 1 {
                assert(s[n] == s.last());
            }
        }
        assert(s.skip(n + 1).last() == s.last());
        assert(all.skip(n + 1) =~= s.skip(n + 1) + tail);
        lemma_digit_run_before(s.skip(n + 1), tail);
    }
}

/// The letters at the start of a text are the same where no letter follows it.
proof fn lemma_unit_run_before(s: Seq<char>, tail: Seq<char>)
    requires
        tail.len() > 0,
        !super::is_unit_letter(tail[0]),
    ensures
        super::unit_run(s + tail) == super::unit_run(s),
        super::unit_run(s) <= s.len(),
    decreases s.len(),
{
    let all = s + tail;
    if s.len() > 0 {
        assert(all[0] == s[0]);
        if super::is_unit_letter(s[0]) {
            assert(all.skip(1) =~= s.skip(1) + tail);
            lemma_unit_run_before(s.skip(1), tail);
        }
    } else {
        assert(all =~= tail);
    }
}

/// What follows one unit goes on to what follows the text.
proof fn lemma_after_unit_before(s: Seq<char>, tail: Seq<char>)
    requires
        ends_in_unit(s),
    ensures
        super::after_unit(s) matches Some(rest) && ends_in_unit(rest) && super::after_unit(s + tail)
            == Some(rest + tail),
{
    lemma_trim_start_before(s, tail);
    let rest = crate::text::trim_start(s);
    assert((rest + tail)[0] == rest[0]);
    if rest[0] == ',' {
        assert(rest.len() > 1) by {
            if rest.len() == 1 {
                assert(rest[0] == rest.last());
            }
        }
        assert(rest.skip(1).last() == rest.last());
        assert((rest + tail).skip(1) =~= rest.skip(1) + tail);
        lemma_trim_start_before(rest.skip(1), tail);
    }
}

/// A sum goes on behind a text that ends in a unit, at once or behind a comma.
proof fn lemma_sum_goes_on(a: Seq<char>, tail: Seq<char>, b: Seq<char>, span: Span)
    requires
        ends_in_unit(a),
        starts_in_digit(b),
        tail == b || tail == seq![','] + b,
        super::shorthand_sum(a, span) is Ok,
    ensures
        super::shorthand_sum(a + tail, span) == super::shorthand_sum(
            b,
            super::shorthand_sum(a, span)->Ok_0,
        ),
    decreases a.len(),
{
    let all = a + tail;
    let n = super::number_run(a);
    lemma_number_run_before(a, tail);
    assert(all.take(n) =~= a.take(n));
    assert(all.skip(n) =~= a.skip(n) + tail);
    assert(a.skip(n).last() == a.last());
    lemma_trim_start_before(a.skip(n), tail);
    let unit_on = crate::text::trim_start(a.skip(n));
    let u = super::unit_run(unit_on) as int;
    lemma_unit_run_before(unit_on, tail);
    assert((unit_on + tail).take(u) =~= unit_on.take(u));
    let behind = unit_on.skip(u);
    assert((unit_on + tail).skip(u) =~= behind + tail);
    let more = super::add_unit(span, a.take(n), crate::text::small_text(unit_on.take(u)))->Ok_0;
    if behind.len() == 0 {
        assert(behind + tail =~= tail);
        assert(super::after_unit(behind) == Some(behind));
        assert(super::shorthand_sum(behind, more) == Ok::<Span, Fault>(more));
        assert(super::after_unit(tail) == Some(b)) by {
            if tail != b {
                assert(tail[0] == ',');
                assert(tail.skip(1) =~= b);
            }
        }
    } else {
        assert(behind.last() == unit_on.last());
        lemma_after_unit_before(behind, tail);
        let rest = super::after_unit(behind)->Some_0;
        super::lemma_term_shrinks(a);
        lemma_sum_goes_on(rest, tail, b, more);
    }
}

/// A unit adds the same to any span.
proof fn lemma_unit_adds(span: Span, other: Span, number: Seq<char>, unit: Seq<char>)
    requires
        super::add_unit(span, number, unit) is Ok,
    ensures
        ({
            let more = super::add_unit(span, number, unit)->Ok_0;
            let next = Span {
                months: (other.months + more.months - span.months) as nat,
                nanos: (other.nanos + more.nanos - span.nanos) as nat,
            };
            &&& more.months >= span.months
            &&& more.nanos >= span.nanos
            &&& next.months <= u32::MAX && next.nanos <= u128::MAX ==> super::add_unit(
                other,
                number,
                unit,
            ) == Ok::<Span, Fault>(next)
        }),
{
    reveal(super::add_unit);
    let count = crate::text::decimal(number);
    assert(count * 12 >= 0 && count * 1 >= 0);
}

/// A text adds the same to any span.
proof fn lemma_text_adds(s: Seq<char>, span: Span, other: Span)
    requires
        super::shorthand_sum(s, span) is Ok,
    ensures
        ({
            let total = super::shorthand_sum(s, span)->Ok_0;
            let next = Span {
                months: (other.months + total.months - span.months) as nat,
                nanos: (other.nanos + total.nanos - span.nanos) as nat,
            };
            &&& total.months >= span.months
            &&& total.nanos >= span.nanos
            &&& next.months <= u32::MAX && next.nanos <= u128::MAX ==> super::shorthand_sum(
                s,
                other,
            ) == Ok::<Span, Fault>(next)
        }),
    decreases s.len(),
{
    if s.len() > 0 {
        let n = super::number_run(s);
        let unit_on = crate::text::trim_start(s.skip(n));
        let u = super::unit_run(unit_on) as int;
        let name = crate::text::small_text(unit_on.take(u));
        lemma_unit_adds(span, other, s.take(n), name);
        let more = super::add_unit(span, s.take(n), name)->Ok_0;
        let next = Span {
            months: (other.months + more.months - span.months) as nat,
            nanos: (other.nanos + more.nanos - span.nanos) as nat,
        };
        let rest = super::after_unit(unit_on.skip(u))->Some_0;
        super::lemma_term_shrinks(s);
        lemma_text_adds(rest, more, next);
    }
}

/// A text that a shorthand sum can be read from is read as shorthand.
proof fn lemma_read_as_shorthand(s: Seq<char>)
    requires
        ends_in_unit(s),
        super::shorthand_reading(s) is Ok,
    ensures
        super::reading(s) == super::shorthand_reading(s),
        super::shorthand_sum(s, Span { months: 0, nanos: 0 }) == super::shorthand_reading(s),
{
    assert(!super::is_numeral(s)) by {
        assert(s[s.len() - 1] == s.last());
    }
    let n = crate::text::digit_run(s) as int;
    assert(crate::text::is_digit(s[0]) || super::is_separator(s[0]));
    assert(crate::text::trim_start(s) == s);
    assert(crate::text::trim(s) == s);
}

/// Two shorthand texts put together, at once or with a comma between, mean the sum of
/// what they mean, where a duration can hold it.
pub proof fn law_shorthand_adds_up(a: Seq<char>, b: Seq<char>)
    requires
        ends_in_unit(a),
        ends_in_unit(b),
        starts_in_digit(b),
        super::shorthand_reading(a) is Ok,
        super::shorthand_reading(b) is Ok,
        super::is_duration(
            sum_of(super::shorthand_reading(a)->Ok_0, super::shorthand_reading(b)->Ok_0),
        ),
    ensures
        ({
            let sum = sum_of(super::shorthand_reading(a)->Ok_0, super::shorthand_reading(b)->Ok_0);
            &&& super::shorthand_reading(a + b) == Ok::<Span, Fault>(sum)
            &&& super::shorthand_reading(a + seq![','] + b) == Ok::<Span, Fault>(sum)
            &&& super::reading(a + b) == Ok::<Span, Fault>(sum)
            &&& super::reading(a + seq![','] + b) == Ok::<Span, Fault>(sum)
        }),
{
    let zero = Span { months: 0, nanos: 0 };
    let x = super::shorthand_reading(a)->Ok_0;
    let y = super::shorthand_reading(b)->Ok_0;
    let sum = sum_of(x, y);
    lemma_read_as_shorthand(a);
    lemma_read_as_shorthand(b);
    assert(sum.nanos <= u128::MAX) by {
        assert(sum.nanos < (sum.nanos / (SECOND as nat) + 1) * SECOND);
        assert(sum.nanos / (SECOND as nat) <= MOST_SECONDS);
    }
    lemma_text_adds(b, zero, x);
    assert(super::shorthand_sum(b, x) == Ok::<Span, Fault>(sum));
    let comma = seq![','] + b;
    assert(a + seq![','] + b =~= a + comma);
    lemma_sum_goes_on(a, b, b, zero);
    lemma_sum_goes_on(a, comma, b, zero);
    assert((a + b).last() == b.last());
    assert((a + comma).last() == b.last());
    lemma_sum_is_read(a + b, sum);
    lemma_sum_is_read(a + comma, sum);
}

proof fn lemma_sum_is_read(s: Seq<char>, sum: Span)
    requires
        ends_in_unit(s),
        super::shorthand_sum(s, Span { months: 0, nanos: 0 }) == Ok::<Span, Fault>(sum),
        super::is_duration(sum),
    ensures
        super::shorthand_reading(s) == Ok::<Span, Fault>(sum),
        super::reading(s) == Ok::<Span, Fault>(sum),
{
    assert(!super::is_numeral(s)) by {
        assert(s[s.len() - 1] == s.last());
    }
    lemma_read_as_shorthand(s);
}

/// The order of shorthand terms does not matter.
pub proof fn law_shorthand_ignores_order(a: Seq<char>, b: Seq<char>)
    requires
        ends_in_unit(a),
        ends_in_unit(b),
        starts_in_digit(a),
        starts_in_digit(b),
        super::shorthand_reading(a) is Ok,
        super::shorthand_reading(b) is Ok,
        super::is_duration(
            sum_of(super::shorthand_reading(a)->Ok_0, super::shorthand_reading(b)->Ok_0),
        ),
    ensures
        super::reading(a + b) == super::reading(b + a),
{
    let x = super::shorthand_reading(a)->Ok_0;
    let y = super::shorthand_reading(b)->Ok_0;
    assert(sum_of(x, y) == sum_of(y, x));
    law_shorthand_adds_up(a, b);
    law_shorthand_adds_up(b, a);
}

} // verus!
