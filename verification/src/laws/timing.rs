//! The calendar, when facts fall due, and how times are told.

use crate::duration::{HalfLife, Span};
use crate::schema::Fact;
use crate::time::Timestamp;
use vstd::prelude::*;

verus! {

// ---------------------------------------------------------------------------
// The calendar
// ---------------------------------------------------------------------------

/// How many days a month has.
pub open spec fn length_of(year: int, month: int) -> int {
    if month == 2 {
        if (year % 4 == 0 && year % 100 != 0) || year % 400 == 0 {
            29
        } else {
            28
        }
    } else if month == 1 || month == 3 || month == 5 || month == 7 || month == 8 || month == 10
        || month == 12 {
        31
    } else {
        30
    }
}

/// The day behind a day.
pub open spec fn next_day(year: int, month: int, day: int) -> (int, int, int) {
    if day < length_of(year, month) {
        (year, month, day + 1)
    } else if month < 12 {
        (year, month + 1, 1)
    } else {
        (year + 1, 1, 1)
    }
}

/// Days are counted one by one through the calendar, so that the first of January 1970
/// is the day on which seconds are counted from.
pub proof fn law_days_follow_one_another(year: int, month: int, day: int)
    requires
        1 <= month <= 12,
        1 <= day <= length_of(year, month),
    ensures
        crate::time::is_date(year, month, day),
        ({
            let (y, m, d) = next_day(year, month, day);
            crate::time::day_number(y, m, d) == crate::time::day_number(year, month, day) + 1
        }),
        crate::time::day_number(1970, 1, 1) == crate::time::EPOCH_DAY,
        crate::time::day_number(1, 1, 1) == 1,
{
    crate::time::lemma_year_length(year);
    assert(crate::time::days_before_month(year, 13) == crate::time::days_before_month(year, 12)
        + crate::time::month_days(year, 12));
}

/// An instant lies on the day that its seconds fall in.
pub proof fn law_instants_lie_on_days(t: Timestamp)
    ensures
        (t.day() - crate::time::EPOCH_DAY) * 86_400 <= t.secs < (t.day() - crate::time::EPOCH_DAY
            + 1) * 86_400,
{
}

/// The day that lies some calendar months behind another: the same day of the month, or
/// the last day of it where it is shorter.
pub open spec fn is_months_later(
    from: (int, int, int),
    months: nat,
    to: (int, int, int),
) -> bool {
    &&& 1 <= to.1 <= 12
    &&& to.0 * 12 + to.1 == from.0 * 12 + from.1 + months
    &&& if from.2 <= length_of(to.0, to.1) {
        to.2 == from.2
    } else {
        to.2 == length_of(to.0, to.1)
    }
}

/// A span without calendar months takes its nanoseconds, from whichever instant. Calendar
/// months take the days from one date to the one so many months later, of which each has
/// its full length.
pub proof fn law_spans_take_time(
    span: Span,
    start: Timestamp,
    from: (int, int, int),
    to: (int, int, int),
)
    requires
        crate::time::is_date(from.0, from.1, from.2),
        crate::time::day_number(from.0, from.1, from.2) == start.day(),
        is_months_later(from, span.months, to),
    ensures
        crate::duration::elapsed_nanos(span, start) == span.nanos + (crate::time::day_number(
            to.0,
            to.1,
            to.2,
        ) - start.day()) * 86_400_000_000_000,
        span.months == 0 ==> crate::duration::elapsed_nanos(span, start) == span.nanos,
{
    let months = span.months as int;
    crate::time::lemma_date_of(from.0, from.1, from.2);
    let total = from.0 * 12 + from.1 - 1 + months;
    assert(total == to.0 * 12 + (to.1 - 1));
    assert(total / 12 == to.0 && total % 12 == to.1 - 1);
    if months == 0 {
        assert(to == from);
    }
}

// ---------------------------------------------------------------------------
// Falling due
// ---------------------------------------------------------------------------

/// A fact that never goes stale never falls due. One with a half-life of nanoseconds
/// falls due when they have passed since it was last verified, and not before. What is
/// due stays due.
pub proof fn law_facts_fall_due(fact: Fact, now: Timestamp, later: Timestamp)
    requires
        later.total() >= now.total(),
    ensures
        fact.schedule.half_life is Never ==> !crate::cli::has_fallen_due(fact, now),
        crate::cli::has_fallen_due(fact, now) ==> crate::cli::has_fallen_due(fact, later),
        fact.schedule.half_life matches HalfLife::After(d) && d@.months == 0 && (exists|
            y: int,
            m: int,
            day: int,
        |
            crate::time::is_date(y, m, day) && #[trigger] crate::time::day_number(y, m, day)
                == fact.schedule.last_verified.day()) ==> (crate::cli::has_fallen_due(fact, now)
            <==> now.total() - fact.schedule.last_verified.total() >= fact.schedule.half_life->After_0@.nanos),
{
    if let HalfLife::After(d) = fact.schedule.half_life {
        let start = fact.schedule.last_verified;
        if d@.months == 0 && exists|y: int, m: int, day: int|
            crate::time::is_date(y, m, day) && #[trigger] crate::time::day_number(y, m, day)
                == start.day() {
            let (y, m, day) = choose|y: int, m: int, day: int|
                crate::time::is_date(y, m, day) && #[trigger] crate::time::day_number(y, m, day)
                    == start.day();
            law_spans_take_time(d@, start, (y, m, day), (y, m, day));
        }
    }
}

/// When a fact falls due is the first instant at which it is due.
pub proof fn law_due_time_is_the_first(r: Option<Timestamp>, fact: Fact, now: Timestamp)
    requires
        crate::cli::is_due_time(r, fact),
        now.wf(),
    ensures
        r matches Some(moment) ==> (crate::cli::has_fallen_due(fact, now) <==> now.total()
            >= moment.total()),
        r is None ==> !crate::cli::has_fallen_due(fact, now),
{
    if let HalfLife::After(d) = fact.schedule.half_life {
        assert(now.total() < (crate::time::LAST_SECOND + 1) * crate::time::NANOS);
    }
}

// ---------------------------------------------------------------------------
// Telling times
// ---------------------------------------------------------------------------

/// A count of whole units, as a person is told it.
pub open spec fn told(n: nat, unit: char) -> Seq<char> {
    crate::text::digits_of(n) + seq![unit]
}

/// Seconds are told up to a minute and a half, minutes up to an hour and a half, hours up
/// to two days, and days from there on; what is left over is dropped.
pub proof fn law_times_are_told_in_fitting_units(secs: int, n: nat)
    requires
        secs >= 0,
    ensures
        secs < 90 && n == secs ==> crate::cli::human(secs) == told(n, 's'),
        90 <= secs < 90 * 60 && n * 60 <= secs < (n + 1) * 60 ==> crate::cli::human(secs) == told(
            n,
            'm',
        ),
        90 * 60 <= secs < 48 * 3600 && n * 3600 <= secs < (n + 1) * 3600 ==> crate::cli::human(secs)
            == told(n, 'h'),
        48 * 3600 <= secs && n * 86_400 <= secs < (n + 1) * 86_400 ==> crate::cli::human(secs)
            == told(n, 'd'),
{
    reveal_strlit("s");
    reveal_strlit("m");
    reveal_strlit("h");
    reveal_strlit("d");
    assert("s"@ =~= seq!['s']);
    assert("m"@ =~= seq!['m']);
    assert("h"@ =~= seq!['h']);
    assert("d"@ =~= seq!['d']);
}

/// Whole seconds from one instant to another: none where the other is not later.
pub proof fn law_seconds_are_whole(from: Timestamp, to: Timestamp)
    ensures
        to.total() <= from.total() ==> crate::cli::seconds_until(from, to) == 0,
        to.total() > from.total() ==> crate::cli::seconds_until(from, to) * 1_000_000_000
            <= to.total() - from.total() < (crate::cli::seconds_until(from, to) + 1)
            * 1_000_000_000,
{
}

/// The daemon waits as long as it is told to, and a second at least.
pub proof fn law_waits_last_a_second(nanos: nat)
    ensures
        nanos >= 1_000_000_000 ==> crate::cli::least(nanos) == nanos,
        nanos < 1_000_000_000 ==> crate::cli::least(nanos) == 1_000_000_000,
{
}

/// A half-life is never over where the text says so in any case, with white space around
/// it or without; no other text says so.
pub proof fn law_never_is_read_in_any_case(a: Seq<char>, s: Seq<char>, b: Seq<char>)
    requires
        super::text::is_blank(a),
        super::text::is_blank(b),
        super::text::is_tight(s),
    ensures
        HalfLife::is_never(a + s + b) <==> super::text::same_letters(s, "never"@),
{
    reveal_strlit("never");
    super::text::lemma_trim_around(a, s, b);
    super::text::lemma_trim_tight(s);
    super::text::law_small_letters(s, "never"@);
    assert(crate::text::small_text("never"@) =~= "never"@);
}

/// Instants come one after another by their nanoseconds.
pub proof fn law_later_instants(a: Timestamp, b: Timestamp)
    requires
        a.wf(),
        b.wf(),
    ensures
        a.later_than(&b) <==> a.total() > b.total(),
        a.total() == b.total() ==> a == b,
{
}

} // verus!
