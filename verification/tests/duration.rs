//! Durations and half-lives.

use chrono::{DateTime, Months, TimeZone, Utc};
use jishuken::duration::{Duration, Fault, FixedDuration, HalfLife, Parts};
use jishuken::time::{Elapsed, Timestamp, FIRST_SECOND, LAST_SECOND};

fn stamp(t: DateTime<Utc>) -> Timestamp {
    Timestamp {
        secs: t.timestamp(),
        nanos: t.timestamp_subsec_nanos(),
    }
}

fn date(input: &str) -> Timestamp {
    stamp(input.parse::<DateTime<Utc>>().unwrap())
}

fn of(months: u32, nanos: u128) -> Duration {
    Parts { months, nanos }.finish().unwrap()
}

#[test]
fn iso_examples_from_temporal() {
    let start = date("2024-01-01T00:00:00Z");
    for (input, end) in [
        ("P1Y1M1DT1H1M1.1S", "2025-02-02T01:01:01.1Z"),
        ("P40D", "2024-02-10T00:00:00Z"),
        ("P1Y1D", "2025-01-02T00:00:00Z"),
        ("P3DT4H59M", "2024-01-04T04:59:00Z"),
        ("PT2H30M", "2024-01-01T02:30:00Z"),
        ("P1M", "2024-02-01T00:00:00Z"),
        ("PT1M", "2024-01-01T00:01:00Z"),
        ("PT0.0021S", "2024-01-01T00:00:00.0021Z"),
        (
            "P1Y2M3W4DT5H6M7.987654321S",
            "2025-03-26T05:06:07.987654321Z",
        ),
    ] {
        assert_eq!(
            input.parse::<Duration>().unwrap().deadline(start),
            Some(date(end)),
            "{input}"
        );
    }
}

#[test]
fn iso_extensions_and_leniency() {
    for (input, equivalent) in [
        ("P3W1D", "P22D"),
        ("P1W2DT3H", "P9DT3H"),
        ("+P1M", "P1M"),
        (" \t+pt1h30m\n", "PT90M"),
        ("PT1,5H", "PT1H30M"),
        ("PT1.5M", "PT90S"),
        ("PT0.000000001H", "PT0.0000036S"),
        ("PT0,000000001M", "PT0.00000006S"),
        ("P0001DT0002H", "P1DT2H"),
        ("P0Y0M0W0DT0H0M1S", "PT1S"),
        ("PT100H100M100S", "P4DT5H41M40S"),
    ] {
        assert_eq!(
            input.parse::<Duration>(),
            equivalent.parse::<Duration>(),
            "{input}"
        );
        assert!(input.parse::<Duration>().is_ok(), "{input}");
    }
}

#[test]
fn shorthand_units_and_compounds() {
    for (input, iso) in [
        ("15m", "PT15M"),
        ("2w", "P14D"),
        ("90d", "P90D"),
        ("1h30m", "PT1H30M"),
        ("1h,30m", "PT1H30M"),
        ("1 hour, 30 minutes", "PT1H30M"),
        ("1 hour 30 minutes", "PT1H30M"),
        ("1 YEAR 2 months 3 weeks 4 days", "P1Y2M25D"),
        ("1yr 2mos 3wks 4d 5hrs 6mins 7secs", "P1Y2M25DT5H6M7S"),
        ("1y 1mo", "P1Y1M"),
        ("1m", "PT1M"),
        ("1.5d", "P1DT12H"),
        (".5w", "P3DT12H"),
        ("+ 2 h", "PT2H"),
        ("  +2 h \t30 min  ", "PT2H30M"),
        ("1,5 seconds", "PT1.5S"),
        ("1ms", "PT0.001S"),
        ("1 microsecond", "PT0.000001S"),
        ("1us 2µs 3μs", "PT0.000006S"),
        ("1ns", "PT0.000000001S"),
        ("0.1ms", "PT0.0001S"),
        ("1 nanosecond", "PT0.000000001S"),
        (
            "1 millisecond 2 microseconds 3 nanoseconds",
            "PT0.001002003S",
        ),
        ("60", "PT1M"),
        ("0.5", "PT0.5S"),
    ] {
        assert_eq!(
            input.parse::<Duration>().unwrap(),
            iso.parse::<Duration>().unwrap(),
            "{input}"
        );
    }
}

#[test]
fn rejects_invalid_iso_syntax() {
    for input in [
        "",
        " ",
        "P",
        "PT",
        "P1DT",
        "P1D1H",
        "P1H",
        "P1S",
        "P1MT",
        "P1D1Y",
        "P1M1Y",
        "P1W1M",
        "P1D1W",
        "PT1S1M",
        "PT1M1H",
        "P1Y1Y",
        "P1M1M",
        "P1W1W",
        "P1D1D",
        "PT1H1H",
        "PT1M1M",
        "PT1S1S",
        "P1DTT1H",
        "PTT1H",
        "P1Q",
        "PT1MS",
        "P1D trailing",
        "PT1S!",
        "P 1D",
        "P1 D",
        "PT1H 30M",
        "P1.5Y",
        "P1.5M",
        "P1.5W",
        "P1.5D",
        "PT.5S",
        "PT1.S",
        "PT1,S",
        "PT1.5.5S",
        "PT1,5.5S",
        "PT1e3S",
        "PT1.5H1M",
        "PT1.5H0S",
        "PT1.0M0S",
        "PT1M1.5H",
        "PT1.1234567890S",
        "P2024-01-01",
        "P0001-02-03T04:05:06",
        "Ｐ１Ｄ",
        "P١D",
        "PTNaNS",
    ] {
        assert!(input.parse::<Duration>().is_err(), "accepted {input:?}");
    }
}

#[test]
fn rejects_invalid_shorthand_and_nonpositive_values() {
    for input in [
        "0",
        "0d",
        "PT0S",
        "P0Y0M0W0DT0H0M0S",
        "0h 0m",
        "+P0D",
        "-P1D",
        "−P1D",
        "-1h",
        "PT-1H",
        "PT+1H",
        "1h-30m",
        "1h +30m",
        "--1s",
        "++1s",
        "NaN",
        "NaNs",
        "inf",
        "infinity",
        "∞",
        "1e3s",
        "1 fortnight",
        "one day",
        "1month2",
        "1h and 30m",
        "1h,",
        "1h junk",
        "1.5months",
        "0.5yr",
        "0.1ns",
        "0.0001us",
        "0.0000000001s",
        "never",
        "immutable",
        "days",
        "hours",
        "slow",
        "1s\0",
        "1,2,3s",
    ] {
        assert!(input.parse::<Duration>().is_err(), "accepted {input:?}");
    }
}

#[test]
fn checked_arithmetic_rejects_overflow() {
    for input in [
        "P4294967296M",
        "P4294967295Y",
        "P357913941Y4M",
        "PT18446744073709551615S",
        "9999999999999999999999999999999999999999999999ns",
        "340282366920938463463374607431768211455h",
        "9223372036854775s 1s",
    ] {
        assert!(input.parse::<Duration>().is_err(), "accepted {input:?}");
    }
}

#[test]
fn calendar_arithmetic_handles_leap_years_and_month_ends() {
    for (start, duration, end) in [
        ("2024-01-31T12:00:00Z", "P1M", "2024-02-29T12:00:00Z"),
        ("2023-01-31T12:00:00Z", "P1M", "2023-02-28T12:00:00Z"),
        ("2024-02-29T12:00:00Z", "P1Y", "2025-02-28T12:00:00Z"),
        ("2024-02-29T12:00:00Z", "P1Y1M", "2025-03-29T12:00:00Z"),
        ("2023-12-31T23:00:00Z", "P2M1DT2H", "2024-03-02T01:00:00Z"),
        ("1999-03-01T00:00:00Z", "P1Y", "2000-03-01T00:00:00Z"),
        ("2099-03-01T00:00:00Z", "P1Y", "2100-03-01T00:00:00Z"),
        ("2024-02-29T00:00:00Z", "P400Y", "2424-02-29T00:00:00Z"),
        ("2024-01-31T00:00:00Z", "P400Y1M", "2424-02-29T00:00:00Z"),
    ] {
        assert_eq!(
            duration.parse::<Duration>().unwrap().deadline(date(start)),
            Some(date(end)),
            "{start} + {duration}"
        );
    }
}

#[test]
fn nanoseconds_are_not_rounded_through_floating_point() {
    let duration: Duration = "PT16777217.123456789S".parse().unwrap();
    assert_eq!(
        duration.fixed().unwrap(),
        Elapsed { secs: 16_777_217, nanos: 123_456_789 }
    );
    assert_eq!(
        "PT0.000000001S"
            .parse::<Duration>()
            .unwrap()
            .fixed()
            .unwrap(),
        Elapsed { secs: 0, nanos: 1 }
    );
}

#[test]
fn calendar_resolution_matches_chrono_across_gregorian_cycle() {
    for year in 1800..=2200 {
        for month in 1..=12 {
            let start = Utc.with_ymd_and_hms(year, month, 28, 12, 34, 56).unwrap();
            for months in [1, 2, 11, 12, 13, 4799, 4800, 4801, 9601] {
                let duration = of(months, 0);
                let expected = start.checked_add_months(Months::new(months)).unwrap();
                assert_eq!(duration.deadline(stamp(start)), Some(stamp(expected)));
            }
        }
    }
}

#[test]
fn huge_calendar_durations_and_date_boundaries_do_not_panic() {
    for input in ["P4294967295M", "P357913941Y", "PT9223372036854775S"] {
        let duration: Duration = input.parse().unwrap();
        let start = date("2024-01-01T00:00:00Z");
        assert!(duration.at(start).secs > 0);
        assert!(duration.deadline(start).is_none());
    }
    let month: Duration = "P1M".parse().unwrap();
    assert!(month.deadline(stamp(DateTime::<Utc>::MAX_UTC)).is_none());
    assert!(month.deadline(stamp(DateTime::<Utc>::MIN_UTC)).is_some());
}

#[test]
fn canonical_output_and_serde_roundtrip() {
    for (input, canonical) in [
        ("2w", "P14D"),
        ("12mo", "P1Y"),
        ("25mo", "P2Y1M"),
        ("1h30m", "PT1H30M"),
        ("24h", "P1D"),
        ("61s", "PT1M1S"),
        ("1ms", "PT0.001S"),
        ("1ns", "PT0.000000001S"),
        ("P1Y2M3W4DT5H6M7.987654321S", "P1Y2M25DT5H6M7.987654321S"),
    ] {
        let duration: Duration = input.parse().unwrap();
        assert_eq!(duration.to_string(), canonical);
        assert_eq!(canonical.parse::<Duration>().unwrap(), duration);
        let json = serde_json::to_string(&duration.to_string()).unwrap();
        let text: String = serde_json::from_str(&json).unwrap();
        assert_eq!(text.parse::<Duration>().unwrap(), duration);
    }
    for nanos in [1, 9, 10, 100, 999, 1_000, 123_456_789, 999_999_999] {
        for seconds in [0, 1, 59, 60, 3600, 86_400, 16_777_217] {
            let duration = of(25, seconds * 1_000_000_000 + nanos);
            assert_eq!(duration.to_string().parse::<Duration>().unwrap(), duration);
        }
    }
}

#[test]
fn never_is_explicit_and_independent_of_duration_parsing() {
    for input in ["never", "NEVER", " never "] {
        let half_life: HalfLife = input.parse().unwrap();
        assert_eq!(half_life, HalfLife::Never);
        assert_eq!(half_life.to_string(), "never");
        assert_eq!(half_life.elapsed_at(stamp(Utc::now())), None);
        assert_eq!(half_life.deadline(stamp(Utc::now())), None);
        let text: String = serde_json::from_str("\"never\"").unwrap();
        assert_eq!(text.parse::<HalfLife>().unwrap(), half_life);
    }
    for input in ["0s", "nonsense", "immutable", "-P1D"] {
        assert!(input.parse::<HalfLife>().is_err());
        let text: String = serde_json::from_str(&format!("{input:?}")).unwrap();
        assert!(text.parse::<HalfLife>().is_err());
    }
    assert_eq!(HalfLife::default().to_string(), "P3D");
}

#[test]
fn elapsed_durations_reject_unanchored_calendar_units() {
    for input in ["P1M", "P1Y", "P1Y2DT3H", "never", "0s"] {
        assert!(input.parse::<FixedDuration>().is_err(), "{input}");
    }
    for input in ["P1W", "7d", "PT168H"] {
        assert_eq!(
            input.parse::<FixedDuration>().unwrap().elapsed(),
            Elapsed { secs: 604_800, nanos: 0 }
        );
    }
}

#[test]
fn calendar_half_life_reanchors_after_verification() {
    let half_life: HalfLife = "P1M".parse().unwrap();
    for (start, end, days) in [
        ("2024-01-31T00:00:00Z", "2024-02-29T00:00:00Z", 29),
        ("2024-02-29T00:00:00Z", "2024-03-29T00:00:00Z", 29),
        ("2023-01-31T00:00:00Z", "2023-02-28T00:00:00Z", 28),
        ("2024-03-01T00:00:00Z", "2024-04-01T00:00:00Z", 31),
    ] {
        assert_eq!(
            half_life.elapsed_at(date(start)),
            Some(Elapsed { secs: days * 86_400, nanos: 0 })
        );
        assert_eq!(half_life.deadline(date(start)), Some(date(end)));
    }
}

#[test]
fn the_first_and_last_second_are_those_of_the_calendar() {
    assert_eq!(DateTime::<Utc>::MIN_UTC.timestamp(), FIRST_SECOND);
    assert_eq!(DateTime::<Utc>::MAX_UTC.timestamp(), LAST_SECOND);
    assert!(stamp(DateTime::<Utc>::MIN_UTC).valid());
    assert!(stamp(DateTime::<Utc>::MAX_UTC).valid());
    assert!(!Timestamp { secs: LAST_SECOND + 1, nanos: 0 }.valid());
}

#[test]
fn each_fault_has_an_input() {
    for (input, fault) in [
        ("1 fortnight", Fault::Syntax),
        ("340282366920938463463374607431768211455h", Fault::Range),
        ("0s", Fault::Positive),
        ("0.1ns", Fault::Precision),
        ("1.5months", Fault::CalendarNumber),
        ("PT1.5H1M", Fault::EarlyFraction),
    ] {
        assert_eq!(input.parse::<Duration>().unwrap_err().0, fault, "{input}");
    }
    let error = "P1M".parse::<FixedDuration>().unwrap_err();
    assert_eq!(error.0, Fault::Unanchored);
    assert_eq!(
        error.to_string(),
        "years and months require a reference date; use days or smaller units here"
    );
}

#[test]
fn a_canonical_text_reads_back() {
    for input in ["1y 2mo 3d 4h 5m 6.000000007s", "P400Y", "PT0.000000001S", "never"] {
        let half_life: HalfLife = input.parse().unwrap();
        assert_eq!(half_life.to_string().parse::<HalfLife>().unwrap(), half_life);
    }
}

#[test]
fn shorthand_texts_put_together_add_up() {
    for (a, b, sum) in [
        ("1d", "2h", "P1DT2H"),
        ("2h", "1d", "P1DT2H"),
        ("1.5h", "30m", "PT2H"),
        ("1y2mo", "3months", "P1Y5M"),
        ("500ms", "500ms", "PT1S"),
    ] {
        let sum = Duration::parse(sum).unwrap();
        assert_eq!(Duration::parse(&format!("{a}{b}")).unwrap(), sum, "{a} {b}");
        assert_eq!(Duration::parse(&format!("{a},{b}")).unwrap(), sum, "{a} {b}");
    }
}

#[test]
fn letters_count_in_any_case_and_only_ascii_digits_are_numbers() {
    let second = Duration::parse("PT1S").unwrap();
    assert_eq!(Duration::parse("pt1s").unwrap(), second);
    assert_eq!(Duration::parse("PT1\u{17f}").unwrap(), second);
    assert_eq!(Duration::human("1s").unwrap(), second);
    let fault = |text: &str| Duration::parse(text).unwrap_err().0;
    // Digits of other scripts are told from letters, and then are no numbers.
    assert_eq!(fault("PT\u{ff11}S"), Fault::Range);
    assert_eq!(fault("P\u{ff11}M"), Fault::CalendarNumber);
    assert_eq!(fault("PT1.\u{ff11}S"), Fault::Syntax);
    assert_eq!(fault("PT1.\u{ff11}\u{ff11}\u{ff11}\u{ff11}S"), Fault::Precision);
    assert_eq!(fault("PT\u{b2}S"), Fault::Syntax);
    for text in ["1\u{17f}", "0.1234567891m\u{17f}", "1\u{212a}", "1\u{39c}s"] {
        assert_eq!(fault(text), Fault::Syntax, "{text}");
    }
    assert_eq!(fault("0.1234567891ms"), Fault::Precision);
}
