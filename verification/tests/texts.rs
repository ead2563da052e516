use sdr::band_info::{name_channel, ChannelInfoIter, NamingConvention};
use sdr::double::{largest, smallest, Double};
use sdr::duration_ext::Span;
use sdr::format::{format_freq, format_time, FreqFormat, FreqUnit};
use sdr::format::{GIGA_BITS, KILO_BITS, MEGA_BITS, TERA_BITS};
use sdr::text::{contains_text, decimal_text, has_prefix, parse_from, signed_decimal_text};
use sdr::time::Timestamp;

fn double(value: f64) -> Double {
    Double::from_bits(value.to_bits())
}

/// A span of so many seconds, as floating point code gets it.
fn span_of_secs(secs: f64) -> chrono::TimeDelta {
    let whole = secs.div_euclid(1.0) as i64;
    let nanos = (secs.rem_euclid(1.0) * 1e9) as u32;
    let span = Span::from_parts(whole, nanos);
    chrono::TimeDelta::new(span.secs, span.nanos).unwrap()
}

#[test]
fn test_from_secs_f64_positive() {
    let duration = span_of_secs(1.5);
    assert_eq!(duration.as_seconds_f64(), 1.5);
}

#[test]
fn test_from_secs_f64_negative() {
    let duration = span_of_secs(-1.5);
    assert_eq!(duration.as_seconds_f64(), -1.5);
}

#[test]
fn test_from_secs_f64_zero() {
    let duration = span_of_secs(0.0);
    assert_eq!(duration.as_seconds_f64(), 0.0);
}

#[test]
fn test_from_secs_f32_positive() {
    let duration = span_of_secs(1.5f32 as f64);
    assert!((duration.as_seconds_f32() - 1.5).abs() < 1e-6);
}

#[test]
fn test_from_secs_f32_negative() {
    let duration = span_of_secs(-1.5f32 as f64);
    assert!((duration.as_seconds_f32() - (-1.5)).abs() < 1e-6);
}

#[test]
fn spans_that_are_too_long_are_none_at_all() {
    let nothing = Span { secs: 0, nanos: 0 };
    assert_eq!(Span::from_parts(i64::MAX, 0), nothing);
    assert_eq!(Span::from_parts(3, 1_000_000_000), nothing);
    assert_eq!(
        Span::from_parts(9_223_372_036_854_775, 807_000_000),
        Span {
            secs: 9_223_372_036_854_775,
            nanos: 807_000_000
        }
    );
    assert_eq!(Span::from_parts(9_223_372_036_854_775, 807_000_001), nothing);
    assert_eq!(
        Span::from_parts(-9_223_372_036_854_776, 193_000_000),
        Span {
            secs: -9_223_372_036_854_776,
            nanos: 193_000_000
        }
    );
    assert_eq!(Span::from_parts(-9_223_372_036_854_776, 192_999_999), nothing);
}

#[test]
fn whole_seconds_are_rounded_towards_zero() {
    assert_eq!(Span::from_parts(3, 999_999_999).num_seconds(), 3);
    assert_eq!(Span::from_parts(-3, 0).num_seconds(), -3);
    assert_eq!(Span::from_parts(-3, 1).num_seconds(), -2);
    assert_eq!(Span::from_parts(-1, 1).num_seconds(), 0);
}

#[test]
fn spans_between_times() {
    let early = Timestamp {
        secs: 10,
        nanos: 900_000_000,
    };
    let late = Timestamp {
        secs: 12,
        nanos: 100_000_000,
    };
    assert_eq!(
        Span::between(early, late),
        Some(Span {
            secs: 1,
            nanos: 200_000_000
        })
    );
    assert_eq!(
        Span::between(late, early),
        Some(Span {
            secs: -2,
            nanos: 800_000_000
        })
    );
    let first = Timestamp {
        secs: i64::MIN,
        nanos: 0,
    };
    assert_eq!(Span::between(first, late), None);
}

#[test]
fn times_are_ordered() {
    let early = Timestamp { secs: 1, nanos: 5 };
    let late = Timestamp { secs: 2, nanos: 0 };
    assert!(early.lt(late));
    assert!(!late.lt(early));
    assert!(!early.lt(early));
    assert_eq!(early.max(late), late);
    assert_eq!(late.max(early), late);
}

#[test]
fn numbers_compare_as_floating_point_numbers() {
    let values = [
        f64::NEG_INFINITY,
        -1.5,
        -1.0,
        -f64::MIN_POSITIVE,
        -0.0,
        0.0,
        5e-324,
        1.0,
        1.5,
        f64::MAX,
        f64::INFINITY,
        f64::NAN,
    ];
    for a in values {
        assert_eq!(double(a).nan(), a.is_nan());
        assert_eq!(double(a).to_bits(), a.to_bits());
        for b in values {
            assert_eq!(double(a).lt(double(b)), a < b);
            assert_eq!(double(a).le(double(b)), a <= b);
            assert_eq!(double(a).eq(double(b)), a == b);
        }
    }
}

#[test]
fn smallest_and_largest_numbers() {
    let numbers = vec![double(3.), double(-1.), double(2.)];
    assert_eq!(smallest(&numbers).unwrap().to_bits(), (-1f64).to_bits());
    assert_eq!(largest(&numbers).unwrap().to_bits(), 3f64.to_bits());
    assert!(smallest(&vec![]).is_none());
    assert!(largest(&vec![]).is_none());
}

#[test]
fn units_of_frequencies() {
    assert_eq!(KILO_BITS, 1e3f64.to_bits());
    assert_eq!(MEGA_BITS, 1e6f64.to_bits());
    assert_eq!(GIGA_BITS, 1e9f64.to_bits());
    assert_eq!(TERA_BITS, 1e12f64.to_bits());
    let cases = [
        (0., 0, FreqUnit::Hz, 0),
        (999., -1, FreqUnit::Hz, 1),
        (1000., 0, FreqUnit::KHz, 3),
        (100.7e6, 3, FreqUnit::MHz, 3),
        (100.7e6, 7, FreqUnit::MHz, 0),
        (2.4e9, 6, FreqUnit::GHz, 3),
    ];
    for (freq, precision, unit, digits) in cases {
        assert_eq!(
            format_freq(double(freq), precision),
            Some(FreqFormat { unit, digits })
        );
    }
    assert_eq!(format_freq(double(-1.), 0), None);
    assert_eq!(format_freq(double(1e12), 0), None);
    assert_eq!(format_freq(double(f64::NAN), 0), None);
    assert_eq!(format_time(-3), 3);
    assert_eq!(format_time(0), 0);
    assert_eq!(format_time(2), 0);
}

#[test]
fn channels_are_numbered_from_one_on() {
    let mut iter = ChannelInfoIter::new(2);
    let mut names = vec![];
    while let Some(index) = iter.next() {
        names.push(name_channel("Marine", NamingConvention::Number, index, "x"));
    }
    assert_eq!(names, vec!["Marine 1", "Marine 2"]);
    assert_eq!(iter.next(), None);
    assert_eq!(
        name_channel("FM", NamingConvention::Frequency(5), 7, "88.1 MHz"),
        "FM 88.1 MHz"
    );
}

#[test]
fn numbers_are_written_and_read() {
    for number in [0, 7, 10, 1234567890, usize::MAX] {
        let text = decimal_text(number as u64);
        assert_eq!(text, number.to_string());
        assert_eq!(parse_from(&text, 0), Some(number));
    }
    for number in [0, -1, isize::MIN, isize::MAX] {
        assert_eq!(signed_decimal_text(number), number.to_string());
    }
    for text in ["", "+", "-1", "1 ", "+12", "007", "18446744073709551616", "+-3", "9x"] {
        assert_eq!(parse_from(text, 0), text.parse::<usize>().ok());
    }
    assert_eq!(parse_from("Clip 42", 5), Some(42));
    assert!(has_prefix("Clip 42", "Clip "));
    assert!(!has_prefix("Cl", "Clip "));
    assert!(contains_text("Weather Radio", "er R"));
    assert!(contains_text("Weather", ""));
    assert!(!contains_text("Weather", "weather"));
}
