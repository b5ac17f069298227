use std::time::Duration;

use regex::Regex;
use ultimattt_cli::duration::{parse_duration, try_parse_duration};
use ultimattt_cli::error::ArgError;

#[test]
fn test_parse_duration() {
    let tests: &[(&'static str, Option<Duration>)] = &[
        ("5s", Some(Duration::from_secs(5))),
        ("5m", Some(Duration::from_secs(60 * 5))),
        ("5m 8s", Some(Duration::from_secs(60 * 5 + 8))),
        (
            "2h3s 1ms",
            Some(Duration::from_secs(60 * 60 * 2 + 3) + Duration::from_millis(1)),
        ),
        ("5sec", None),
        ("5d", None),
        ("4h4s3m", None),
    ];
    for tc in tests {
        let got = parse_duration(tc.0).map(Duration::from_millis);
        match (got, tc.1) {
            (Err(..), None) => (),
            (Ok(s), None) => {
                panic!("parse({}): got {:?}, expected error", tc.0, s);
            }
            (Err(e), Some(d)) => {
                panic!("parse({}): got err({:?}), expected {:?}", tc.0, e, d);
            }
            (Ok(g), Some(d)) => {
                if g != d {
                    panic!("parse({}): got {:?}, expected {:?}", tc.0, g, d);
                }
            }
        }
    }
}

#[test]
fn duration_each_unit_alone() {
    assert_eq!(parse_duration("5h"), Ok(5 * 3_600_000));
    assert_eq!(parse_duration("5m"), Ok(5 * 60_000));
    assert_eq!(parse_duration("5s"), Ok(5 * 1_000));
    assert_eq!(parse_duration("5ms"), Ok(5));
    assert_eq!(parse_duration("0042s"), Ok(42_000));
}

#[test]
fn duration_all_groups() {
    assert_eq!(parse_duration("1h 2m 3s 4ms"), Ok(3_723_004));
    assert_eq!(parse_duration("1h2m3s4ms"), Ok(3_723_004));
    assert_eq!(parse_duration("1h\t2m\n3s 4ms  "), Ok(3_723_004));
    assert_eq!(parse_duration("10m 5ms"), Ok(600_005));
}

#[test]
fn duration_empty_text_is_zero() {
    assert_eq!(parse_duration(""), Ok(0));
}

#[test]
fn duration_refusals_name_the_text() {
    for bad in ["5", " 5s", "5m s", "5s5m", "5S", "h", "5 s", "5ms5s", "1h1h", "-5s", "5s\u{3000}x"] {
        assert_eq!(
            parse_duration(bad),
            Err(ArgError::BadDuration(bad.to_string())),
            "input {:?}",
            bad
        );
    }
}

#[test]
fn duration_unicode_space_after_group() {
    assert_eq!(parse_duration("5m\u{3000}8s"), Ok(308_000));
    assert_eq!(parse_duration("5m\u{a0}"), Ok(300_000));
}

#[test]
fn duration_limits() {
    assert_eq!(try_parse_duration("18446744073709551615ms"), Some(Ok(u64::MAX)));
    assert_eq!(try_parse_duration("18446744073709551616ms"), None);
    assert_eq!(try_parse_duration("18446744073709552s"), None);
    assert_eq!(try_parse_duration("18446744073709551s615ms"), Some(Ok(u64::MAX)));
    assert_eq!(try_parse_duration("99999999999999999999999h"), None);
    assert_eq!(
        try_parse_duration("99999999999999999999999"),
        Some(Err(ArgError::BadDuration("99999999999999999999999".to_string())))
    );
}

#[test]
fn duration_error_message() {
    let e = parse_duration("5d").unwrap_err();
    assert_eq!(e.message(), "Unable to parse duration: '5d'");
}

/// The duration syntax as a regular expression, read with the `regex` crate:
/// both readings must agree on every sample.
fn regex_duration(pat: &Regex, arg: &str) -> Option<u64> {
    let caps = pat.captures(arg)?;
    let mut secs: u64 = 0;
    let mut msecs: u64 = 0;
    if let Some(h) = caps.get(1) {
        secs += 60 * 60 * h.as_str().parse::<u64>().unwrap();
    }
    if let Some(m) = caps.get(2) {
        secs += 60 * m.as_str().parse::<u64>().unwrap();
    }
    if let Some(s) = caps.get(3) {
        secs += s.as_str().parse::<u64>().unwrap();
    }
    if let Some(ms) = caps.get(4) {
        msecs += ms.as_str().parse::<u64>().unwrap();
    }
    Some(1000 * secs + msecs)
}

#[test]
fn duration_agrees_with_regular_expression() {
    let pat =
        Regex::new(r"^(?:([0-9]+)h\s*)?(?:([0-9]+)m\s*)?(?:([0-9]+)s\s*)?(?:([0-9]+)ms\s*)?$")
            .unwrap();
    let pieces = ["", "1h", "2m", "3s", "4ms", " ", "5", "m", "s", "ms", "\u{2003}"];
    let mut count = 0;
    for a in pieces {
        for b in pieces {
            for c in pieces {
                for d in pieces {
                    let text = format!("{}{}{}{}", a, b, c, d);
                    let ours = parse_duration(&text).ok();
                    assert_eq!(ours, regex_duration(&pat, &text), "input {:?}", text);
                    count += 1;
                }
            }
        }
    }
    assert!(count > 0);
}
