use idler::human::{spinner_char, HumanDuration};
use idler::parse::{parse_duration, ParseDurationError};

const DAY: u64 = 60 * 60 * 24;
const HOUR: u64 = 60 * 60;
const MINUTE: u64 = 60;

#[test]
fn parses_durations() {
    assert_eq!(parse_duration(""), Ok(0));
    assert_eq!(parse_duration("1h"), Ok(HOUR));
    assert_eq!(parse_duration("1h20m"), Ok(HOUR + MINUTE * 20));
    assert_eq!(parse_duration("1h20m4d"), Ok(DAY * 4 + HOUR + MINUTE * 20));
    assert_eq!(
        // one more second than u64 can hold
        parse_duration("18446744073709551616s"),
        Ok(u64::MAX)
    );

    assert!(parse_duration("asdf").is_err());
    assert!(parse_duration("365dm").is_err());
}

#[test]
fn reports_exact_errors() {
    assert_eq!(parse_duration("asdf"), Err(ParseDurationError::Unexpected('a')));
    assert_eq!(parse_duration("365dm"), Err(ParseDurationError::Valueless('m')));
    assert_eq!(parse_duration("h"), Err(ParseDurationError::Valueless('h')));
    assert_eq!(parse_duration("1H"), Err(ParseDurationError::Unexpected('H')));
    assert_eq!(parse_duration(" 1h"), Err(ParseDurationError::Unexpected(' ')));
    assert_eq!(parse_duration("1h 20m"), Err(ParseDurationError::Unexpected(' ')));
}

#[test]
fn ignores_trailing_digits() {
    assert_eq!(parse_duration("20"), Ok(0));
    assert_eq!(parse_duration("1h30"), Ok(HOUR));
}

#[test]
fn token_order_does_not_matter() {
    assert_eq!(parse_duration("1h1d"), parse_duration("1d1h"));
    assert_eq!(parse_duration("4d20m1h"), Ok(DAY * 4 + HOUR + MINUTE * 20));
}

#[test]
fn repeated_units_accumulate() {
    assert_eq!(parse_duration("1h1h"), parse_duration("2h"));
    assert_eq!(parse_duration("30m30m30m"), Ok(MINUTE * 90));
}

#[test]
fn saturates_instead_of_overflowing() {
    assert_eq!(parse_duration("18446744073709551616d"), Ok(u64::MAX));
    // the numeral fits in u64, but scaling it to seconds does not
    assert_eq!(parse_duration("213503982334602d"), Ok(u64::MAX));
    // one saturated token pins the total regardless of later ones
    assert_eq!(parse_duration("18446744073709551615s1s"), Ok(u64::MAX));
}

#[test]
fn decomposes_seconds() {
    assert_eq!(
        HumanDuration::from_secs(0),
        HumanDuration { days: 0, hours: 0, minutes: 0, seconds: 0 }
    );
    assert_eq!(
        HumanDuration::from_secs(DAY + HOUR + MINUTE + 1),
        HumanDuration { days: 1, hours: 1, minutes: 1, seconds: 1 }
    );
    assert_eq!(
        HumanDuration::from_secs(DAY * 2 + 59),
        HumanDuration { days: 2, hours: 0, minutes: 0, seconds: 59 }
    );
}

#[test]
fn decomposition_recombines_exactly() {
    for secs in [0, 1, 59, 60, 3599, 3600, 86399, 86400, 123_456_789, u64::MAX] {
        let h = HumanDuration::from_secs(secs);
        let total = h.days as u128 * 86400
            + h.hours as u128 * 3600
            + h.minutes as u128 * 60
            + h.seconds as u128;
        assert_eq!(total, secs as u128);
        assert!(h.hours < 24 && h.minutes < 60 && h.seconds < 60);
    }
}

#[test]
fn formats_canonically() {
    assert_eq!(HumanDuration::from_secs(0).format(), "0s");
    assert_eq!(HumanDuration::from_secs(HOUR).format(), "1h");
    assert_eq!(HumanDuration::from_secs(DAY + MINUTE * 20).format(), "1d20m");
    assert_eq!(
        HumanDuration::from_secs(DAY * 4 + HOUR + MINUTE * 20 + 5).format(),
        "4d1h20m5s"
    );
    assert_eq!(HumanDuration::from_secs(61).format(), "1m1s");
}

#[test]
fn format_then_parse_round_trips() {
    for secs in [
        0,
        1,
        59,
        60,
        61,
        3599,
        3600,
        3661,
        86399,
        86400,
        86401,
        123_456_789,
        u64::MAX - 1,
        u64::MAX,
    ] {
        let rendered = HumanDuration::from_secs(secs).format();
        assert_eq!(parse_duration(&rendered), Ok(secs), "via {rendered:?}");
    }
}

#[test]
fn error_messages_name_the_character() {
    assert_eq!(
        ParseDurationError::Unexpected('a').message(),
        "unexpected character 'a'"
    );
    assert_eq!(
        ParseDurationError::Valueless('m').message(),
        "missing value before 'm'"
    );
}

#[test]
fn spinner_cycles() {
    assert_eq!(spinner_char(0), '|');
    assert_eq!(spinner_char(1), '/');
    assert_eq!(spinner_char(2), '-');
    assert_eq!(spinner_char(3), '\\');
    assert_eq!(spinner_char(4), '|');
    assert_eq!(spinner_char(103), '\\');
}
