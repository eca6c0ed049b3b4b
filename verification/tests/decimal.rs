use hackathon_teams::decimal::{parse_decimal, to_decimal};
use hackathon_teams::ids::{ScheduledEventId, TeamId};

#[test]
fn writes_numbers_as_std_does() {
    for n in [0u64, 1, 9, 10, 11, 99, 100, 12345, u64::MAX - 1, u64::MAX] {
        assert_eq!(to_decimal(n), n.to_string());
    }
}

#[test]
fn reads_numbers_as_std_does() {
    for s in ["0", "7", "42", "+42", "007", "18446744073709551615", "18446744073709551616",
        "", "+", "-1", " 1", "1 ", "1_0", "1a", "++1", "٣", "99999999999999999999999"] {
        assert_eq!(parse_decimal(s), s.parse::<u64>().ok(), "{:?}", s);
    }
}

#[test]
fn reading_undoes_writing() {
    for n in [0u64, 5, 10, 1234567890, u64::MAX] {
        assert_eq!(parse_decimal(&to_decimal(n)), Some(n));
    }
}

#[test]
fn identifiers_are_written_in_decimal() {
    assert_eq!(TeamId(0).to_string(), "0");
    assert_eq!(TeamId(1234).to_string(), "1234");
    assert_eq!(ScheduledEventId(1180000000000000001).to_string(), "1180000000000000001");
    assert_eq!(parse_decimal(&TeamId(77).to_string()), Some(77));
}
