use doomsday_rs::duration::{Duration, DurationParser};
use doomsday_rs::DoomsdayError;

#[test]
fn test_parse_duration() {
    assert_eq!(DurationParser::parse("1y").unwrap(), Duration::days(365));
    assert_eq!(DurationParser::parse("2d").unwrap(), Duration::days(2));
    assert_eq!(DurationParser::parse("3h").unwrap(), Duration::hours(3));
    assert_eq!(DurationParser::parse("4m").unwrap(), Duration::minutes(4));
    assert_eq!(DurationParser::parse("5s").unwrap(), Duration::seconds(5));

    assert_eq!(
        DurationParser::parse("1y2d3h4m5s").unwrap(),
        Duration::days(365)
            .plus(Duration::days(2))
            .plus(Duration::hours(3))
            .plus(Duration::minutes(4))
            .plus(Duration::seconds(5))
    );
}

#[test]
fn test_format_human() {
    assert_eq!(DurationParser::format_human(Duration::days(365)), "1y");
    assert_eq!(DurationParser::format_human(Duration::days(2)), "2d");
    assert_eq!(DurationParser::format_human(Duration::hours(3)), "3h");
    assert_eq!(DurationParser::format_human(Duration::minutes(4)), "4m");
    assert_eq!(DurationParser::format_human(Duration::seconds(5)), "5s");

    assert_eq!(
        DurationParser::format_human(
            Duration::days(365)
                .plus(Duration::days(2))
                .plus(Duration::hours(3))
                .plus(Duration::minutes(4))
                .plus(Duration::seconds(5))
        ),
        "1y2d3h4m5s"
    );
}

fn invalid_message(input: &str) -> String {
    match DurationParser::parse(input) {
        Err(DoomsdayError::InvalidInput(m)) => m,
        other => panic!("expected invalid input for {:?}, got {:?}", input, other),
    }
}

#[test]
fn parse_units() {
    assert_eq!(DurationParser::parse("1s").unwrap().seconds, 1);
    assert_eq!(DurationParser::parse("1m").unwrap().seconds, 60);
    assert_eq!(DurationParser::parse("1h").unwrap().seconds, 3600);
    assert_eq!(DurationParser::parse("1d").unwrap().seconds, 86400);
    assert_eq!(DurationParser::parse("1w").unwrap().seconds, 604800);
    assert_eq!(DurationParser::parse("1M").unwrap().seconds, 2592000);
    assert_eq!(DurationParser::parse("1y").unwrap().seconds, 31536000);
    assert_eq!(DurationParser::parse("2w").unwrap(), Duration::weeks(2));
}

#[test]
fn parse_sums_segments() {
    assert_eq!(DurationParser::parse("1d1d").unwrap().seconds, 172800);
    assert_eq!(DurationParser::parse("5s1y").unwrap().seconds, 31536005);
    assert_eq!(DurationParser::parse("15d").unwrap().seconds, 15 * 86400);
    assert_eq!(DurationParser::parse("007m").unwrap().seconds, 420);
    assert_eq!(DurationParser::parse("0d3s").unwrap().seconds, 3);
}

#[test]
fn parse_passes_over_what_is_no_segment() {
    assert_eq!(DurationParser::parse("abc1d").unwrap().seconds, 86400);
    assert_eq!(DurationParser::parse("1x2d").unwrap().seconds, 172800);
    assert_eq!(DurationParser::parse(" 3h , 4m ").unwrap().seconds, 3 * 3600 + 240);
    assert_eq!(DurationParser::parse("12 d 5s").unwrap().seconds, 5);
    assert_eq!(DurationParser::parse("d5s").unwrap().seconds, 5);
    assert_eq!(DurationParser::parse("1dd").unwrap().seconds, 86400);
    assert_eq!(DurationParser::parse("-5s").unwrap().seconds, 5);
}

#[test]
fn parse_refuses_empty_sum() {
    assert_eq!(invalid_message(""), "No valid duration found");
    assert_eq!(invalid_message("abc"), "No valid duration found");
    assert_eq!(invalid_message("123"), "No valid duration found");
    assert_eq!(invalid_message("0s"), "No valid duration found");
    assert_eq!(invalid_message("0y0d"), "No valid duration found");
    assert_eq!(invalid_message("d"), "No valid duration found");
    assert_eq!(invalid_message("5 s"), "No valid duration found");
    assert_eq!(invalid_message("5S"), "No valid duration found");
}

#[test]
fn parse_refuses_what_does_not_fit() {
    let too_large = "Invalid number: number too large to fit in target type";
    assert_eq!(invalid_message("9223372036854775808s"), too_large);
    assert_eq!(invalid_message("99999999999999999999999999999999d"), too_large);
    assert_eq!(invalid_message("9223372036854775807s1s"), too_large);
    assert_eq!(invalid_message("292471208678y"), too_large);
    assert_eq!(
        DurationParser::parse("9223372036854775807s").unwrap().seconds,
        i64::MAX
    );
    assert_eq!(
        DurationParser::parse("9223372036854775806s1s").unwrap().seconds,
        i64::MAX
    );
}

#[test]
fn format_edge_cases() {
    assert_eq!(DurationParser::format_human(Duration::zero()), "0s");
    assert_eq!(DurationParser::format_human(Duration::seconds(-1)), "expired");
    assert_eq!(DurationParser::format_human(Duration::seconds(i64::MIN)), "expired");
    assert_eq!(DurationParser::format_human(Duration::seconds(59)), "59s");
    assert_eq!(DurationParser::format_human(Duration::seconds(60)), "1m");
    assert_eq!(DurationParser::format_human(Duration::seconds(61)), "1m1s");
    assert_eq!(DurationParser::format_human(Duration::seconds(3600)), "1h");
    assert_eq!(DurationParser::format_human(Duration::seconds(86399)), "23h59m59s");
    assert_eq!(DurationParser::format_human(Duration::weeks(1)), "7d");
    assert_eq!(DurationParser::format_human(Duration::days(30)), "30d");
    assert_eq!(DurationParser::format_human(Duration::days(400)), "1y35d");
    assert_eq!(
        DurationParser::format_human(Duration::seconds(i64::MAX)),
        "292471208677y195d15h30m7s"
    );
}

#[test]
fn format_then_parse_gives_the_span_back() {
    let samples: [i64; 14] = [
        1,
        59,
        60,
        61,
        3599,
        3600,
        86400,
        86401,
        31535999,
        31536000,
        31536001,
        123456789,
        9876543210987,
        i64::MAX,
    ];
    for secs in samples {
        let text = DurationParser::format_human(Duration::seconds(secs));
        assert_eq!(DurationParser::parse(&text).unwrap().seconds, secs, "{}", text);
    }
    let mut secs: i64 = 1;
    while secs < 40_000_000 {
        let text = DurationParser::format_human(Duration::seconds(secs));
        assert_eq!(DurationParser::parse(&text).unwrap().seconds, secs);
        secs += 99_991;
    }
}

#[test]
fn zero_does_not_come_back() {
    let text = DurationParser::format_human(Duration::zero());
    assert_eq!(text, "0s");
    assert!(DurationParser::parse(&text).is_err());
}

#[test]
fn duration_arithmetic() {
    assert_eq!(Duration::zero().num_seconds(), 0);
    assert_eq!(Duration::minutes(-2).seconds, -120);
    assert_eq!(Duration::hours(2).plus(Duration::minutes(-30)).num_seconds(), 5400);
    assert_eq!(Duration::days(3).num_days(), 3);
    assert_eq!(Duration::seconds(86399).num_days(), 0);
    assert_eq!(Duration::seconds(-86399).num_days(), 0);
    assert_eq!(Duration::seconds(-86400).num_days(), -1);
    assert_eq!(Duration::seconds(-86401).num_days(), -1);
    assert_eq!(Duration::seconds(i64::MIN).num_days(), -106751991167300);
    assert_eq!(Duration::seconds(i64::MAX).num_days(), 106751991167300);
}

#[test]
fn until_expiry_counts_from_the_given_instant() {
    assert_eq!(DurationParser::until_expiry_at(1000, 400).seconds, 600);
    assert_eq!(DurationParser::until_expiry_at(400, 1000).seconds, -600);
    assert_eq!(DurationParser::until_expiry_at(i64::MAX, 0).seconds, i64::MAX);
}

#[test]
fn until_expiry_from_any_instant() {
    assert_eq!(DurationParser::until_expiry_from(1000, 400), Some(Duration::seconds(600)));
    assert_eq!(DurationParser::until_expiry_from(400, 1000), Some(Duration::seconds(-600)));
    assert_eq!(DurationParser::until_expiry_from(-1, i64::MAX), Some(Duration::seconds(i64::MIN)));
    assert_eq!(DurationParser::until_expiry_from(i64::MAX, 0), Some(Duration::seconds(i64::MAX)));
    assert_eq!(DurationParser::until_expiry_from(-2, i64::MAX), None);
    assert_eq!(DurationParser::until_expiry_from(i64::MAX, -1), None);
    assert_eq!(DurationParser::until_expiry_from(i64::MIN, 1), None);
    assert_eq!(DurationParser::until_expiry_from(i64::MIN, i64::MIN), Some(Duration::zero()));
}

#[test]
fn until_expiry_is_there_from_the_epoch_on() {
    for expiry in [-1i64, 0, 1, 1_700_000_000, i64::MAX] {
        let span = DurationParser::until_expiry(expiry).unwrap();
        assert!(span.seconds <= expiry);
    }
    let before = chrono::Utc::now().timestamp();
    let span = DurationParser::until_expiry(i64::MAX).unwrap();
    let after = chrono::Utc::now().timestamp();
    assert!(i64::MAX - after <= span.seconds && span.seconds <= i64::MAX - before);
}

#[test]
fn until_expiry_counts_from_now() {
    let now = chrono::Utc::now().timestamp();
    let span = DurationParser::until_expiry(now + 3600).unwrap();
    assert!(span.seconds <= 3600);
    assert!(span.seconds >= 3590);
    let past = DurationParser::until_expiry(now - 3600).unwrap();
    assert!(past.seconds <= -3600);
    assert_eq!(DurationParser::format_human(past), "expired");
    assert!(DurationParser::until_expiry(i64::MIN).is_none());
}
