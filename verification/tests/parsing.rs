use todo::dates::parse_stamp;
use todo::parse::parse_comma_separated;
use todo::parse::parse_optional_bool;
use todo::parse::parse_optional_datetime;
use todo::parse::trim;

#[test]
fn optional_bool_reads_the_two_words() {
    assert_eq!(parse_optional_bool(&Some("true".to_string())), Ok(Some(true)));
    assert_eq!(parse_optional_bool(&Some("false".to_string())), Ok(Some(false)));
    assert_eq!(parse_optional_bool(&Some("".to_string())), Ok(None));
    assert_eq!(parse_optional_bool(&None), Ok(None));
}

#[test]
fn optional_bool_rejects_other_text() {
    assert_eq!(parse_optional_bool(&Some("yes".to_string())), Err(()));
    assert_eq!(parse_optional_bool(&Some("True".to_string())), Err(()));
    assert_eq!(parse_optional_bool(&Some(" true".to_string())), Err(()));
}

#[test]
fn optional_datetime_reads_the_minute_format() {
    assert_eq!(parse_optional_datetime(&None), Ok(None));
    assert_eq!(parse_optional_datetime(&Some("".to_string())), Ok(None));
    assert_eq!(parse_optional_datetime(&Some("1970-01-01T00:00".to_string())), Ok(Some(0)));
    assert_eq!(parse_optional_datetime(&Some("1970-01-02T00:00".to_string())), Ok(Some(86400)));
    assert_eq!(parse_optional_datetime(&Some("tomorrow".to_string())), Err(()));
    assert_eq!(parse_optional_datetime(&Some("1970-01-01".to_string())), Err(()));
}

#[test]
fn stamps_count_seconds_since_the_epoch() {
    assert_eq!(parse_stamp("1970-01-01T00:00"), Some(0));
    assert_eq!(parse_stamp("1970-01-01T01:30"), Some(5400));
    assert_eq!(parse_stamp("2000-03-01T00:00"), Some(951868800));
    assert_eq!(parse_stamp("not a date"), None);
    assert_eq!(parse_stamp("1970-02-30T00:00"), None);
}

#[test]
fn comma_separated_tags_are_trimmed_and_cleaned() {
    assert_eq!(
        parse_comma_separated(&Some(" work , urgent,,  home  ".to_string())),
        vec!["work".to_string(), "urgent".to_string(), "home".to_string()]
    );
    assert_eq!(parse_comma_separated(&Some("solo".to_string())), vec!["solo".to_string()]);
    assert_eq!(parse_comma_separated(&Some("".to_string())), Vec::<String>::new());
    assert_eq!(parse_comma_separated(&Some(" , ,".to_string())), Vec::<String>::new());
    assert_eq!(parse_comma_separated(&None), Vec::<String>::new());
}

#[test]
fn trim_drops_only_edge_whitespace() {
    assert_eq!(trim("  a b  "), "a b");
    assert_eq!(trim("\t\nx\r "), "x");
    assert_eq!(trim("plain"), "plain");
    assert_eq!(trim("   "), "");
    assert_eq!(trim(""), "");
}
