use icalendar_txt::calendar::{parse_calendar_entry, parse_calendar_file};
use icalendar_txt::dates::{Date, DateTime, Time};
use icalendar_txt::entry::{CalendarEntry, EntryMetadata};
use icalendar_txt::error::{Error, ErrorKind, NomErrorKind, ParseErr};
use icalendar_txt::iso8601::Interval;

fn at(y: i32, mo: u32, d: u32, h: u32, mi: u32, s: u32) -> DateTime {
    DateTime::new(Date::from_ymd_opt(y, mo, d).unwrap(), Time::from_hms_opt(h, mi, s).unwrap())
}

fn failure(input: &str, kind: ErrorKind, context: Option<&str>) -> ParseErr {
    ParseErr::Failure(Error { input: input.to_string(), kind, context: context.map(|c| c.to_string()) })
}

#[test]
fn test_parse_calendar_entry() {
    assert_eq!(parse_calendar_entry("2020-01-01T20:00 Hello there"), Ok(("", CalendarEntry {
        interval: Interval {
            start: at(2020, 1, 1, 20, 0, 0),
            end: at(2020, 1, 2, 0, 0, 0),
            interval: None,
        },
        description: "Hello there".to_string(),
        metadata: None,
    })));

    assert_eq!(parse_calendar_entry("2020-01-01T20:00     Hello there"), Ok(("", CalendarEntry {
        interval: Interval {
            start: at(2020, 1, 1, 20, 0, 0),
            end: at(2020, 1, 2, 0, 0, 0),
            interval: None,
        },
        description: "Hello there".to_string(),
        metadata: None,
    })));

    assert_eq!(parse_calendar_entry("2020-01-01T20:00\t\tHello there"), Ok(("", CalendarEntry {
        interval: Interval {
            start: at(2020, 1, 1, 20, 0, 0),
            end: at(2020, 1, 2, 0, 0, 0),
            interval: None,
        },
        description: "Hello there".to_string(),
        metadata: None,
    })));

    assert_eq!(parse_calendar_entry("2020-01-01T20:00/2020-01-01T23:00 Hello there +blah"), Ok(("", CalendarEntry {
        interval: Interval {
            start: at(2020, 1, 1, 20, 0, 0),
            end: at(2020, 1, 1, 23, 0, 0),
            interval: None,
        },
        description: "Hello there +blah".to_string(),
        metadata: Some(EntryMetadata {
            description: "Hello there blah".to_string(),
            projects: vec!["blah".to_string()],
            ..Default::default()
        }),
    })));

    // malformed entry
    assert_eq!(
        parse_calendar_entry("2020-\n01-01/2020-01-01T23:00 Hello there +blah"),
        Err(failure("\n01-01/2020-01-01T23:00 Hello there +blah", ErrorKind::Nom(NomErrorKind::Digit), None))
    );

    assert_eq!(
        parse_calendar_entry("2020-01-01T\n"),
        Err(failure("\n", ErrorKind::Nom(NomErrorKind::Digit), None))
    );

    assert_eq!(
        parse_calendar_entry("2020-01-01/"),
        Err(failure("", ErrorKind::Nom(NomErrorKind::Fail), Some("missing end of interval")))
    );

    assert_eq!(
        parse_calendar_entry("2020-01-01/2020- aa"),
        Err(failure(" aa", ErrorKind::Nom(NomErrorKind::Digit), None))
    );

    assert_eq!(
        parse_calendar_entry("2020-01-01/2020-01 aa"),
        Err(failure(" aa", ErrorKind::Char('-'), None))
    );
}

#[test]
fn test_parse_calendar_file() {
    let entry = CalendarEntry {
        interval: Interval {
            start: at(2020, 1, 1, 20, 0, 0),
            end: at(2020, 1, 1, 23, 0, 0),
            interval: None,
        },
        description: "Hello there".to_string(),
        metadata: None,
    };

    // make sure newlines dont break things
    assert_eq!(parse_calendar_file(r#"2020-01-01T20:00/2020-01-01T23:00 Hello there
2020-01-01T20:00/2020-01-01T23:00 Hello there
2020-01-01T20:00/2020-01-01T23:00 Hello there


"#), Ok(("", vec![entry.clone(); 3])));

    // also missing newlines
    assert_eq!(parse_calendar_file(r#"2020-01-01T20:00/2020-01-01T23:00 Hello there
2020-01-01T20:00/2020-01-01T23:00 Hello there
2020-01-01T20:00/2020-01-01T23:00 Hello there"#), Ok(("", vec![entry.clone(); 3])));

    // newlines in middle
    assert_eq!(parse_calendar_file(r#"2020-01-01T20:00/2020-01-01T23:00 Hello there

2020-01-01T20:00/2020-01-01T23:00 Hello there
2020-01-01T20:00/2020-01-01T23:00 Hello there"#), Ok(("", vec![entry.clone(); 3])));
}
