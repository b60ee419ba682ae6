use icalendar_txt::calendar::{parse_calendar_entry, parse_calendar_file};
use icalendar_txt::dates::{Date, DateTime, Time};
use icalendar_txt::entry::{CalendarEntry, EntryMetadata, TodoEntry};
use icalendar_txt::error::{Error, ErrorKind, Needed, NomErrorKind, ParseErr};
use icalendar_txt::error_info::ErrorInfo;
use icalendar_txt::iso8601::{parse_interval, parse_period, Interval, TimeDuration};
use icalendar_txt::parser::parse_description;
use icalendar_txt::todo::{parse_todo_entry, parse_todo_file};

fn date(y: i32, m: u32, d: u32) -> Date {
    Date::from_ymd_opt(y, m, d).unwrap()
}

fn at(y: i32, mo: u32, d: u32, h: u32, mi: u32, s: u32) -> DateTime {
    DateTime::new(date(y, mo, d), Time::from_hms_opt(h, mi, s).unwrap())
}

#[test]
fn period_text_reads_back() {
    let periods = [
        TimeDuration::default(),
        TimeDuration { years: 1, months: 2, weeks: 3, days: 4, hours: 5, minutes: 6, seconds: 7 },
        TimeDuration::minutes(20),
        TimeDuration { years: 0, months: 12, weeks: 0, days: 0, hours: 0, minutes: 0, seconds: 65535 },
        TimeDuration::years(65535),
    ];
    for p in periods {
        let text = p.to_string();
        assert_eq!(parse_period(&text), Ok(("", p)));
    }
    assert_eq!(TimeDuration::default().to_string(), "T0S");
    assert_eq!(TimeDuration { hours: 2, minutes: 20, ..Default::default() }.to_string(), "T2H20M");
    assert_eq!(TimeDuration { years: 1, days: 10, ..Default::default() }.to_string(), "1Y10D");
}

#[test]
fn adding_periods() {
    let start = at(2020, 1, 31, 10, 0, 0);
    assert_eq!(start.add_duration(TimeDuration::months(1)), Some(at(2020, 2, 29, 10, 0, 0)));
    assert_eq!(start.add_duration(TimeDuration::days(1)), Some(at(2020, 2, 1, 10, 0, 0)));
    assert_eq!(start.add_duration(TimeDuration::hours(14)), Some(at(2020, 2, 1, 0, 0, 0)));
    assert_eq!(start.add_duration(TimeDuration::default()), Some(start));
    assert_eq!(start.add_duration(TimeDuration::years(1)), Some(at(2021, 1, 31, 10, 0, 0)));
}

#[test]
fn interval_with_many_years_adds_all_of_them() {
    let (_, iv) = parse_interval("2020-01-01/P6000Y").unwrap();
    assert_eq!(iv.end, at(8020, 1, 1, 0, 0, 0));
    let (_, iv) = parse_interval("2020-01-01/P10000W").unwrap();
    assert_eq!(iv.end, at(2211, 8, 28, 0, 0, 0));
    assert_eq!(
        at(2020, 1, 1, 0, 0, 0).add_duration(TimeDuration::years(65535)),
        Some(at(67555, 1, 1, 0, 0, 0))
    );
}

#[test]
fn interval_invalid_date_and_time() {
    assert_eq!(
        parse_interval("2020-02-30"),
        Err(ParseErr::Failure(Error { input: "".to_string(), kind: ErrorKind::InvalidDate, context: None }))
    );
    assert_eq!(
        parse_interval("2020-02-03T25:00 x"),
        Err(ParseErr::Failure(Error { input: " x".to_string(), kind: ErrorKind::InvalidTime, context: None }))
    );
    assert_eq!(
        parse_interval("R/2020-01-01"),
        Err(ParseErr::Error(Error { input: "R/2020-01-01".to_string(), kind: ErrorKind::Nom(NomErrorKind::Digit), context: None }))
    );
}

#[test]
fn description_edge_cases() {
    let (rest, m) = parse_description("+ a:b c:d a:e\nnext").unwrap();
    assert_eq!(rest, "\nnext");
    assert_eq!(m, Some(EntryMetadata {
        description: "".to_string(),
        projects: vec!["".to_string()],
        contexts: vec![],
        properties: vec![("a".to_string(), "e".to_string()), ("c".to_string(), "d".to_string())],
    }));
    let (rest, m) = parse_description("").unwrap();
    assert_eq!((rest, m), ("", None));
}

#[test]
fn calendar_entry_needs_a_description() {
    assert_eq!(
        parse_calendar_entry("2020-01-01 \nfoo"),
        Err(ParseErr::Failure(Error { input: "2020-01-01 \nfoo".to_string(), kind: ErrorKind::EmptyDescription, context: None }))
    );
}

#[test]
fn calendar_file_errors() {
    assert_eq!(
        parse_calendar_file("  garbage  "),
        Err(ParseErr::Error(Error { input: "garbage".to_string(), kind: ErrorKind::Nom(NomErrorKind::Eof), context: None }))
    );
    assert_eq!(parse_calendar_file(" \n "), Ok(("", vec![])));
    let err = CalendarEntry::from_str("2020-01-01 a\n2020-13-01 b").unwrap_err();
    assert_eq!(err, Error { input: " b".to_string(), kind: ErrorKind::InvalidDate, context: None });
    let input = "2020-01-01 a\n2020-13-01 b";
    let info = ErrorInfo::from_error(input, &err, None);
    assert_eq!((info.line, info.column), (2, 11));
}

#[test]
fn calendar_from_str_reads_entries() {
    let entries = CalendarEntry::from_str("R/2020-01-01/F1W Weekly @home\n").unwrap();
    assert_eq!(entries, vec![CalendarEntry {
        interval: Interval { start: at(2020, 1, 1, 0, 0, 0), end: at(2020, 1, 2, 0, 0, 0), interval: Some(TimeDuration::weeks(1)) },
        description: "Weekly @home".to_string(),
        metadata: Some(EntryMetadata {
            description: "Weekly home".to_string(),
            contexts: vec!["home".to_string()],
            ..Default::default()
        }),
    }]);
}

#[test]
fn update_metadata_follows_description() {
    let mut entry = CalendarEntry {
        interval: Interval { start: at(2020, 1, 1, 0, 0, 0), end: at(2020, 1, 2, 0, 0, 0), interval: None },
        description: "Dinner with @anna".to_string(),
        metadata: None,
    };
    assert_eq!(entry.update_metadata(), Ok(()));
    assert_eq!(entry.metadata.unwrap().contexts, vec!["anna".to_string()]);

    let mut task = TodoEntry {
        completed: false,
        priority: None,
        completion_date: None,
        creation_date: None,
        description: "plain words".to_string(),
        metadata: Some(EntryMetadata::default()),
    };
    assert_eq!(task.update_metadata(), Ok(()));
    assert_eq!(task.metadata, None);
}

#[test]
fn todo_file_asks_for_more_input() {
    assert_eq!(parse_todo_file("a"), Err(ParseErr::Incomplete(Needed::Size(1))));
    assert_eq!(parse_todo_file(""), Err(ParseErr::Incomplete(Needed::Size(1))));
    let err = TodoEntry::from_str("2020-13-01 x").unwrap_err();
    assert_eq!(err, Error { input: " x".to_string(), kind: ErrorKind::InvalidDate, context: None });
}

#[test]
fn parser_todo_entry_to_string() {
    let now = date(2026, 1, 1);
    let entry = TodoEntry {
        completed: true,
        priority: Some('Z'),
        completion_date: Some(now),
        creation_date: Some(now),
        description: "Some kind of +task @test location:italy".to_string(),
        metadata: None,
    };

    assert_eq!(entry.to_string(), "x (Z) 2026-01-01 2026-01-01 Some kind of +task @test location:italy".to_string());
}

#[test]
fn todo_entry_display() {
    let now = date(2026, 1, 1);
    let far = TodoEntry {
        completed: false,
        priority: None,
        completion_date: Some(now),
        creation_date: Some(date(12345, 6, 7)),
        description: "later".to_string(),
        metadata: None,
    };
    assert_eq!(far.to_string(), "2026-01-01 +12345-06-07 later");
    let no_creation = TodoEntry { creation_date: None, ..far };
    assert_eq!(no_creation.to_string(), "later");
}

#[test]
fn dates_and_times_are_checked() {
    assert_eq!(Date::from_ymd_opt(2021, 2, 29), None);
    assert_eq!(Date::from_ymd_opt(2020, 2, 29), Some(Date { year: 2020, month: 2, day: 29 }));
    assert_eq!(Date::from_ymd_opt(262143, 1, 1), None);
    assert_eq!(Time::from_hms_opt(23, 59, 60), None);
}

#[test]
fn adding_days_twice_adds_their_sum() {
    let start = at(2019, 12, 30, 23, 59, 59);
    let once = start.add_duration(TimeDuration::days(40)).unwrap();
    let twice = once.add_duration(TimeDuration::days(400)).unwrap();
    assert_eq!(Some(twice), start.add_duration(TimeDuration::days(440)));
    assert_eq!(twice, at(2021, 3, 14, 23, 59, 59));
}

#[test]
fn joining_calendar_files_joins_entries() {
    let a = "2020-01-01T20:00 Hello there +blah\n\n2020-01-02 second day";
    let b = "R/2020-01-01/F2D every other day @home";
    let (_, va) = parse_calendar_file(a).unwrap();
    let (_, vb) = parse_calendar_file(b).unwrap();
    let joined = format!("{a}\n{b}");
    let (rest, v) = parse_calendar_file(&joined).unwrap();
    assert_eq!(rest, "");
    assert_eq!(va.len(), 2);
    assert_eq!(v, [va, vb].concat());
}

#[test]
fn joining_calendar_files_with_blank_lines_joins_entries() {
    let a = "\n  2020-01-01T20:00 Hello there +blah  \r\n\n";
    let b = " \t\n2020-01-02 second day\n\n";
    let (_, va) = parse_calendar_file(a).unwrap();
    let (_, vb) = parse_calendar_file(b).unwrap();
    let joined = format!("{a}\n{b}");
    let (rest, v) = parse_calendar_file(&joined).unwrap();
    assert_eq!(rest, "");
    assert_eq!(v.len(), 2);
    assert_eq!(v, [va, vb].concat());
}

#[test]
fn todo_entry_text_reads_back() {
    let description = "Call +mom @home about:dinner";
    let (_, metadata) = parse_description(description).unwrap();
    let entry = TodoEntry {
        completed: true,
        priority: Some('C'),
        completion_date: Some(date(2022, 1, 1)),
        creation_date: Some(date(2021, 5, 6)),
        description: description.to_string(),
        metadata,
    };
    let text = entry.to_string();
    assert_eq!(text, "x (C) 2022-01-01 2021-05-06 Call +mom @home about:dinner");
    assert_eq!(parse_todo_entry(&text), Ok(("", entry.clone())));

    let only_created = TodoEntry { completed: false, priority: None, completion_date: None, ..entry };
    assert_eq!(parse_todo_entry(&only_created.to_string()), Ok(("", only_created.clone())));
}

#[test]
fn metadata_compares_properties_as_a_map() {
    let m = |props: Vec<(&str, &str)>| EntryMetadata {
        description: "Hello".to_string(),
        projects: vec!["p".to_string()],
        contexts: vec![],
        properties: props.into_iter().map(|(k, v)| (k.to_string(), v.to_string())).collect(),
    };
    assert_eq!(m(vec![("a", "1"), ("b", "2")]), m(vec![("b", "2"), ("a", "1")]));
    assert_ne!(m(vec![("a", "1"), ("b", "2")]), m(vec![("a", "1"), ("b", "3")]));
    assert_ne!(m(vec![("a", "1")]), m(vec![("a", "1"), ("b", "2")]));
}
