use icalendar_txt::dates::{Date, DateTime, Time};
use icalendar_txt::error::{Error, ErrorKind, IResult, NomErrorKind, ParseErr};
use icalendar_txt::iso8601::{
    parse_date, parse_interval, parse_period, parse_time, parse_timestamp, Interval, TimeDuration,
};

fn date(y: i32, m: u32, d: u32) -> Date {
    Date::from_ymd_opt(y, m, d).unwrap()
}

fn at(y: i32, mo: u32, d: u32, h: u32, mi: u32, s: u32) -> DateTime {
    DateTime::new(date(y, mo, d), Time::from_hms_opt(h, mi, s).unwrap())
}

fn finish<'a, T>(r: IResult<'a, T>) -> Result<(&'a str, T), Error> {
    match r {
        Ok(x) => Ok(x),
        Err(ParseErr::Error(e)) | Err(ParseErr::Failure(e)) => Err(e),
        Err(ParseErr::Incomplete(_)) => panic!("incomplete"),
    }
}

fn failure(input: &str, kind: ErrorKind, context: Option<&str>) -> ParseErr {
    ParseErr::Failure(Error { input: input.to_string(), kind, context: context.map(|c| c.to_string()) })
}

fn error(input: &str, kind: ErrorKind, context: Option<&str>) -> Error {
    Error { input: input.to_string(), kind, context: context.map(|c| c.to_string()) }
}

#[test]
fn test_parse_date() {
    assert_eq!(parse_date("2020-01-01"), Ok(("", date(2020, 1, 1))));
    assert_eq!(parse_date("2020-10-20"), Ok(("", date(2020, 10, 20))));
}

#[test]
fn test_parse_time() {
    assert_eq!(parse_time("14:00"), Ok(("", Time::from_hms_opt(14, 0, 0).unwrap())));
    assert_eq!(parse_time("13:10:05"), Ok(("", Time::from_hms_opt(13, 10, 5).unwrap())));
}

#[test]
fn test_parse_timestamp() {
    assert_eq!(parse_timestamp("1997-07-23T14:30"), Ok(("", at(1997, 07, 23, 14, 30, 0))));
    assert_eq!(parse_timestamp("1997-07-23T14:30:01"), Ok(("", at(1997, 07, 23, 14, 30, 1))));
}

#[test]
fn test_parse_interval() {
    // R/2020-01-01/F2D
    assert_eq!(parse_interval("R/2020-01-01/F2D"), Ok(("", Interval {
        start: at(2020, 1, 1, 0, 0, 0),
        end: at(2020, 1, 2, 0, 0, 0),
        interval: Some(TimeDuration::days(2)),
    })));

    // R/2020-01-01T20:00/F2D
    assert_eq!(parse_interval("R/2020-01-01T20:00/F2D"), Ok(("", Interval {
        start: at(2020, 1, 1, 20, 0, 0),
        end: at(2020, 1, 2, 0, 0, 0),
        interval: Some(TimeDuration::days(2)),
    })));

    // R/2020-01-01T20:00/22:00/F2D
    assert_eq!(parse_interval("R/2020-01-01T20:00/22:00/F2D"), Ok(("", Interval {
        start: at(2020, 1, 1, 20, 0, 0),
        end: at(2020, 1, 1, 22, 0, 0),
        interval: Some(TimeDuration::days(2)),
    })));

    // R/2020-01-01T20:00/2020-01-02/F2D
    assert_eq!(parse_interval("R/2020-01-01T20:00/2020-01-02/F2D"), Ok(("", Interval {
        start: at(2020, 1, 1, 20, 0, 0),
        end: at(2020, 1, 2, 0, 0, 0),
        interval: Some(TimeDuration::days(2)),
    })));

    // R/2020-01-01T20:00/2020-01-01T22:00/F2D
    assert_eq!(parse_interval("R/2020-01-01T20:00/2020-01-01T22:00/F2D"), Ok(("", Interval {
        start: at(2020, 1, 1, 20, 0, 0),
        end: at(2020, 1, 1, 22, 0, 0),
        interval: Some(TimeDuration::days(2)),
    })));

    // 2020-01-01
    assert_eq!(parse_interval("2020-01-01"), Ok(("", Interval {
        start: at(2020, 1, 1, 0, 0, 0),
        end: at(2020, 1, 2, 0, 0, 0),
        interval: None,
    })));

    // 2020-01-01/PT20M
    assert_eq!(parse_interval("2020-01-01/PT20M"), Ok(("", Interval {
        start: at(2020, 1, 1, 0, 0, 0),
        end: at(2020, 1, 1, 0, 20, 0),
        interval: None,
    })));

    // 2020-01-01T20:00
    assert_eq!(parse_interval("2020-01-01T20:00"), Ok(("", Interval {
        start: at(2020, 1, 1, 20, 0, 0),
        end: at(2020, 1, 2, 0, 0, 0),
        interval: None,
    })));

    // 2020-01-01/20:00
    assert_eq!(parse_interval("2020-01-01/20:00"), Ok(("", Interval {
        start: at(2020, 1, 1, 0, 0, 0),
        end: at(2020, 1, 1, 20, 0, 0),
        interval: None,
    })));

    // 2020-01-01T20:00/22:00
    assert_eq!(parse_interval("2020-01-01T20:00/22:00"), Ok(("", Interval {
        start: at(2020, 1, 1, 20, 0, 0),
        end: at(2020, 1, 1, 22, 0, 0),
        interval: None,
    })));

    // 2020-01-01T20:00/2020-01-01T22:00
    assert_eq!(parse_interval("2020-01-01T20:00/2020-01-01T22:00"), Ok(("", Interval {
        start: at(2020, 1, 1, 20, 0, 0),
        end: at(2020, 1, 1, 22, 0, 0),
        interval: None,
    })));

    // 2020-01-01T20:00/PT2H20M
    assert_eq!(parse_interval("2020-01-01T20:00/PT2H20M"), Ok(("", Interval {
        start: at(2020, 1, 1, 20, 0, 0),
        end: at(2020, 1, 1, 22, 20, 0),
        interval: None,
    })));

    // malformed
    assert_eq!(
        finish(parse_interval("2020-01-/PT2H20M")),
        Err(error("/PT2H20M", ErrorKind::Nom(NomErrorKind::Digit), None))
    );

    assert_eq!(
        finish(parse_interval("2020-01/PT2H20M")),
        Err(error("/PT2H20M", ErrorKind::Char('-'), None))
    );

    assert_eq!(
        finish(parse_interval("2020-01-/PT2H20M")),
        Err(error("/PT2H20M", ErrorKind::Nom(NomErrorKind::Digit), None))
    );

    assert_eq!(
        finish(parse_interval("2020-01-01/")),
        Err(error("", ErrorKind::Nom(NomErrorKind::Fail), Some("missing end of interval")))
    );

    assert_eq!(
        finish(parse_interval("2020-01-01/PT")),
        Err(error("T", ErrorKind::InvalidPeriod, None))
    );
}

#[test]
fn test_parse_period() {
    assert_eq!(parse_period("1Y2M3W4DT5H6M7S"), Ok(("", TimeDuration {
        years: 1,
        months: 2,
        weeks: 3,
        days: 4,
        hours: 5,
        minutes: 6,
        seconds: 7,
    })));

    assert_eq!(parse_period("T7S"), Ok(("", TimeDuration::seconds(7))));
    assert_eq!(parse_period("T2H"), Ok(("", TimeDuration::hours(2))));

    // fail properly when invalid period
    assert_eq!(parse_period("T"), Err(failure("T", ErrorKind::InvalidPeriod, None)));
    assert_eq!(parse_period(""), Err(failure("", ErrorKind::InvalidPeriod, None)));
    assert_eq!(parse_period("M"), Err(failure("M", ErrorKind::InvalidPeriod, None)));
}
