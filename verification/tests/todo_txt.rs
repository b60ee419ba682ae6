use icalendar_txt::dates::Date;
use icalendar_txt::todo_txt::{parse_date, parse_description, parse_entry, TodoEntry};

fn date(y: i32, m: u32, d: u32) -> Date {
    Date::from_ymd_opt(y, m, d).unwrap()
}

#[test]
fn lib_todo_entry_to_string() {
    let now = date(2026, 1, 1);
    let entry = TodoEntry {
        completed: true,
        priority: Some('Z'),
        completion_date: Some(now),
        creation_date: Some(now),
        description: "Some kind of +task @test".to_string(),
        special: vec![("location".to_string(), "italy".to_string())],

        // these are empty intentionally
        project_tags: vec![],
        context_tags: vec![],
    };

    assert_eq!(entry.to_string(), "x (Z) 2026-01-01 2026-01-01 Some kind of +task @test location:italy".to_string());
}

#[test]
fn lib_todo_entry_parse_entry() {
    // test date parsing
    assert_eq!(parse_date("1992-01-2"), Ok(("", date(1992, 1, 2))));

    let entry = parse_entry("x (B) 2022-01-01 2021-01-01 Hello from +my dear @friends key:val\r\n");
    println!("{:?}", entry);
}

#[test]
fn todo_txt_parse_entry_keeps_words() {
    let entry = parse_entry("x (B) 2022-01-01 2021-01-01 Hello from +my dear @friends key:val\r\n");
    assert_eq!(entry, Ok(("", TodoEntry {
        completed: true,
        priority: Some('B'),
        completion_date: Some(date(2022, 1, 1)),
        creation_date: Some(date(2021, 1, 1)),
        description: "Hello from +my dear @friends".to_string(),
        special: vec![("key".to_string(), "val".to_string())],
        project_tags: vec!["my".to_string()],
        context_tags: vec!["friends".to_string()],
    })));
}

#[test]
fn todo_txt_description_needs_trailing_space() {
    let (rest, (description, projects, contexts, special)) = parse_description("+a b:c there").unwrap();
    assert_eq!(rest, "there");
    assert_eq!(description, "+a");
    assert_eq!(projects, vec!["a".to_string()]);
    assert!(contexts.is_empty());
    assert_eq!(special, vec![("b".to_string(), "c".to_string())]);
}

#[test]
fn todo_txt_to_string_trims_the_end() {
    let entry = TodoEntry {
        completed: true,
        priority: None,
        completion_date: Some(date(2020, 2, 2)),
        creation_date: None,
        description: "".to_string(),
        special: vec![],
        project_tags: vec![],
        context_tags: vec![],
    };
    assert_eq!(entry.to_string(), "x");
}

#[test]
fn todo_txt_description_keeps_plain_words() {
    let (rest, (description, projects, contexts, special)) = parse_description("Hello +proj @ctx k:v\n").unwrap();
    assert_eq!(rest, "");
    assert_eq!(description, "Hello +proj @ctx");
    assert_eq!(projects, vec!["proj".to_string()]);
    assert_eq!(contexts, vec!["ctx".to_string()]);
    assert_eq!(special, vec![("k".to_string(), "v".to_string())]);
}

#[test]
fn todo_txt_lone_date_is_creation_date() {
    let (rest, entry) = parse_entry("2020-01-01 task \n").unwrap();
    assert_eq!(rest, "");
    assert_eq!(entry.completion_date, None);
    assert_eq!(entry.creation_date, Some(date(2020, 1, 1)));
    assert_eq!(entry.description, "task");
}

#[test]
fn todo_txt_special_compares_as_a_map() {
    let e = |special: Vec<(&str, &str)>| TodoEntry {
        completed: false,
        priority: None,
        completion_date: None,
        creation_date: Some(date(2020, 1, 1)),
        description: "task".to_string(),
        special: special.into_iter().map(|(k, v)| (k.to_string(), v.to_string())).collect(),
        project_tags: vec![],
        context_tags: vec![],
    };
    assert_eq!(e(vec![("a", "1"), ("b", "2")]), e(vec![("b", "2"), ("a", "1")]));
    assert_ne!(e(vec![("a", "1")]), e(vec![("a", "2")]));
}
