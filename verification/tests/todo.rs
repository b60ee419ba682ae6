use icalendar_txt::dates::Date;
use icalendar_txt::entry::{EntryMetadata, TodoEntry};
use icalendar_txt::todo::parse_todo_entry;

#[test]
fn test_parse_todo_entry() {
    assert_eq!(
        parse_todo_entry("x (B) 2022-01-01 2021-01-01 Hello from +my dear @friends key:val"),
        Ok(("", TodoEntry {
            completed: true,
            priority: Some('B'),
            completion_date: Some(Date::from_ymd_opt(2022, 1, 1).unwrap()),
            creation_date: Some(Date::from_ymd_opt(2021, 1, 1).unwrap()),
            description: "Hello from +my dear @friends key:val".to_string(),
            metadata: Some(EntryMetadata {
                description: "Hello from my dear friends".to_string(),
                projects: vec!["my".to_string()],
                contexts: vec!["friends".to_string()],
                properties: vec![("key".to_string(), "val".to_string())],
            }),
        }))
    );

    assert_eq!(
        parse_todo_entry("x Hello from +my dear @friends key:val"),
        Ok(("", TodoEntry {
            completed: true,
            priority: None,
            completion_date: None,
            creation_date: None,
            description: "Hello from +my dear @friends key:val".to_string(),
            metadata: Some(EntryMetadata {
                description: "Hello from my dear friends".to_string(),
                projects: vec!["my".to_string()],
                contexts: vec!["friends".to_string()],
                properties: vec![("key".to_string(), "val".to_string())],
            }),
        }))
    );
}

#[test]
fn lone_date_is_creation_date() {
    let (rest, entry) = parse_todo_entry("1-1-1 t").unwrap();
    assert_eq!(rest, "");
    assert_eq!(entry.completion_date, None);
    assert_eq!(entry.creation_date, Some(Date::from_ymd_opt(1, 1, 1).unwrap()));
    assert_eq!(entry.description, "t");
}
