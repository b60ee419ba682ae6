use icalendar_txt::entry::EntryMetadata;
use icalendar_txt::parser::parse_description;

#[test]
fn test_parse_description() {
    // no metadata if there is no tags or properties
    let (_, metadata) = parse_description("Barbecue with friends at toms_house").unwrap();
    assert_eq!(metadata, None);

    let (_, metadata) = parse_description("Barbecue with @friends at +toms_house key:val").unwrap();
    assert_eq!(metadata, Some(EntryMetadata {
        description: "Barbecue with friends at toms_house".to_string(),
        projects: vec!["toms_house".to_string()],
        contexts: vec!["friends".to_string()],
        properties: vec![("key".to_string(), "val".to_string())],
    }));

    // NOTE as the format is human-editable it has to be fine with garbage input
    let (_, metadata) = parse_description("A num:1 tricky: o+ne w+ith+ :multiple malf@rmed we1.;rd things??!?").unwrap();
    assert_eq!(metadata, Some(EntryMetadata {
        description: "A tricky: o+ne w+ith+ :multiple malf@rmed we1.;rd things??!?".to_string(),
        projects: vec![],
        contexts: vec![],
        properties: vec![("num".to_string(), "1".to_string())],
    }));
}
