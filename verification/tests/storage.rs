use attribute_reader::{AttributeFields, Attributes};

fn fields(content: &str) -> AttributeFields {
    AttributeFields::new(Some(content.as_bytes().to_vec()))
}

#[test]
fn new_storage_is_empty() {
    let attributes = Attributes::new();
    assert!(attributes.try_get("table").is_none());
    assert!(attributes.data.is_empty());
}

#[test]
fn added_attribute_is_found_by_its_name() {
    let mut attributes = Attributes::new();
    attributes.add("table".to_string(), Some(b"(name = \"users\")".to_vec()));
    attributes.add("ignore".to_string(), None);

    assert_eq!(
        attributes.try_get("table").unwrap().content,
        Some(b"(name = \"users\")".to_vec())
    );
    assert_eq!(attributes.get("table").get_as_string("name"), Some("users"));
    assert_eq!(attributes.get("ignore").content, None);
    assert!(attributes.try_get("Table").is_none());
    assert_eq!(attributes.data.len(), 2);
}

#[test]
fn last_write_wins() {
    let mut attributes = Attributes::new();
    attributes.add("size".to_string(), Some(b"(max = 1)".to_vec()));
    attributes.add("size".to_string(), Some(b"(max = 2)".to_vec()));
    assert_eq!(attributes.data.len(), 1);
    assert_eq!(
        attributes.get("size").get_as_type::<u8>("max"),
        Some(Ok(2))
    );
    attributes.add("size".to_string(), None);
    assert_eq!(attributes.get("size").content, None);
}

#[test]
fn attribute_without_content_has_no_parameters() {
    let flag = AttributeFields::new(None);
    assert!(flag.get_param("a").is_none());
    assert_eq!(flag.get_bool("a"), None);
    assert_eq!(flag.get_as_string("a"), None);
    assert_eq!(flag.get_as_type::<i32>("a"), None);
}

#[test]
fn typed_lookups_convert_the_parameter() {
    let attribute = fields(r#"(name = "operationsPerPage" , amount = 15; do_it=true, undo=false; flag)"#);
    assert_eq!(attribute.get_as_string("name"), Some("operationsPerPage"));
    assert_eq!(attribute.get_as_type::<usize>("amount"), Some(Ok(15)));
    assert_eq!(attribute.get_bool("do_it"), Some(true));
    assert_eq!(attribute.get_bool("undo"), Some(false));
    assert!(attribute.get_param("flag").unwrap().is_none());
}

#[test]
fn missing_parameter_is_none() {
    let attribute = fields(r#"(name = "P", on = true, n = 1)"#);
    assert_eq!(attribute.get_as_string("title"), None);
    assert_eq!(attribute.get_bool("off"), None);
    assert_eq!(attribute.get_as_type::<i32>("m"), None);
    assert!(attribute.get_param("").is_none());
}

#[test]
fn number_that_does_not_convert_is_reported() {
    let attribute = fields("(amount = 15x; small = 300)");
    assert_eq!(
        attribute.get_as_type::<usize>("amount"),
        Some(Err("Can not parse value: 15x".to_string()))
    );
    assert_eq!(
        attribute.get_as_type::<u8>("small"),
        Some(Err("Can not parse value: 300".to_string()))
    );
    assert_eq!(attribute.get_as_type::<u16>("small"), Some(Ok(300)));
}

#[test]
fn first_of_two_equal_parameters_wins() {
    let attribute = fields("(a = 1, a = true )");
    assert_eq!(attribute.get_as_type::<i32>("a"), Some(Ok(1)));
    assert_eq!(
        attribute.get_param("a").unwrap().type_as_str(),
        "number"
    );
}

#[test]
fn every_lookup_reads_the_content_anew() {
    let mut attribute = fields("(a = 1 )");
    assert_eq!(attribute.get_as_type::<i32>("a"), Some(Ok(1)));
    assert_eq!(attribute.get_as_type::<i32>("a"), Some(Ok(1)));
    attribute.content = Some(b"(a = 2 )".to_vec());
    assert_eq!(attribute.get_as_type::<i32>("a"), Some(Ok(2)));
}

#[test]
fn parameter_behind_bytes_that_are_not_text_is_not_found() {
    let attribute = AttributeFields::new(Some(b"(a = 1, \xff = 2, c = 3 )".to_vec()));
    assert_eq!(attribute.get_as_type::<i32>("a"), Some(Ok(1)));
    assert!(attribute.get_param("c").is_none());
}
