use attribute_reader::attribute_value::number_result;
use attribute_reader::AttributeValue;

#[test]
fn quoted_token_is_a_string_without_its_quotes() {
    let value = AttributeValue::parse(br#""operationsPerPage""#);
    assert_eq!(value.type_as_str(), "string");
    assert_eq!(value.as_string().unwrap(), "operationsPerPage");
    assert!(!value.is_none());
}

#[test]
fn empty_quoted_token_is_the_empty_string() {
    let value = AttributeValue::parse(br#""""#);
    assert_eq!(value.as_string().unwrap(), "");
}

#[test]
fn quoted_string_round_trip() {
    for text in ["", "a", "Messages per page", "a, b; c = d)", "it's", "żółć ✓", "true", "15"] {
        let token = format!("\"{}\"", text);
        let value = AttributeValue::parse(token.as_bytes());
        assert_eq!(value.as_string().unwrap(), text);
    }
}

#[test]
fn true_and_false_are_booleans() {
    let yes = AttributeValue::parse(b"true");
    let no = AttributeValue::parse(b"false");
    assert_eq!(yes.type_as_str(), "boolean");
    assert_eq!(yes.as_bool().unwrap(), true);
    assert_eq!(no.as_bool().unwrap(), false);
}

#[test]
fn booleans_are_matched_exactly() {
    for token in ["True", "TRUE", "truee", "tru", "falsee", "False", "fals"] {
        let value = AttributeValue::parse(token.as_bytes());
        assert_eq!(value.type_as_str(), "number");
        assert!(value.as_bool().is_err());
    }
}

#[test]
fn any_other_token_is_a_number_kept_as_written() {
    let value = AttributeValue::parse(b"15");
    assert_eq!(value.type_as_str(), "number");
    assert_eq!(value.as_type::<usize>().unwrap(), 15);
    assert_eq!(value.as_type::<i64>().unwrap(), 15);
    assert_eq!(value.as_type::<String>().unwrap(), "15");

    let negative = AttributeValue::parse(b"-7");
    assert_eq!(negative.as_type::<i32>().unwrap(), -7);
    assert!(negative.as_type::<u32>().is_err());
}

#[test]
fn single_quoted_token_keeps_its_quotes() {
    let value = AttributeValue::parse(b"'abc'");
    assert_eq!(value.type_as_str(), "number");
    assert_eq!(value.as_type::<String>().unwrap(), "'abc'");
}

#[test]
fn number_that_does_not_convert_is_a_parse_error() {
    let value = AttributeValue::parse(b"12x");
    assert_eq!(
        value.as_type::<i32>().unwrap_err(),
        "Can not parse value: 12x"
    );
}

#[test]
fn string_read_as_other_kinds_is_a_type_mismatch() {
    let value = AttributeValue::parse(br#""15""#);
    assert_eq!(
        value.as_bool().unwrap_err(),
        "Invalid parameter type. Expected bool - found type: string"
    );
    assert_eq!(
        value.as_type::<usize>().unwrap_err(),
        "Invalid parameter type. Expected number - found type: string"
    );
}

#[test]
fn boolean_read_as_other_kinds_is_a_type_mismatch() {
    let value = AttributeValue::parse(b"true");
    assert_eq!(
        value.as_string().unwrap_err(),
        "Invalid parameter type. Expected string - found type: boolean"
    );
    assert_eq!(
        value.as_type::<bool>().unwrap_err(),
        "Invalid parameter type. Expected number - found type: boolean"
    );
}

#[test]
fn number_read_as_other_kinds_is_a_type_mismatch() {
    let value = AttributeValue::parse(b"15");
    assert_eq!(
        value.as_string().unwrap_err(),
        "Invalid parameter type. Expected string - found type: number"
    );
    assert_eq!(
        value.as_bool().unwrap_err(),
        "Invalid parameter type. Expected bool - found type: number"
    );
}

#[test]
fn flag_value_is_none_and_reads_as_no_kind() {
    let value = AttributeValue::NoValue;
    assert!(value.is_none());
    assert_eq!(value.type_as_str(), "none");
    assert_eq!(
        value.as_string().unwrap_err(),
        "Invalid parameter type. Expected string - found type: none"
    );
    assert_eq!(
        value.as_bool().unwrap_err(),
        "Invalid parameter type. Expected bool - found type: none"
    );
    assert_eq!(
        value.as_type::<usize>().unwrap_err(),
        "Invalid parameter type. Expected number - found type: none"
    );
}

#[test]
fn conversion_outcome_keeps_the_value_or_names_the_text() {
    assert_eq!(number_result(Some(3u8), "3"), Ok(3u8));
    assert_eq!(
        number_result::<u8>(None, "300"),
        Err("Can not parse value: 300".to_string())
    );
}

#[test]
fn bytes_that_are_no_token_are_not_classified() {
    assert!(AttributeValue::try_parse(b"").is_none());
    assert!(AttributeValue::try_parse(b"\"").is_none());
    assert!(AttributeValue::try_parse(b"\xff").is_none());
    assert!(AttributeValue::try_parse(b"\"\xc3\"").is_none());
    assert!(AttributeValue::try_parse(b"12\xc3").is_none());
}

#[test]
fn tokens_are_classified_by_their_spelling() {
    assert_eq!(AttributeValue::try_parse(b"\"\"").unwrap().as_string().unwrap(), "");
    assert_eq!(AttributeValue::try_parse(b"\"a\"").unwrap().as_string().unwrap(), "a");
    assert_eq!(AttributeValue::try_parse(b"\"ab").unwrap().as_string().unwrap(), "a");
    assert_eq!(AttributeValue::try_parse(b"true").unwrap().as_bool().unwrap(), true);
    assert_eq!(AttributeValue::try_parse(b"false").unwrap().as_bool().unwrap(), false);
    assert_eq!(AttributeValue::try_parse(b"0").unwrap().as_type::<u8>().unwrap(), 0);
    assert_eq!(
        AttributeValue::try_parse("½".as_bytes()).unwrap().as_type::<String>().unwrap(),
        "½"
    );
}
