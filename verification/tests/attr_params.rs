use attribute_reader::AttributeParams;

#[test]
fn test_simple_params() {
    let params = r#"(a: "1", b: "2")"#;

    let result = AttributeParams::new(params.to_string());

    assert_eq!("1", result.get_named_param("a").unwrap().get_value_as_str());
    assert_eq!("2", result.get_named_param("b").unwrap().get_value_as_str());

    assert_eq!(
        "2",
        result
            .get_from_single_or_named("b")
            .unwrap()
            .get_value_as_str()
    );
}

#[test]
fn test_params_with_number_and_bool() {
    let params = r#"(a: 1, b: true)"#;

    let result = AttributeParams::new(params.to_string());

    assert_eq!(1, result.get_named_param("a").unwrap().get_value().unwrap());
    assert_eq!(true, result.get_named_param("b").unwrap().get_value().unwrap());
}

#[test]
fn test_single_param() {
    let params = r#"(">")"#;

    let result = AttributeParams::new(params.to_string());

    assert_eq!(">", result.get_single_param().unwrap().get_value_as_str());
}

#[test]
fn test_single_param_with_no_wrapper() {
    let params = r#"(>)"#;

    let result = AttributeParams::new(params.to_string());

    assert_eq!(">", result.get_single_param().unwrap().get_value_as_str());
}
