use attribute_reader::{is_single_value, AttributeParams, Position};

fn view(src: &str) -> AttributeParams {
    AttributeParams::new(src.to_string())
}

#[test]
fn quoted_content_is_a_single_value_without_its_quotes() {
    let params = view(r#"("some text, with (signs) = 1")"#);
    assert_eq!(
        params.get_single_param().unwrap().get_value_as_str(),
        "some text, with (signs) = 1"
    );
    assert!(params.get_named_param("some").is_none());
    assert!(!params.has_param("some"));
    assert_eq!(
        params
            .get_from_single_or_named("anything")
            .unwrap()
            .get_value_as_str(),
        "some text, with (signs) = 1"
    );
}

#[test]
fn quoted_single_value_round_trip() {
    for text in ["", ">", "a b", "żółć ✓", "it's", "a=1, b=2"] {
        let params = view(&format!("(\"{}\")", text));
        assert_eq!(params.get_single_param().unwrap().get_value_as_str(), text);
        let bare = view(&format!("\"{}\"", text));
        assert_eq!(bare.get_single_param().unwrap().get_value_as_str(), text);
    }
}

#[test]
fn content_without_whitespace_is_a_single_value() {
    assert_eq!(view("(abc)").get_single_param().unwrap().get_value_as_str(), "abc");
    assert_eq!(view("abc").get_single_param().unwrap().get_value_as_str(), "abc");
    assert_eq!(view("(15)").get_single_param().unwrap().get_value::<u8>().unwrap(), 15);
    assert_eq!(
        view("(a=1,b=2)").get_single_param().unwrap().get_value_as_str(),
        "a=1,b=2"
    );
    assert!(!view("(a=1,b=2)").has_param("a"));
}

#[test]
fn whitespace_around_the_content_is_dropped() {
    assert_eq!(view("  ( \"x y\" )\n").get_single_param().unwrap().get_value_as_str(), "x y");
    assert_eq!(view(" (\tabc ) ").get_single_param().unwrap().get_value_as_str(), "abc");
    assert_eq!(view(" abc ").get_single_param().unwrap().get_value_as_str(), "abc");
}

#[test]
fn empty_content_is_an_empty_list() {
    for src in ["", "()", " ( ) ", "   "] {
        let params = view(src);
        assert!(params.get_single_param().is_none());
        assert!(params.get_named_param("a").is_none());
        assert!(!params.has_param(""));
        assert!(params.get_from_single_or_named("a").is_none());
    }
}

#[test]
fn content_with_more_than_one_pair_of_quotes_is_a_list() {
    let params = view(r#"("a" "b")"#);
    assert!(params.get_single_param().is_none());
    assert_eq!(params.get_named_param("\"a\"").unwrap().get_value_as_str(), "b");
}

#[test]
fn list_gives_each_key_its_value() {
    let params = view(r#"(name = "P" ; amount: 15, on=true; off false; default)"#);
    assert!(params.get_single_param().is_none());
    assert_eq!(params.get_named_param("name").unwrap().get_value_as_str(), "P");
    assert_eq!(params.get_named_param("amount").unwrap().get_value_as_str(), "15");
    assert_eq!(params.get_named_param("amount").unwrap().get_value::<u32>().unwrap(), 15);
    assert_eq!(params.get_named_param("on").unwrap().get_value::<bool>().unwrap(), true);
    assert_eq!(params.get_named_param("off").unwrap().get_value::<bool>().unwrap(), false);
    assert_eq!(params.get_named_param("default").unwrap().get_value_as_str(), "");
    assert!(params.get_named_param("missing").is_none());
    assert!(params.get_named_param("nam").is_none());
    assert!(params.get_named_param("name ").is_none());
}

#[test]
fn has_param_tells_whether_a_key_is_there() {
    let params = view(r#"(name = "P"; default)"#);
    assert!(params.has_param("name"));
    assert!(params.has_param("default"));
    assert!(!params.has_param("P"));
    assert!(!params.has_param(""));
}

#[test]
fn first_of_two_equal_keys_wins() {
    let params = view(r#"(a = 1, a = 2, b; b = 3 )"#);
    assert_eq!(params.get_named_param("a").unwrap().get_value_as_str(), "1");
    assert_eq!(params.get_named_param("b").unwrap().get_value_as_str(), "");
}

#[test]
fn named_lookup_is_the_fallback_of_a_list() {
    let params = view(r#"(a: "1", b: "2")"#);
    assert_eq!(params.get_from_single_or_named("a").unwrap().get_value_as_str(), "1");
    assert!(params.get_from_single_or_named("c").is_none());
}

#[test]
fn value_that_does_not_convert_is_a_parse_error() {
    let params = view("(a: 1x, b: 2)");
    assert_eq!(
        params.get_named_param("a").unwrap().get_value::<i32>().unwrap_err(),
        "Can not parse value: 1x"
    );
    assert_eq!(params.get_named_param("b").unwrap().get_value::<i32>().unwrap(), 2);
}

#[test]
fn list_values_outside_ascii_are_sliced_whole() {
    let params = view("(imię = \"Zażółć gęślą\"; λ = ✓ )");
    assert_eq!(params.get_named_param("imię").unwrap().get_value_as_str(), "Zażółć gęślą");
    assert_eq!(params.get_named_param("λ").unwrap().get_value_as_str(), "✓");
}

#[test]
fn list_without_closing_parenthesis_loses_its_open_value() {
    let params = view("(a = 1, b = 2");
    assert_eq!(params.get_named_param("a").unwrap().get_value_as_str(), "1");
    assert!(params.get_named_param("b").is_none());
}

#[test]
fn single_value_positions() {
    let quoted = is_single_value(r#"(">")"#).unwrap();
    assert_eq!((quoted.from, quoted.to), (2, 3));
    let bare = is_single_value("(>)").unwrap();
    assert_eq!((bare.from, bare.to), (1, 2));
    let trimmed = is_single_value("  ( abc )").unwrap();
    assert_eq!((trimmed.from, trimmed.to), (4, 7));
    assert!(is_single_value("(a: 1)").is_none());
    assert!(is_single_value("()").is_none());
    assert!(is_single_value("").is_none());
    assert!(is_single_value(r#"("a", "b")"#).is_none());
}

#[test]
fn position_resolves_to_its_slice() {
    let src = "(name = \"Zażółć\")";
    assert_eq!(Position { from: 1, to: 5 }.get_str(src), "name");
    assert_eq!(Position { from: 9, to: 19 }.get_str(src), "Zażółć");
    assert_eq!(Position { from: 5, to: 5 }.get_str(src), "");
}

#[test]
fn unset_position_resolves_to_the_empty_text() {
    assert_eq!(Position { from: 0, to: 0 }.get_str("abc"), "");
    assert_eq!(Position::unset().get_str(""), "");
    let unset = Position::unset();
    assert_eq!((unset.from, unset.to), (0, 0));
}
