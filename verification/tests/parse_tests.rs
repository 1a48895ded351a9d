use jsonish::parse;
use jsonish::parser::ParseError;
use jsonish::tokenizer::token::TokenKind;
use jsonish::value::{AccessError, Value};

fn lookup<'a>(fields: &'a [(String, Value)], key: &str) -> &'a Value {
    for (k, v) in fields {
        if k == key {
            return v;
        }
    }
    panic!("no field named {}", key);
}

#[test]
fn test_empty_object() {
    let res = parse("{}").expect("an empty object parses");
    assert_eq!(res, Value::Object(vec![]));
}

#[test]
fn test_empty_array() {
    let res = parse("[]").expect("an empty array parses");
    assert_eq!(res, Value::Array(vec![]));
}

#[test]
fn test_array_preserves_source_order() {
    let res = parse("[1,2,3]").expect("a plain array parses");
    assert_eq!(
        res,
        Value::Array(vec![
            Value::Number("1".to_string()),
            Value::Number("2".to_string()),
            Value::Number("3".to_string()),
        ])
    );
}

#[test]
fn test_nested_objects() {
    let res = parse("{\"o\":{\"n\":\"v\"}}").expect("a nested object parses");
    let outer = res.get_obj().expect("the outer value is an object");
    let inner = lookup(&outer, "o").clone().get_obj().expect("the inner value is an object");
    assert_eq!(lookup(&inner, "n"), &Value::String("v".to_string()));
}

#[test]
fn test_deeper_nesting_round_trips() {
    let res = parse("{\"a\":{\"b\":{\"c\":[true]}}}").expect("deep nesting parses");
    let a = res.get_obj().expect("object");
    let b = lookup(&a, "a").clone().get_obj().expect("object");
    let c = lookup(&b, "b").clone().get_obj().expect("object");
    let arr = lookup(&c, "c").clone().get_arr().expect("array");
    assert_eq!(arr, vec![Value::Bool(true)]);
}

#[test]
fn test_mixed_container() {
    let res = parse("{\"stuff\":[1,false,\"foo\"]}").expect("a mixed container parses");
    let obj = res.get_obj().expect("the value is an object");
    assert_eq!(
        lookup(&obj, "stuff"),
        &Value::Array(vec![
            Value::Number("1".to_string()),
            Value::Bool(false),
            Value::String("foo".to_string()),
        ])
    );
}

#[test]
fn test_malformed_number_suffix_fails() {
    assert!(parse("{\"age\":32f}").is_err());
}

#[test]
fn test_unterminated_input_fails() {
    assert!(parse("{\"age").is_err());
}

#[test]
fn test_broken_true_literal_fails() {
    assert!(parse("{\"true\":truj}").is_err());
}

#[test]
fn test_two_decimal_points_fail() {
    assert!(parse("{\"age\":32.4.5}").is_err());
}

#[test]
fn test_duplicate_keys_last_write_wins() {
    let res = parse("{\"a\":1,\"a\":2}").expect("duplicate keys parse");
    let obj = res.get_obj().expect("the value is an object");
    assert_eq!(obj.len(), 1);
    assert_eq!(lookup(&obj, "a"), &Value::Number("2".to_string()));
}

#[test]
fn test_top_level_scalars() {
    assert_eq!(parse("true").unwrap(), Value::Bool(true));
    assert_eq!(parse("false").unwrap(), Value::Bool(false));
    assert_eq!(parse("42").unwrap(), Value::Number("42".to_string()));
}

#[test]
fn test_lexical_error_carries_position() {
    assert_eq!(
        parse("@"),
        Err(ParseError::Lexical { line: 1, column: 1 })
    );
}

#[test]
fn test_lexical_error_position_counts_lines() {
    assert_eq!(
        parse("\n\n @"),
        Err(ParseError::Lexical { line: 3, column: 2 })
    );
}

#[test]
fn test_error_colon_for_key() {
    assert_eq!(
        parse("{:"),
        Err(ParseError::ExpectedKey { got: TokenKind::Colon })
    );
}

#[test]
fn test_error_comma_for_key() {
    assert_eq!(
        parse("{,"),
        Err(ParseError::ExpectedKey { got: TokenKind::Comma })
    );
}

#[test]
fn test_error_top_level_colon() {
    assert_eq!(
        parse(":"),
        Err(ParseError::ExpectedKeyOrValue { got: TokenKind::Colon })
    );
}

#[test]
fn test_error_top_level_close_bracket() {
    assert_eq!(
        parse("]"),
        Err(ParseError::ExpectedKeyOrValue { got: TokenKind::CloseBracket })
    );
}

#[test]
fn test_error_missing_colon() {
    assert_eq!(
        parse("{\"a\" true}"),
        Err(ParseError::ExpectedColon { got: TokenKind::True })
    );
}

#[test]
fn test_error_close_brace_for_value() {
    assert_eq!(
        parse("{\"a\":}"),
        Err(ParseError::ExpectedValue { got: TokenKind::CloseBrace })
    );
}

#[test]
fn test_error_colon_for_value() {
    assert_eq!(
        parse("{\"a\"::}"),
        Err(ParseError::ExpectedValue { got: TokenKind::Colon })
    );
}

#[test]
fn test_error_comma_for_value() {
    assert_eq!(
        parse("{\"a\":,}"),
        Err(ParseError::ExpectedValue { got: TokenKind::Comma })
    );
}

#[test]
fn test_error_missing_comma_in_object() {
    assert_eq!(
        parse("{\"a\":true:"),
        Err(ParseError::ExpectedCommaOrCloseBrace { got: TokenKind::Colon })
    );
}

#[test]
fn test_error_close_brace_in_array() {
    assert_eq!(
        parse("[}"),
        Err(ParseError::ExpectedElement { got: TokenKind::CloseBrace })
    );
}

#[test]
fn test_error_colon_in_array() {
    assert_eq!(
        parse("[:"),
        Err(ParseError::ExpectedElement { got: TokenKind::Colon })
    );
}

#[test]
fn test_error_comma_in_array() {
    assert_eq!(
        parse("[,]"),
        Err(ParseError::ExpectedElement { got: TokenKind::Comma })
    );
}

#[test]
fn test_error_missing_comma_in_array() {
    assert_eq!(
        parse("[1 2]"),
        Err(ParseError::ExpectedCommaOrCloseBracket { got: TokenKind::Num })
    );
}

#[test]
fn test_mid_object_bare_value_is_an_error() {
    // A value where a key is expected is a grammar violation: the fields
    // parsed so far are not discarded in favour of a bare value.
    assert_eq!(
        parse("{\"a\":1,2}"),
        Err(ParseError::ExpectedKey { got: TokenKind::Num })
    );
}

#[test]
fn test_mid_object_array_is_an_error() {
    assert_eq!(
        parse("{\"a\":1,[2]}"),
        Err(ParseError::ExpectedKey { got: TokenKind::OpenBracket })
    );
}

#[test]
fn test_stray_close_bracket_as_key_is_an_error() {
    assert_eq!(
        parse("{]}"),
        Err(ParseError::ExpectedKey { got: TokenKind::CloseBracket })
    );
}

#[test]
fn test_stray_close_bracket_after_colon_is_an_error() {
    assert_eq!(
        parse("{\"a\":]}"),
        Err(ParseError::ExpectedValue { got: TokenKind::CloseBracket })
    );
}

#[test]
fn test_second_open_brace_is_an_error() {
    assert_eq!(
        parse("{{}}"),
        Err(ParseError::ExpectedKey { got: TokenKind::OpenBrace })
    );
}

#[test]
fn test_flat_object_round_trip() {
    let res = parse("{\"s\":\"text\",\"n\":7.5,\"t\":true,\"f\":false}")
        .expect("a flat object of scalars parses");
    let obj = res.get_obj().expect("the value is an object");
    assert_eq!(
        lookup(&obj, "s").clone().get_str().expect("a string comes back"),
        "text".to_string()
    );
    assert_eq!(
        lookup(&obj, "n").clone().get_num().expect("a number comes back"),
        "7.5".to_string()
    );
    assert_eq!(
        lookup(&obj, "t").clone().get_bool().expect("a boolean comes back"),
        true
    );
    assert_eq!(
        lookup(&obj, "f").clone().get_bool().expect("a boolean comes back"),
        false
    );
}

fn sample(tag: usize) -> Value {
    match tag {
        0 => Value::Object(vec![("k".to_string(), Value::Null)]),
        1 => Value::Array(vec![Value::Bool(true)]),
        2 => Value::String("s".to_string()),
        3 => Value::Number("1".to_string()),
        4 => Value::Bool(true),
        _ => Value::Null,
    }
}

#[test]
fn test_accessors_succeed_on_matching_tag() {
    assert!(sample(0).get_obj().is_ok());
    assert!(sample(1).get_arr().is_ok());
    assert!(sample(2).get_str().is_ok());
    assert!(sample(3).get_num().is_ok());
    assert!(sample(4).get_bool().is_ok());
    assert!(sample(5).is_null());
}

#[test]
fn test_accessors_fail_on_every_mismatched_tag() {
    for tag in 0..6 {
        if tag != 0 {
            assert_eq!(sample(tag).get_obj(), Err(AccessError::NotAnObject));
        }
        if tag != 1 {
            assert_eq!(sample(tag).get_arr(), Err(AccessError::NotAnArray));
        }
        if tag != 2 {
            assert_eq!(sample(tag).get_str(), Err(AccessError::NotAString));
        }
        if tag != 3 {
            assert_eq!(sample(tag).get_num(), Err(AccessError::NotANumber));
        }
        if tag != 4 {
            assert_eq!(sample(tag).get_bool(), Err(AccessError::NotABool));
        }
        if tag != 5 {
            assert!(!sample(tag).is_null());
        }
    }
}

#[test]
fn test_clone_preserves_the_tree() {
    let res = parse("{\"stuff\":[1,false,\"foo\"]}").expect("parses");
    let copy = res.clone();
    assert_eq!(res, copy);
}

#[test]
fn test_null_literal_is_a_lexical_error() {
    // The scanner recognizes no `null` literal, so it cannot round-trip.
    assert!(parse("{\"a\":null}").is_err());
}
