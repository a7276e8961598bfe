use exercises::json::errors::{ConversionError, ParseError, SyntaxError};
use exercises::json::value::{JsonMap, JsonNumber, JsonObject};

#[test]
fn test_parse_nested_object() {
    let input = r#"{
            "level1": {
            "level2": {
                "level3": {
                    "key": "deep_value"
                        }
                    }
                }
            }"#;

    let json = JsonObject::parse(input).expect("Failed to parse JSON");
    let obj = json.object().expect("Expected an object");

    let level1 = obj
        .get("level1")
        .unwrap()
        .object()
        .expect("Expected level1 object");
    let level2 = level1
        .get("level2")
        .unwrap()
        .object()
        .expect("Expected level2 object");
    let level3 = level2
        .get("level3")
        .unwrap()
        .object()
        .expect("Expected level3 object");

    assert_eq!(level3.get("key").unwrap().string().unwrap(), "deep_value");
}

#[test]
fn test_parse_mixed_object_and_array() {
    let input = r#"{
            "name": "John",
            "age": 30,
            "hobbies": ["reading", "cycling", "coding"],
            "address": {
                "city": "New York",
                "zip": "10001"
                }
            }"#;

    let json = JsonObject::parse(input).expect("Failed to parse JSON");
    let obj = json.object().expect("Expected an object");

    assert_eq!(obj.get("name").unwrap().string().unwrap(), "John");
    assert_eq!(
        *obj.get("age").unwrap().number().unwrap(),
        JsonNumber::new("30".to_string())
    );

    let hobbies = obj
        .get("hobbies")
        .unwrap()
        .array()
        .expect("Expected an array");
    assert_eq!(hobbies.len(), 3);
    assert_eq!(hobbies[0].string().unwrap(), "reading");
    assert_eq!(hobbies[1].string().unwrap(), "cycling");
    assert_eq!(hobbies[2].string().unwrap(), "coding");

    let address = obj
        .get("address")
        .unwrap()
        .object()
        .expect("Expected address object");
    assert_eq!(address.get("city").unwrap().string().unwrap(), "New York");
    assert_eq!(address.get("zip").unwrap().string().unwrap(), "10001");
}

#[test]
fn test_parse_deeply_nested_json() {
    let input = r#"{
            "level1": {
                "level2": {
                    "level3": {
                        "level4": {
                            "level5": {
                                "final_value": 999
                                }
                            }
                        }
                    }
                }
            }"#;

    let json = JsonObject::parse(input).expect("Failed to parse JSON");
    let obj = json.object().expect("Expected an object");

    let level1 = obj.get("level1").unwrap().object().expect("Expected level1");
    let level2 = level1
        .get("level2")
        .unwrap()
        .object()
        .expect("Expected level2");
    let level3 = level2
        .get("level3")
        .unwrap()
        .object()
        .expect("Expected level3");
    let level4 = level3
        .get("level4")
        .unwrap()
        .object()
        .expect("Expected level4");
    let level5 = level4
        .get("level5")
        .unwrap()
        .object()
        .expect("Expected level5");

    assert_eq!(
        *level5.get("final_value").unwrap().number().unwrap(),
        JsonNumber::new("999".to_string())
    );
}

#[test]
fn test_parse_empty_object_and_array() {
    let input = r#"{ "empty_object":{},"empty_array": [] }"#;

    let json = JsonObject::parse(input).expect("Failed to parse JSON");
    let obj = json.object().expect("Expected an object");

    assert!(obj.get("empty_object").unwrap().object().unwrap().is_empty());
    assert!(obj.get("empty_array").unwrap().array().unwrap().is_empty());
}

#[test]
fn test_parse_nested_array() {
    let input = r#"{"test":[ [1, 2], [3, [4, 5]], [6] ]}"#;

    let json = JsonObject::parse(input).expect("Failed to parse JSON");
    let arr = json
        .object()
        .unwrap()
        .get("test")
        .unwrap()
        .array()
        .expect("Expected an array");

    assert_eq!(arr.len(), 3);

    let first = arr[0].array().expect("Expected first array");
    assert_eq!(*first[0].number().unwrap(), JsonNumber::new("1".to_string()));
    assert_eq!(*first[1].number().unwrap(), JsonNumber::new("2".to_string()));

    let second = arr[1].array().expect("Expected second array");
    assert_eq!(
        *second[0].number().unwrap(),
        JsonNumber::new("3".to_string())
    );

    let nested = second[1].array().expect("Expected nested array");
    assert_eq!(
        *nested[0].number().unwrap(),
        JsonNumber::new("4".to_string())
    );
    assert_eq!(
        *nested[1].number().unwrap(),
        JsonNumber::new("5".to_string())
    );

    let third = arr[2].array().expect("Expected third array");
    assert_eq!(*third[0].number().unwrap(), JsonNumber::new("6".to_string()));
}

#[test]
fn test_parse_json_with_whitespace() {
    let input = r#"
            {
                "key": "value",
                "number":  42 ,
                "boolean":    true ,
                "null": null
            }
            "#;

    let json = JsonObject::parse(input).expect("Failed to parse JSON");
    let obj = json.object().expect("Expected an object");

    assert_eq!(obj.get("key").unwrap().string().unwrap(), "value");
    assert_eq!(
        *obj.get("number").unwrap().number().unwrap(),
        JsonNumber::new("42".to_string())
    );
    assert_eq!(obj.get("boolean").unwrap().bool().unwrap(), true);
    assert!(obj.get("null").unwrap().null());
}

#[test]
fn test_parse_object() {
    let input = r#"{ "key": "value", "number": 42, "boolean": true, "null": null }"#;
    let json = JsonObject::parse(input).expect("Failed to parse JSON");

    let obj = json.object().expect("Expected an object");
    assert_eq!(obj.len(), 4);

    assert_eq!(obj.get("key").unwrap().string().unwrap(), "value");
    assert_eq!(
        *obj.get("number").unwrap().number().unwrap(),
        JsonNumber::new("42".to_string())
    );
    assert_eq!(obj.get("boolean").unwrap().bool().unwrap(), true);
    assert!(obj.get("null").unwrap().null());
}

#[test]
fn test_invalid_json_missing_bracket() {
    let input = r#"{ "key": "value", "number": 42 "#;
    assert!(JsonObject::parse(input).is_err());
}

#[test]
fn test_invalid_json_unquoted_key() {
    let input = r#"{ key: "value" }"#;
    assert!(JsonObject::parse(input).is_err());
}

#[test]
fn test_invalid_json_trailing_comma() {
    let input = r#"{ "key": "value", }"#;
    assert!(JsonObject::parse(input).is_err());
}

#[test]
fn test_parse_array() {
    let input = r#"{"test":[ "item1", 2, false, null ]}"#;
    let json = JsonObject::parse(input).expect("Failed to parse JSON");

    let obj = json.object().expect("Expected an object");
    let arr = obj.get("test").unwrap().array().unwrap();
    assert_eq!(arr.len(), 4);

    assert_eq!(arr[0].string().unwrap(), "item1");
    assert_eq!(*arr[1].number().unwrap(), JsonNumber::new("2".to_string()));
    assert_eq!(arr[2].bool().unwrap(), false);
    assert!(arr[3].null());
}

#[test]
fn test_invalid_json() {
    let input = "{ invalid json }";
    assert!(JsonObject::parse(input).is_err());
}

#[test]
fn test_object_accessor() {
    let mut map = JsonMap::new();
    map.insert("key".to_string(), JsonObject::String("value".to_string()));
    let json = JsonObject::Object(map);

    assert!(json.object().is_some());
    assert!(json.array().is_none());
}

#[test]
fn test_array_accessor() {
    let json = JsonObject::Array(vec![
        JsonObject::String("item1".to_string()),
        JsonObject::Number(JsonNumber::new("42".to_string())),
    ]);

    assert!(json.array().is_some());
    assert!(json.object().is_none());
}

#[test]
fn test_string_accessor() {
    let json = JsonObject::String("text".to_string());

    assert_eq!(json.string().unwrap(), "text");
    assert!(json.number().is_none());
}

#[test]
fn test_number_accessor() {
    let json = JsonObject::Number(JsonNumber::new("99.9".to_string()));

    assert_eq!(
        *json.number().unwrap(),
        JsonNumber::new("99.9".to_string())
    );
    assert!(json.string().is_none());
}

#[test]
fn test_bool_accessor() {
    let json_true = JsonObject::True;
    let json_false = JsonObject::False;

    assert_eq!(json_true.bool().unwrap(), true);
    assert_eq!(json_false.bool().unwrap(), false);
}

#[test]
fn test_null_accessor() {
    let json = JsonObject::Null;

    assert!(json.null());
}

#[test]
fn test_valid_document_root_is_object() {
    let input = r#"{"s":"x","n":-2.5e3,"t":true,"f":false,"z":null,"o":{"k":[1]},"a":["y",{}]}"#;
    let doc = JsonObject::parse(input).expect("valid literal must parse");
    assert!(doc.object().is_some());
}

#[test]
fn test_empty_object_accepted_bare_array_rejected() {
    let doc = JsonObject::parse("{}").unwrap();
    assert_eq!(doc.object().unwrap().len(), 0);
    assert_eq!(
        JsonObject::parse("[]"),
        Err(ParseError::Syntax(SyntaxError::ExpectedObject))
    );
}

#[test]
fn test_escaped_quote_decodes_inside_value() {
    let doc = JsonObject::parse(r#"{"k":"v\"x"}"#).unwrap();
    let obj = doc.object().unwrap();
    assert_eq!(obj.get("k").unwrap().string().unwrap(), "v\"x");
}

#[test]
fn test_duplicate_key_keeps_last_value() {
    let doc = JsonObject::parse(r#"{"a":1,"a":2}"#).unwrap();
    let obj = doc.object().unwrap();
    assert_eq!(obj.len(), 1);
    assert_eq!(
        *obj.get("a").unwrap().number().unwrap(),
        JsonNumber::new("2".to_string())
    );
}

#[test]
fn test_trailing_comma_is_reported_as_such() {
    assert_eq!(
        JsonObject::parse(r#"{"a":1,}"#),
        Err(ParseError::Syntax(SyntaxError::TrailingComma))
    );
    assert_eq!(
        JsonObject::parse(r#"{"a":[1,]}"#),
        Err(ParseError::Syntax(SyntaxError::TrailingComma))
    );
}

#[test]
fn test_syntax_error_variants() {
    assert_eq!(
        JsonObject::parse(r#"{"a" 1}"#),
        Err(ParseError::Syntax(SyntaxError::MissingColon))
    );
    assert_eq!(
        JsonObject::parse(r#"{"a":1 "b":2}"#),
        Err(ParseError::Syntax(SyntaxError::UnexpectedTokenInObject))
    );
    assert_eq!(
        JsonObject::parse(r#"{"a":1"#),
        Err(ParseError::Syntax(SyntaxError::UnterminatedObject))
    );
    assert_eq!(
        JsonObject::parse(r#"{"a":[1"#),
        Err(ParseError::Syntax(SyntaxError::UnterminatedArray))
    );
    assert_eq!(
        JsonObject::parse(r#"{"a":}"#),
        Err(ParseError::Syntax(SyntaxError::UnexpectedTokenInValue))
    );
    assert_eq!(
        JsonObject::parse(r#"{"a":"#),
        Err(ParseError::Syntax(SyntaxError::UnexpectedEndOfInput))
    );
}

#[test]
fn test_number_raw_text_and_conversions() {
    let doc = JsonObject::parse(r#"{"k": 3.14e10}"#).unwrap();
    let obj = doc.object().unwrap();
    let num = obj.get("k").unwrap().number().unwrap();
    assert_eq!(num.raw(), "3.14e10");
    assert!(num.raw().parse::<f32>().is_ok());
    assert_eq!(num.to_i32(), Err(ConversionError::Invalid));
}

#[test]
fn test_to_i32_values_and_errors() {
    assert_eq!(JsonNumber::new("42".to_string()).to_i32(), Ok(42));
    assert_eq!(JsonNumber::new("-13".to_string()).to_i32(), Ok(-13));
    assert_eq!(JsonNumber::new("+7".to_string()).to_i32(), Ok(7));
    assert_eq!(
        JsonNumber::new("2147483647".to_string()).to_i32(),
        Ok(2147483647)
    );
    assert_eq!(
        JsonNumber::new("-2147483648".to_string()).to_i32(),
        Ok(-2147483648)
    );
    assert_eq!(
        JsonNumber::new("2147483648".to_string()).to_i32(),
        Err(ConversionError::OutOfRange)
    );
    assert_eq!(
        JsonNumber::new("-2147483649".to_string()).to_i32(),
        Err(ConversionError::OutOfRange)
    );
    assert_eq!(
        JsonNumber::new("".to_string()).to_i32(),
        Err(ConversionError::Invalid)
    );
    assert_eq!(
        JsonNumber::new("-".to_string()).to_i32(),
        Err(ConversionError::Invalid)
    );
    assert_eq!(
        JsonNumber::new("0007".to_string()).to_i32(),
        Ok(7)
    );
}

#[test]
fn test_parsing_same_text_twice_gives_equal_documents() {
    let input = r#"{"a":[1,{"b":"c"}],"d":null,"e":true}"#;
    let first = JsonObject::parse(input).unwrap();
    let second = JsonObject::parse(input).unwrap();
    assert_eq!(first, second);
}
