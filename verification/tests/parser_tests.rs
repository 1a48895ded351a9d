use jsonish::parser::Parser;
use jsonish::value::Value;

fn lookup<'a>(fields: &'a [(String, Value)], key: &str) -> &'a Value {
    for (k, v) in fields {
        if k == key {
            return v;
        }
    }
    panic!("no field named {}", key);
}

#[test]
#[should_panic]
fn test_error_handling_1() {
    let mut parser = Parser::new();
    parser.read_into_stream("{\"age\":32f}");
    parser.parse_obj().unwrap();
}

#[test]
#[should_panic]
fn test_error_handling_2() {
    let mut parser = Parser::new();
    parser.read_into_stream("{\"age");
    parser.parse_obj().unwrap();
}

#[test]
#[should_panic]
fn test_error_handling_3() {
    let mut parser = Parser::new();
    parser.read_into_stream("{\"false\":fald}");
    parser.parse_obj().unwrap();
}

#[test]
#[should_panic]
fn test_error_handling_4() {
    let mut parser = Parser::new();
    parser.read_into_stream("{\"true\":truj}");
    parser.parse_obj().unwrap();
}

#[test]
#[should_panic]
fn test_error_handling() {
    let mut parser = Parser::new();
    parser.read_into_stream("{\"age\":32.4.5}");
    parser.parse_obj().unwrap();
}

#[test]
fn test_simple_json() {
    let mut parser = Parser::new();
    parser.read_into_stream("{\"name\":\"Wazowski\"}");
    let res = parser.parse_obj().expect("should be ok");
    if let Value::Object(map) = res {
        assert_eq!(lookup(&map, "name"), &Value::String("Wazowski".to_string()));
    }
}

#[test]
fn test_simple_json_2() {
    let mut parser = Parser::new();
    parser.read_into_stream(
        "{\
                                \"name\": \"Mike\", \
                                \"age\": 21, \
                                \"alive\": true\
                             }",
    );
    let res = parser.parse_obj().expect("should work");
    if let Value::Object(map) = res {
        assert_eq!(lookup(&map, "name"), &Value::String("Mike".to_string()));
        assert_eq!(lookup(&map, "age"), &Value::Number("21".to_string()));
        assert_eq!(lookup(&map, "alive"), &Value::Bool(true));
    }
}

#[test]
fn test_nested_json_1() {
    let mut parser = Parser::new();
    parser.read_into_stream(
        "{\
                                \"object\": {\
                                                \"name\": \"Mike\"\
                                            }\
                             }",
    );
    let res = parser.parse_obj().expect("this will actualy never fail");
    if let Value::Object(map) = res {
        let obj = lookup(&map, "object");
        if let Value::Object(object) = obj {
            println!("{:?}", object);
            assert_eq!(lookup(object, "name"), &Value::String("Mike".to_string()));
        }
    }
}

#[test]
fn test_simple_json_array() {
    let mut parser = Parser::new();
    parser.read_into_stream("[1,2,3]");
    let res = parser.parse_obj().expect("I cannot make an error");
    if let Value::Array(arr) = res {
        assert_eq!(arr[0], Value::Number("1".to_string()));
        assert_eq!(arr[1], Value::Number("2".to_string()));
        assert_eq!(arr[2], Value::Number("3".to_string()));
    } else {
        panic!("Result is not an array!");
    }
}

#[test]
fn test_json_array() {
    let mut parser = Parser::new();
    parser.read_into_stream("{ \"stuff\": [1, false, \"foo\"] }");
    let res = parser.parse_obj().expect("will be fine");
    if let Value::Object(obj) = res {
        let array = lookup(&obj, "stuff");
        if let Value::Array(arr) = array {
            assert_eq!(arr[0], Value::Number("1".to_string()));
            assert_eq!(arr[1], Value::Bool(false));
            assert_eq!(arr[2], Value::String("foo".to_string()));
        } else {
            panic!("Result is not an array!");
        }
    } else {
        panic!("Result is not an object!");
    }
}
