use jsonish::tokenizer::token::Token;
use jsonish::tokenizer::Tokenizer;

#[test]
fn test_bad_string() {
    let mut tokenizer = Tokenizer::new("\"This is a bad string");
    let tokens = tokenizer.tokenize();
    assert_eq!(
        tokens,
        vec![Token::BadToken {
            line_number: 1,
            char_number: 1
        }],
    );
}

#[test]
fn test_bad_number() {
    let mut tokenizer = Tokenizer::new("342d");
    let tokens = tokenizer.tokenize();
    assert_eq!(
        tokens,
        vec![Token::BadToken {
            line_number: 1,
            char_number: 1
        }],
    );
}

#[test]
fn test_bad_false() {
    let mut tokenizer = Tokenizer::new("falsf");
    let tokens = tokenizer.tokenize();
    assert_eq!(
        tokens,
        vec![Token::BadToken {
            line_number: 1,
            char_number: 1,
        }]
    );
}

#[test]
fn test_bad_true() {
    let mut tokenizer = Tokenizer::new("trud");
    let tokens = tokenizer.tokenize();
    assert_eq!(
        tokens,
        vec![Token::BadToken {
            line_number: 1,
            char_number: 1,
        }]
    );
}

#[test]
fn test_line_num() {
    let mut tokenizer = Tokenizer::new("hey\nbro");
    tokenizer.tokenize();
    assert_eq!(tokenizer.line_number, 2);
    assert_eq!(tokenizer.char_number, 3);
}

#[test]
fn test_simple_string() {
    let mut tokenizer = Tokenizer::new("\"Hello World!\"");
    let tokens = tokenizer.tokenize();
    assert_eq!(
        tokens,
        vec![Token::String {
            value: "Hello World!".to_string()
        }]
    )
}

#[test]
fn test_simple_tokens() {
    let mut tokenizer = Tokenizer::new("{\"hi\"}");
    let tokens = tokenizer.tokenize();
    assert_eq!(
        tokens,
        vec![
            Token::OpenCurlyBrace,
            Token::String {
                value: "hi".to_string()
            },
            Token::ClosedCurlyBrace
        ]
    );
}

#[test]
fn test_true_token() {
    let mut tokenizer = Tokenizer::new("\"true\":true");
    let tokens = tokenizer.tokenize();
    assert_eq!(
        tokens,
        vec![
            Token::String {
                value: "true".to_string()
            },
            Token::Colon,
            Token::True
        ]
    )
}

#[test]
fn test_false_token() {
    let mut tokenizer = Tokenizer::new("\"false\":false");
    let tokens = tokenizer.tokenize();
    assert_eq!(
        tokens,
        vec![
            Token::String {
                value: "false".to_string()
            },
            Token::Colon,
            Token::False
        ]
    )
}

#[test]
fn test_number_token() {
    let mut tokenizer = Tokenizer::new("420");
    let tokens = tokenizer.tokenize();
    assert_eq!(
        tokens,
        vec![Token::Number {
            value: "420".to_string()
        }]
    );
}

#[test]
fn test_basic_json_tokenization() {
    let mut tokenizer = Tokenizer::new("{ \"age\" : 23, \"male\" : true }");
    let tokens = tokenizer.tokenize();
    assert_eq!(
        tokens,
        vec![
            Token::OpenCurlyBrace,
            Token::String {
                value: "age".to_string()
            },
            Token::Colon,
            Token::Number {
                value: "23".to_string()
            },
            Token::Comma,
            Token::String {
                value: "male".to_string()
            },
            Token::Colon,
            Token::True,
            Token::ClosedCurlyBrace
        ]
    );
}

#[test]
fn test_square_bracket_token() {
    let mut tokenizer = Tokenizer::new("[]");
    let tokens = tokenizer.tokenize();
    assert_eq!(
        tokens,
        vec![Token::OpenSquareBrace, Token::ClosedSquareBrace]
    );
}

#[test]
fn test_decimal_number_token() {
    let mut tokenizer = Tokenizer::new("32.4 ");
    let tokens = tokenizer.tokenize();
    assert_eq!(
        tokens,
        vec![Token::Number {
            value: "32.4".to_string()
        }]
    );
}

#[test]
fn test_second_decimal_point_is_bad() {
    let mut tokenizer = Tokenizer::new("32.4.5");
    let tokens = tokenizer.tokenize();
    assert_eq!(
        tokens,
        vec![
            Token::BadToken {
                line_number: 1,
                char_number: 1,
            },
            Token::Number {
                value: "5".to_string()
            },
        ]
    );
}

#[test]
fn test_null_is_not_recognized() {
    // The scanner has no arm for `n`: a `null` literal in the input is a run
    // of unrecognized characters.
    let mut tokenizer = Tokenizer::new("null");
    let tokens = tokenizer.tokenize();
    assert_eq!(
        tokens,
        vec![
            Token::BadToken {
                line_number: 1,
                char_number: 1,
            },
            Token::BadToken {
                line_number: 1,
                char_number: 2,
            },
            Token::BadToken {
                line_number: 1,
                char_number: 3,
            },
            Token::BadToken {
                line_number: 1,
                char_number: 4,
            },
        ]
    );
}
