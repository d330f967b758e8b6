use yeti::Float;
use yeti::Token;

#[test]
fn tokenize_symbol() {
    let actual = yeti::tokenize("snake_case PascalCase kebab-case camelCase predicate?");
    let expected = vec![
        Token::Symbol("snake_case".to_string()),
        Token::Symbol("PascalCase".to_string()),
        Token::Symbol("kebab-case".to_string()),
        Token::Symbol("camelCase".to_string()),
        Token::Symbol("predicate?".to_string()),
    ];
    assert_eq!(actual, expected);
}

#[test]
fn tokenize_keyword() {
    let actual = yeti::tokenize(":snake_case :PascalCase :kebab-case :camelCase :predicate?");
    let expected = vec![
        Token::Keyword(":snake_case".to_string()),
        Token::Keyword(":PascalCase".to_string()),
        Token::Keyword(":kebab-case".to_string()),
        Token::Keyword(":camelCase".to_string()),
        Token::Keyword(":predicate?".to_string()),
    ];
    assert_eq!(actual, expected);
}

#[test]
fn tokenize_string_literal() {
    let actual = yeti::tokenize(r#""hello" "world" "123""#);
    let expected = vec![
        Token::String("hello".to_string()),
        Token::String("world".to_string()),
        Token::String("123".to_string()),
    ];
    assert_eq!(actual, expected);
}

#[test]
fn tokenize_integer() {
    let actual = yeti::tokenize("123 456 789 1_000 -321 -456");
    let expected = vec![
        Token::Integer(123),
        Token::Integer(456),
        Token::Integer(789),
        Token::Integer(1000),
        Token::Integer(-321),
        Token::Integer(-456),
    ];
    assert_eq!(actual, expected);
}

#[test]
fn tokenize_float() {
    let actual = yeti::tokenize("1.23 4.56 7.89 1_000.0 -3.23");
    let expected = vec![
        Token::Float(Float { mantissa: 123, scale: 2 }),
        Token::Float(Float { mantissa: 456, scale: 2 }),
        Token::Float(Float { mantissa: 789, scale: 2 }),
        Token::Float(Float { mantissa: 10000, scale: 1 }),
        Token::Float(Float { mantissa: -323, scale: 2 }),
    ];
    assert_eq!(actual, expected);
}

#[test]
fn tokenize_delimiters() {
    let actual = yeti::tokenize("( { [ ] } )");
    let expected = vec![
        Token::LeftParen,
        Token::LeftBrace,
        Token::LeftBracket,
        Token::RightBracket,
        Token::RightBrace,
        Token::RightParen,
    ];
    assert_eq!(actual, expected);
}

#[test]
fn tokenize_call_inside_array() {
    let actual = yeti::tokenize("[3.14 (+ 2 3)]");
    let expected = vec![
        Token::LeftBracket,
        Token::Float(Float { mantissa: 314, scale: 2 }),
        Token::LeftParen,
        Token::Symbol("+".to_string()),
        Token::Integer(2),
        Token::Integer(3),
        Token::RightParen,
        Token::RightBracket,
    ];
    assert_eq!(actual, expected);
}

#[test]
fn tokenize_rational() {
    let actual = yeti::tokenize("1/2");
    let expected = vec![Token::Ratio(1, 2)];
    assert_eq!(actual, expected);
}

#[test]
fn tokenize_quote() {
    let actual = yeti::tokenize("'(1 2)");
    let expected = vec![
        Token::Quote,
        Token::LeftParen,
        Token::Integer(1),
        Token::Integer(2),
        Token::RightParen,
    ];
    assert_eq!(actual, expected);
}

#[test]
fn tokenize_reduced_rational() {
    let actual = yeti::tokenize("4/6 7/1");
    let expected = vec![Token::Ratio(2, 3), Token::Integer(7)];
    assert_eq!(actual, expected);
}

#[test]
fn tokenize_string_escapes() {
    let actual = yeti::tokenize(r#""a\nb\t\"c\\""#);
    let expected = vec![Token::String("a\nb\t\"c\\".to_string())];
    assert_eq!(actual, expected);
}

#[test]
fn tokenize_unterminated_string() {
    let actual = yeti::tokenize("\"abc");
    let expected = vec![Token::Error("unterminated string".to_string())];
    assert_eq!(actual, expected);
}

#[test]
fn tokenize_oversized_integer() {
    let actual = yeti::tokenize("12345678901234567890123");
    assert!(matches!(actual[0], Token::Error(_)));
}

#[test]
fn tokenize_namespaced_symbol() {
    let actual = yeti::tokenize("sql/connect io/read-file /");
    let expected = vec![
        Token::NamespacedSymbol("sql/connect".to_string()),
        Token::NamespacedSymbol("io/read-file".to_string()),
        Token::Symbol("/".to_string()),
    ];
    assert_eq!(actual, expected);
}
