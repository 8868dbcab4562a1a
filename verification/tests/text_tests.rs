use changes_parser::error::{ErrorCode, ParserError};
use changes_parser::json_path_creator::JsonPathCreator;
use changes_parser::text::{escape_quotes, parse_u32, u64_to_string};

#[test]
fn error_messages() {
    assert_eq!(ParserError::Error("x".to_owned()).message(), "Ошибка `x`");
    assert_eq!(ParserError::ParseHeaderError("г".to_owned()).message(), "Заголовок `г` не распознан");
    assert_eq!(ParserError::ParseNumberError("1a".to_owned()).message(), "Номер `1a` не распознан");
    assert_eq!(
        ParserError::IndentQueueTokensError("абзац".to_owned()).message(),
        "Неправильная последовательность токенов номера абзаца -> абзац"
    );
    assert_eq!(
        ParserError::TokensParseErrors(vec!["a".to_owned(), "b".to_owned()]).message(),
        format!("Не распознана последовательность токенов->{:?}", vec!["a", "b"])
    );
    assert_eq!(ParserError::TokensParseErrors(vec![]).message(), "Не распознана последовательность токенов->[]");
    assert_eq!(ParserError::OperationError("op".to_owned()).message(), "op");
    assert_eq!(ParserError::ChangesMapFilePath("p".to_owned()).message(), "p");
    assert_eq!(
        ParserError::NomError { input: "rest".to_owned(), code: ErrorCode::Digit }.message(),
        "nom error: rest -> Digit"
    );
}

#[test]
fn numbers_in_decimal() {
    assert_eq!(u64_to_string(0), "0");
    assert_eq!(u64_to_string(1234567890123), "1234567890123");
    assert_eq!(u64_to_string(u64::MAX), u64::MAX.to_string());
    assert_eq!(parse_u32("42"), Some(42));
    assert_eq!(parse_u32("+7"), Some(7));
    assert_eq!(parse_u32("4294967295"), Some(u32::MAX));
    assert_eq!(parse_u32("4294967296"), None);
    assert_eq!(parse_u32(""), None);
    assert_eq!(parse_u32("+"), None);
    assert_eq!(parse_u32("-1"), None);
    assert_eq!(parse_u32("1a"), None);
    for s in ["0", "007", "+12", "99999999999", "12 ", "١٢"] {
        assert_eq!(parse_u32(s), s.parse::<u32>().ok());
    }
}

#[test]
fn quotes_are_escaped() {
    assert_eq!(escape_quotes("a \"b\" c"), "a \\\"b\\\" c");
    assert_eq!(escape_quotes("без кавычек"), "без кавычек");
    assert_eq!(escape_quotes(""), "");
}

#[test]
fn json_path_reverse_and_concat() {
    let mut p = JsonPathCreator::new_with_header("статья", Some("5"));
    p.add_item(Some("1")).add_indent(Some(2));
    let before = p.get_jsonpath();
    p.reverse();
    assert_ne!(p.get_jsonpath(), before);
    p.reverse();
    assert_eq!(p.get_jsonpath(), before);
    let a = JsonPathCreator::new_with_header("статья", Some("5"));
    let b = JsonPathCreator::new_with_item(Some("1"));
    let joined = a.concat(b);
    let mut expected = JsonPathCreator::new_with_header("статья", Some("5"));
    expected.add_item(Some("1"));
    assert_eq!(joined.get_jsonpath(), expected.get_jsonpath());
}
