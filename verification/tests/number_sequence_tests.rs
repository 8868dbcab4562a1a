use changes_parser::error::{ErrorCode, ParserError};
use changes_parser::parsers::path_plus_number::{number, number_sequence, NumberVocabulary};

fn vocabulary() -> NumberVocabulary {
    let letters: Vec<char> = "абвгдеёжзийклмнопрстуфхцчшщъыьэюя".chars().collect();
    NumberVocabulary {
        number_chars: "0123456789^_".chars().collect(),
        letter_order: letters.iter().map(|c| c.to_string()).collect(),
        letters,
        indent_numbers: Vec::new(),
    }
}

#[test]
fn test_numbers() {
    let voc = vocabulary();
    let s = "10, 11, 13 - 17 ";
    let p = number_sequence(s, &voc).unwrap();
    assert_eq!(p.0, "");
    assert_eq!(p.1, vec!["10", "11", "13", "14", "15", "16", "17"]);
}

#[test]
fn superscript_ranges() {
    let voc = vocabulary();
    let p = number_sequence("2^2 - 2^9 ", &voc).unwrap();
    assert_eq!(p.1, vec!["2^2", "2^3", "2^4", "2^5", "2^6", "2^7", "2^8", "2^9"]);
    let p = number_sequence("2 - 2^4 ", &voc).unwrap();
    assert_eq!(p.1, vec!["2", "2^1", "2^2", "2^3", "2^4"]);
    let p = number_sequence("2^2 и 2^9 ", &voc).unwrap();
    assert_eq!(p.1, vec!["2^2", "2^9"]);
    let p = number_sequence("9^1 и 9^2 следующего содержания:", &voc).unwrap();
    assert_eq!(p.0, "следующего содержания:");
    assert_eq!(p.1, vec!["9^1", "9^2"]);
}

#[test]
fn letter_ranges() {
    let voc = vocabulary();
    let p = number_sequence("\"з\" - \"к\" исключить", &voc).unwrap();
    assert_eq!(p.0, "исключить");
    assert_eq!(p.1, vec!["з", "и", "й", "к", "з", "к"]);
}

#[test]
fn number_sequence_errors() {
    let voc = vocabulary();
    match number_sequence("абв", &voc) {
        Err(ParserError::NomError { input, code }) => {
            assert_eq!(input, "абв");
            assert_eq!(code, ErrorCode::IsA);
        },
        other => panic!("unexpected {:?}", other),
    }
    match number_sequence("15-17", &voc) {
        Err(ParserError::NomError { input, code }) => {
            assert_eq!(input, "-17");
            assert_eq!(code, ErrorCode::Tag);
        },
        other => panic!("unexpected {:?}", other),
    }
}

#[test]
fn a_single_number() {
    let voc = vocabulary();
    let p = number("12^1  остаток", &voc).unwrap();
    assert_eq!(p.0, "остаток");
    assert_eq!(p.1, vec!["12^1"]);
    let p = number("\"а\") дальше", &voc).unwrap();
    assert_eq!(p.0, ") дальше");
    assert_eq!(p.1, vec!["а"]);
}

#[test]
fn test_chars_range() {
    let voc = vocabulary();
    let p = number_sequence("\"а\" - \"ж\"", &voc).unwrap();
    assert_eq!(p.1, vec!["а", "б", "в", "г", "д", "е", "ё", "ж", "а", "ж"]);
}
