use changes_parser::change_path::{ChangePath, TargetPath};
use changes_parser::error::ParserError;
use changes_parser::parsers::path_plus_number::NumberVocabulary;
use changes_parser::parsers::replace::replace_all;

fn vocabulary() -> NumberVocabulary {
    let letters: Vec<char> = "абвгдеёжзийклмнопрстуфхцчшщъыьэюя".chars().collect();
    let ordinals = [
        ("второй", 2),
        ("третьим", 3),
        ("пятый", 5),
        ("шестой", 6),
        ("седьмым", 7),
        ("восьмой", 8),
        ("девятым", 9),
        ("десятым", 10),
        ("одиннадцатым", 11),
        ("двенадцатым", 12),
    ];
    NumberVocabulary {
        number_chars: "0123456789^_-".chars().collect(),
        letter_order: letters.iter().map(|c| c.to_string()).collect(),
        letters,
        indent_numbers: ordinals.iter().map(|(w, n)| (w.to_string(), *n)).collect(),
    }
}

/// Each step as its kind and the first part of its number.
fn steps(tp: &TargetPath) -> Vec<String> {
    tp.get_paths()
        .iter()
        .map(|p| match p {
            ChangePath::Header { number, header_type } => format!("{:?} {}", header_type, number.number),
            ChangePath::Item { number, item_type } => format!("{:?} {}", item_type, number.number),
            ChangePath::Indent(n) => format!("Indent {}", n),
        })
        .collect()
}

#[test]
fn replace_test_check_add() {
    let voc = vocabulary();
    let check_all_strings: Vec<&str> = vec![
        "абзац восьмой считать абзацем девятым и изложить его в следующей редакции:",
        "абзацы пятый и шестой изложить в следующей редакции:",
        "абзац второй изложить в следующей редакции:",
        "а) наименование изложить в следующей редакции:",
        "19) части 2 и 3 статьи 32 изложить в следующей редакции:",
    ];
    for s in check_all_strings {
        let p = replace_all(s, &voc).unwrap();
        assert_eq!(p.0, "");
    }
}

#[test]
fn test_apply9() {
    let voc = vocabulary();
    let s = "абзац восьмой считать абзацем девятым и изложить его в следующей редакции:";
    let p = replace_all(s, &voc).unwrap();
    assert_eq!(steps(&p.1), vec!["Indent 8"]);
}

#[test]
fn replace_test_apply8() {
    let voc = vocabulary();
    let p = replace_all("абзацы пятый и шестой изложить в следующей редакции:", &voc).unwrap();
    assert_eq!(steps(&p.1), vec!["Indent 5", "Indent 6"]);
}

#[test]
fn test_replace_11() {
    let voc = vocabulary();
    let p = replace_all("абзац второй изложить в следующей редакции:", &voc).unwrap();
    assert_eq!(steps(&p.1), vec!["Indent 2"]);
}

#[test]
fn test_replace_12() {
    let voc = vocabulary();
    let e = replace_all("дополнить абзацем третьим следующего содержания:", &voc).err().unwrap();
    match e {
        ParserError::NomError { input, .. } => assert_eq!(input, "дополнить абзацем третьим следующего содержания:"),
        _ => panic!("unexpected error"),
    }
}

#[test]
fn test_replace8() {
    let voc = vocabulary();
    let p = replace_all("7) статью 13 изложить в следующей редакции:", &voc).unwrap();
    assert_eq!(p.0, "");
    assert_eq!(steps(&p.1), vec!["Article 13"]);
}

#[test]
fn replace_a_name() {
    let voc = vocabulary();
    let p = replace_all("а) наименование изложить в следующей редакции:", &voc).unwrap();
    assert_eq!(p.1.get_paths().len(), 0);
}

#[test]
fn replace_sorted_path() {
    let voc = vocabulary();
    let p = replace_all("19) части 2 и 3 статьи 32 изложить в следующей редакции:", &voc).unwrap();
    assert_eq!(steps(&p.1), vec!["Article 32", "Part 2", "Part 3"]);
}
