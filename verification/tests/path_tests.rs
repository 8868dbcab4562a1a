use changes_parser::change_path::{ChangePath, TargetPath};
use changes_parser::error::ParserError;
use changes_parser::objects::header_type::HeaderType;
use changes_parser::objects::item_type::ItemType;
use changes_parser::parsers::path_plus_number::{
    header_sequence, indent_number, indent_number_sequence, indent_sequence, item_sequence, only_path_definition, paths,
    separate_range_tags, separate_tags, verify_indent_number, verify_number, NumberVocabulary,
};

fn vocabulary() -> NumberVocabulary {
    let letters: Vec<char> = "абвгдеёжзийклмнопрстуфхцчшщъыьэюя".chars().collect();
    let ordinals = [
        ("второй", 2),
        ("третьим", 3),
        ("пятый", 5),
        ("шестой", 6),
        ("седьмым", 7),
        ("девятым", 9),
        ("десятым", 10),
        ("одиннадцатым", 11),
        ("одиннадцатый", 11),
        ("двенадцатым", 12),
    ];
    NumberVocabulary {
        number_chars: "0123456789^_-".chars().collect(),
        letter_order: letters.iter().map(|c| c.to_string()).collect(),
        letters,
        indent_numbers: ordinals.iter().map(|(w, n)| (w.to_string(), *n)).collect(),
    }
}

/// Each step as its kind and the first part of its number.
fn steps(tp: &TargetPath) -> Vec<String> {
    tp.get_paths()
        .iter()
        .map(|p| match p {
            ChangePath::Header { number, header_type } => format!("{:?} {}", header_type, number.number),
            ChangePath::Item { number, item_type } => format!("{:?} {}", item_type, number.number),
            ChangePath::Indent(n) => format!("Indent {}", n),
        })
        .collect()
}

fn indents(tp: &TargetPath) -> Vec<u32> {
    tp.get_paths()
        .iter()
        .map(|p| match p {
            ChangePath::Indent(n) => *n,
            _ => panic!("not a paragraph step"),
        })
        .collect()
}

#[test]
fn test_path() {
    let voc = vocabulary();
    let s = "подпункте 1 пункте 3 статьи 2^2 ";
    let p = paths(s, &voc).unwrap();
    assert_eq!(p.0, "");
    assert_eq!(steps(&p.1), vec!["Article 2", "Subitem 1", "Item 3"]);
    match &p.1.get_paths()[0] {
        ChangePath::Header { number, .. } => assert!(number.next.is_some()),
        _ => panic!("the first step is not a header"),
    }
}

#[test]
fn test_long_numbering() {
    let voc = vocabulary();
    let s = "пунктов 1, 3, 5 - 7, 9 - 11, 14 и 17 статьи 1";
    let p = paths(s, &voc).unwrap();
    assert_eq!(p.0, "");
    let st = steps(&p.1);
    assert_eq!(st.len(), 11);
    assert_eq!(st[0], "Article 1");
    let mut items: Vec<String> = st[1..].to_vec();
    items.sort();
    let mut expected: Vec<String> = ["1", "3", "5", "6", "7", "9", "10", "11", "14", "17"]
        .iter()
        .map(|n| format!("Item {}", n))
        .collect();
    expected.sort();
    assert_eq!(items, expected);
}

#[test]
fn test_only_path() {
    let voc = vocabulary();
    let check_all_strings: Vec<&str> = vec![
        "1) в статье 40:",
        "п) в пункте 16:",
        "1) в статье 4^12:",
        "п) в пункте 1_6:",
        "п) в пункте 1^1-1:",
    ];
    for s in check_all_strings {
        let p = only_path_definition(s, &voc).unwrap();
        assert_eq!(p.0, "");
        assert_eq!(p.1.get_paths().len(), 1);
    }
    let p = only_path_definition("1) в статье 40:", &voc).unwrap();
    assert_eq!(steps(&p.1), vec!["Article 40"]);
}

#[test]
fn only_path_needs_the_colon() {
    let voc = vocabulary();
    let e = only_path_definition("1) в статье 40", &voc).err().unwrap();
    match e {
        ParserError::NomError { input, .. } => assert_eq!(input, ""),
        _ => panic!("unexpected error"),
    }
}

#[test]
fn test_items1() {
    let voc = vocabulary();
    let s = "части 10, 11, 13 - 17 ";
    let p = item_sequence(s, &voc).unwrap();
    assert_eq!(p.0, "");
    assert_eq!(
        steps(&p.1),
        vec!["Part 10", "Part 11", "Part 13", "Part 14", "Part 15", "Part 16", "Part 17"]
    );
}

#[test]
fn test_items2() {
    let voc = vocabulary();
    let s = "пункт 10, 11, 13 и 14, 15-17 ";
    let p = item_sequence(s, &voc).unwrap();
    assert_eq!(p.0, "15-17 ");
    assert_eq!(steps(&p.1), vec!["Item 10", "Item 11", "Item 13", "Item 14"]);
}

#[test]
fn test_items3() {
    let voc = vocabulary();
    let s = "подпункты \"з\" - \"ю\" исключить";
    let p = item_sequence(s, &voc).unwrap();
    assert_eq!(p.0, "исключить");
    let st = steps(&p.1);
    assert_eq!(st.len(), 26);
    assert_eq!(st[0], "Subitem з");
    assert_eq!(st[23], "Subitem ю");
    assert_eq!(st[24], "Subitem з");
    assert_eq!(st[25], "Subitem ю");
}

#[test]
fn test_items4() {
    let voc = vocabulary();
    let p = item_sequence("части 2^2 и 2^9 ", &voc).unwrap();
    assert_eq!(p.0, "");
    assert_eq!(steps(&p.1), vec!["Part 2", "Part 2"]);
}

#[test]
fn test_items5() {
    let voc = vocabulary();
    let p = item_sequence("части 2^2 - 2^9 ", &voc).unwrap();
    assert_eq!(p.0, "");
    assert_eq!(p.1.get_paths().len(), 8);
}

#[test]
fn test_items6() {
    let voc = vocabulary();
    let p = item_sequence("части 2 - 2^4 ", &voc).unwrap();
    assert_eq!(p.0, "");
    assert_eq!(p.1.get_paths().len(), 5);
    match &p.1.get_paths()[0] {
        ChangePath::Item { number, item_type } => {
            assert_eq!(*item_type, ItemType::Part);
            assert_eq!(number.number, "2");
            assert!(number.next.is_none());
        }
        _ => panic!("not a unit step"),
    }
}

#[test]
fn test_indents_numbers() {
    let voc = vocabulary();
    let s = "абзацами седьмым - десятым и абзацами одиннадцатым и двенадцатым следующего содержания:";
    let p = indent_sequence(s, &voc).unwrap();
    assert_eq!(p.0, "следующего содержания:");
    assert_eq!(indents(&p.1), vec![7, 8, 9, 10, 11, 12]);
}

#[test]
fn test_indents_numbers2() {
    let voc = vocabulary();
    let p = indent_sequence("абзацами одиннадцатым и двенадцатым", &voc).unwrap();
    assert_eq!(p.0, "");
    assert_eq!(indents(&p.1), vec![11, 12]);
}

#[test]
fn test_indents_numbers3() {
    let voc = vocabulary();
    let p = indent_sequence("абзац одиннадцатый следующего содержания:", &voc).unwrap();
    assert_eq!(p.0, "следующего содержания:");
    assert_eq!(indents(&p.1), vec![11]);
}

#[test]
fn test_indents_numbers4() {
    let voc = vocabulary();
    let s = "абзацем следующего содержания:";
    let e = indent_sequence(s, &voc).err().unwrap();
    match e {
        ParserError::IndentQueueTokensError(rest) => assert_eq!(rest, "следующего содержания:"),
        _ => panic!("unexpected error"),
    }
}

#[test]
fn test_indents_numbers5() {
    let voc = vocabulary();
    let p = indent_sequence("абзацем третьим следующего содержания:", &voc).unwrap();
    assert_eq!(indents(&p.1), vec![3]);
}

#[test]
fn test_indents_numbers6() {
    let voc = vocabulary();
    let p = indent_sequence("абзац второй следующего содержания:", &voc).unwrap();
    assert_eq!(p.0, "следующего содержания:");
    assert_eq!(indents(&p.1), vec![2]);
}

#[test]
fn test_items_numbers6() {
    let voc = vocabulary();
    let p = header_sequence("статьями 9^1 и 9^2 следующего содержания:", &voc).unwrap();
    assert_eq!(p.0, "следующего содержания:");
    assert_eq!(steps(&p.1), vec!["Article 9", "Article 9"]);
    match &p.1.get_paths()[1] {
        ChangePath::Header { header_type, number } => {
            assert_eq!(*header_type, HeaderType::Article);
            assert!(number.next.is_some());
        }
        _ => panic!("not a header step"),
    }
}

#[test]
fn test_items_numbers7() {
    let voc = vocabulary();
    let p = indent_sequence("абзацем девятым и изложить его в следующей редакции:", &voc).unwrap();
    assert_eq!(p.0, "изложить его в следующей редакции:");
    assert_eq!(indents(&p.1), vec![9]);
}

#[test]
fn test_items_numbers8() {
    let voc = vocabulary();
    let p = indent_sequence("абзацы пятый и шестой изложить в следующей редакции:", &voc).unwrap();
    assert_eq!(p.0, "изложить в следующей редакции:");
    assert_eq!(indents(&p.1), vec![5, 6]);
}

#[test]
fn units_need_a_word() {
    let voc = vocabulary();
    let e = header_sequence("пункт 1", &voc).err().unwrap();
    match e {
        ParserError::NomError { input, .. } => assert_eq!(input, "пункт 1"),
        _ => panic!("unexpected error"),
    }
}

#[test]
fn chapters_are_sections() {
    let voc = vocabulary();
    let p = header_sequence("главы 3 и 4 ", &voc).unwrap();
    assert_eq!(steps(&p.1), vec!["Section 3", "Section 4"]);
}

#[test]
fn separators_of_numbers() {
    assert_eq!(separate_tags(", 1").unwrap(), ("1", ", "));
    assert_eq!(separate_tags(" и 2").unwrap(), ("2", " и "));
    assert!(separate_tags("1").is_err());
    assert_eq!(separate_range_tags(" - 5").unwrap(), ("5", " - "));
    assert!(separate_range_tags(", 5").is_err());
}

#[test]
fn single_numbers() {
    let voc = vocabulary();
    assert_eq!(verify_number("2^2 x", &voc).unwrap(), (" x", "2^2"));
    assert_eq!(verify_number("\"з\" - ", &voc).unwrap(), (" - ", "з"));
    assert!(verify_number("x", &voc).is_err());
}

#[test]
fn paragraph_words() {
    let voc = vocabulary();
    assert_eq!(verify_indent_number("седьмым - десятым", &voc).unwrap(), (" - десятым", "седьмым"));
    match verify_indent_number("и абзацами", &voc).err().unwrap() {
        ParserError::IndentQueueTokensError(rest) => assert_eq!(rest, "и абзацами"),
        _ => panic!("unexpected error"),
    }
    let p = indent_number_sequence("седьмым - десятым и ", &voc).unwrap();
    assert_eq!(p.1, vec![7, 8, 9, 10]);
    let p = indent_number("третьим следующего", &voc).unwrap();
    assert_eq!(p, ("следующего", vec![3]));
}
