use changes_parser::change_path::{ChangePath, TargetPath};
use changes_parser::parsers::apply::apply_all;
use changes_parser::parsers::path_plus_number::NumberVocabulary;

fn vocabulary() -> NumberVocabulary {
    let letters: Vec<char> = "абвгдеёжзийклмнопрстуфхцчшщъыьэюя".chars().collect();
    let ordinals = [
        ("второй", 2),
        ("третьим", 3),
        ("пятый", 5),
        ("шестой", 6),
        ("седьмым", 7),
        ("восьмой", 8),
        ("девятым", 9),
        ("десятым", 10),
        ("одиннадцатым", 11),
        ("двенадцатым", 12),
    ];
    NumberVocabulary {
        number_chars: "0123456789^_-".chars().collect(),
        letter_order: letters.iter().map(|c| c.to_string()).collect(),
        letters,
        indent_numbers: ordinals.iter().map(|(w, n)| (w.to_string(), *n)).collect(),
    }
}

/// Each step as its kind and the first part of its number.
fn steps(tp: &TargetPath) -> Vec<String> {
    tp.get_paths()
        .iter()
        .map(|p| match p {
            ChangePath::Header { number, header_type } => format!("{:?} {}", header_type, number.number),
            ChangePath::Item { number, item_type } => format!("{:?} {}", item_type, number.number),
            ChangePath::Indent(n) => format!("Indent {}", n),
        })
        .collect()
}

#[test]
fn apply_test_check_add() {
    let voc = vocabulary();
    let check_all_strings: Vec<&str> = vec![
        "4) статью 22 дополнить пунктом 7 следующего содержания:",
        "з) дополнить частями 9 - 11 следующего содержания:",
        "2) дополнить пунктом 8 следующего содержания:",
        "дополнить новым абзацем девятым следующего содержания:",
        "дополнить абзацем следующего содержания:",
        "дополнить абзацем третьим следующего содержания:",
        "дополнить новыми абзацами седьмым - десятым и абзацами одиннадцатым и двенадцатым следующего содержания:",
        "г) дополнить пунктами 16 - 22 следующего содержания:",
        "7) главу 2 дополнить статьями 9^1 и 9^2 следующего содержания:",
    ];
    for s in check_all_strings {
        let p = apply_all(s, &voc).unwrap();
        assert_eq!(p.0, "");
    }
}

#[test]
fn test_apply() {
    let voc = vocabulary();
    let s = "4) статью 22 дополнить пунктом 7 следующего содержания:";
    let p = apply_all(s, &voc).unwrap();
    let (outer, added) = p.1;
    assert_eq!(steps(&outer.unwrap()), vec!["Article 22"]);
    assert_eq!(steps(&added), vec!["Item 7"]);
}

#[test]
fn test_apply2() {
    let voc = vocabulary();
    let p = apply_all("з) дополнить частями 9 - 11 следующего содержания:", &voc).unwrap();
    assert!(p.1 .0.is_none());
    assert_eq!(steps(&p.1 .1), vec!["Part 9", "Part 10", "Part 11"]);
}

#[test]
fn test_apply2_1() {
    let voc = vocabulary();
    let p = apply_all("г) дополнить пунктами 16 - 22 следующего содержания:", &voc).unwrap();
    assert!(p.1 .0.is_none());
    assert_eq!(p.1 .1.get_paths().len(), 7);
}

#[test]
fn test_apply3() {
    let voc = vocabulary();
    let p = apply_all("2) дополнить пунктом 8 следующего содержания:", &voc).unwrap();
    assert_eq!(steps(&p.1 .1), vec!["Item 8"]);
}

#[test]
fn test_apply4() {
    let voc = vocabulary();
    let p = apply_all("дополнить новым абзацем девятым следующего содержания:", &voc).unwrap();
    assert_eq!(steps(&p.1 .1), vec!["Indent 9"]);
}

#[test]
fn test_apply5() {
    let voc = vocabulary();
    let p = apply_all("дополнить абзацем следующего содержания:", &voc).unwrap();
    assert!(p.1 .0.is_none());
    assert_eq!(p.1 .1.get_paths().len(), 0);
}

#[test]
fn apply_test_apply8() {
    let voc = vocabulary();
    let p = apply_all("дополнить абзацем третьим следующего содержания:", &voc).unwrap();
    assert_eq!(steps(&p.1 .1), vec!["Indent 3"]);
}

#[test]
fn test_apply5_1() {
    let voc = vocabulary();
    let s = "дополнить предложениями следующего содержания: \"Публично-правовая компания проводит экспертизу таких отчета и каталога на их соответствие установленным на основании настоящего Федерального закона требованиям в порядке, предусмотренном частью 10 настоящей статьи. Отчет о создании геодезической сети специального назначения и каталог координат геодезических пунктов указанной сети включаются в федеральный фонд пространственных данных при наличии положительного заключения указанной экспертизы.\";";
    assert!(apply_all(s, &voc).is_err());
}

#[test]
fn test_apply6() {
    let voc = vocabulary();
    let s = "дополнить новыми абзацами седьмым - десятым и абзацами одиннадцатым и двенадцатым следующего содержания:";
    let p = apply_all(s, &voc).unwrap();
    assert_eq!(
        steps(&p.1 .1),
        vec!["Indent 7", "Indent 8", "Indent 9", "Indent 10", "Indent 11", "Indent 12"]
    );
}

#[test]
fn test_apply7() {
    let voc = vocabulary();
    let p = apply_all("7) главу 2 дополнить статьями 9^1 и 9^2 следующего содержания:", &voc).unwrap();
    let (outer, added) = p.1;
    assert_eq!(steps(&outer.unwrap()), vec!["Section 2"]);
    assert_eq!(steps(&added), vec!["Article 9", "Article 9"]);
}

#[test]
fn apply_needs_the_content_phrase() {
    let voc = vocabulary();
    assert!(apply_all("дополнить пунктом 7", &voc).is_err());
}
