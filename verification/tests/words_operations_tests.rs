use changes_parser::change_action::ChangeAction;
use changes_parser::outputs::AsMarkdown;
use changes_parser::parsers::path_plus_number::NumberVocabulary;
use changes_parser::parsers::words::words_operations;

fn vocabulary() -> NumberVocabulary {
    let letters: Vec<char> = "абвгдеёжзийклмнопрстуфхцчшщъыьэюя".chars().collect();
    let mut ordinals: Vec<(String, usize)> = vec![
        ("первый".to_string(), 1),
        ("второй".to_string(), 2),
        ("третьим".to_string(), 3),
        ("пятом".to_string(), 5),
        ("пятый".to_string(), 5),
        ("шестой".to_string(), 6),
        ("восьмой".to_string(), 8),
        ("девятым".to_string(), 9),
    ];
    let sentences = [
        "первое", "второе", "третье", "четвёртое", "пятое", "шестое", "седьмое", "восьмое", "девятое", "десятое",
        "одиннадцатое", "двенадцатое", "тринадцатое", "четырнадцатое", "пятнадцатое", "шестнадцатое",
    ];
    for (i, w) in sentences.iter().enumerate() {
        ordinals.push((w.to_string(), i + 1));
    }
    NumberVocabulary {
        number_chars: "0123456789^_-".chars().collect(),
        letter_order: letters.iter().map(|c| c.to_string()).collect(),
        letters,
        indent_numbers: ordinals,
    }
}

fn lost_numbers(actions: &[ChangeAction]) -> Vec<String> {
    actions
        .iter()
        .map(|a| match a {
            ChangeAction::LostPower(n) => n.number.clone(),
            _ => panic!("not a loss of force"),
        })
        .collect()
}

#[test]
fn test_lost_power() {
    let voc = vocabulary();
    let p = words_operations("1) статью 2^2 признать утратившей силу;", &voc).unwrap();
    assert_eq!(p.0, "");
    assert_eq!(p.1 .0.get_paths().len(), 0);
    assert_eq!(lost_numbers(&p.1 .1), vec!["2"]);
}

#[test]
fn test_lost_power2() {
    let voc = vocabulary();
    let p = words_operations("е) части 10, 11, 13 - 17 признать утратившими силу;", &voc).unwrap();
    assert_eq!(p.0, "");
    assert_eq!(p.1 .1.len(), 7);
}

#[test]
fn test_lost_power3() {
    let voc = vocabulary();
    let p = words_operations("е) части 10, 11, 13 - 17 признать утратившими силу;", &voc).unwrap();
    let mut ns = lost_numbers(&p.1 .1);
    ns.sort();
    let mut expected: Vec<String> = ["10", "11", "13", "14", "15", "16", "17"].iter().map(|s| s.to_string()).collect();
    expected.sort();
    assert_eq!(ns, expected);
}

#[test]
fn test_lost_power4() {
    let voc = vocabulary();
    let p = words_operations("а) части 2 - 2^4 признать утратившими силу;", &voc).unwrap();
    assert_eq!(p.1 .1.len(), 5);
}

#[test]
fn test_sentence2() {
    let voc = vocabulary();
    let s = "а) в части 1 первое предложение изложить в следующей редакции: \"Федеральная государственная информационная система в области семеноводства сельскохозяйственных растений создается в целях реализации полномочий.\";";
    let p = words_operations(s, &voc).unwrap();
    assert_eq!(p.0, "");
    assert_eq!(p.1 .0.as_markdown(), "часть 1 ");
    match &p.1 .1[0] {
        ChangeAction::ReplaceSentence { number, text } => {
            assert_eq!(*number, 1);
            assert!(text.starts_with("Федеральная"));
        }
        _ => panic!("not a new sentence"),
    }
}

#[test]
fn test_words_operation7() {
    let voc = vocabulary();
    let s = "в пункте 1 слова \"и использование\" исключить, дополнить словами \", а также ввоз семян\";";
    let p = words_operations(s, &voc).unwrap();
    assert_eq!(p.1 .0.as_markdown(), "пункт 1 ");
    assert!(!p.1 .1.is_empty());
}

#[test]
fn test_sentence3() {
    let voc = vocabulary();
    let s = "а) в части 7 слова \"пунктов указанной сети\" заменить словами \"геодезических пунктов указанной сети\", дополнить предложениями следующего содержания: \"Публично-правовая компания проводит экспертизу.\";";
    let p = words_operations(s, &voc).unwrap();
    assert_eq!(p.1 .0.as_markdown(), "часть 7 ");
    assert!(!p.1 .1.is_empty());
}

#[test]
fn test_words_operation1() {
    let voc = vocabulary();
    let s = "3) в подпункте 5 статьи 395 после слов \"в указанный период в соответствии с\" дополнить словами \"его целевым назначением и\", слова \"муниципальном образовании и по специальности\" заменить словами \"муниципальном образовании, определенном законом субъекта Российской Федерации, и по профессии, специальности\";";
    let p = words_operations(s, &voc).unwrap();
    assert_eq!(p.1 .0.get_paths().len(), 2);
    assert!(!p.1 .1.is_empty());
}

#[test]
fn test_words_operation2() {
    let voc = vocabulary();
    let p = words_operations("а) в части 2 слово \"вправе\" заменить словом \"обязаны\";", &voc).unwrap();
    assert_eq!(p.1 .0.as_markdown(), "часть 2 ");
    match &p.1 .1[0] {
        ChangeAction::ReplaceWords { old_words, new_words } => {
            assert_eq!(old_words, "вправе");
            assert_eq!(new_words, "обязаны");
        }
        _ => panic!("not a replacement"),
    }
}

#[test]
fn test_words_operation3() {
    let voc = vocabulary();
    let s = "а) часть 1 после слов \"а также по созданию\" дополнить словами \", модернизации и (или) обследованию\";";
    let p = words_operations(s, &voc).unwrap();
    assert_eq!(p.1 .0.as_markdown(), "часть 1 ");
    assert!(!p.1 .1.is_empty());
}

#[test]
fn test_words_operation4() {
    let voc = vocabulary();
    let s = "абзац первый после слова \"государственная\" дополнить словом \"географическая\";";
    let p = words_operations(s, &voc).unwrap();
    assert_eq!(p.1 .0.as_markdown(), "абзац 1 ");
    assert!(!p.1 .1.is_empty());
}

#[test]
fn test_words_operation5() {
    let voc = vocabulary();
    let s = "а) в части 1 слова \"и использования\" исключить, после слов \", если на\" дополнить словом \"такие\";";
    let p = words_operations(s, &voc).unwrap();
    assert_eq!(p.1 .0.as_markdown(), "часть 1 ");
    assert!(!p.1 .1.is_empty());
}

#[test]
fn test_words_operation6() {
    let voc = vocabulary();
    let s = "а) слова \"Сорта и гибриды\" заменить словами \"1. Сорта и гибриды\";";
    let p = words_operations(s, &voc).unwrap();
    assert_eq!(p.1 .0.get_paths().len(), 0);
    match &p.1 .1[0] {
        ChangeAction::ReplaceWords { old_words, new_words } => {
            assert_eq!(old_words, "Сорта и гибриды");
            assert_eq!(new_words, "1. Сорта и гибриды");
        }
        _ => panic!("not a replacement"),
    }
}

#[test]
fn test_words_operation8() {
    let voc = vocabulary();
    let s = "4) в абзаце пятом пункта 6 статьи 36^12-1 слово \"квалифицированного\" исключить, слова \"единой системы идентификации и аутентификации\" заменить словами \"информационной системы головного удостоверяющего центра\";";
    let p = words_operations(s, &voc).unwrap();
    assert_eq!(p.1 .0.get_paths().len(), 3);
    assert!(!p.1 .1.is_empty());
}

#[test]
fn units_to_exclude() {
    let voc = vocabulary();
    let p = words_operations("3) часть 12 исключить;", &voc).unwrap();
    match &p.1 .1[0] {
        ChangeAction::Exclude(n) => assert_eq!(n.number, "12"),
        _ => panic!("not an exclusion"),
    }
}

#[test]
fn no_word_directive() {
    let voc = vocabulary();
    assert!(words_operations("просто текст", &voc).is_err());
}
