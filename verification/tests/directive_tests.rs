use changes_parser::outputs::AsMarkdown;
use changes_parser::parsers::changes_checker::{check_if_change, check_if_change_result, item_name, new_checker};
use changes_parser::parsers::changes_parser::{Action, Changes};
use changes_parser::parsers::path_plus_number::NumberVocabulary;

fn vocabulary() -> NumberVocabulary {
    let letters: Vec<char> = "абвгдеёжзийклмнопрстуфхцчшщъыьэюя".chars().collect();
    let mut ordinals: Vec<(String, usize)> = vec![
        ("первый".to_string(), 1),
        ("второй".to_string(), 2),
        ("третьим".to_string(), 3),
        ("пятом".to_string(), 5),
        ("пятый".to_string(), 5),
        ("шестой".to_string(), 6),
        ("восьмой".to_string(), 8),
        ("девятым".to_string(), 9),
        ("девятый".to_string(), 9),
        ("седьмым".to_string(), 7),
        ("десятым".to_string(), 10),
        ("одиннадцатым".to_string(), 11),
        ("двенадцатым".to_string(), 12),
        ("первом".to_string(), 1),
        ("третьем".to_string(), 3),
    ];
    let sentences = [
        "первое", "второе", "третье", "четвёртое", "пятое", "шестое", "седьмое", "восьмое", "девятое", "десятое",
        "одиннадцатое", "двенадцатое", "тринадцатое", "четырнадцатое", "пятнадцатое", "шестнадцатое",
    ];
    for (i, w) in sentences.iter().enumerate() {
        ordinals.push((w.to_string(), i + 1));
    }
    NumberVocabulary {
        number_chars: "0123456789^_-".chars().collect(),
        letter_order: letters.iter().map(|c| c.to_string()).collect(),
        letters,
        indent_numbers: ordinals,
    }
}

#[test]
fn test_checker_remains_on_error() {
    let voc = vocabulary();
    let s = "1. статью 5 в сотрудничество Российской Федерации в области семеноводства сельскохозяйственных растений осуществляется в соответствии с международными договорами Российской Федерации и законодательством Российской Федерации.";
    let result = new_checker(s, &voc);
    assert!(result.0);
    assert!(result.1.is_none());
}

#[test]
fn plain_text_is_no_directive() {
    let voc = vocabulary();
    let result = new_checker("просто текст без директивы", &voc);
    assert!(!result.0);
    assert!(!check_if_change("просто текст без директивы", &voc));
}

#[test]
fn a_directive_is_a_change() {
    let voc = vocabulary();
    assert!(check_if_change("а) часть 1 изложить в следующей редакции:", &voc));
    assert!(check_if_change("1) в статье 20:", &voc));
}

#[test]
fn test_check_item_name() {
    let voc = vocabulary();
    let check_path_strings: Vec<&str> = vec![
        "а) наименование после слов \"Федеральная государственная\" дополнить словом \"географическая\";",
        "9) наименование главы 6 изложить в следующей редакции:",
        "а) в наименовании слово \"(назначение)\" исключить;",
        "13) наименование главы 5 изложить в следующей редакции:",
        "а) наименование изложить в следующей редакции:",
    ];
    for s in check_path_strings {
        assert!(item_name(s, &voc).is_ok());
    }
    let p = item_name("а) наименование после слов \"о\" дополнить словом \"новом\";", &voc).unwrap();
    assert!(p.0.starts_with("\"о\""));
    assert!(item_name("просто текст", &voc).is_err());
}

#[test]
fn test_checker_remains_on_error_2() {
    let voc = vocabulary();
    let result = new_checker("13) наименование главы 5 изложить в следующей редакции:", &voc);
    assert!(result.0);
}

#[test]
fn test_check_path() {
    let voc = vocabulary();
    let check_path_strings: Vec<&str> = vec![
        "1) абзац девятый пункта 1 дополнить словами \", а также в случае предотвращения\";",
        "п) в пункте 16:",
        "п) в статье 2:",
        "а) в подпункте 71:",
        "1) в статье 2:",
        "7) в абзаце первом пункта 2 статьи 25 слово \"(назначения)\" исключить;",
        "в абзаце третьем слова \"в области связи\" заменить словами \", осуществляющим функции\";",
        "м) пункт 12 признать утратившим силу; ",
        "л) в пункте 11^1 слово \"выданные\" заменить словом \"оформленные\";",
    ];
    for s in check_path_strings {
        assert!(check_if_change_result(s, &voc).is_ok());
    }
}

#[test]
fn changes_checker_test_check_add() {
    let voc = vocabulary();
    let check_add_strings: Vec<&str> = vec![
        "4) статью 22 дополнить пунктом 7 следующего содержания:",
        "з) дополнить частями 9 - 11 следующего содержания:",
        "2) дополнить пунктом 8 следующего содержания:",
        "дополнить новым абзацем девятым следующего содержания:",
        "дополнить абзацем следующего содержания:",
        "дополнить новыми абзацами седьмым - десятым и абзацами одиннадцатым и двенадцатым следующего содержания:",
        "г) дополнить пунктами 16 - 22 следующего содержания:",
        "7) главу 2 дополнить статьями 9^1 и 9^2 следующего содержания:",
        "абзац восьмой считать абзацем девятым и изложить его в следующей редакции:",
        "абзацы пятый и шестой изложить в следующей редакции:",
        "е) части 10, 11, 13 - 17 признать утратившими силу;",
    ];
    for s in check_add_strings {
        assert!(check_if_change_result(s, &voc).is_ok());
    }
}

#[test]
fn check_result_error_is_the_name_error() {
    let voc = vocabulary();
    assert!(check_if_change_result("просто текст", &voc).is_err());
}

#[test]
fn changes_of_a_text() {
    let voc = vocabulary();
    let text = "1) в статье 20:\nа) часть 1 изложить в следующей редакции:\n\"1. Новый текст.\";\nб) в части 2 слова \"старые\" заменить словами \"новые\";";
    let changes = Changes::get_changes_of_text(text, &voc);
    let list = changes.list();
    assert_eq!(list.len(), 2);
    assert!(matches!(list[0].action, Action::Replace));
    assert_eq!(list[0].target_path.as_markdown(), "статья 20 часть 1 ");
    assert_eq!(list[0].text_changes.as_ref().unwrap(), &vec!["\"1. Новый текст.\";".to_owned()]);
    assert!(matches!(list[1].action, Action::Words));
    assert_eq!(list[1].target_path.as_markdown(), "статья 20 часть 2 ");
}
