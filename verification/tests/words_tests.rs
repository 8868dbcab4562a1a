use changes_parser::change_action::ChangeAction;
use changes_parser::error::{ErrorCode, ParserError};
use changes_parser::parsers::replace::replace_name;
use changes_parser::parsers::words::{
    add_or_replace_words, add_sentence, add_words_1, all_operations, change_name, change_or_add_or_exclude_words,
    exclude_words, quoted_text, searched_words, LocalOperation,
};

fn exclusion(w: &str) -> ChangeAction {
    ChangeAction::ExcludeWords(w.to_owned())
}

fn replacement(from: &str, to: &str) -> ChangeAction {
    ChangeAction::ReplaceWords { old_words: from.to_owned(), new_words: to.to_owned() }
}

fn addition(after: Option<&str>, words: &str) -> ChangeAction {
    ChangeAction::AddWords { after: after.map(|a| a.to_owned()), words: words.to_owned() }
}

fn same(a: &[ChangeAction], b: &[ChangeAction]) -> bool {
    format!("{:?}", a) == format!("{:?}", b)
}

#[test]
fn test_repeat_exclude_words_fn() {
    let test_many_exclude = " слово \"(назначения)\" и слово \"хз что\" и слово \"неразборчиво написано\" исключить;";
    let test_one_exclude = " слово \"(назначения)\" исключить;";
    let test_many_exclude_comma = " слово \"(назначения)\", слово \"хз что\" и слово \"неразборчиво написано\" исключить;";
    let t1 = exclude_words(test_many_exclude).unwrap();
    assert_eq!(t1.0, "");
    assert!(same(&t1.1, &[exclusion("(назначения)"), exclusion("хз что"), exclusion("неразборчиво написано")]));
    let t2 = exclude_words(test_one_exclude).unwrap();
    assert_eq!(t2.0, "");
    assert!(same(&t2.1, &[exclusion("(назначения)")]));
    let t3 = exclude_words(test_many_exclude_comma).unwrap();
    assert_eq!(t3.0, "");
    assert!(same(&t3.1, &[exclusion("(назначения)"), exclusion("хз что"), exclusion("неразборчиво написано")]));
}

#[test]
fn test_sentence() {
    let s = r#"дополнить предложениями следующего содержания: "Публично-правовая компания проводит экспертизу таких отчета и каталога на их соответствие установленным на основании настоящего Федерального закона требованиям в порядке, предусмотренном частью 10 настоящей статьи. Отчет о создании геодезической сети специального назначения и каталог координат геодезических пунктов указанной сети включаются в федеральный фонд пространственных данных при наличии положительного заключения указанной экспертизы.";"#;
    let p = add_sentence(s).unwrap();
    assert_eq!(p.0, ";");
    assert_eq!(p.1.len(), 1);
    match &p.1[0] {
        ChangeAction::ApplySentence(t) => {
            assert!(t.starts_with("Публично-правовая компания"));
            assert!(t.ends_with("указанной экспертизы."));
        },
        other => panic!("unexpected {:?}", other),
    }
}

#[test]
fn replacements_and_additions_of_words() {
    let test_one_change = "слова \"в области связи\" заменить словами \", осуществляющий функции по контролю и надзору в сфере средств массовой информации, массовых коммуникаций, информационных технологий и связи,\"";
    let long = ", осуществляющий функции по контролю и надзору в сфере средств массовой информации, массовых коммуникаций, информационных технологий и связи,";
    let t1 = change_or_add_or_exclude_words(test_one_change).unwrap();
    assert_eq!(t1.0, "");
    assert!(same(&t1.1, &[replacement("в области связи", long)]));
    let test_many_change = "слова \"в области связи\" заменить словами \", осуществляющий функции по контролю и надзору в сфере средств массовой информации, массовых коммуникаций, информационных технологий и связи,\" и слова \"эти слова\" заменить словами \"меняем на эти слова\"";
    let t2 = change_or_add_or_exclude_words(test_many_change).unwrap();
    assert_eq!(t2.0, "");
    assert!(same(&t2.1, &[replacement("в области связи", long), replacement("эти слова", "меняем на эти слова")]));
    let test3 = "после слов \"статьи 46\" дополнить словами \", пунктом 2 статьи 56^2\";";
    let t3 = change_or_add_or_exclude_words(test3).unwrap();
    assert_eq!(t3.0, "");
    assert!(same(&t3.1, &[addition(Some("статьи 46"), ", пунктом 2 статьи 56^2")]));
    let test4 = "дополнить словами \", пунктом 2 статьи 56^2\";";
    let t4 = change_or_add_or_exclude_words(test4).unwrap();
    assert_eq!(t4.0, "");
    assert!(same(&t4.1, &[addition(None, ", пунктом 2 статьи 56^2")]));
    let test1 = "после слова \"власти\" дополнить словами \", осуществляющим функции\", после слов \"заявленным в абонентских договорах,\" дополнить словами \"в случае прекращения деятельности абонентом,\";";
    let t5 = change_or_add_or_exclude_words(test1).unwrap();
    assert_eq!(t5.0, "");
    assert!(same(
        &t5.1,
        &[
            addition(Some("власти"), ", осуществляющим функции"),
            addition(Some("заявленным в абонентских договорах,"), "в случае прекращения деятельности абонентом,"),
        ]
    ));
}

#[test]
fn groups_of_word_operations_follow_each_other() {
    let s = "слово \"вправе\" заменить словом \"обязаны\", слово \"лишнее\" исключить, дополнить словами \"в конце\";";
    let (rest, acts) = change_or_add_or_exclude_words(s).unwrap();
    assert_eq!(rest, "");
    assert!(same(&acts, &[replacement("вправе", "обязаны"), exclusion("лишнее"), addition(None, "в конце")]));
}

#[test]
fn a_directive_number_is_not_a_word_operation() {
    let s = r#"3) в подпункте 5 статьи 395 после слов "в указанный период" дополнить словами "его";"#;
    match change_or_add_or_exclude_words(s) {
        Err(ParserError::NomError { input, code }) => {
            assert_eq!(input, s);
            assert_eq!(code, ErrorCode::Tag);
        },
        other => panic!("unexpected {:?}", other.map(|(r, _)| r.to_owned())),
    }
}

#[test]
fn words_followed_by_exclusion_give_no_operation() {
    let (rest, acts) = add_or_replace_words("слова \"а\" исключить \"б\";").unwrap();
    assert_eq!(rest, "");
    assert!(acts.is_empty());
}

#[test]
fn exclusion_needs_its_verb() {
    match exclude_words("слово \"а\" удалить") {
        Err(ParserError::NomError { input, code }) => {
            assert_eq!(input, "удалить");
            assert_eq!(code, ErrorCode::Tag);
        },
        other => panic!("unexpected {:?}", other.map(|(r, _)| r.to_owned())),
    }
    match exclude_words("слово \"а\" исключить!") {
        Err(ParserError::NomError { input, code }) => {
            assert_eq!(input, "!");
            assert_eq!(code, ErrorCode::Space);
        },
        other => panic!("unexpected {:?}", other.map(|(r, _)| r.to_owned())),
    }
}

#[test]
fn quoted_texts() {
    assert_eq!(quoted_text("\"текст\" дальше").unwrap(), (" дальше", "текст"));
    assert_eq!(quoted_text("\"\"x").unwrap(), ("x", ""));
    assert_eq!(quoted_text("abc\"\"rest").unwrap(), ("rest", "abc"));
    match quoted_text("abc\"x") {
        Err(ParserError::NomError { input, code }) => {
            assert_eq!(input, "x");
            assert_eq!(code, ErrorCode::Tag);
        },
        other => panic!("unexpected {:?}", other),
    }
    match quoted_text("\"без конца") {
        Err(ParserError::NomError { input, .. }) => assert_eq!(input, "без конца"),
        other => panic!("unexpected {:?}", other),
    }
    match quoted_text("") {
        Err(ParserError::NomError { input, .. }) => assert_eq!(input, ""),
        other => panic!("unexpected {:?}", other),
    }
}

#[test]
fn searched_words_forms() {
    assert_eq!(searched_words("  после слов \"а\"").unwrap(), ("\"а\"", "слов"));
    assert_eq!(searched_words("слова  \"а\"").unwrap(), ("\"а\"", "слова"));
    assert_eq!(searched_words("слово").unwrap(), ("", "слово"));
    match searched_words("после\u{a0}слов") {
        Err(ParserError::NomError { input, code }) => {
            assert_eq!(input, "после\u{a0}слов");
            assert_eq!(code, ErrorCode::Tag);
        },
        other => panic!("unexpected {:?}", other),
    }
}

#[test]
fn the_three_operations() {
    let (rest, op) = all_operations(" дополнить словами \"x\"").unwrap();
    assert_eq!(rest, "\"x\"");
    assert_eq!(op, LocalOperation::Apply);
    let (rest, op) = all_operations("заменить словом \"x\"").unwrap();
    assert_eq!(rest, "\"x\"");
    assert_eq!(op, LocalOperation::Replace);
    let (rest, op) = all_operations("исключить, дальше").unwrap();
    assert_eq!(rest, " дальше");
    assert_eq!(op, LocalOperation::Exclude);
    match all_operations("удалить") {
        Err(ParserError::NomError { input, code }) => {
            assert_eq!(input, "удалить");
            assert_eq!(code, ErrorCode::Tag);
        },
        other => panic!("unexpected {:?}", other),
    }
}

#[test]
fn words_to_add_at_the_end() {
    let (rest, acts) = add_words_1("дополнить словом \"также\" и далее").unwrap();
    assert_eq!(rest, "и далее");
    assert!(same(&acts, &[addition(None, "также")]));
}

#[test]
fn a_header_name_changes_its_words() {
    let s = "а) наименование после слов \"Федеральная государственная\" дополнить словом \"географическая\";";
    let (rest, acts) = change_name(s).unwrap();
    assert_eq!(rest, "");
    assert_eq!(acts.len(), 1);
    match &acts[0] {
        ChangeAction::HeaderNameOperations(inner) => {
            assert!(same(inner, &[addition(Some("Федеральная государственная"), "географическая")]));
        },
        other => panic!("unexpected {:?}", other),
    }
    match change_name("наименование") {
        Err(ParserError::NomError { code, .. }) => assert_eq!(code, ErrorCode::Digit),
        other => panic!("unexpected {:?}", other.map(|(r, _)| r.to_owned())),
    }
}

#[test]
fn a_header_name_in_a_new_edition() {
    let (rest, path) = replace_name("наименование изложить в следующей редакции:").unwrap();
    assert_eq!(rest, "");
    assert!(path.get_paths().is_empty());
    assert!(replace_name("наименование изложить в следующей редакции: лишнее").is_err());
}
