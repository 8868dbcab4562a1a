use changes_parser::error::{ErrorCode, ParserError};
use changes_parser::parsers::chars::{definition, end_indent_char, space0, space1};
use changes_parser::parsers::tags::{
    apply, in_new_edition, in_new_edition_not_eof, lost_power, next_is_content, next_is_content_not_eof,
};
use changes_parser::parsers::target_document::{kodex_requisites, vnesti_str, DocumentType};

fn nom_error(e: ParserError) -> (String, ErrorCode) {
    match e {
        ParserError::NomError { input, code } => (input, code),
        other => panic!("unexpected error {:?}", other),
    }
}

#[test]
fn test_in_new_edition_fn() {
    let new_1 = "изложить в следующей редакции:";
    let new_2 = "изложить его в следующей редакции:";
    let new_3 = "следующего содержания:";
    let new_4 = "признать утратившим силу;";
    let new_5 = "признать утратившими силу;";
    let t1 = in_new_edition(new_1).unwrap();
    let t2 = in_new_edition(new_2).unwrap();
    let t3 = next_is_content(new_3).unwrap();
    let t4 = lost_power(new_4).unwrap();
    let t5 = lost_power(new_5).unwrap();
    assert_eq!(t1, ("", ""));
    assert_eq!(t2, ("", ""));
    assert_eq!(t3, ("", true));
    assert_eq!(t4, ("", ""));
    assert_eq!(t5, ("", ""));
}

#[test]
fn phrases_with_more_after_them() {
    assert!(in_new_edition("изложить в следующей редакции: ещё").is_err());
    assert_eq!(in_new_edition_not_eof("изложить в следующей редакции: ещё").unwrap().0, " ещё");
    assert_eq!(next_is_content_not_eof("следующего\u{a0}содержания:\"1.").unwrap(), ("\"1.", true));
    let (input, code) = nom_error(next_is_content("следующего содержания: x").unwrap_err());
    assert_eq!(input, " x");
    assert_eq!(code, ErrorCode::Eof);
    let (input, code) = nom_error(in_new_edition("изложить их в следующей редакции:").unwrap_err());
    assert_eq!(input, "их в следующей редакции:");
    assert_eq!(code, ErrorCode::Tag);
    let (input, code) = nom_error(lost_power("признатьутратившим силу;").unwrap_err());
    assert_eq!(input, "утратившим силу;");
    assert_eq!(code, ErrorCode::Space);
    assert_eq!(lost_power("  признать утратившей силу;").unwrap().0, "");
}

#[test]
fn apply_is_read_case_aside() {
    assert_eq!(apply("  Дополнить новыми  пунктами").unwrap().0, "пунктами");
    assert_eq!(apply("ДОПОЛНИТЬ новым абзацем").unwrap().0, "абзацем");
    assert_eq!(apply("дополнить статьёй").unwrap().0, "статьёй");
    let (input, code) = nom_error(apply(" изложить").unwrap_err());
    assert_eq!(input, "изложить");
    assert_eq!(code, ErrorCode::Tag);
}

#[test]
fn signs_and_spaces() {
    assert_eq!(definition(": далее").unwrap(), (" далее", ":"));
    assert_eq!(end_indent_char(";").unwrap(), ("", ";"));
    let (input, code) = nom_error(definition("x:").unwrap_err());
    assert_eq!(input, "x:");
    assert_eq!(code, ErrorCode::Tag);
    assert_eq!(space0(" \t\u{a0}слово").unwrap(), ("слово", " \t\u{a0}"));
    assert_eq!(space0("слово").unwrap(), ("слово", ""));
    assert_eq!(space1("\u{a0}x").unwrap(), ("x", "\u{a0}"));
    let (input, code) = nom_error(space1("x ").unwrap_err());
    assert_eq!(input, "x ");
    assert_eq!(code, ErrorCode::Space);
}

#[test]
fn codes_and_requisites() {
    let (rest, d) = kodex_requisites(" Лесного кодекса Российской Федерации").unwrap();
    assert_eq!(rest, "Российской Федерации");
    match d {
        DocumentType::Kodex(name) => assert_eq!(name, "Лесного кодекса"),
        _ => panic!("not a code"),
    }
    let (_, d) = kodex_requisites("НАЛОГОВЫЙ КОДЕКС ").unwrap();
    assert_eq!(d.text(), "НАЛОГОВЫЙ КОДЕКС");
    let (input, code) = nom_error(kodex_requisites("Лесного кодекса").unwrap_err());
    assert_eq!(input, "");
    assert_eq!(code, ErrorCode::Space);
    assert!(kodex_requisites("Федерального закона").is_err());
    let fz = DocumentType::FederalLaw("30 ноября 2020 года".to_owned(), "385-ФЗ".to_owned());
    assert_eq!(fz.text(), "ФЗ от 30 ноября 2020 года 385-ФЗ");
    assert_eq!(vnesti_str("Внести в статью 5 изменение"), "статью 5 изменение");
    assert_eq!(vnesti_str("Статью 5 изложить"), "Статью 5 изложить");
}
