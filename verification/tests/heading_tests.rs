use changes_parser::actualizer::change_article;
use changes_parser::parsers::target_document::{is_new_edition, is_next_changes};

#[test]
fn article_headings() {
    assert!(change_article("Статья 5"));
    assert!(change_article("Статья 12 Наименование статьи"));
    assert!(change_article("Статья\t7"));
    assert!(change_article("Статья5"));
    assert!(!change_article("Статья 5."));
    assert!(!change_article("Статья"));
    assert!(!change_article("Статья ъ"));
    assert!(!change_article("статья 5"));
    assert!(!change_article("Статья\u{a0}5"));
    assert!(!change_article(""));
}

#[test]
fn a_list_of_changes_follows() {
    let s = "Внести в статью 46 Федерального закона от 7 июля 2003 года № 126-ФЗ \"О связи\" следующие изменения:";
    assert!(is_next_changes(s));
    assert!(is_next_changes("следующие изменения:"));
    assert!(!is_next_changes("следующие изменения"));
    assert!(!is_next_changes(""));
}

#[test]
fn a_new_wording_follows() {
    let s = "Статью 98 Земельного кодекса Российской Федерации изложить в следующей редакции:";
    assert!(is_new_edition(s));
    assert!(!is_new_edition("изложить в следующей редакции: и далее"));
    assert!(!is_new_edition("Статью 98 изложить в новой редакции:"));
}
