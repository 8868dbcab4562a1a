use changes_parser::format_extensions::{search_words, utf8_slice, utf8_slice_full, ChangeOperations, Indent, Item};
use changes_parser::json_path_creator::JsonPathCreator;
use changes_parser::parsers::changes_map::{group_self_path, ChangesMap, RemainTokens};
use changes_parser::change_action::ChangeAction;

fn indent(body: &str) -> Indent {
    Indent { body: body.to_owned() }
}

#[test]
fn replace_words_marks_the_new_words() {
    let mut i = indent("в области\u{a0}связи и в области связи");
    let r = i.replace_words("области связи", "сферы");
    assert_eq!(r.as_deref(), Some("в ˹сферы˺ и в ˹сферы˺"));
    assert_eq!(i.body, "в ˹сферы˺ и в ˹сферы˺");
    let mut j = indent("текст");
    assert!(j.replace_words("нет", "да").is_none());
    assert_eq!(j.body, "текст");
}

#[test]
fn add_words_after_words_or_at_the_end() {
    let mut i = indent("сети связи общего пользования;");
    assert_eq!(i.add_words(&Some("сети связи".to_owned()), "и сооружения").as_deref(), Some("сети связи ˹и сооружения˺ общего пользования;"));
    let mut j = indent("сети связи;");
    assert_eq!(j.add_words(&None, "и сооружения").as_deref(), Some("сети связи ˹и сооружения˺;"));
    let mut k = indent("сети связи;");
    assert_eq!(k.add_words(&None, ", а также").as_deref(), Some("сети связи˹, а также˺;"));
    let mut l = indent("сети связи");
    assert_eq!(l.add_words(&None, "и линии").as_deref(), Some("сети связи ˹и линии˺и"));
    let mut m = indent("текст");
    assert!(m.add_words(&None, "").is_none());
    assert!(m.add_words(&Some("нет".to_owned()), "слова").is_none());
    let mut e = indent("");
    assert!(e.add_words(&None, "слова").is_none());
}

#[test]
fn exclude_words_with_and_without_mark() {
    let mut i = indent("органы и учреждения связи");
    assert_eq!(i.exclude_words("и учреждения", false).as_deref(), Some("органы связи"));
    let mut j = indent("органы и учреждения связи");
    assert_eq!(j.exclude_words("и учреждения", true).as_deref(), Some("органы ~и учреждения~ связи"));
    let mut k = indent("органы");
    assert!(k.exclude_words("связи", true).is_none());
    assert_eq!(k.body, "органы");
}

#[test]
fn items_change_their_first_paragraph() {
    let mut item = Item { indents: Some(vec![indent("первый абзац"), indent("второй абзац")]) };
    assert_eq!(item.replace_words("первый", "новый").as_deref(), Some("˹новый˺ абзац"));
    let v = item.indents.as_ref().unwrap();
    assert_eq!(v[0].body, "˹новый˺ абзац");
    assert_eq!(v[1].body, "второй абзац");
    let mut empty = Item { indents: None };
    assert!(empty.add_words(&None, "слова").is_none());
    let mut none = Item { indents: Some(vec![]) };
    assert!(none.exclude_words("слова", false).is_none());
}

#[test]
fn slices_by_characters() {
    let s = "статья";
    assert_eq!(utf8_slice(s, 1, 3), Some("та"));
    assert_eq!(utf8_slice(s, 0, 6), None);
    assert_eq!(utf8_slice(s, 2, 2), Some(""));
    assert_eq!(utf8_slice_full(s, 4), Some("ья"));
    assert_eq!(utf8_slice_full(s, 6), None);
    assert_eq!(search_words("области\u{a0}связи", "в области связи").as_deref(), Some("в области связи"));
    assert!(search_words("нет", "в области связи").is_none());
}

#[test]
fn changes_map_collects_operations() {
    let mut m = ChangesMap::with_path(JsonPathCreator::new_with_header("статья", Some("5")));
    m.add_operation(ChangeAction::ExcludeWords("слова".to_owned()));
    m.add_operations(vec![ChangeAction::Nothing, ChangeAction::ApplySentence("Текст.".to_owned())]);
    assert_eq!(m.operations.len(), 3);
    assert!(matches!(m.operations[2], ChangeAction::ApplySentence(_)));
    let d = ChangesMap::default();
    assert!(d.path.is_empty());
    assert!(d.operations.is_empty());
    let n = ChangesMap::new(JsonPathCreator::new_with_item(Some("1")), vec![ChangeAction::Nothing]);
    assert_eq!(n.operations.len(), 1);
}

#[test]
fn group_self_path_keeps_one_step_per_kind() {
    let mut p = JsonPathCreator::new_with_header("статья", Some("5"));
    p.add_item(Some("1")).add_item(Some("2")).add_indent(Some(3));
    let g = group_self_path(&p);
    assert_eq!(g.get_jsonpath(), JsonPathCreator::new_with_header("статья", Some("5")).add_item(Some("1")).get_jsonpath());
    let single = JsonPathCreator::new_with_item(Some("1"));
    assert!(group_self_path(&single).is_empty());
}

#[test]
fn remain_tokens_message() {
    let r = RemainTokens::new("строка", "");
    assert_eq!(r.message(), "");
    let r = RemainTokens::new("строка", "ка");
    assert_eq!(r.message(), "Есть не полностью обработанная строка ->строка| остаток токенов ->ка|");
}
