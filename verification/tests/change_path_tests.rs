use changes_parser::change_path::{ChangePath, TargetPath};
use changes_parser::change_path_order::sort_change_paths;
use changes_parser::objects::header_type::HeaderType;
use changes_parser::objects::item_type::ItemType;
use changes_parser::objects::number::Number;
use changes_parser::outputs::{AsMarkdown, AsText};

#[test]
fn header_type_test_ordering() {
    let mut headers = vec![HeaderType::Article, HeaderType::Chapter, HeaderType::Section];
    headers.sort();
    assert_eq!(headers[0], HeaderType::Chapter);
    assert_eq!(headers[1], HeaderType::Section);
    assert_eq!(headers[2], HeaderType::Article);
}

#[test]
fn test_parse() {
    let p_name = "пункт ";
    let it: ItemType = p_name.parse().unwrap();
    assert_eq!(ItemType::Item, it);
}

#[test]
fn test_path_1() {
    let (type1, number1) = ("раздел", "1");
    let (type2, number2) = ("глава", "3");
    let (type3, number3) = ("статья", "22^2");
    let parag1 = "1_1)";
    let hie1 = "часть";
    let parag2 = "1_2)";
    let hie2 = "пункт";
    let subparag3 = "а^1.";
    let hie3 = "подпункт";
    let mut tp = TargetPath::new();
    tp.add_header(type3, number3).unwrap();
    tp.add_header(type1, number1).unwrap();
    tp.add_header(type2, number2).unwrap();
    let p1 = tp.add_item(subparag3, hie3);
    assert!(p1.is_err());
    tp.add_item(parag2, hie2).unwrap();
    tp.add_item(parag1, hie1).unwrap();
    assert_eq!(tp.get_paths().len(), 5);
    tp.sort();
    match &tp.get_paths()[2] {
        ChangePath::Header { number, header_type } => {
            assert_eq!(number.number, "22");
            assert_eq!(*header_type, HeaderType::Article);
        }
        _ => panic!("the third step is not a header"),
    }
    match &tp.get_paths()[0] {
        ChangePath::Header { header_type, .. } => assert_eq!(*header_type, HeaderType::Chapter),
        _ => panic!("the first step is not a header"),
    }
    match &tp.get_paths()[3] {
        ChangePath::Item { item_type, .. } => assert_eq!(*item_type, ItemType::Item),
        _ => panic!("the fourth step is not an item"),
    }
    match &tp.get_paths()[4] {
        ChangePath::Item { item_type, .. } => assert_eq!(*item_type, ItemType::Part),
        _ => panic!("the last step is not an item"),
    }
}

#[test]
fn test_ord() {
    let indent = ChangePath::Indent(3);
    let header = ChangePath::Header {
        number: Number::parse("20").unwrap().1,
        header_type: "Статья".parse().unwrap(),
    };
    let item = ChangePath::Item {
        number: Number::parse("2)").unwrap().1,
        item_type: "пункт".parse().unwrap(),
    };
    let mut items = vec![item.clone(), indent.clone(), header.clone()];
    items.sort_by(|a, b| a.partial_cmp(b).unwrap());
    assert!(items[0] == header);
    assert!(items[1] == item);
    assert!(items[2] == indent);
}

#[test]
fn sort_change_paths_puts_headers_first() {
    let indent = ChangePath::Indent(3);
    let header = ChangePath::Header {
        number: Number::parse("20").unwrap().1,
        header_type: HeaderType::Article,
    };
    let item = ChangePath::Item {
        number: Number::parse("2)").unwrap().1,
        item_type: ItemType::Item,
    };
    let mut items = vec![item, indent, header];
    sort_change_paths(&mut items);
    assert!(matches!(items[0], ChangePath::Header { .. }));
    assert!(matches!(items[1], ChangePath::Item { .. }));
    assert!(matches!(items[2], ChangePath::Indent(3)));
}

#[test]
fn header_and_item_words_are_read_in_any_case() {
    let h: HeaderType = "СТАТЬЯ".parse().unwrap();
    assert_eq!(h, HeaderType::Article);
    let h: HeaderType = "Главы".parse().unwrap();
    assert_eq!(h, HeaderType::Section);
    let i: ItemType = "Подпункт".parse().unwrap();
    assert_eq!(i, ItemType::Subitem);
    let e = "параграф".parse::<HeaderType>().unwrap_err();
    assert_eq!(e.message(), "строка `параграф` не является валидным заголовком");
}

#[test]
fn path_markdown_and_levels() {
    let mut tp = TargetPath::new();
    tp.add_header("статья", "5").unwrap();
    tp.add_item("2)", "пункт").unwrap();
    tp.add_indent(3);
    assert_eq!(tp.as_markdown(), "статья 5 пункт 2) абзац 3 ");
    assert_eq!(tp.as_text(), "статья 5 пункт 2) абзац 3 ");
    let levels: Vec<u8> = tp.get_paths().iter().map(|p| p.get_lvl()).collect();
    assert_eq!(levels, vec![2, 4, 6]);
    assert!(tp.add_header("параграф", "1").is_err());
    assert_eq!(tp.get_paths().len(), 3);
}

#[test]
fn insert_paths_keeps_missing_levels() {
    let mut global: Vec<ChangePath> = Vec::new();
    let mut g = TargetPath::new();
    g.add_header("статья", "20").unwrap();
    g.add_item("1", "часть").unwrap();
    for p in g.get_paths() {
        global.push(p.clone());
    }
    let mut tp = TargetPath::new();
    tp.add_item("3)", "часть").unwrap();
    tp.add_indent(2);
    tp.insert_paths(&mut global);
    assert_eq!(global.len(), 1);
    assert_eq!(tp.get_paths().len(), 3);
    assert_eq!(tp.as_markdown(), "статья 20 часть 3) абзац 2 ");
}

#[test]
fn path_ids_are_shared_by_equal_beginnings() {
    let mut a = TargetPath::new();
    a.add_header("статья", "7").unwrap();
    a.add_item("1", "часть").unwrap();
    let mut b = TargetPath::new();
    b.add_header("статья", "7").unwrap();
    b.add_item("2", "часть").unwrap();
    let ia = a.get_paths_with_id();
    let ib = b.get_paths_with_id();
    assert_eq!(ia[0].0, ib[0].0);
    assert_ne!(ia[1].0, ib[1].0);
    assert!(a.get_path_by_level(2).is_none());
    assert_eq!(a.get_path_by_level(1).unwrap().0, ia[1].0);
}
