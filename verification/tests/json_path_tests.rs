use changes_parser::json_path_creator::JsonPathCreator;

#[test]
fn test_headers() {
    let jp = JsonPathCreator::new_with_header("глава", Some("211"));
    assert_eq!(jp.get_jsonpath(), ".headers[?(@.number.val == '211' && @.type == 'глава')]");

    let jp = JsonPathCreator::new_with_header("статью", Some("2^21"));
    assert_eq!(jp.get_jsonpath(), ".headers[?(@.number.val == '2^21' && @.type == 'статья')]");

    let jp = JsonPathCreator::new_with_header("раздела", Some("21_б"));
    assert_eq!(jp.get_jsonpath(), ".headers[?(@.number.val == '21_б' && @.type == 'раздел')]");
}

#[test]
fn test_hierarchy() {
    let mut path = JsonPathCreator::new_with_header("статья", Some("5"));
    path.add_item(Some("6")).add_item(Some("2")).add_item(Some("б"));
    let hierarchy = path.get_hierarchy_item_query();
    assert_eq!(3, hierarchy);
}
