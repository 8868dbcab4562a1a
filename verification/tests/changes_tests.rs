use changes_parser::change_action::ChangeAction;
use changes_parser::change_path::{ChangePath, TargetPath};
use changes_parser::changes_graph::ChangesGraph;
use changes_parser::outputs::{AsMarkdown, MermaidDiagram, TextOutput};
use changes_parser::parsers::changes_parser::{
    text_lines, Action, ChangeType, Changes, ClassifiedLine, LineDirective,
};

fn path(steps: &[(&str, &str)]) -> TargetPath {
    let mut tp = TargetPath::new();
    for (kind, number) in steps {
        match *kind {
            "статья" | "глава" | "раздел" => tp.add_header(kind, number).unwrap(),
            _ => tp.add_item(number, kind).unwrap(),
        }
    }
    tp
}

fn line(text: &str, directive: LineDirective) -> ClassifiedLine {
    ClassifiedLine { line: text.to_owned(), directive }
}

fn sample_lines() -> Vec<ClassifiedLine> {
    vec![
        line("1) в статье 20:", LineDirective::PathOnly { path: path(&[("статья", "20")]), rest: String::new() }),
        line(
            "а) часть 1 изложить в следующей редакции:",
            LineDirective::Replace { target: path(&[("часть", "1")]), rest: String::new() },
        ),
        line("\"1. Новый текст.\";", LineDirective::Text),
        line(
            "б) в части 2 слова \"старые\" заменить словами \"новые\";",
            LineDirective::Words {
                target: path(&[("часть", "2")]),
                actions: vec![ChangeAction::ReplaceWords { old_words: "старые".to_owned(), new_words: "новые".to_owned() }],
                rest: String::new(),
            },
        ),
        line(
            "2) статью 21 дополнить частью 3 следующего содержания:",
            LineDirective::Apply { after: None, target: path(&[("статья", "21"), ("часть", "3")]), rest: String::new() },
        ),
        line("\"3. Текст части.\";", LineDirective::Text),
    ]
}

#[test]
fn changes_follow_the_enclosing_path() {
    let changes = Changes::get_changes(sample_lines());
    let list = changes.list();
    assert_eq!(list.len(), 3);
    assert!(matches!(list[0].action, Action::Replace));
    assert_eq!(list[0].target_path.as_markdown(), "статья 20 часть 1 ");
    assert_eq!(list[0].text_changes.as_ref().unwrap(), &vec!["\"1. Новый текст.\";".to_owned()]);
    assert!(matches!(list[0].change_type, ChangeType::Text));
    assert!(list[0].changes.is_none());
    assert!(matches!(list[1].action, Action::Words));
    assert_eq!(list[1].target_path.as_markdown(), "статья 20 часть 2 ");
    assert_eq!(list[1].changes.as_ref().unwrap().len(), 1);
    assert!(list[1].text_changes.is_none());
    assert!(matches!(list[2].action, Action::Apply));
    assert_eq!(list[2].target_path.as_markdown(), "статья 21 часть 3 ");
    assert_eq!(list[2].text_changes.as_ref().unwrap(), &vec!["\"3. Текст части.\";".to_owned()]);
    assert_eq!(list[2].changes.as_ref().unwrap().len(), 0);
}

#[test]
fn search_change_reports_the_unread_rest() {
    let mut changes = Changes::new();
    let mut all_paths: Vec<ChangePath> = Vec::new();
    let r = Changes::search_change(
        "1) в статье 20: лишнее",
        LineDirective::PathOnly { path: path(&[("статья", "20")]), rest: " лишнее".to_owned() },
        &mut changes,
        &mut all_paths,
    );
    let r = r.unwrap();
    assert_eq!(r.message(), "Есть не полностью обработанная строка ->1) в статье 20: лишнее| остаток токенов -> лишнее|");
    assert_eq!(all_paths.len(), 1);
    let r = Changes::search_change("текст без изменения", LineDirective::Text, &mut changes, &mut all_paths);
    assert!(r.is_none());
    assert_eq!(changes.list().len(), 0);
    let r = Changes::search_change(
        "наименование статьи",
        LineDirective::ItemName { rest: String::new() },
        &mut changes,
        &mut all_paths,
    );
    assert_eq!(r.unwrap().message(), "");
}

#[test]
fn a_shallower_definition_replaces_the_enclosing_path() {
    let mut changes = Changes::new();
    let mut all_paths: Vec<ChangePath> = Vec::new();
    Changes::search_change("в статье 5:", LineDirective::PathOnly { path: path(&[("статья", "5")]), rest: String::new() }, &mut changes, &mut all_paths);
    Changes::search_change("в части 2:", LineDirective::PathOnly { path: path(&[("часть", "2")]), rest: String::new() }, &mut changes, &mut all_paths);
    assert_eq!(all_paths.len(), 2);
    Changes::search_change("в части 3:", LineDirective::PathOnly { path: path(&[("часть", "3")]), rest: String::new() }, &mut changes, &mut all_paths);
    assert_eq!(all_paths.len(), 1);
    assert!(matches!(all_paths[0], ChangePath::Item { .. }));
}

#[test]
fn text_lines_split_like_str_lines() {
    let text = "первая\r\nвторая\n\nтретья\r";
    let lines = text_lines(text);
    let expected: Vec<String> = text.lines().map(|l| l.to_owned()).collect();
    assert_eq!(lines, expected);
    assert_eq!(lines, vec!["первая", "вторая", "", "третья\r"]);
    assert!(text_lines("").is_empty());
    assert_eq!(text_lines("a\n"), vec!["a"]);
}

#[test]
fn graph_of_the_sample() {
    let changes = Changes::get_changes(sample_lines());
    let graph = ChangesGraph::from_changes(changes);
    assert_eq!(graph.nodes.len(), 5);
    assert_eq!(graph.edges.len(), 3);
    assert_eq!(graph.total_changes, 3);
    let levels: Vec<usize> = graph.nodes.iter().map(|n| n.level).collect();
    assert_eq!(levels, vec![0, 0, 1, 1, 1]);
    assert!(graph.nodes[0].change.is_none());
    assert!(graph.nodes[1].change.is_none());
    assert!(graph.nodes[2].change.is_some());
    assert_eq!(graph.nodes[0].change_path.as_markdown(), "статья 20");
    assert_eq!(graph.nodes[4].change_path.as_markdown(), "часть 3");
    assert_eq!(graph.edges[0].from_id, graph.nodes[0].id);
    assert_eq!(graph.edges[0].to_id, graph.nodes[2].id);
    assert_eq!(graph.edges[2].from_id, graph.nodes[1].id);
    let parents = graph.get_parent_nodes(&graph.nodes[3]);
    assert_eq!(parents.len(), 1);
    assert_eq!(parents[0].id, graph.nodes[0].id);
    assert!(graph.get_parent_nodes(&graph.nodes[0]).is_empty());
    let md = graph.get_nodes_as_markdown(&[graph.nodes[1].id, graph.nodes[4].id]);
    assert_eq!(md, vec!["статья 21", "часть 3"]);
    assert_eq!(graph.get_node(&graph.nodes[2].id).level, 1);
    assert_eq!(graph.get_nodes(&[graph.nodes[0].id]).len(), 1);
}

#[test]
fn descendants_by_level() {
    let graph = ChangesGraph::from_changes(Changes::get_changes(sample_lines()));
    let d = graph.get_descendants_for_level_bfs(0);
    assert_eq!(d.len(), 2);
    let under_20 = &d[&graph.nodes[0].id];
    let names: Vec<String> = under_20.iter().map(|n| n.change_path.as_markdown()).collect();
    assert_eq!(names, vec!["часть 1", "часть 2"]);
    assert_eq!(d[&graph.nodes[1].id].len(), 1);
    let d1 = graph.get_descendants_for_level_bfs(1);
    assert_eq!(d1.len(), 3);
    assert!(d1.values().all(|v| v.is_empty()));
}

#[test]
fn text_of_the_sample() {
    let graph = ChangesGraph::from_changes(Changes::get_changes(sample_lines()));
    let text = TextOutput::gen_text(&graph);
    let expected = [
        "\n---\nКоличество изменений: 3\n---\n",
        "статья 20->часть 1 в редакции:\n\"1. Новый текст.\";\n",
        "статья 20->часть 2 ",
        "статья 21->часть 3 дополнить: \n\"3. Текст части.\";\n",
    ]
    .concat();
    assert_eq!(text, expected);
}

#[test]
fn diagram_of_the_sample() {
    let graph = ChangesGraph::from_changes(Changes::get_changes(sample_lines()));
    let dia = MermaidDiagram::gen_diagram(&graph);
    assert!(dia.starts_with("```mermaid\n---\ntitle: \"Количество изменений: 3\"\n---\n"));
    assert!(dia.ends_with("\nclassDef node font-size:28px\n```"));
    let first = format!("{}:::node@{{ shape: rect, label: \"статья 20\"}}\n", graph.nodes[0].id);
    assert!(dia.contains(&first));
    let edge = format!("{}-->{}\n", graph.edges[0].from_id, graph.edges[0].to_id);
    assert!(dia.contains(&edge));
    let replace_prefix = format!("{}-->| в редакции: |", graph.nodes[2].id);
    let start = dia.find(&replace_prefix).unwrap() + replace_prefix.len();
    let id_text: String = dia[start..].chars().take_while(|c| c.is_ascii_digit()).collect();
    assert!(!id_text.is_empty());
    assert_ne!(id_text, "0");
    assert!(dia[start..].starts_with(&format!("{}:::replace@{{ shape: rounded, label: \"\\\"1. Новый текст.\\\";  \"}}\n", id_text)));
    assert!(!dia.contains(":::words"));
}

#[test]
fn chains_of_the_sample_end() {
    let graph = ChangesGraph::from_changes(Changes::get_changes(sample_lines()));
    assert!(graph.chains_end());
}

#[test]
fn changed_descendants_with_their_walks() {
    let graph = ChangesGraph::from_changes(Changes::get_changes(sample_lines()));
    let d = graph.get_changed_descendants_with_paths(0);
    assert_eq!(d.len(), 2);
    assert_eq!(d[0].0, graph.nodes[0].id);
    assert_eq!(d[1].0, graph.nodes[1].id);
    let under_20: Vec<String> = d[0].1.iter().map(|i| i.node.change_path.as_markdown()).collect();
    assert_eq!(under_20, vec!["часть 1", "часть 2"]);
    assert_eq!(d[0].1[0].path, vec![graph.nodes[0].id, graph.nodes[2].id]);
    assert_eq!(d[1].1.len(), 1);
    assert_eq!(d[1].1[0].path, vec![graph.nodes[1].id, graph.nodes[4].id]);
    let d2 = graph.get_changed_descendants_with_paths2(0);
    assert_eq!(d2.len(), 2);
    let steps: Vec<String> = d2[1].1[0].path.iter().map(|p| p.as_markdown()).collect();
    assert_eq!(steps, vec!["статья 21", "часть 3"]);
    assert!(graph.get_changed_descendants_with_paths(1).iter().all(|(_, v)| v.is_empty()));
    assert!(graph.get_changed_descendants_with_paths(5).is_empty());
}
