//! The graph of changes as a Mermaid flowchart.
use vstd::prelude::*;
use crate::change_path::path_markdown;
use crate::changes_graph::{ChangeEdge, ChangeNode, ChangesGraph};
use crate::outputs::markdown::AsMarkdown;
use crate::parsers::changes_parser::Change;
use crate::parsers::diagramm::{change_diagram, ids_fit};
use crate::text::{decimal, escape_quotes, escaped, push_str, u64_to_string};

verus! {

/// Writes the graph of changes as a Mermaid flowchart.
pub struct MermaidDiagram {}

/// The line of a node: its id and the Markdown of its step.
pub open spec fn node_line(n: ChangeNode) -> Seq<char> {
    decimal(n.id as nat) + ":::node@{ shape: rect, label: \""@ + path_markdown(n.change_path)
        + "\"}\n"@
}

/// The ids of the nodes drawn for the changes fit them.
pub open spec fn node_ids_fit(nodes: Seq<ChangeNode>, ids: Seq<(u64, Seq<u64>)>) -> bool {
    &&& ids.len() == nodes.len()
    &&& forall|k: int|
        0 <= k < nodes.len() ==> ((#[trigger] nodes[k]).change matches Some(c) ==> ids_fit(
            c@,
            ids[k].0,
            ids[k].1,
        ))
}

/// The lines of the nodes, each followed by the lines of its change.
pub open spec fn nodes_diagram(nodes: Seq<ChangeNode>, ids: Seq<(u64, Seq<u64>)>) -> Seq<char>
    decreases nodes.len(),
{
    if nodes.len() == 0 {
        seq![]
    } else {
        let k = nodes.len() - 1;
        nodes_diagram(nodes.drop_last(), ids) + node_line(nodes[k]) + match nodes[k].change {
            Some(c) => change_diagram(c@, nodes[k].id, ids[k].0, ids[k].1),
            None => seq![],
        }
    }
}

/// The lines of the edges.
pub open spec fn edges_diagram(edges: Seq<ChangeEdge>) -> Seq<char>
    decreases edges.len(),
{
    if edges.len() == 0 {
        seq![]
    } else {
        edges_diagram(edges.drop_last()) + decimal(edges.last().from_id as nat) + "-->"@
            + decimal(edges.last().to_id as nat) + "\n"@
    }
}

/// The head of the flowchart, with the number of changes as title.
pub open spec fn diagram_head(total: u32) -> Seq<char> {
    "```mermaid"@ + "\n---"@ + "\ntitle: "@ + "\""@ + "Количество изменений: "@ + decimal(
        total as nat,
    ) + "\""@ + "\n---"@ + "\n%%{init: { \"themeVariables\": {\"fontSize\": \"20px\"} } }%%"@
        + "\nflowchart TD\n"@
}

/// The tail of the flowchart: the styles of its classes.
pub open spec fn diagram_tail() -> Seq<char> {
    "\nclassDef replace fill:#061341,stroke:#333,stroke-width:4px,color:white,font-size:18px"@
        + "\nclassDef apply fill:#022400,stroke:#333,stroke-width:4px,color:white,font-size:18px"@
        + "\nclassDef words fill:#230024,stroke:#333,stroke-width:4px,color:white,font-size:18px"@
        + "\nclassDef node font-size:28px"@ + "\n```"@
}

/// The whole flowchart of a graph, with the ids of the nodes of its changes.
pub open spec fn diagram(g: ChangesGraph, ids: Seq<(u64, Seq<u64>)>) -> Seq<char> {
    diagram_head(g.total_changes) + nodes_diagram(g.nodes@, ids) + edges_diagram(g.edges@)
        + diagram_tail()
}

impl MermaidDiagram {
    /// The Mermaid flowchart of a graph of changes: a title with the number of changes,
    /// one node per step with the lines of its change, one line per edge, and the class
    /// styles. The ids of the nodes of the changes are hashes, of which nothing is stated.
    pub fn gen_diagram(changes: &ChangesGraph) -> (r: String)
        ensures
            exists|ids: Seq<(u64, Seq<u64>)>| node_ids_fit(changes.nodes@, ids) && r@ == diagram(*changes, ids),
    {
        let mut dia = String::new();
        push_str(&mut dia, "```mermaid");
        push_str(&mut dia, "\n---");
        push_str(&mut dia, "\ntitle: ");
        push_str(&mut dia, "\"");
        push_str(&mut dia, "Количество изменений: ");
        let total = u64_to_string(changes.total_changes as u64);
        push_str(&mut dia, total.as_str());
        push_str(&mut dia, "\"");
        push_str(&mut dia, "\n---");
        push_str(&mut dia, "\n%%{init: { \"themeVariables\": {\"fontSize\": \"20px\"} } }%%");
        push_str(&mut dia, "\nflowchart TD\n");
        let ghost head = dia@;
        assert(head == diagram_head(changes.total_changes));
        let ghost mut ids: Seq<(u64, Seq<u64>)> = seq![];
        let mut body = String::new();
        let mut i: usize = 0;
        while i < changes.nodes.len()
            invariant
                i <= changes.nodes@.len(),
                ids.len() == i,
                forall|k: int|
                    0 <= k < i ==> ((#[trigger] changes.nodes@[k]).change matches Some(c) ==> ids_fit(
                        c@,
                        ids[k].0,
                        ids[k].1,
                    )),
                body@ == nodes_diagram(changes.nodes@.subrange(0, i as int), ids),
            decreases changes.nodes@.len() - i,
        {
            let node = &changes.nodes[i];
            let id = u64_to_string(node.id);
            push_str(&mut body, id.as_str());
            push_str(&mut body, ":::node@{ shape: rect, label: \"");
            let md = node.change_path.as_markdown();
            push_str(&mut body, md.as_str());
            push_str(&mut body, "\"}\n");
            let ghost old_ids = ids;
            match &node.change {
                Some(ch) => {
                    let d = crate::parsers::diagramm::change_diagramm(ch, node.id);
                    let ghost (t, aids) = choose|t: u64, aids: Seq<u64>| ids_fit(ch@, t, aids) && d@ == change_diagram(ch@, node.id, t, aids);
                    proof {
                        ids = ids.push((t, aids));
                    }
                    push_str(&mut body, d.as_str());
                },
                None => {
                    proof {
                        ids = ids.push((0u64, Seq::<u64>::empty()));
                    }
                },
            }
            proof {
                let pre = changes.nodes@.subrange(0, i as int);
                let now = changes.nodes@.subrange(0, i + 1);
                assert(now.drop_last() =~= pre);
                assert(ids.subrange(0, old_ids.len() as int) =~= old_ids);
                lemma_nodes_diagram_ids(pre, old_ids, ids);
            }
            i = i + 1;
        }
        assert(changes.nodes@.subrange(0, changes.nodes@.len() as int) =~= changes.nodes@);
        push_str(&mut dia, body.as_str());
        let mut k: usize = 0;
        while k < changes.edges.len()
            invariant
                k <= changes.edges@.len(),
                dia@ == head + nodes_diagram(changes.nodes@, ids) + edges_diagram(changes.edges@.subrange(0, k as int)),
            decreases changes.edges@.len() - k,
        {
            let e = &changes.edges[k];
            let f = u64_to_string(e.from_id);
            push_str(&mut dia, f.as_str());
            push_str(&mut dia, "-->");
            let t = u64_to_string(e.to_id);
            push_str(&mut dia, t.as_str());
            push_str(&mut dia, "\n");
            assert(changes.edges@.subrange(0, k + 1).drop_last() =~= changes.edges@.subrange(0, k as int));
            k = k + 1;
        }
        assert(changes.edges@.subrange(0, changes.edges@.len() as int) =~= changes.edges@);
        push_str(&mut dia, "\nclassDef replace fill:#061341,stroke:#333,stroke-width:4px,color:white,font-size:18px");
        push_str(&mut dia, "\nclassDef apply fill:#022400,stroke:#333,stroke-width:4px,color:white,font-size:18px");
        push_str(&mut dia, "\nclassDef words fill:#230024,stroke:#333,stroke-width:4px,color:white,font-size:18px");
        push_str(&mut dia, "\nclassDef node font-size:28px");
        push_str(&mut dia, "\n```");
        assert(node_ids_fit(changes.nodes@, ids));
        assert(dia@ == diagram(*changes, ids));
        dia
    }

    /// The lines of a change below the node `parent_id`.
    fn change_diagramm(change: &Change, parent_id: &u64) -> (r: String)
        ensures
            exists|t: u64, ids: Seq<u64>| ids_fit(change@, t, ids) && r@ == change_diagram(change@, *parent_id, t, ids),
    {
        crate::parsers::diagramm::change_diagramm(change, *parent_id)
    }

    /// Writes every double quote with a backslash before it.
    fn escape_quotes(input: &str) -> (r: String)
        ensures
            r@ == escaped(input@),
    {
        escape_quotes(input)
    }
}

/// Ids given to later nodes leave the lines of earlier nodes unchanged.
proof fn lemma_nodes_diagram_ids(nodes: Seq<ChangeNode>, ids: Seq<(u64, Seq<u64>)>, more: Seq<(u64, Seq<u64>)>)
    requires
        ids.len() == nodes.len(),
        more.len() >= ids.len(),
        more.subrange(0, ids.len() as int) == ids,
    ensures
        nodes_diagram(nodes, more) == nodes_diagram(nodes, ids),
    decreases nodes.len(),
{
    if nodes.len() > 0 {
        let k = nodes.len() - 1;
        assert(more[k] == more.subrange(0, ids.len() as int)[k]);
        assert(more[k] == ids[k]);
        assert(more.subrange(0, k) =~= ids.drop_last());
        lemma_nodes_diagram_ids(nodes.drop_last(), ids.drop_last(), more);
        assert(ids.subrange(0, k) =~= ids.drop_last());
        lemma_nodes_diagram_ids(nodes.drop_last(), ids.drop_last(), ids);
    }
}

} // verus!
