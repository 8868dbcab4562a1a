//! The graph of changes as plain text: for each change, its full path and what it does.
use vstd::prelude::*;
use crate::change_action::{ActionView, ChangeAction};
use crate::change_path::{path_markdown, target_markdown, ChangePath};
use crate::changes_graph::{ChangeNode, ChangesGraph, ancestors, chain_ends, derefs};
use crate::outputs::markdown::AsText;
use crate::parsers::changes_parser::{Action, Change, ChangeType, ChangeView};
use crate::text::{decimal, escape_quotes, escaped, has_prefix, push_str, u64_to_string};

verus! {

/// Writes the graph of changes as plain text.
pub struct TextOutput {}

/// `"После '<path>' "` for a change placed after a path; empty otherwise.
pub open spec fn after_text(after: Option<Seq<ChangePath>>) -> Seq<char> {
    match after {
        Some(p) => "После '"@ + target_markdown(p) + "' "@,
        None => seq![],
    }
}

/// Each text followed by a line break.
pub open spec fn text_lines(texts: Seq<Seq<char>>) -> Seq<char>
    decreases texts.len(),
{
    if texts.len() == 0 {
        seq![]
    } else {
        text_lines(texts.drop_last()) + texts.last() + "\n"@
    }
}

/// The texts of an addition or a new wording, when they are plain text.
pub open spec fn change_lines(c: ChangeView) -> Seq<char> {
    match c.texts {
        Some(t) => if c.change_type == ChangeType::Text {
            text_lines(t)
        } else {
            seq![]
        },
        None => seq![],
    }
}

/// The first line of an addition of words.
pub open spec fn add_relation(after: Option<Seq<char>>) -> Seq<char> {
    match after {
        Some(af) => "после '"@ + escaped(af) + "' дополнить:"@,
        None => "дополнить:"@,
    }
}

/// The text of one operation on words; operations other than additions of words and new
/// sentences write nothing.
pub open spec fn action_text(a: ActionView) -> Seq<char> {
    match a {
        ActionView::AddWords { after, words } => add_relation(after) + "\n"@ + words + "\n"@,
        ActionView::ReplaceSentence { number, text } => "предложение №"@ + decimal(number as nat)
            + " изложить в редакции:"@ + "\n"@ + text + "\n"@,
        _ => seq![],
    }
}

/// The texts of operations on words, in order.
pub open spec fn actions_text(actions: Seq<ActionView>) -> Seq<char>
    decreases actions.len(),
{
    if actions.len() == 0 {
        seq![]
    } else {
        actions_text(actions.drop_last()) + action_text(actions.last())
    }
}

/// The text of a change.
pub open spec fn change_text_of(c: ChangeView) -> Seq<char> {
    match c.action {
        Action::Apply => after_text(c.after) + "дополнить: "@ + "\n"@ + change_lines(c),
        Action::Replace => after_text(c.after) + "в редакции:"@ + "\n"@ + change_lines(c),
        Action::Words => match c.changes {
            Some(a) => actions_text(a),
            None => seq![],
        },
    }
}

/// `t` stands in `s` at position `k`.
pub open spec fn occurs_at(s: Seq<char>, t: Seq<char>, k: int) -> bool {
    0 <= k && k + t.len() <= s.len() && s.subrange(k, k + t.len()) == t
}

/// An addition of words is shown with the words added, each followed by a line break, at
/// the end of its text, after the place it names: `после '<слова>' дополнить:` when it
/// follows some words, `дополнить:` alone otherwise.
pub proof fn lemma_added_words_shown(after: Option<Seq<char>>, words: Seq<char>)
    ensures
        occurs_at(
            action_text(ActionView::AddWords { after, words }),
            words + "\n"@,
            action_text(ActionView::AddWords { after, words }).len() - words.len() - 1,
        ),
        after matches Some(af) ==> has_prefix(
            action_text(ActionView::AddWords { after, words }),
            "после '"@ + escaped(af) + "' дополнить:"@,
        ),
        after is None ==> has_prefix(action_text(ActionView::AddWords { after, words }), "дополнить:"@),
{
    reveal_strlit("\n");
    let t = action_text(ActionView::AddWords { after, words });
    let head = match after {
        Some(af) => "после '"@ + escaped(af) + "' дополнить:"@,
        None => "дополнить:"@,
    };
    assert(t =~= head + "\n"@ + (words + "\n"@));
    assert(t.subrange(t.len() - words.len() - 1, t.len() as int) =~= words + "\n"@);
    assert(t.subrange(0, head.len() as int) =~= head);
}

/// A new wording of a sentence is shown with its number and its text, the text at the end
/// followed by a line break.
pub proof fn lemma_new_sentence_shown(number: u32, text: Seq<char>)
    ensures
        has_prefix(
            action_text(ActionView::ReplaceSentence { number, text }),
            "предложение №"@ + decimal(number as nat),
        ),
        occurs_at(
            action_text(ActionView::ReplaceSentence { number, text }),
            text + "\n"@,
            action_text(ActionView::ReplaceSentence { number, text }).len() - text.len() - 1,
        ),
{
    reveal_strlit("\n");
    let t = action_text(ActionView::ReplaceSentence { number, text });
    let head = "предложение №"@ + decimal(number as nat);
    assert(t =~= head + (" изложить в редакции:"@ + "\n"@) + (text + "\n"@));
    assert(t.subrange(t.len() - text.len() - 1, t.len() as int) =~= text + "\n"@);
    assert(t.subrange(0, head.len() as int) =~= head);
}

/// The text of the operations on words holds the text of each of them, in order: the
/// words of every addition appear, followed by a line break.
pub proof fn lemma_actions_text_holds(actions: Seq<ActionView>, i: int)
    requires
        0 <= i < actions.len(),
    ensures
        exists|k: int| #[trigger] occurs_at(actions_text(actions), action_text(actions[i]), k),
    decreases actions.len(),
{
    let rest = actions.drop_last();
    let t = actions_text(actions);
    assert(t == actions_text(rest) + action_text(actions.last()));
    if i == actions.len() - 1 {
        let k = actions_text(rest).len() as int;
        assert(t.subrange(k, k + action_text(actions[i]).len()) =~= action_text(actions[i]));
        assert(occurs_at(t, action_text(actions[i]), k));
    } else {
        lemma_actions_text_holds(rest, i);
        assert(rest[i] == actions[i]);
        let k = choose|k: int| #[trigger] occurs_at(actions_text(rest), action_text(rest[i]), k);
        let a = action_text(actions[i]);
        assert(t.subrange(k, k + a.len()) =~= actions_text(rest).subrange(k, k + a.len()));
        assert(occurs_at(t, a, k));
    }
}

/// The text of a change of words shows the words of each addition among its operations,
/// followed by a line break.
pub proof fn lemma_change_shows_added_words(c: ChangeView, i: int)
    requires
        c.action == Action::Words,
        c.changes matches Some(a) && 0 <= i < a.len() && a[i] is AddWords,
    ensures
        exists|k: int| #[trigger] occurs_at(change_text_of(c), c.changes->0[i]->AddWords_words + "\n"@, k),
{
    reveal_strlit("\n");
    let a = c.changes->0;
    let words = a[i]->AddWords_words;
    let after = a[i]->AddWords_after;
    lemma_actions_text_holds(a, i);
    lemma_added_words_shown(after, words);
    let t = action_text(a[i]);
    let k = choose|k: int| #[trigger] occurs_at(actions_text(a), t, k);
    let j = t.len() - words.len() - 1;
    assert(change_text_of(c) == actions_text(a));
    assert(actions_text(a).subrange(k + j, k + j + words.len() + 1) =~= t.subrange(j, j + words.len() + 1));
    assert(occurs_at(change_text_of(c), words + "\n"@, k + j));
}

/// An addition is shown as `дополнить: ` and a new wording as `в редакции:`, right after
/// the place they follow; each then lists its texts.
pub proof fn lemma_change_verb(c: ChangeView)
    ensures
        c.action == Action::Apply || c.action == Action::Replace ==> (c.after matches Some(p) ==> has_prefix(
            change_text_of(c),
            "После '"@ + target_markdown(p) + "' "@,
        )),
        c.action == Action::Apply ==> occurs_at(change_text_of(c), "дополнить: "@, after_text(c.after).len() as int),
        c.action == Action::Replace ==> occurs_at(change_text_of(c), "в редакции:"@, after_text(c.after).len() as int),
{
    let n = after_text(c.after).len() as int;
    let t = change_text_of(c);
    if c.action == Action::Apply || c.action == Action::Replace {
        assert(t.subrange(0, n) =~= after_text(c.after));
    }
    if c.action == Action::Apply {
        assert(t =~= after_text(c.after) + "дополнить: "@ + ("\n"@ + change_lines(c)));
        assert(t.subrange(n, n + "дополнить: "@.len()) =~= "дополнить: "@);
    }
    if c.action == Action::Replace {
        assert(t =~= after_text(c.after) + "в редакции:"@ + ("\n"@ + change_lines(c)));
        assert(t.subrange(n, n + "в редакции:"@.len()) =~= "в редакции:"@);
    }
}

/// The steps of some nodes joined by `->`.
pub open spec fn chain_text(nodes: Seq<ChangeNode>) -> Seq<char>
    decreases nodes.len(),
{
    if nodes.len() == 0 {
        seq![]
    } else if nodes.len() == 1 {
        path_markdown(nodes[0].change_path)
    } else {
        chain_text(nodes.drop_last()) + "->"@ + path_markdown(nodes.last().change_path)
    }
}

/// The text of a node: for a node with a change, its full path (when it has parents)
/// and the text of the change.
pub open spec fn node_text(g: ChangesGraph, n: ChangeNode) -> Seq<char> {
    match n.change {
        None => seq![],
        Some(c) => {
            let path = ancestors(g.nodes@, g.edges@, n.id, g.edges@.len()).reverse();
            (if path.len() > 0 {
                chain_text(path) + "->"@ + path_markdown(n.change_path) + " "@
            } else {
                seq![]
            }) + change_text_of(c@)
        },
    }
}

/// The texts of some nodes, in order.
pub open spec fn nodes_text(g: ChangesGraph, nodes: Seq<ChangeNode>) -> Seq<char>
    decreases nodes.len(),
{
    if nodes.len() == 0 {
        seq![]
    } else {
        nodes_text(g, nodes.drop_last()) + node_text(g, nodes.last())
    }
}

/// The text of a graph: the number of changes, then each node with a change.
pub open spec fn graph_text(g: ChangesGraph) -> Seq<char> {
    "\n---\n"@ + "Количество изменений: "@ + decimal(g.total_changes as nat) + "\n---\n"@
        + nodes_text(g, g.nodes@)
}

impl TextOutput {
    /// The plain text of a graph of changes: the number of changes, then, for each node
    /// that carries a change, the path to it and what the change does. The chain of
    /// parents of each such node must end.
    pub fn gen_text(changes: &ChangesGraph) -> (r: String)
        requires
            forall|m: int|
                0 <= m < changes.nodes@.len() && (#[trigger] changes.nodes@[m]).change is Some
                    ==> chain_ends(changes.nodes@, changes.edges@, changes.nodes@[m].id, changes.edges@.len()),
        ensures
            r@ == graph_text(*changes),
    {
        let mut dia = String::new();
        push_str(&mut dia, "\n---\n");
        push_str(&mut dia, "Количество изменений: ");
        let total = u64_to_string(changes.total_changes as u64);
        push_str(&mut dia, total.as_str());
        push_str(&mut dia, "\n---\n");
        let ghost head = dia@;
        let mut i: usize = 0;
        while i < changes.nodes.len()
            invariant
                i <= changes.nodes@.len(),
                forall|m: int|
                    0 <= m < changes.nodes@.len() && (#[trigger] changes.nodes@[m]).change is Some
                        ==> chain_ends(changes.nodes@, changes.edges@, changes.nodes@[m].id, changes.edges@.len()),
                dia@ == head + nodes_text(*changes, changes.nodes@.subrange(0, i as int)),
            decreases changes.nodes@.len() - i,
        {
            let node = &changes.nodes[i];
            let ghost before = dia@;
            match &node.change {
                Some(ch) => {
                    let path = changes.get_parent_nodes(node);
                    if path.len() > 0 {
                        let chain = Self::chain_of(&path);
                        push_str(&mut dia, chain.as_str());
                        push_str(&mut dia, "->");
                        let t = node.change_path.as_text();
                        push_str(&mut dia, t.as_str());
                        push_str(&mut dia, " ");
                    }
                    let c = Self::change_text(ch, &node.id);
                    push_str(&mut dia, c.as_str());
                },
                None => {},
            }
            proof {
                assert(dia@ == before + node_text(*changes, changes.nodes@[i as int]));
                assert(changes.nodes@.subrange(0, i + 1).drop_last() =~= changes.nodes@.subrange(0, i as int));
            }
            i = i + 1;
        }
        assert(changes.nodes@.subrange(0, changes.nodes@.len() as int) =~= changes.nodes@);
        dia
    }

    /// The steps of some nodes joined by `->`.
    fn chain_of(nodes: &Vec<&ChangeNode>) -> (r: String)
        ensures
            r@ == chain_text(derefs(nodes@)),
    {
        let mut r = String::new();
        let mut i: usize = 0;
        while i < nodes.len()
            invariant
                i <= nodes@.len(),
                r@ == chain_text(derefs(nodes@).subrange(0, i as int)),
            decreases nodes@.len() - i,
        {
            if i > 0 {
                push_str(&mut r, "->");
            }
            let t = nodes[i].change_path.as_text();
            push_str(&mut r, t.as_str());
            assert(derefs(nodes@).subrange(0, i + 1).drop_last() =~= derefs(nodes@).subrange(0, i as int));
            i = i + 1;
        }
        assert(derefs(nodes@).subrange(0, nodes@.len() as int) =~= derefs(nodes@));
        r
    }

    /// The text of a change; the id of its node is not used.
    fn change_text(change: &Change, parent_id: &u64) -> (r: String)
        ensures
            r@ == change_text_of(change@),
    {
        let mut md = String::new();
        match change.action {
            Action::Apply | Action::Replace => {
                match &change.action_after_path {
                    Some(ap) => {
                        push_str(&mut md, "После '");
                        let t = ap.as_text();
                        push_str(&mut md, t.as_str());
                        push_str(&mut md, "' ");
                    },
                    None => {},
                }
                match change.action {
                    Action::Apply => push_str(&mut md, "дополнить: "),
                    _ => push_str(&mut md, "в редакции:"),
                }
                push_str(&mut md, "\n");
                match &change.text_changes {
                    Some(txt) => match change.change_type {
                        ChangeType::Text => {
                            let mut i: usize = 0;
                            let ghost start = md@;
                            while i < txt.len()
                                invariant
                                    i <= txt@.len(),
                                    md@ == start + text_lines(txt@.subrange(0, i as int).map_values(|s: String| s@)),
                                decreases txt@.len() - i,
                            {
                                push_str(&mut md, txt[i].as_str());
                                push_str(&mut md, "\n");
                                proof {
                                    let f = |s: String| s@;
                                    assert(txt@.subrange(0, i + 1).map_values(f).drop_last() =~= txt@.subrange(0, i as int).map_values(f));
                                }
                                i = i + 1;
                            }
                            assert(txt@.subrange(0, txt@.len() as int) =~= txt@);
                        },
                        _ => {},
                    },
                    None => {},
                }
            },
            Action::Words => {
                match &change.changes {
                    Some(actions) => {
                        let mut i: usize = 0;
                        assert(actions@.subrange(0, 0) =~= Seq::<ChangeAction>::empty());
                        while i < actions.len()
                            invariant
                                i <= actions@.len(),
                                md@ == actions_text(crate::change_action::actions_view(actions@.subrange(0, i as int))),
                            decreases actions@.len() - i,
                        {
                            let ghost before = md@;
                            match &actions[i] {
                                ChangeAction::AddWords { after, words } => {
                                    match after {
                                        Some(af) => {
                                            push_str(&mut md, "после '");
                                            let e = escape_quotes(af.as_str());
                                            push_str(&mut md, e.as_str());
                                            push_str(&mut md, "' дополнить:");
                                        },
                                        None => push_str(&mut md, "дополнить:"),
                                    }
                                    push_str(&mut md, "\n");
                                    push_str(&mut md, words.as_str());
                                    push_str(&mut md, "\n");
                                },
                                ChangeAction::ReplaceSentence { number, text } => {
                                    push_str(&mut md, "предложение №");
                                    let n = u64_to_string(*number as u64);
                                    push_str(&mut md, n.as_str());
                                    push_str(&mut md, " изложить в редакции:");
                                    push_str(&mut md, "\n");
                                    push_str(&mut md, text.as_str());
                                    push_str(&mut md, "\n");
                                },
                                _ => {},
                            }
                            proof {
                                crate::change_action::lemma_actions_view_prefix(actions@, i as int);
                                let pre = crate::change_action::actions_view(actions@.subrange(0, i as int));
                                assert(pre.push(crate::change_action::action_view(actions@[i as int])).drop_last() =~= pre);
                                assert(md@ == before + action_text(crate::change_action::action_view(actions@[i as int])));
                            }
                            i = i + 1;
                        }
                        assert(actions@.subrange(0, actions@.len() as int) =~= actions@);
                    },
                    None => {},
                }
            },
        }
        md
    }

    /// Writes every double quote with a backslash before it.
    fn escape_quotes(input: &str) -> (r: String)
        ensures
            r@ == escaped(input@),
    {
        escape_quotes(input)
    }
}

} // verus!
