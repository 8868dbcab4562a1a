//! Mermaid flowchart lines for paths and changes.
use vstd::prelude::*;
use std::hash::{DefaultHasher, Hash, Hasher};
use crate::change_action::{ActionView, ChangeAction};
use crate::change_path::{ChangePath, TargetPath, target_markdown};
use crate::parsers::changes_parser::{Action, Change, ChangeType, ChangeView, actions_or_empty};
use crate::text::{decimal, escape_quotes, escaped, has_prefix, push_str, u64_to_string};
pub use crate::outputs::markdown::AsMarkdown;

verus! {

/// Values that draw themselves as a Mermaid diagram.
pub trait MermaidDiagramm {
    /// The Mermaid text of the value.
    fn get_diagramm(&self) -> String;
}

/// `"После '<path>'"` for a change placed after a path; empty otherwise.
pub open spec fn after_markdown(after: Option<Seq<ChangePath>>) -> Seq<char> {
    match after {
        Some(p) => "После '"@ + target_markdown(p) + "'"@,
        None => seq![],
    }
}

/// The texts, each with its quotes escaped and followed by two spaces.
pub open spec fn joined_escaped(texts: Seq<Seq<char>>) -> Seq<char>
    decreases texts.len(),
{
    if texts.len() == 0 {
        seq![]
    } else {
        joined_escaped(texts.drop_last()) + escaped(texts.last()) + "  "@
    }
}

/// The label of an addition or a new wording: its texts, when they are plain text.
pub open spec fn texts_label(c: ChangeView) -> Seq<char> {
    match c.texts {
        Some(t) => if c.change_type == ChangeType::Text {
            joined_escaped(t)
        } else {
            seq![]
        },
        None => seq![],
    }
}

/// One Mermaid edge from `parent` to a rounded node `id` of class `class`.
pub open spec fn edge_line(
    parent: u64,
    relation: Seq<char>,
    id: u64,
    class: Seq<char>,
    label: Seq<char>,
) -> Seq<char> {
    decimal(parent as nat) + "-->|"@ + relation + "|"@ + decimal(id as nat) + ":::"@ + class
        + "@{ shape: rounded, label: \""@ + label + "\"}\n"@
}

/// The line of one operation on words; operations other than additions of words and new
/// sentences draw nothing.
pub open spec fn action_line(parent: u64, a: ActionView, id: u64) -> Seq<char> {
    match a {
        ActionView::AddWords { after, words } => edge_line(
            parent,
            match after {
                Some(af) => "после '"@ + escaped(af) + "' дополнить"@,
                None => "дополнить"@,
            },
            id,
            "words"@,
            escaped(words),
        ),
        ActionView::ReplaceSentence { number, text } => edge_line(
            parent,
            "предложение **№"@ + decimal(number as nat) + "** изложить в редакции"@,
            id,
            "words"@,
            escaped(text),
        ),
        _ => seq![],
    }
}

/// The lines of operations on words, each with its own id.
pub open spec fn actions_lines(parent: u64, actions: Seq<ActionView>, ids: Seq<u64>) -> Seq<char>
    decreases actions.len(),
{
    if actions.len() == 0 {
        seq![]
    } else {
        actions_lines(parent, actions.drop_last(), ids) + action_line(
            parent,
            actions.last(),
            ids[actions.len() - 1],
        )
    }
}

/// The Mermaid lines of a change below the node `parent`: `text_id` names the node of
/// an addition or a new wording, `action_ids` the nodes of operations on words.
pub open spec fn change_diagram(c: ChangeView, parent: u64, text_id: u64, action_ids: Seq<u64>) -> Seq<char> {
    match c.action {
        Action::Apply => edge_line(
            parent,
            after_markdown(c.after) + " дополнить: "@,
            text_id,
            "apply"@,
            texts_label(c),
        ),
        Action::Replace => edge_line(
            parent,
            after_markdown(c.after) + " в редакции: "@,
            text_id,
            "replace"@,
            texts_label(c),
        ),
        Action::Words => match c.changes {
            Some(a) => actions_lines(parent, a, action_ids),
            None => seq![],
        },
    }
}

/// The start of the line that draws a change below `parent` in node `id`: the parent,
/// the arrow with its relation, the node and its class.
pub open spec fn edge_start(parent: u64, relation: Seq<char>, id: u64, class: Seq<char>) -> Seq<char> {
    decimal(parent as nat) + "-->|"@ + relation + "|"@ + decimal(id as nat) + ":::"@ + class + "@{"@
}

/// An addition is drawn as an arrow from its parent marked ` дополнить: ` (after the
/// place it follows) to a node of class `apply`; a new wording as one marked ` в
/// редакции: ` to a node of class `replace`; the label holds the texts, quotes escaped.
pub proof fn lemma_change_drawn(c: ChangeView, parent: u64, text_id: u64, action_ids: Seq<u64>)
    ensures
        c.action == Action::Apply ==> has_prefix(
            change_diagram(c, parent, text_id, action_ids),
            edge_start(parent, after_markdown(c.after) + " дополнить: "@, text_id, "apply"@),
        ),
        c.action == Action::Replace ==> has_prefix(
            change_diagram(c, parent, text_id, action_ids),
            edge_start(parent, after_markdown(c.after) + " в редакции: "@, text_id, "replace"@),
        ),
        c.action == Action::Apply || c.action == Action::Replace ==> change_diagram(c, parent, text_id, action_ids)
            =~= edge_start(
            parent,
            after_markdown(c.after) + if c.action == Action::Apply {
                " дополнить: "@
            } else {
                " в редакции: "@
            },
            text_id,
            if c.action == Action::Apply {
                "apply"@
            } else {
                "replace"@
            },
        ) + " shape: rounded, label: \""@ + texts_label(c) + "\"}\n"@,
{
    let d = change_diagram(c, parent, text_id, action_ids);
    if c.action == Action::Apply || c.action == Action::Replace {
        let rel = after_markdown(c.after) + if c.action == Action::Apply {
            " дополнить: "@
        } else {
            " в редакции: "@
        };
        let class = if c.action == Action::Apply {
            "apply"@
        } else {
            "replace"@
        };
        let head = edge_start(parent, rel, text_id, class);
        let tail = " shape: rounded, label: \""@ + texts_label(c) + "\"}\n"@;
        reveal_strlit("@{");
        reveal_strlit("@{ shape: rounded, label: \"");
        reveal_strlit(" shape: rounded, label: \"");
        assert("@{ shape: rounded, label: \""@ =~= "@{"@ + " shape: rounded, label: \""@);
        assert(d =~= head + tail);
        assert(d.subrange(0, head.len() as int) =~= head);
    }
}

/// An addition of words is drawn with a relation that says `дополнить` and a label that
/// holds the words added, quotes escaped, in a node of class `words`.
pub proof fn lemma_added_words_drawn(parent: u64, after: Option<Seq<char>>, words: Seq<char>, id: u64)
    ensures
        has_prefix(
            action_line(parent, ActionView::AddWords { after, words }, id),
            edge_start(
                parent,
                match after {
                    Some(af) => "после '"@ + escaped(af) + "' дополнить"@,
                    None => "дополнить"@,
                },
                id,
                "words"@,
            ),
        ),
        action_line(parent, ActionView::AddWords { after, words }, id).len() >= escaped(words).len() + 3,
        action_line(parent, ActionView::AddWords { after, words }, id).subrange(
            action_line(parent, ActionView::AddWords { after, words }, id).len() - escaped(words).len() - 3,
            action_line(parent, ActionView::AddWords { after, words }, id).len() as int,
        ) == escaped(words) + "\"}\n"@,
{
    let rel = match after {
        Some(af) => "после '"@ + escaped(af) + "' дополнить"@,
        None => "дополнить"@,
    };
    let d = action_line(parent, ActionView::AddWords { after, words }, id);
    let head = edge_start(parent, rel, id, "words"@);
    reveal_strlit("@{");
    reveal_strlit("@{ shape: rounded, label: \"");
    reveal_strlit(" shape: rounded, label: \"");
    reveal_strlit("\"}\n");
    assert("@{ shape: rounded, label: \""@ =~= "@{"@ + " shape: rounded, label: \""@);
    let tail = " shape: rounded, label: \""@ + (escaped(words) + "\"}\n"@);
    assert(d =~= head + tail);
    assert(d.subrange(0, head.len() as int) =~= head);
    assert(d.subrange(d.len() - escaped(words).len() - 3, d.len() as int) =~= escaped(words) + "\"}\n"@);
}

/// A new wording of a sentence is drawn with a relation that names the sentence's number
/// and a label that holds its text, quotes escaped, in a node of class `words`.
pub proof fn lemma_new_sentence_drawn(parent: u64, number: u32, text: Seq<char>, id: u64)
    ensures
        has_prefix(
            action_line(parent, ActionView::ReplaceSentence { number, text }, id),
            edge_start(
                parent,
                "предложение **№"@ + decimal(number as nat) + "** изложить в редакции"@,
                id,
                "words"@,
            ),
        ),
        action_line(parent, ActionView::ReplaceSentence { number, text }, id).len() >= escaped(text).len() + 3,
        action_line(parent, ActionView::ReplaceSentence { number, text }, id).subrange(
            action_line(parent, ActionView::ReplaceSentence { number, text }, id).len() - escaped(text).len() - 3,
            action_line(parent, ActionView::ReplaceSentence { number, text }, id).len() as int,
        ) == escaped(text) + "\"}\n"@,
{
    let rel = "предложение **№"@ + decimal(number as nat) + "** изложить в редакции"@;
    let d = action_line(parent, ActionView::ReplaceSentence { number, text }, id);
    let head = edge_start(parent, rel, id, "words"@);
    reveal_strlit("@{");
    reveal_strlit("@{ shape: rounded, label: \"");
    reveal_strlit(" shape: rounded, label: \"");
    reveal_strlit("\"}\n");
    assert("@{ shape: rounded, label: \""@ =~= "@{"@ + " shape: rounded, label: \""@);
    let tail = " shape: rounded, label: \""@ + (escaped(text) + "\"}\n"@);
    assert(d =~= head + tail);
    assert(d.subrange(0, head.len() as int) =~= head);
    assert(d.subrange(d.len() - escaped(text).len() - 3, d.len() as int) =~= escaped(text) + "\"}\n"@);
}

/// Ids fit a change: 0 for the text node when there are no texts, one id per operation
/// on words.
pub open spec fn ids_fit(c: ChangeView, text_id: u64, action_ids: Seq<u64>) -> bool {
    &&& c.texts is None ==> text_id == 0
    &&& c.action == Action::Words ==> action_ids.len() == actions_or_empty(c).len()
}

/// `Hash::hash` of the texts of a change into a `DefaultHasher`. Nothing is stated of the
/// hasher's state afterwards: it depends on the std release.
#[verifier::external_body]
fn hash_texts(texts: &Vec<String>, hasher: &mut DefaultHasher) {
    texts.hash(hasher);
}

/// `Hash::hash` of an operation (its derived hash) into a `DefaultHasher`. Nothing is
/// stated of the hasher's state afterwards: it depends on the std release.
#[verifier::external_body]
fn hash_action(action: &ChangeAction, hasher: &mut DefaultHasher) {
    action.hash(hasher);
}

/// The hash of the texts of a change, from a new `DefaultHasher`.
fn texts_hash(texts: &Vec<String>) -> u64 {
    let mut hasher = DefaultHasher::new();
    hash_texts(texts, &mut hasher);
    hasher.finish()
}

/// The hash of an operation, from a new `DefaultHasher`.
fn action_hash(action: &ChangeAction) -> u64 {
    let mut hasher = DefaultHasher::new();
    hash_action(action, &mut hasher);
    hasher.finish()
}

/// Appends one Mermaid edge line.
fn push_edge_line(out: &mut String, parent: u64, relation: &str, id: u64, class: &str, label: &str)
    ensures
        final(out)@ == old(out)@ + edge_line(parent, relation@, id, class@, label@),
{
    let p = u64_to_string(parent);
    push_str(out, p.as_str());
    push_str(out, "-->|");
    push_str(out, relation);
    push_str(out, "|");
    let i = u64_to_string(id);
    push_str(out, i.as_str());
    push_str(out, ":::");
    push_str(out, class);
    push_str(out, "@{ shape: rounded, label: \"");
    push_str(out, label);
    push_str(out, "\"}\n");
}

/// Writes the texts of a change, escaped, each followed by two spaces.
fn escaped_texts(texts: &Vec<String>) -> (r: String)
    ensures
        r@ == joined_escaped(texts@.map_values(|s: String| s@)),
{
    let mut r = String::new();
    let mut i: usize = 0;
    while i < texts.len()
        invariant
            i <= texts@.len(),
            r@ == joined_escaped(texts@.subrange(0, i as int).map_values(|s: String| s@)),
        decreases texts@.len() - i,
    {
        let e = escape_quotes(texts[i].as_str());
        push_str(&mut r, e.as_str());
        push_str(&mut r, "  ");
        proof {
            let f = |s: String| s@;
            assert(texts@.subrange(0, i + 1).map_values(f).drop_last() =~= texts@.subrange(0, i as int).map_values(f));
        }
        i = i + 1;
    }
    assert(texts@.subrange(0, texts@.len() as int) =~= texts@);
    r
}

/// The lines of a change, with the ids of its nodes given.
pub fn change_diagram_with_ids(change: &Change, parent_id: u64, text_id: u64, action_ids: &Vec<u64>) -> (r: String)
    requires
        change@.action == Action::Words ==> action_ids@.len() == actions_or_empty(change@).len(),
    ensures
        r@ == change_diagram(change@, parent_id, text_id, action_ids@),
{
    let mut md = String::new();
    match change.action {
        Action::Apply | Action::Replace => {
            let mut relation = String::new();
            match &change.action_after_path {
                Some(ap) => {
                    push_str(&mut relation, "После '");
                    let m = ap.as_markdown();
                    push_str(&mut relation, m.as_str());
                    push_str(&mut relation, "'");
                },
                None => {},
            }
            let label = match &change.text_changes {
                Some(t) => match change.change_type {
                    ChangeType::Text => escaped_texts(t),
                    _ => String::new(),
                },
                None => String::new(),
            };
            match change.action {
                Action::Apply => {
                    push_str(&mut relation, " дополнить: ");
                    push_edge_line(&mut md, parent_id, relation.as_str(), text_id, "apply", label.as_str());
                },
                _ => {
                    push_str(&mut relation, " в редакции: ");
                    push_edge_line(&mut md, parent_id, relation.as_str(), text_id, "replace", label.as_str());
                },
            }
        },
        Action::Words => {
            match &change.changes {
                Some(actions) => {
                    proof {
                        crate::change_action::lemma_actions_view_len(actions@);
                        assert(actions@.subrange(0, 0) =~= Seq::<ChangeAction>::empty());
                    }
                    let mut i: usize = 0;
                    while i < actions.len()
                        invariant
                            i <= actions@.len(),
                            change.changes == Some(*actions),
                            change@.action == Action::Words,
                            action_ids@.len() == crate::change_action::actions_view(actions@).len(),
                            md@ == actions_lines(parent_id, crate::change_action::actions_view(actions@.subrange(0, i as int)), action_ids@),
                        decreases actions@.len() - i,
                    {
                        let ghost before = md@;
                        proof {
                            crate::change_action::lemma_actions_view_len(actions@);
                        }
                        match &actions[i] {
                            ChangeAction::AddWords { after, words } => {
                                let mut relation = String::new();
                                match after {
                                    Some(af) => {
                                        push_str(&mut relation, "после '");
                                        let e = escape_quotes(af.as_str());
                                        push_str(&mut relation, e.as_str());
                                        push_str(&mut relation, "' дополнить");
                                    },
                                    None => push_str(&mut relation, "дополнить"),
                                }
                                let label = escape_quotes(words.as_str());
                                push_edge_line(&mut md, parent_id, relation.as_str(), action_ids[i], "words", label.as_str());
                            },
                            ChangeAction::ReplaceSentence { number, text } => {
                                let mut relation = String::new();
                                push_str(&mut relation, "предложение **№");
                                let n = u64_to_string(*number as u64);
                                push_str(&mut relation, n.as_str());
                                push_str(&mut relation, "** изложить в редакции");
                                let label = escape_quotes(text.as_str());
                                push_edge_line(&mut md, parent_id, relation.as_str(), action_ids[i], "words", label.as_str());
                            },
                            _ => {},
                        }
                        proof {
                            crate::change_action::lemma_actions_view_prefix(actions@, i as int);
                            let pre = crate::change_action::actions_view(actions@.subrange(0, i as int));
                            crate::change_action::lemma_actions_view_len(actions@.subrange(0, i as int));
                            assert(pre.push(crate::change_action::action_view(actions@[i as int])).drop_last() =~= pre);
                            assert(md@ == before + action_line(parent_id, crate::change_action::action_view(actions@[i as int]), action_ids@[i as int]));
                        }
                        i = i + 1;
                    }
                    assert(actions@.subrange(0, actions@.len() as int) =~= actions@);
                },
                None => {},
            }
        },
    }
    md
}

/// The Mermaid lines of a change below the node `parent_id`; the ids of its own nodes
/// are hashes of its texts or of its operations, of which nothing is stated.
pub fn change_diagramm(change: &Change, parent_id: u64) -> (r: String)
    ensures
        exists|t: u64, ids: Seq<u64>| ids_fit(change@, t, ids) && r@ == change_diagram(change@, parent_id, t, ids),
{
    match change.action {
        Action::Words => {
            let mut ids: Vec<u64> = Vec::new();
            match &change.changes {
                Some(actions) => {
                    proof {
                        crate::change_action::lemma_actions_view_len(actions@);
                    }
                    let mut i: usize = 0;
                    while i < actions.len()
                        invariant
                            i <= actions@.len(),
                            ids@.len() == i,
                        decreases actions@.len() - i,
                    {
                        ids.push(action_hash(&actions[i]));
                        i = i + 1;
                    }
                },
                None => {},
            }
            let r = change_diagram_with_ids(change, parent_id, 0, &ids);
            assert(ids_fit(change@, 0, ids@));
            r
        },
        _ => {
            let id = match &change.text_changes {
                Some(t) => texts_hash(t),
                None => 0,
            };
            let ids: Vec<u64> = Vec::new();
            let r = change_diagram_with_ids(change, parent_id, id, &ids);
            assert(ids_fit(change@, id, ids@));
            r
        },
    }
}

/// One line of a Mermaid flowchart for a path step, linked from its parent and followed by
/// the lines of its change.
pub struct MermaidDiagrammConstructor<'a, M: AsMarkdown> {
    /// The shape of the node; the constructors write `rect`.
    pub shape: String,
    pub id: &'a u64,
    pub parent_id: Option<&'a u64>,
    pub label: &'a M,
    pub change: Option<&'a Change>,
}

/// The node line of a step, with the edge from its parent when it has one.
pub open spec fn step_line(id: u64, parent: Option<u64>, label: Seq<char>) -> Seq<char> {
    match parent {
        Some(p) => decimal(p as nat) + ":::path-->"@ + decimal(id as nat) + ":::path@{ shape: rect, label: \""@
            + label + "\"}\n"@,
        None => decimal(id as nat) + ":::path@{ shape: rect, label: \""@ + label + "\"}\n"@,
    }
}

impl<'a, M: AsMarkdown> MermaidDiagrammConstructor<'a, M> {
    /// The shape of the step's node.
    pub open spec fn shape(&self) -> Seq<char> {
        self.shape@
    }

    /// The id of the step's node.
    pub open spec fn node_id(&self) -> u64 {
        *self.id
    }

    /// The id of the parent's node.
    pub open spec fn parent(&self) -> Option<u64> {
        match self.parent_id {
            Some(p) => Some(*p),
            None => None,
        }
    }

    /// The Markdown of the step.
    pub open spec fn label_markdown(&self) -> Seq<char> {
        self.label.markdown()
    }

    /// The change made at the step.
    pub open spec fn change_made(&self) -> Option<ChangeView> {
        match self.change {
            Some(c) => Some(c@),
            None => None,
        }
    }

    /// A top step.
    pub fn new(id: &'a u64, label: &'a M) -> (r: Self)
        ensures
            r.shape() == "rect"@,
            r.node_id() == *id,
            r.parent() is None,
            r.label_markdown() == label.markdown(),
            r.change_made() is None,
            r.id == id,
            r.label == label,
            r.parent_id is None,
            r.change is None,
    {
        Self { shape: crate::text::string_of("rect"), id, parent_id: None, label, change: None }
    }

    /// A step below `parent_id`.
    pub fn new_with_parent(id: &'a u64, parent_id: &'a u64, label: &'a M) -> (r: Self)
        ensures
            r.shape() == "rect"@,
            r.node_id() == *id,
            r.parent() == Some(*parent_id),
            r.label_markdown() == label.markdown(),
            r.change_made() is None,
            r.id == id,
            r.label == label,
            r.parent_id == Some(parent_id),
            r.change is None,
    {
        Self {
            shape: crate::text::string_of("rect"),
            id,
            parent_id: Some(parent_id),
            label,
            change: None,
        }
    }

    /// A step below `parent_id` where `change` is made.
    pub fn new_with_parent_and_change(
        id: &'a u64,
        parent_id: &'a u64,
        label: &'a M,
        change: &'a Change,
    ) -> (r: Self)
        ensures
            r.shape() == "rect"@,
            r.node_id() == *id,
            r.parent() == Some(*parent_id),
            r.label_markdown() == label.markdown(),
            r.change_made() == Some(change@),
            r.id == id,
            r.label == label,
            r.parent_id == Some(parent_id),
            r.change == Some(change),
    {
        Self {
            shape: crate::text::string_of("rect"),
            id,
            parent_id: Some(parent_id),
            label,
            change: Some(change),
        }
    }

    /// The lines of the step: its node, the edge from its parent, and, below a parent,
    /// the lines of its change after an empty line.
    pub fn gen_line(&self) -> (r: String)
        requires
            self.shape() == "rect"@,
        ensures
            self.parent() is None ==> r@ == step_line(self.node_id(), None, self.label_markdown()),
            self.parent() matches Some(p) ==> match self.change_made() {
                None => r@ == step_line(self.node_id(), Some(p), self.label_markdown()),
                Some(c) => exists|t: u64, ids: Seq<u64>|
                    ids_fit(c, t, ids) && r@ == step_line(self.node_id(), Some(p), self.label_markdown())
                        + "\n"@ + change_diagram(c, self.node_id(), t, ids),
            },
    {
        let mut line = String::new();
        let md = self.label.as_markdown();
        match self.parent_id {
            Some(p_id) => {
                let p = u64_to_string(*p_id);
                push_str(&mut line, p.as_str());
                push_str(&mut line, ":::path-->");
                let i = u64_to_string(*self.id);
                push_str(&mut line, i.as_str());
                push_str(&mut line, ":::path@{ shape: ");
                push_str(&mut line, self.shape.as_str());
                push_str(&mut line, ", label: \"");
                push_str(&mut line, md.as_str());
                push_str(&mut line, "\"}\n");
                proof {
                    reveal_strlit(":::path@{ shape: ");
                    reveal_strlit("rect");
                    reveal_strlit(", label: \"");
                    reveal_strlit(":::path@{ shape: rect, label: \"");
                    assert(":::path@{ shape: "@ + "rect"@ + ", label: \""@ =~= ":::path@{ shape: rect, label: \""@);
                }
                match self.change {
                    Some(ch) => {
                        push_str(&mut line, "\n");
                        let d = change_diagramm(ch, *self.id);
                        push_str(&mut line, d.as_str());
                    },
                    None => {},
                }
            },
            None => {
                let i = u64_to_string(*self.id);
                push_str(&mut line, i.as_str());
                push_str(&mut line, ":::path@{ shape: ");
                push_str(&mut line, self.shape.as_str());
                push_str(&mut line, ", label: \"");
                push_str(&mut line, md.as_str());
                push_str(&mut line, "\"}\n");
                proof {
                    reveal_strlit(":::path@{ shape: ");
                    reveal_strlit("rect");
                    reveal_strlit(", label: \"");
                    reveal_strlit(":::path@{ shape: rect, label: \"");
                    assert(":::path@{ shape: "@ + "rect"@ + ", label: \""@ =~= ":::path@{ shape: rect, label: \""@);
                }
            },
        }
        line
    }
}

} // verus!
