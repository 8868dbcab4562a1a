//! Operations an amendment applies to the text of an act.
use vstd::prelude::*;
use crate::objects::number::Number;

verus! {

/// One operation of an amendment.
#[derive(Debug, Hash)]
pub enum ChangeAction {
    /// `слова "…" заменить словами "…"`
    ReplaceWords { old_words: String, new_words: String },
    /// `слова "…" исключить`
    ExcludeWords(String),
    /// `(после слов "…") дополнить словами "…"`; `after` is absent when the words go at
    /// the end.
    AddWords { after: Option<String>, words: String },
    /// `дополнить статьями …`
    ApplyHeaders(Vec<String>),
    /// `дополнить пунктами …`, `дополнить подпунктами …`
    ApplyItems(Vec<String>),
    /// `дополнить абзацем …`
    ApplyIndents(Vec<String>),
    /// `дополнить предложением …`: a new sentence joined to the paragraph.
    ApplySentence(String),
    /// `первое предложение изложить в следующей редакции: …`
    ReplaceSentence { number: u32, text: String },
    /// `статью … изложить в следующей редакции`
    HeaderInNewEdition(String),
    /// `наименование статьи … изложить в следующей редакции`
    HeaderNameInNewEdition(String),
    /// Word operations on the name of a header.
    HeaderNameOperations(Vec<ChangeAction>),
    ItemsInNewEdition(Vec<String>),
    IndentsInNewEdition(Vec<String>),
    /// `пункт 1 признать утратившим силу`
    LostPower(Number),
    /// `часть 12 исключить`
    Exclude(Number),
    /// Nothing to do.
    Nothing,
}

/// An operation with its texts taken as character sequences.
pub ghost enum ActionView {
    ReplaceWords { old_words: Seq<char>, new_words: Seq<char> },
    ExcludeWords(Seq<char>),
    AddWords { after: Option<Seq<char>>, words: Seq<char> },
    ApplyHeaders(Seq<Seq<char>>),
    ApplyItems(Seq<Seq<char>>),
    ApplyIndents(Seq<Seq<char>>),
    ApplySentence(Seq<char>),
    ReplaceSentence { number: u32, text: Seq<char> },
    HeaderInNewEdition(Seq<char>),
    HeaderNameInNewEdition(Seq<char>),
    HeaderNameOperations(Seq<ActionView>),
    ItemsInNewEdition(Seq<Seq<char>>),
    IndentsInNewEdition(Seq<Seq<char>>),
    LostPower(Number),
    Exclude(Number),
    Nothing,
}

/// The character sequences of a list of strings.
pub open spec fn texts_view(v: Seq<String>) -> Seq<Seq<char>> {
    v.map_values(|s: String| s@)
}

/// The view of an operation.
pub open spec fn action_view(a: ChangeAction) -> ActionView
    decreases a, 1int,
{
    match a {
        ChangeAction::ReplaceWords { old_words, new_words } => ActionView::ReplaceWords {
            old_words: old_words@,
            new_words: new_words@,
        },
        ChangeAction::ExcludeWords(w) => ActionView::ExcludeWords(w@),
        ChangeAction::AddWords { after, words } => ActionView::AddWords {
            after: match after {
                Some(s) => Some(s@),
                None => None,
            },
            words: words@,
        },
        ChangeAction::ApplyHeaders(v) => ActionView::ApplyHeaders(texts_view(v@)),
        ChangeAction::ApplyItems(v) => ActionView::ApplyItems(texts_view(v@)),
        ChangeAction::ApplyIndents(v) => ActionView::ApplyIndents(texts_view(v@)),
        ChangeAction::ApplySentence(s) => ActionView::ApplySentence(s@),
        ChangeAction::ReplaceSentence { number, text } => ActionView::ReplaceSentence {
            number,
            text: text@,
        },
        ChangeAction::HeaderInNewEdition(s) => ActionView::HeaderInNewEdition(s@),
        ChangeAction::HeaderNameInNewEdition(s) => ActionView::HeaderNameInNewEdition(s@),
        ChangeAction::HeaderNameOperations(v) => {
            proof {
                broadcast use vstd::std_specs::vec::axiom_vec_decreases_to_view;
                assert(decreases_to!(v => v@));
            }
            ActionView::HeaderNameOperations(actions_view(v@))
        },
        ChangeAction::ItemsInNewEdition(v) => ActionView::ItemsInNewEdition(texts_view(v@)),
        ChangeAction::IndentsInNewEdition(v) => ActionView::IndentsInNewEdition(texts_view(v@)),
        ChangeAction::LostPower(n) => ActionView::LostPower(n),
        ChangeAction::Exclude(n) => ActionView::Exclude(n),
        ChangeAction::Nothing => ActionView::Nothing,
    }
}

/// The views of a list of operations.
pub open spec fn actions_view(s: Seq<ChangeAction>) -> Seq<ActionView>
    decreases s, 0int,
{
    if s.len() == 0 {
        seq![]
    } else {
        actions_view(s.drop_last()).push(action_view(s.last()))
    }
}

impl View for ChangeAction {
    type V = ActionView;

    open spec fn view(&self) -> ActionView {
        action_view(*self)
    }
}

/// A copy of a list of strings.
pub fn copy_texts(v: &Vec<String>) -> (r: Vec<String>)
    ensures
        r@ == v@,
{
    let mut r: Vec<String> = Vec::new();
    let mut i: usize = 0;
    while i < v.len()
        invariant
            i <= v@.len(),
            r@ == v@.subrange(0, i as int),
        decreases v@.len() - i,
    {
        r.push(v[i].clone());
        i = i + 1;
        assert(r@ =~= v@.subrange(0, i as int));
    }
    assert(v@.subrange(0, v@.len() as int) =~= v@);
    r
}

impl ChangeAction {
    /// A copy of this operation.
    pub fn duplicate(&self) -> (r: Self)
        ensures
            r@ == self@,
        decreases self,
    {
        match self {
            ChangeAction::ReplaceWords { old_words, new_words } => ChangeAction::ReplaceWords {
                old_words: old_words.clone(),
                new_words: new_words.clone(),
            },
            ChangeAction::ExcludeWords(w) => ChangeAction::ExcludeWords(w.clone()),
            ChangeAction::AddWords { after, words } => ChangeAction::AddWords {
                after: match after {
                    Some(s) => Some(s.clone()),
                    None => None,
                },
                words: words.clone(),
            },
            ChangeAction::ApplyHeaders(v) => ChangeAction::ApplyHeaders(copy_texts(v)),
            ChangeAction::ApplyItems(v) => ChangeAction::ApplyItems(copy_texts(v)),
            ChangeAction::ApplyIndents(v) => ChangeAction::ApplyIndents(copy_texts(v)),
            ChangeAction::ApplySentence(s) => ChangeAction::ApplySentence(s.clone()),
            ChangeAction::ReplaceSentence { number, text } => ChangeAction::ReplaceSentence {
                number: *number,
                text: text.clone(),
            },
            ChangeAction::HeaderInNewEdition(s) => ChangeAction::HeaderInNewEdition(s.clone()),
            ChangeAction::HeaderNameInNewEdition(s) => ChangeAction::HeaderNameInNewEdition(
                s.clone(),
            ),
            ChangeAction::HeaderNameOperations(v) => {
                let mut r: Vec<ChangeAction> = Vec::new();
                let mut i: usize = 0;
                while i < v.len()
                    invariant
                        *self is HeaderNameOperations,
                        self->HeaderNameOperations_0 == *v,
                        i <= v@.len(),
                        actions_view(r@) == actions_view(v@.subrange(0, i as int)),
                    decreases v@.len() - i,
                {
                    proof {
                        broadcast use vstd::std_specs::vec::axiom_vec_index_decreases;
                        assert(decreases_to!(*v => v[i as int]));
                        assert(*v == self->HeaderNameOperations_0);
                        assert(decreases_to!(*self => self->HeaderNameOperations_0));
                        assert(decreases_to!(*self => v[i as int]));
                    }
                    let d = v[i].duplicate();
                    let ghost before = r@;
                    r.push(d);
                    proof {
                        assert(r@.drop_last() =~= before);
                        assert(v@.subrange(0, i + 1).drop_last() =~= v@.subrange(0, i as int));
                    }
                    i = i + 1;
                }
                assert(v@.subrange(0, v@.len() as int) =~= v@);
                ChangeAction::HeaderNameOperations(r)
            },
            ChangeAction::ItemsInNewEdition(v) => ChangeAction::ItemsInNewEdition(copy_texts(v)),
            ChangeAction::IndentsInNewEdition(v) => ChangeAction::IndentsInNewEdition(
                copy_texts(v),
            ),
            ChangeAction::LostPower(n) => ChangeAction::LostPower(n.duplicate()),
            ChangeAction::Exclude(n) => ChangeAction::Exclude(n.duplicate()),
            ChangeAction::Nothing => ChangeAction::Nothing,
        }
    }
}

/// A copy of a list of operations.
pub fn copy_actions(v: &Vec<ChangeAction>) -> (r: Vec<ChangeAction>)
    ensures
        actions_view(r@) == actions_view(v@),
{
    let mut r: Vec<ChangeAction> = Vec::new();
    let mut i: usize = 0;
    while i < v.len()
        invariant
            i <= v@.len(),
            actions_view(r@) == actions_view(v@.subrange(0, i as int)),
        decreases v@.len() - i,
    {
        let d = v[i].duplicate();
        let ghost before = r@;
        r.push(d);
        proof {
            assert(r@.drop_last() =~= before);
            assert(v@.subrange(0, i + 1).drop_last() =~= v@.subrange(0, i as int));
        }
        i = i + 1;
    }
    assert(v@.subrange(0, v@.len() as int) =~= v@);
    r
}


/// The views of one more operation.
pub proof fn lemma_actions_view_prefix(s: Seq<ChangeAction>, i: int)
    requires
        0 <= i < s.len(),
    ensures
        actions_view(s.subrange(0, i + 1)) == actions_view(s.subrange(0, i)).push(action_view(s[i])),
        actions_view(s).len() == s.len(),
{
    assert(s.subrange(0, i + 1).drop_last() =~= s.subrange(0, i));
    lemma_actions_view_len(s);
}

/// There is one view per operation.
pub proof fn lemma_actions_view_len(s: Seq<ChangeAction>)
    ensures
        actions_view(s).len() == s.len(),
    decreases s.len(),
{
    if s.len() > 0 {
        lemma_actions_view_len(s.drop_last());
    }
}

/// The views of a list with one more operation.
pub proof fn lemma_actions_view_push(s: Seq<ChangeAction>, a: ChangeAction)
    ensures
        actions_view(s.push(a)) == actions_view(s).push(action_view(a)),
{
    assert(s.push(a).drop_last() =~= s);
}

/// The views of two lists one after the other.
pub proof fn lemma_actions_view_concat(s: Seq<ChangeAction>, t: Seq<ChangeAction>)
    ensures
        actions_view(s + t) == actions_view(s) + actions_view(t),
    decreases t.len(),
{
    if t.len() == 0 {
        assert(s + t =~= s);
        assert(actions_view(s) + actions_view(t) =~= actions_view(s));
    } else {
        lemma_actions_view_concat(s, t.drop_last());
        assert((s + t).drop_last() =~= s + t.drop_last());
        assert(actions_view(s) + actions_view(t) =~= (actions_view(s) + actions_view(t.drop_last())).push(action_view(t.last())));
    }
}

/// The view of an operation of a list is the matching view of the list.
pub proof fn lemma_actions_view_index(s: Seq<ChangeAction>, i: int)
    requires
        0 <= i < s.len(),
    ensures
        actions_view(s)[i] == action_view(s[i]),
    decreases s.len(),
{
    lemma_actions_view_len(s.drop_last());
    if i < s.len() - 1 {
        lemma_actions_view_index(s.drop_last(), i);
    }
}

} // verus!
