//! The list of changes of an amending act, built line after line.
//!
//! Each line of the act is first recognised as one kind of directive (a path that the
//! next lines refine, an addition, a change of words, a new wording, the name of a unit)
//! or as plain text that belongs to the directive before it. This module keeps the
//! state across lines: the changes found so far and the path that the enclosing
//! definitions give.
use vstd::prelude::*;
use crate::change_action::{ActionView, ChangeAction, actions_view, copy_actions, copy_texts, texts_view};
use crate::change_path::{ChangePath, TargetPath, path_level, without_levels_of};
use crate::objects::remain_tokens::RemainTokens;
use crate::text::string_of;

verus! {

/// What a change does.
#[derive(Debug, Clone, Copy, PartialEq, Eq, Structural)]
pub enum Action {
    /// Changes words inside one paragraph.
    Words,
    /// Gives a unit a new wording.
    Replace,
    /// Adds new units.
    Apply,
}

/// The kind of the text that a change brings.
#[derive(Debug, Clone, Copy, PartialEq, Eq, Structural)]
pub enum ChangeType {
    Text,
    Html,
    /// No text yet.
    Nothing,
}

/// One change of an amending act.
#[derive(Debug)]
pub struct Change {
    /// The place that the change concerns.
    pub target_path: TargetPath,
    /// The operations on words, for a change of words.
    pub changes: Option<Vec<ChangeAction>>,
    /// The unit after which new units go.
    pub action_after_path: Option<TargetPath>,
    pub action: Action,
    pub change_type: ChangeType,
    /// The lines of new text.
    pub text_changes: Option<Vec<String>>,
}

/// A change with its paths, operations and texts as mathematical values.
pub ghost struct ChangeView {
    pub target: Seq<ChangePath>,
    pub changes: Option<Seq<ActionView>>,
    pub after: Option<Seq<ChangePath>>,
    pub action: Action,
    pub change_type: ChangeType,
    pub texts: Option<Seq<Seq<char>>>,
}

/// The view of an optional path.
pub open spec fn opt_path_view(p: Option<TargetPath>) -> Option<Seq<ChangePath>> {
    match p {
        Some(t) => Some(t@),
        None => None,
    }
}

impl View for Change {
    type V = ChangeView;

    open spec fn view(&self) -> ChangeView {
        ChangeView {
            target: self.target_path@,
            changes: match self.changes {
                Some(v) => Some(actions_view(v@)),
                None => None,
            },
            after: opt_path_view(self.action_after_path),
            action: self.action,
            change_type: self.change_type,
            texts: match self.text_changes {
                Some(v) => Some(texts_view(v@)),
                None => None,
            },
        }
    }
}

impl Change {
    /// A copy of this change.
    pub fn duplicate(&self) -> (r: Self)
        ensures
            r@ == self@,
    {
        Change {
            target_path: self.target_path.duplicate(),
            changes: match &self.changes {
                Some(v) => Some(copy_actions(v)),
                None => None,
            },
            action_after_path: match &self.action_after_path {
                Some(p) => Some(p.duplicate()),
                None => None,
            },
            action: self.action,
            change_type: self.change_type,
            text_changes: match &self.text_changes {
                Some(v) => Some(copy_texts(v)),
                None => None,
            },
        }
    }
}

/// The changes of an amending act, in the order of its lines.
#[derive(Debug)]
pub struct Changes(pub(crate) Vec<Change>);

/// The views of a list of changes.
pub open spec fn changes_view(v: Seq<Change>) -> Seq<ChangeView> {
    v.map_values(|c: Change| c@)
}

impl View for Changes {
    type V = Seq<ChangeView>;

    closed spec fn view(&self) -> Seq<ChangeView> {
        changes_view(self.0@)
    }
}

/// What a line of an amending act was recognised as; `rest` is what the rule left
/// unread.
#[derive(Debug)]
pub enum LineDirective {
    /// `2) в статье 20:` — a path that the next lines refine.
    PathOnly { path: TargetPath, rest: String },
    /// `дополнить статьёй 5.1 следующего содержания:` — new units, whose text follows.
    Apply { after: Option<TargetPath>, target: TargetPath, rest: String },
    /// `в абзаце втором слова "…" заменить словами "…"` — operations on words.
    Words { target: TargetPath, actions: Vec<ChangeAction>, rest: String },
    /// `пункт 3 изложить в следующей редакции:` — a new wording, whose text follows.
    Replace { target: TargetPath, rest: String },
    /// A line about the name of a unit.
    ItemName { rest: String },
    /// None of the rules: text of the directive before.
    Text,
}

/// A line and what it was recognised as.
#[derive(Debug)]
pub struct ClassifiedLine {
    pub line: String,
    pub directive: LineDirective,
}

/// The enclosing path after a line that only names a path: a shallower or equal step
/// replaces the whole enclosing path; a deeper one is appended; on an empty enclosing
/// path only the last step is kept.
pub open spec fn paths_after_definition(all: Seq<ChangePath>, current: Seq<ChangePath>) -> Seq<
    ChangePath,
> {
    if current.len() == 0 {
        all
    } else if all.len() == 0 {
        seq![current.last()]
    } else if path_level(current.last()) <= path_level(all.last()) {
        current
    } else {
        all.push(current.last())
    }
}

/// A change just recorded: no text yet.
pub open spec fn new_change(
    target: Seq<ChangePath>,
    after: Option<Seq<ChangePath>>,
    action: Action,
    changes: Option<Seq<ActionView>>,
) -> ChangeView {
    ChangeView { target, changes, after, action, change_type: ChangeType::Nothing, texts: None }
}

/// The texts of a change, none when absent.
pub open spec fn texts_or_empty(c: ChangeView) -> Seq<Seq<char>> {
    match c.texts {
        Some(t) => t,
        None => seq![],
    }
}

/// The operations of a change, none when absent.
pub open spec fn actions_or_empty(c: ChangeView) -> Seq<ActionView> {
    match c.changes {
        Some(t) => t,
        None => seq![],
    }
}

/// A change after a line of text was given to it: additions and new wordings collect
/// it, a change of words ignores it.
pub open spec fn with_text(c: ChangeView, txt: Seq<char>) -> ChangeView {
    match c.action {
        Action::Apply => ChangeView {
            target: c.target,
            changes: Some(actions_or_empty(c)),
            after: c.after,
            action: c.action,
            change_type: ChangeType::Text,
            texts: Some(texts_or_empty(c).push(txt)),
        },
        Action::Replace => ChangeView {
            target: c.target,
            changes: c.changes,
            after: c.after,
            action: c.action,
            change_type: ChangeType::Text,
            texts: Some(texts_or_empty(c).push(txt)),
        },
        Action::Words => c,
    }
}

/// The list after a line of text: it goes to the last change, if there is one.
pub open spec fn text_added(changes: Seq<ChangeView>, txt: Seq<char>) -> Seq<ChangeView> {
    if changes.len() == 0 {
        changes
    } else {
        changes.update(changes.len() - 1, with_text(changes.last(), txt))
    }
}

/// The target of a directive once the enclosing path is put before it.
pub open spec fn placed_target(all: Seq<ChangePath>, target: Seq<ChangePath>) -> Seq<ChangePath> {
    without_levels_of(all, target) + target
}

/// The list of changes and the enclosing path after one line.
pub open spec fn line_step(
    changes: Seq<ChangeView>,
    all: Seq<ChangePath>,
    line: Seq<char>,
    d: LineDirective,
) -> (Seq<ChangeView>, Seq<ChangePath>) {
    match d {
        LineDirective::PathOnly { path, .. } => (changes, paths_after_definition(all, path@)),
        LineDirective::Apply { after, target, .. } => (
            changes.push(
                new_change(placed_target(all, target@), opt_path_view(after), Action::Apply, None),
            ),
            without_levels_of(all, target@),
        ),
        LineDirective::Words { target, actions, .. } => (
            changes.push(
                new_change(
                    placed_target(all, target@),
                    None,
                    Action::Words,
                    Some(actions_view(actions@)),
                ),
            ),
            without_levels_of(all, target@),
        ),
        LineDirective::Replace { target, .. } => (
            changes.push(new_change(placed_target(all, target@), None, Action::Replace, None)),
            without_levels_of(all, target@),
        ),
        LineDirective::ItemName { .. } => (changes, all),
        LineDirective::Text => (text_added(changes, line), all),
    }
}

/// A line that adds, changes words or gives a new wording records one new change at the
/// end of the list, keeping the changes before it: an addition keeps the place it names
/// before `дополнить` as the change's after-path (none when it names none); a change of
/// words keeps its operations; the change concerns the directive's target, with the
/// enclosing steps it lacks put before it.
pub proof fn lemma_directive_recorded(changes: Seq<ChangeView>, all: Seq<ChangePath>, line: Seq<char>, d: LineDirective)
    requires
        d is Apply || d is Words || d is Replace,
    ensures
        ({
            let r = line_step(changes, all, line, d).0;
            &&& r.len() == changes.len() + 1
            &&& r.subrange(0, changes.len() as int) == changes
            &&& r.last().change_type == ChangeType::Nothing
            &&& r.last().texts is None
            &&& match d {
                LineDirective::Apply { after, target, .. } => {
                    &&& r.last().action == Action::Apply
                    &&& (after matches Some(p) ==> r.last().after == Some(p@))
                    &&& (after is None ==> r.last().after is None)
                    &&& r.last().target.len() >= target@.len()
                    &&& r.last().target.subrange(r.last().target.len() - target@.len(), r.last().target.len() as int)
                        == target@
                },
                LineDirective::Words { target, actions, .. } => {
                    &&& r.last().action == Action::Words
                    &&& r.last().after is None
                    &&& r.last().changes == Some(actions_view(actions@))
                    &&& r.last().target.len() >= target@.len()
                    &&& r.last().target.subrange(r.last().target.len() - target@.len(), r.last().target.len() as int)
                        == target@
                },
                LineDirective::Replace { target, .. } => {
                    &&& r.last().action == Action::Replace
                    &&& r.last().after is None
                    &&& r.last().target.len() >= target@.len()
                    &&& r.last().target.subrange(r.last().target.len() - target@.len(), r.last().target.len() as int)
                        == target@
                },
                _ => true,
            }
        }),
{
    let r = line_step(changes, all, line, d).0;
    assert(r.subrange(0, changes.len() as int) =~= changes);
    match d {
        LineDirective::Apply { target, .. } => {
            let w = without_levels_of(all, target@);
            assert(r.last().target =~= w + target@);
            assert((w + target@).subrange(w.len() as int, (w + target@).len() as int) =~= target@);
        },
        LineDirective::Words { target, .. } => {
            let w = without_levels_of(all, target@);
            assert((w + target@).subrange(w.len() as int, (w + target@).len() as int) =~= target@);
        },
        LineDirective::Replace { target, .. } => {
            let w = without_levels_of(all, target@);
            assert((w + target@).subrange(w.len() as int, (w + target@).len() as int) =~= target@);
        },
        _ => {},
    }
}

/// A line of plain text goes to the last change: an addition or a new wording gets it as
/// its last text line and becomes a change with text; a change of words is left as it
/// is; the changes before the last, and the enclosing path, stay.
pub proof fn lemma_text_line_collected(changes: Seq<ChangeView>, all: Seq<ChangePath>, line: Seq<char>)
    ensures
        ({
            let (r, a) = line_step(changes, all, line, LineDirective::Text);
            &&& a == all
            &&& r.len() == changes.len()
            &&& changes.len() > 0 ==> r.subrange(0, changes.len() - 1) == changes.subrange(0, changes.len() - 1)
            &&& changes.len() > 0 && changes.last().action != Action::Words ==> {
                &&& r.last().texts == Some(texts_or_empty(changes.last()).push(line))
                &&& r.last().change_type == ChangeType::Text
                &&& r.last().target == changes.last().target
                &&& r.last().after == changes.last().after
                &&& r.last().action == changes.last().action
            }
            &&& changes.len() > 0 && changes.last().action == Action::Words ==> r == changes
        }),
{
    let r = line_step(changes, all, line, LineDirective::Text).0;
    if changes.len() > 0 {
        assert(r.subrange(0, changes.len() - 1) =~= changes.subrange(0, changes.len() - 1));
        if changes.last().action != Action::Words {
            assert(texts_or_empty(changes.last()).push(line).drop_last() =~= texts_or_empty(changes.last()));
        } else {
            assert(r =~= changes);
        }
    }
}

/// A line that only names a place changes the enclosing path so that it ends with the
/// place's last step; a deeper step is appended to the enclosing path as it was, a step
/// no deeper than the enclosing path's last replaces it by the whole named path.
pub proof fn lemma_place_line(changes: Seq<ChangeView>, all: Seq<ChangePath>, line: Seq<char>, path: TargetPath, rest: String)
    ensures
        ({
            let (r, a) = line_step(changes, all, line, LineDirective::PathOnly { path, rest });
            &&& r == changes
            &&& path@.len() > 0 ==> a.len() > 0 && a.last() == path@.last()
            &&& path@.len() > 0 && all.len() > 0 && path_level(path@.last()) > path_level(all.last()) ==> a
                == all.push(path@.last())
            &&& path@.len() > 0 && all.len() > 0 && path_level(path@.last()) <= path_level(all.last()) ==> a == path@
            &&& path@.len() == 0 ==> a == all
        }),
{
}

/// Reading lines: the change recorded for an addition on the last line keeps the place
/// that line names before `дополнить`.
pub proof fn lemma_last_addition_after(lines: Seq<ClassifiedLine>)
    requires
        lines.len() > 0,
        lines.last().directive is Apply,
    ensures
        lines.last().directive->Apply_after matches Some(p) ==> lines_step(lines).0.last().after == Some(p@),
        lines.last().directive->Apply_after is None ==> lines_step(lines).0.last().after is None,
        lines_step(lines).0.last().action == Action::Apply,
{
    let before = lines_step(lines.drop_last());
    lemma_directive_recorded(before.0, before.1, lines.last().line@, lines.last().directive);
}

/// The unread rest of a recognised line; a line of text has none.
pub open spec fn directive_rest(d: LineDirective) -> Option<Seq<char>> {
    match d {
        LineDirective::PathOnly { rest, .. } => Some(rest@),
        LineDirective::Apply { rest, .. } => Some(rest@),
        LineDirective::Words { rest, .. } => Some(rest@),
        LineDirective::Replace { rest, .. } => Some(rest@),
        LineDirective::ItemName { rest } => Some(rest@),
        LineDirective::Text => None,
    }
}

/// The list of changes and the enclosing path after all the lines, from an empty start.
pub open spec fn lines_step(lines: Seq<ClassifiedLine>) -> (Seq<ChangeView>, Seq<ChangePath>)
    decreases lines.len(),
{
    if lines.len() == 0 {
        (seq![], seq![])
    } else {
        let before = lines_step(lines.drop_last());
        line_step(before.0, before.1, lines.last().line@, lines.last().directive)
    }
}

/// The number of lines recognised as additions, changes of words or new wordings.
pub open spec fn directive_count(lines: Seq<ClassifiedLine>) -> nat
    decreases lines.len(),
{
    if lines.len() == 0 {
        0
    } else {
        directive_count(lines.drop_last()) + match lines.last().directive {
            LineDirective::Apply { .. } => 1nat,
            LineDirective::Words { .. } => 1nat,
            LineDirective::Replace { .. } => 1nat,
            _ => 0nat,
        }
    }
}

/// Each addition, change of words or new wording gives exactly one change; paths, names
/// and lines of text give none.
pub proof fn lemma_one_change_per_directive(lines: Seq<ClassifiedLine>)
    ensures
        lines_step(lines).0.len() == directive_count(lines),
    decreases lines.len(),
{
    if lines.len() > 0 {
        lemma_one_change_per_directive(lines.drop_last());
    }
}

impl Changes {
    /// An empty list.
    pub fn new() -> (r: Self)
        ensures
            r@ == Seq::<ChangeView>::empty(),
    {
        let r = Changes(Vec::new());
        assert(r@ =~= Seq::<ChangeView>::empty());
        r
    }

    /// The changes, in order.
    pub fn list(&self) -> (r: &Vec<Change>)
        ensures
            changes_view(r@) == self@,
    {
        &self.0
    }

    /// A list of the given changes.
    pub fn from_list(list: Vec<Change>) -> (r: Self)
        ensures
            r@ == changes_view(list@),
    {
        Changes(list)
    }

    /// The changes, in order, taken out of the list.
    pub fn into_list(self) -> (r: Vec<Change>)
        ensures
            changes_view(r@) == self@,
    {
        self.0
    }

    /// Records an addition of new units at `target`, after `after` when given.
    fn add_apply_directive(&mut self, after: Option<TargetPath>, target: TargetPath)
        ensures
            final(self)@ == old(self)@.push(
                new_change(target@, opt_path_view(after), Action::Apply, None),
            ),
    {
        let c = Change {
            target_path: target,
            changes: None,
            action_after_path: after,
            action: Action::Apply,
            text_changes: None,
            change_type: ChangeType::Nothing,
        };
        self.0.push(c);
        assert(final(self)@ =~= old(self)@.push(c@));
    }

    /// Records operations on words at `target`.
    fn add_words_directive(&mut self, target: TargetPath, actions: Vec<ChangeAction>)
        ensures
            final(self)@ == old(self)@.push(
                new_change(target@, None, Action::Words, Some(actions_view(actions@))),
            ),
    {
        let c = Change {
            target_path: target,
            changes: Some(actions),
            action_after_path: None,
            action: Action::Words,
            text_changes: None,
            change_type: ChangeType::Nothing,
        };
        self.0.push(c);
        assert(final(self)@ =~= old(self)@.push(c@));
    }

    /// Records a new wording of `target`.
    fn add_replace_directive(&mut self, target: TargetPath)
        ensures
            final(self)@ == old(self)@.push(new_change(target@, None, Action::Replace, None)),
    {
        let c = Change {
            target_path: target,
            changes: None,
            action_after_path: None,
            action: Action::Replace,
            text_changes: None,
            change_type: ChangeType::Nothing,
        };
        self.0.push(c);
        assert(final(self)@ =~= old(self)@.push(c@));
    }

    /// Gives a line of text to the last change.
    fn try_add_text(&mut self, txt: &str)
        ensures
            final(self)@ == text_added(old(self)@, txt@),
    {
        if self.0.len() == 0 {
            return;
        }
        let ghost before = self.0@;
        let mut last = self.0.pop().unwrap();
        assert(self.0@ =~= before.drop_last());
        let ghost lv = last@;
        match last.action {
            Action::Apply => {
                let mut texts = match last.text_changes.take() {
                    Some(v) => v,
                    None => Vec::new(),
                };
                let actions = match last.changes.take() {
                    Some(v) => v,
                    None => Vec::new(),
                };
                let ghost tv = texts@;
                assert(texts_view(tv) == texts_or_empty(lv)) by {
                    assert(texts_view(Seq::<String>::empty()) =~= Seq::<Seq<char>>::empty());
                }
                assert(actions_view(actions@) == actions_or_empty(lv)) by {
                    assert(actions_view(Seq::<ChangeAction>::empty()) =~= Seq::<ActionView>::empty());
                }
                texts.push(string_of(txt));
                assert(texts_view(texts@) =~= texts_view(tv).push(txt@));
                last.text_changes = Some(texts);
                last.changes = Some(actions);
                last.change_type = ChangeType::Text;
            },
            Action::Replace => {
                let mut texts = match last.text_changes.take() {
                    Some(v) => v,
                    None => Vec::new(),
                };
                let ghost tv = texts@;
                assert(texts_view(tv) == texts_or_empty(lv)) by {
                    assert(texts_view(Seq::<String>::empty()) =~= Seq::<Seq<char>>::empty());
                }
                texts.push(string_of(txt));
                assert(texts_view(texts@) =~= texts_view(tv).push(txt@));
                last.text_changes = Some(texts);
                last.change_type = ChangeType::Text;
            },
            Action::Words => {},
        }
        assert(last@ == with_text(lv, txt@));
        self.0.push(last);
        assert(final(self)@ =~= text_added(old(self)@, txt@));
    }

    /// Takes one line of an amending act, recognised as `directive`: records the change
    /// it makes, or updates the enclosing path `all_paths`, or gives it as text to the
    /// last change. Gives back the line and its unread rest, except for a line of text.
    pub fn search_change(
        s: &str,
        directive: LineDirective,
        changes_list: &mut Self,
        all_paths: &mut Vec<ChangePath>,
    ) -> (r: Option<RemainTokens>)
        ensures
            (final(changes_list)@, final(all_paths)@) == line_step(
                old(changes_list)@,
                old(all_paths)@,
                s@,
                directive,
            ),
            match directive_rest(directive) {
                Some(rest) => r matches Some(t) && t.source() == s@ && t.remains() == rest,
                None => r is None,
            },
    {
        match directive {
            LineDirective::PathOnly { path, rest } => {
                let current_paths = path.get_paths();
                let n = current_paths.len();
                if all_paths.len() > 0 {
                    if n > 0 {
                        let cp_last = &current_paths[n - 1];
                        if cp_last.get_lvl() <= all_paths[all_paths.len() - 1].get_lvl() {
                            let mut fresh: Vec<ChangePath> = Vec::new();
                            let mut i: usize = 0;
                            while i < n
                                invariant
                                    n == current_paths@.len(),
                                    i <= n,
                                    fresh@ == current_paths@.subrange(0, i as int),
                                decreases n - i,
                            {
                                fresh.push(current_paths[i].duplicate());
                                i = i + 1;
                                assert(fresh@ =~= current_paths@.subrange(0, i as int));
                            }
                            assert(current_paths@.subrange(0, n as int) =~= current_paths@);
                            *all_paths = fresh;
                        } else {
                            all_paths.push(cp_last.duplicate());
                        }
                    }
                } else if n > 0 {
                    all_paths.push(current_paths[n - 1].duplicate());
                    assert(all_paths@ =~= seq![path@.last()]);
                }
                Some(RemainTokens::new(s, rest.as_str()))
            },
            LineDirective::Apply { after, target, rest } => {
                let mut tp = target;
                tp.insert_paths(all_paths);
                changes_list.add_apply_directive(after, tp);
                Some(RemainTokens::new(s, rest.as_str()))
            },
            LineDirective::Words { target, actions, rest } => {
                let mut tp = target;
                tp.insert_paths(all_paths);
                changes_list.add_words_directive(tp, actions);
                Some(RemainTokens::new(s, rest.as_str()))
            },
            LineDirective::Replace { target, rest } => {
                let mut tp = target;
                tp.insert_paths(all_paths);
                changes_list.add_replace_directive(tp);
                Some(RemainTokens::new(s, rest.as_str()))
            },
            LineDirective::ItemName { rest } => Some(RemainTokens::new(s, rest.as_str())),
            LineDirective::Text => {
                changes_list.try_add_text(s);
                None
            },
        }
    }

    /// The changes of an amending act, from its lines in order, each recognised as a
    /// directive.
    pub fn get_changes(lines: Vec<ClassifiedLine>) -> (r: Self)
        ensures
            r@ == lines_step(lines@).0,
    {
        let mut all_paths: Vec<ChangePath> = Vec::new();
        let mut changes_list = Self::new();
        let ghost all_lines = lines@;
        let ghost n = all_lines.len();
        let mut lines = lines;
        assert(all_lines.subrange(0, 0) =~= Seq::<ClassifiedLine>::empty());
        while lines.len() > 0
            invariant
                n == all_lines.len(),
                lines@.len() <= n,
                lines@ == all_lines.subrange(n - lines@.len(), n as int),
                (changes_list@, all_paths@) == lines_step(
                    all_lines.subrange(0, n - lines@.len()),
                ),
            decreases lines@.len(),
        {
            let ghost k = n - lines@.len();
            let cl = lines.remove(0);
            assert(cl == all_lines[k]);
            assert(lines@ =~= all_lines.subrange(k + 1, n as int));
            assert(all_lines.subrange(0, k + 1).drop_last() =~= all_lines.subrange(0, k));
            let _ = Self::search_change(
                cl.line.as_str(),
                cl.directive,
                &mut changes_list,
                &mut all_paths,
            );
        }
        assert(all_lines.subrange(0, n as int) =~= all_lines);
        changes_list
    }
}


/// A line without the carriage return before its line feed.
pub open spec fn strip_cr(line: Seq<char>) -> Seq<char> {
    if line.len() > 0 && line.last() == '\r' {
        line.drop_last()
    } else {
        line
    }
}

/// The lines ended so far by a line feed, and the line being read.
pub open spec fn lines_acc(s: Seq<char>) -> (Seq<Seq<char>>, Seq<char>)
    decreases s.len(),
{
    if s.len() == 0 {
        (seq![], seq![])
    } else {
        let (ls, cur) = lines_acc(s.drop_last());
        if s.last() == '\n' {
            (ls.push(strip_cr(cur)), seq![])
        } else {
            (ls, cur.push(s.last()))
        }
    }
}

/// The lines of a text, as `str::lines` gives them: split at each line feed, a carriage
/// return before it dropped, and a last line without a line feed kept when not empty.
pub open spec fn text_lines_of(s: Seq<char>) -> Seq<Seq<char>> {
    let (ls, cur) = lines_acc(s);
    if cur.len() > 0 {
        ls.push(cur)
    } else {
        ls
    }
}

/// The lines of a text.
pub fn text_lines(text: &str) -> (r: Vec<String>)
    ensures
        r@.map_values(|l: String| l@) == text_lines_of(text@),
{
    let cs = crate::text::chars_of(text);
    let mut lines: Vec<String> = Vec::new();
    let mut cur: Vec<char> = Vec::new();
    let mut i: usize = 0;
    while i < cs.len()
        invariant
            cs@ == text@,
            i <= cs@.len(),
            (lines@.map_values(|l: String| l@), cur@) == lines_acc(text@.subrange(0, i as int)),
        decreases cs@.len() - i,
    {
        let c = cs[i];
        assert(text@.subrange(0, i + 1).drop_last() =~= text@.subrange(0, i as int));
        if c == '\n' {
            let n = cur.len();
            let keep = if n > 0 && cur[n - 1] == '\r' { n - 1 } else { n };
            let line = crate::text::string_of_range(cur.as_slice(), 0, keep);
            proof {
                if n > 0 && cur@[n - 1] == '\r' {
                    assert(cur@.subrange(0, keep as int) =~= cur@.drop_last());
                } else {
                    assert(cur@.subrange(0, keep as int) =~= cur@);
                }
            }
            let ghost before = lines@;
            lines.push(line);
            assert(lines@.map_values(|l: String| l@) =~= before.map_values(|l: String| l@).push(strip_cr(cur@)));
            cur = Vec::new();
        } else {
            cur.push(c);
        }
        i = i + 1;
    }
    assert(text@.subrange(0, cs@.len() as int) =~= text@);
    if cur.len() > 0 {
        let line = crate::text::string_of_range(cur.as_slice(), 0, cur.len());
        assert(cur@.subrange(0, cur@.len() as int) =~= cur@);
        let ghost before = lines@;
        lines.push(line);
        assert(lines@.map_values(|l: String| l@) =~= before.map_values(|l: String| l@).push(cur@));
    }
    lines
}

} // verus!
