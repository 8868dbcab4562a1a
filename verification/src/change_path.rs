//! Paths to the place an amendment changes: `статья 22 часть 1 абзац 2`.
use vstd::prelude::*;
use std::hash::{DefaultHasher, Hash, Hasher};
use crate::error::{ErrorCode, ParserError};
use crate::objects::header_type::{HeaderType, header_of_lowercase, not_a_header_message};
use crate::objects::item_type::{ItemType, item_of_lowercase, not_an_item_message};
use crate::objects::number::{Number, NumberIndex, NumberPart};
use crate::objects::number_markdown::number_markdown;
use crate::objects::number_parser::parse_parts;
use crate::change_path_order::{sort_change_paths, sorted, weak_order_on};
use crate::outputs::markdown::{AsMarkdown, AsText};
use crate::text::{decimal, has_prefix, lowercased, push_str, u64_to_string};

verus! {

/// One step of a path: a header, a numbered unit or a paragraph (counted from 1).
#[derive(Debug, Clone, Hash, Eq)]
pub enum ChangePath {
    Header {
        /// Number of the header in the act.
        number: Number,
        /// Kind of the header.
        header_type: HeaderType,
    },
    Item {
        /// Number of the unit.
        number: Number,
        /// Kind of the unit.
        item_type: ItemType,
    },
    /// Paragraph, counted from 1.
    Indent(u32),
}

/// Depth of a step: section 0, chapter 1, article 2, part 3, item 4, sub-item 5,
/// paragraph 6.
pub open spec fn path_level(p: ChangePath) -> nat {
    match p {
        ChangePath::Header { header_type, .. } => match header_type {
            HeaderType::Chapter => 0,
            HeaderType::Section => 1,
            HeaderType::Article => 2,
        },
        ChangePath::Item { item_type, .. } => match item_type {
            ItemType::Part => 3,
            ItemType::Item => 4,
            ItemType::Subitem => 5,
        },
        ChangePath::Indent(_) => 6,
    }
}

/// The number of a step; a paragraph's number is its count written in decimal.
pub open spec fn path_number(p: ChangePath) -> Seq<NumberPart> {
    match p {
        ChangePath::Header { number, .. } => number@,
        ChangePath::Item { number, .. } => number@,
        ChangePath::Indent(n) => seq![
            NumberPart { number: decimal(n as nat), index: NumberIndex::Normal, postfix: None },
        ],
    }
}

/// The word that names the kind of a step in Markdown.
pub open spec fn kind_word(p: ChangePath) -> Seq<char> {
    match p {
        ChangePath::Header { header_type, .. } => match header_type {
            HeaderType::Chapter => "раздел "@,
            HeaderType::Section => "глава "@,
            HeaderType::Article => "статья "@,
        },
        ChangePath::Item { item_type, .. } => match item_type {
            ItemType::Part => "часть "@,
            ItemType::Item => "пункт "@,
            ItemType::Subitem => "подпункт "@,
        },
        ChangePath::Indent(_) => "абзац "@,
    }
}

/// Markdown of a step: the word of its kind, then its number.
pub open spec fn path_markdown(p: ChangePath) -> Seq<char> {
    match p {
        ChangePath::Header { number, .. } => kind_word(p) + number_markdown(number@),
        ChangePath::Item { number, .. } => kind_word(p) + number_markdown(number@),
        ChangePath::Indent(n) => kind_word(p) + decimal(n as nat),
    }
}

/// Markdown names each kind of step by its own word, then the step's number: `раздел`,
/// `глава`, `статья` for headers; `часть`, `пункт`, `подпункт` for numbered units;
/// `абзац` for paragraphs.
pub proof fn lemma_step_words(p: ChangePath)
    ensures
        p matches ChangePath::Header { header_type: HeaderType::Chapter, .. } ==> has_prefix(path_markdown(p), "раздел "@),
        p matches ChangePath::Header { header_type: HeaderType::Section, .. } ==> has_prefix(path_markdown(p), "глава "@),
        p matches ChangePath::Header { header_type: HeaderType::Article, .. } ==> has_prefix(path_markdown(p), "статья "@),
        p matches ChangePath::Item { item_type: ItemType::Part, .. } ==> has_prefix(path_markdown(p), "часть "@),
        p matches ChangePath::Item { item_type: ItemType::Item, .. } ==> has_prefix(path_markdown(p), "пункт "@),
        p matches ChangePath::Item { item_type: ItemType::Subitem, .. } ==> has_prefix(path_markdown(p), "подпункт "@),
        p is Indent ==> has_prefix(path_markdown(p), "абзац "@),
        p matches ChangePath::Indent(n) ==> path_markdown(p) == "абзац "@ + decimal(n as nat),
{
    let w = kind_word(p);
    assert(path_markdown(p).subrange(0, w.len() as int) =~= w);
}

/// Steps of different kinds (different depths) have different Markdown: their words
/// differ before either ends.
pub proof fn lemma_step_words_differ(p: ChangePath, q: ChangePath)
    requires
        path_level(p) != path_level(q),
    ensures
        path_markdown(p) != path_markdown(q),
{
    reveal_strlit("раздел ");
    reveal_strlit("глава ");
    reveal_strlit("статья ");
    reveal_strlit("часть ");
    reveal_strlit("пункт ");
    reveal_strlit("подпункт ");
    reveal_strlit("абзац ");
    let a = kind_word(p);
    let b = kind_word(q);
    if path_markdown(p) == path_markdown(q) {
        let m = path_markdown(p);
        assert(a.len() >= 2 && b.len() >= 2);
        assert(m.subrange(0, a.len() as int) =~= a);
        assert(path_markdown(q).subrange(0, b.len() as int) =~= b);
        assert(a[0] == m[0] && a[1] == m[1]);
        assert(b[0] == m[0] && b[1] == m[1]);
        assert(false);
    }
}

/// The Markdown of a path shows each of its steps, in order, each followed by a space:
/// the steps before the `i`-th come first, then the `i`-th step's Markdown and a space.
pub proof fn lemma_path_shows_steps(s: Seq<ChangePath>, i: int)
    requires
        0 <= i < s.len(),
    ensures
        has_prefix(target_markdown(s), target_markdown(s.subrange(0, i)) + path_markdown(s[i]) + " "@),
    decreases s.len(),
{
    let t = target_markdown(s);
    if i == s.len() - 1 {
        assert(s.subrange(0, i) =~= s.drop_last());
        assert(t.subrange(0, t.len() as int) =~= t);
    } else {
        let d = s.drop_last();
        lemma_path_shows_steps(d, i);
        assert(d.subrange(0, i) =~= s.subrange(0, i));
        assert(d[i] == s[i]);
        let p = target_markdown(s.subrange(0, i)) + path_markdown(s[i]) + " "@;
        let td = target_markdown(d);
        assert(t == td + path_markdown(s.last()) + " "@);
        assert(t.subrange(0, p.len() as int) =~= td.subrange(0, p.len() as int));
    }
}

impl ChangePath {
    /// Depth of this step.
    pub fn get_lvl(&self) -> (r: u8)
        ensures
            r == path_level(*self),
    {
        match self {
            ChangePath::Header { number: _, header_type: ht } => match ht {
                HeaderType::Chapter => 0,
                HeaderType::Section => 1,
                HeaderType::Article => 2,
            },
            ChangePath::Item { number: _, item_type: it } => match it {
                ItemType::Part => 3,
                ItemType::Item => 4,
                ItemType::Subitem => 5,
            },
            ChangePath::Indent(_) => 6,
        }
    }

    /// The number of this step.
    pub fn get_number(&self) -> (r: Number)
        ensures
            r@ == path_number(*self),
    {
        match self {
            ChangePath::Header { number: n, header_type: _ } => n.duplicate(),
            ChangePath::Item { number: n, item_type: _ } => n.duplicate(),
            ChangePath::Indent(n) => {
                let text = u64_to_string(*n as u64);
                let r = Number {
                    number: text,
                    number_index: NumberIndex::Normal,
                    postfix: None,
                    next: None,
                };
                r
            },
        }
    }

    /// A copy of this step.
    pub fn duplicate(&self) -> (r: Self)
        ensures
            r == *self,
    {
        match self {
            ChangePath::Header { number, header_type } => ChangePath::Header {
                number: number.duplicate(),
                header_type: *header_type,
            },
            ChangePath::Item { number, item_type } => ChangePath::Item {
                number: number.duplicate(),
                item_type: *item_type,
            },
            ChangePath::Indent(n) => ChangePath::Indent(*n),
        }
    }
}

impl AsMarkdown for ChangePath {
    open spec fn markdown(&self) -> Seq<char> {
        path_markdown(*self)
    }

    fn as_markdown(&self) -> (r: String) {
        let mut output = String::new();
        match self {
            ChangePath::Header { number: n, header_type: ht } => {
                match ht {
                    HeaderType::Chapter => push_str(&mut output, "раздел "),
                    HeaderType::Section => push_str(&mut output, "глава "),
                    HeaderType::Article => push_str(&mut output, "статья "),
                }
                let m = n.as_markdown();
                push_str(&mut output, m.as_str());
            },
            ChangePath::Item { number: n, item_type: it } => {
                match it {
                    ItemType::Part => push_str(&mut output, "часть "),
                    ItemType::Item => push_str(&mut output, "пункт "),
                    ItemType::Subitem => push_str(&mut output, "подпункт "),
                }
                let m = n.as_markdown();
                push_str(&mut output, m.as_str());
            },
            ChangePath::Indent(n) => {
                push_str(&mut output, "абзац ");
                let t = u64_to_string(*n as u64);
                push_str(&mut output, t.as_str());
            },
        }
        output
    }
}

impl AsText for ChangePath {
    open spec fn plain_text(&self) -> Seq<char> {
        path_markdown(*self)
    }

    fn as_text(&self) -> (r: String) {
        self.as_markdown()
    }
}

/// A path: the steps from the largest unit down to the changed place.
#[derive(Debug, Clone)]
pub struct TargetPath(pub(crate) Vec<ChangePath>);

impl View for TargetPath {
    type V = Seq<ChangePath>;

    closed spec fn view(&self) -> Seq<ChangePath> {
        self.0@
    }
}

/// `new` is `old` with `p` appended.
pub open spec fn pushed_with(old: Seq<ChangePath>, new: Seq<ChangePath>, p: ChangePath) -> bool {
    new.len() == old.len() + 1 && new.subrange(0, old.len() as int) == old && new.last() == p
}

/// Whether some step of `s` has depth `level`.
pub open spec fn has_level(s: Seq<ChangePath>, level: nat) -> bool {
    exists|i: int| 0 <= i < s.len() && path_level(#[trigger] s[i]) == level
}

/// The steps of `s` whose depth no step of `against` has, in order.
pub open spec fn without_levels_of(s: Seq<ChangePath>, against: Seq<ChangePath>) -> Seq<ChangePath>
    decreases s.len(),
{
    if s.len() == 0 {
        seq![]
    } else {
        let rest = without_levels_of(s.drop_last(), against);
        if has_level(against, path_level(s.last())) {
            rest
        } else {
            rest.push(s.last())
        }
    }
}

/// The numbers of the header and unit steps of a path, in order.
pub open spec fn numbers_of(s: Seq<ChangePath>) -> Seq<Number>
    decreases s.len(),
{
    if s.len() == 0 {
        seq![]
    } else {
        let rest = numbers_of(s.drop_last());
        match s.last() {
            ChangePath::Header { number, .. } => rest.push(number),
            ChangePath::Item { number, .. } => rest.push(number),
            ChangePath::Indent(_) => rest,
        }
    }
}

/// Markdown of a path: each step followed by a space.
pub open spec fn target_markdown(s: Seq<ChangePath>) -> Seq<char>
    decreases s.len(),
{
    if s.len() == 0 {
        seq![]
    } else {
        target_markdown(s.drop_last()) + path_markdown(s.last()) + " "@
    }
}

/// `Hash::hash` of a step (its derived hash) into a `DefaultHasher`. Nothing is stated of
/// the hasher's state afterwards: it depends on the std release.
#[verifier::external_body]
fn hash_step(step: &ChangePath, hasher: &mut DefaultHasher) {
    step.hash(hasher);
}

/// Putting an enclosing path before a target keeps exactly the enclosing steps whose
/// depth the target lacks, in order.
pub proof fn lemma_without_levels(s: Seq<ChangePath>, t: Seq<ChangePath>)
    ensures
        forall|i: int|
            0 <= i < without_levels_of(s, t).len() ==> !has_level(
                t,
                path_level(#[trigger] without_levels_of(s, t)[i]),
            ) && s.contains(without_levels_of(s, t)[i]),
        forall|i: int|
            0 <= i < s.len() && !has_level(t, path_level(#[trigger] s[i])) ==> without_levels_of(
                s,
                t,
            ).contains(s[i]),
        without_levels_of(s, t).len() <= s.len(),
    decreases s.len(),
{
    if s.len() > 0 {
        let d = s.drop_last();
        lemma_without_levels(d, t);
        let r = without_levels_of(d, t);
        assert forall|i: int| 0 <= i < d.len() implies #[trigger] s[i] == d[i] by {}
        assert forall|i: int|
            0 <= i < without_levels_of(s, t).len() implies !has_level(
                t,
                path_level(#[trigger] without_levels_of(s, t)[i]),
            ) && s.contains(without_levels_of(s, t)[i]) by {
            if i < r.len() {
                assert(without_levels_of(s, t)[i] == r[i]);
                let j = choose|j: int| 0 <= j < d.len() && d[j] == r[i];
                assert(s[j] == d[j]);
            } else {
                assert(s[s.len() - 1] == s.last());
            }
        }
        assert forall|i: int|
            0 <= i < s.len() && !has_level(t, path_level(#[trigger] s[i])) implies without_levels_of(
                s,
                t,
            ).contains(s[i]) by {
            if i < d.len() {
                assert(s[i] == d[i]);
                assert(r.contains(d[i]));
                let j = choose|j: int| 0 <= j < r.len() && r[j] == d[i];
                assert(without_levels_of(s, t)[j] == r[j]);
            } else {
                let w = without_levels_of(s, t);
                assert(w[w.len() - 1] == s.last());
            }
        }
    }
}

/// A path fits in memory: its length is a `usize`.
pub proof fn lemma_target_len(t: &TargetPath)
    ensures
        t@.len() <= usize::MAX,
{
    assert(t.0@.len() == t.0.len());
}

impl TargetPath {
    /// An empty path.
    pub fn new() -> (r: Self)
        ensures
            r@ == Seq::<ChangePath>::empty(),
    {
        TargetPath(Vec::new())
    }

    /// Appends a header step, its kind and number given as words: `статья`, `22^2`.
    pub fn add_header(&mut self, header_type: &str, number: &str) -> (r: Result<(), ParserError>)
        ensures
            match header_of_lowercase(lowercased(header_type@)) {
                None => r matches Err(ParserError::OperationError(m)) && m@
                    == not_a_header_message(header_type@) && final(self)@ == old(self)@,
                Some(h) => match parse_parts(number@, 0, NumberIndex::Normal, seq![]) {
                    Err(p) => r matches Err(ParserError::NomError { input, code }) && input@
                        == number@.subrange(p, number@.len() as int) && code == ErrorCode::Digit
                        && final(self)@ == old(self)@,
                    Ok((_, parts)) => r is Ok && final(self)@.len() == old(self)@.len() + 1
                        && final(self)@.subrange(0, old(self)@.len() as int) == old(self)@
                        && (final(self)@.last() matches ChangePath::Header { number: n, header_type: t }
                        && n@ == parts && t == h),
                },
            },
    {
        let h_type = match HeaderType::from_text(header_type) {
            Ok(h) => h,
            Err(e) => {
                return Err(e);
            },
        };
        let h_number = match Number::from_text(number) {
            Ok(n) => n,
            Err(e) => {
                return Err(e);
            },
        };
        self.0.push(ChangePath::Header { number: h_number, header_type: h_type });
        assert(self.0@.subrange(0, old(self)@.len() as int) =~= old(self)@);
        Ok(())
    }

    /// Appends a numbered-unit step, its number and kind given as words: `1)`, `пункт`.
    pub fn add_item(&mut self, number: &str, item_type: &str) -> (r: Result<(), ParserError>)
        ensures
            match parse_parts(number@, 0, NumberIndex::Normal, seq![]) {
                Err(p) => r matches Err(ParserError::NomError { input, code }) && input@
                    == number@.subrange(p, number@.len() as int) && code == ErrorCode::Digit
                    && final(self)@ == old(self)@,
                Ok((_, parts)) => match item_of_lowercase(lowercased(item_type@)) {
                    None => r matches Err(ParserError::OperationError(m)) && m@
                        == not_an_item_message(item_type@) && final(self)@ == old(self)@,
                    Some(t) => r is Ok && final(self)@.len() == old(self)@.len() + 1
                        && final(self)@.subrange(0, old(self)@.len() as int) == old(self)@
                        && (final(self)@.last() matches ChangePath::Item { number: n, item_type: k }
                        && n@ == parts && k == t),
                },
            },
    {
        let i_number = match Number::from_text(number) {
            Ok(n) => n,
            Err(e) => {
                return Err(e);
            },
        };
        let i_type = match ItemType::from_text(item_type) {
            Ok(t) => t,
            Err(e) => {
                return Err(e);
            },
        };
        self.0.push(ChangePath::Item { number: i_number, item_type: i_type });
        assert(self.0@.subrange(0, old(self)@.len() as int) =~= old(self)@);
        Ok(())
    }

    /// Appends a paragraph step.
    pub fn add_indent(&mut self, indent_number: u32)
        ensures
            final(self)@ == old(self)@.push(ChangePath::Indent(indent_number)),
    {
        self.0.push(ChangePath::Indent(indent_number));
    }

    /// Puts the steps of `paths` whose depth this path lacks before this path's steps;
    /// `paths` keeps only those steps.
    pub fn insert_paths(&mut self, paths: &mut Vec<ChangePath>)
        ensures
            final(paths)@ == without_levels_of(old(paths)@, old(self)@),
            final(self)@ == final(paths)@ + old(self)@,
    {
        let mut kept: Vec<ChangePath> = Vec::new();
        let mut i: usize = 0;
        while i < paths.len()
            invariant
                paths@ == old(paths)@,
                self@ == old(self)@,
                i <= paths@.len(),
                kept@ == without_levels_of(paths@.subrange(0, i as int), self@),
            decreases paths@.len() - i,
        {
            let lvl = paths[i].get_lvl();
            let mut found = false;
            let mut j: usize = 0;
            while j < self.0.len()
                invariant
                    self@ == old(self)@,
                    j <= self@.len(),
                    found <==> exists|k: int| 0 <= k < j && path_level(#[trigger] self@[k])
                        == lvl,
                decreases self@.len() - j,
            {
                if self.0[j].get_lvl() == lvl {
                    found = true;
                }
                j = j + 1;
            }
            assert(found == has_level(self@, path_level(paths@[i as int])));
            assert(paths@.subrange(0, i + 1).drop_last() =~= paths@.subrange(0, i as int));
            if !found {
                kept.push(paths[i].duplicate());
            }
            i = i + 1;
        }
        assert(paths@.subrange(0, paths@.len() as int) =~= paths@);
        let mut joined: Vec<ChangePath> = Vec::new();
        let mut k: usize = 0;
        while k < kept.len()
            invariant
                k <= kept@.len(),
                joined@ == kept@.subrange(0, k as int),
            decreases kept@.len() - k,
        {
            joined.push(kept[k].duplicate());
            k = k + 1;
            assert(joined@ =~= kept@.subrange(0, k as int));
        }
        let mut m: usize = 0;
        while m < self.0.len()
            invariant
                self@ == old(self)@,
                m <= self@.len(),
                joined@ == kept@ + self@.subrange(0, m as int),
            decreases self@.len() - m,
        {
            joined.push(self.0[m].duplicate());
            m = m + 1;
            assert(joined@ =~= kept@ + self@.subrange(0, m as int));
        }
        assert(self@.subrange(0, self@.len() as int) =~= self@);
        *paths = kept;
        self.0 = joined;
    }

    /// A path of the given steps.
    pub fn from_steps(steps: Vec<ChangePath>) -> (r: Self)
        ensures
            r@ == steps@,
    {
        TargetPath(steps)
    }

    /// A copy of this path.
    pub fn duplicate(&self) -> (r: Self)
        ensures
            r@ == self@,
    {
        let mut v: Vec<ChangePath> = Vec::new();
        let mut i: usize = 0;
        while i < self.0.len()
            invariant
                i <= self@.len(),
                v@ == self@.subrange(0, i as int),
            decreases self@.len() - i,
        {
            v.push(self.0[i].duplicate());
            i = i + 1;
            assert(v@ =~= self@.subrange(0, i as int));
        }
        assert(self@.subrange(0, self@.len() as int) =~= self@);
        TargetPath(v)
    }

    /// The steps of this path.
    pub fn get_paths(&self) -> (r: &Vec<ChangePath>)
        ensures
            r@ == self@,
    {
        &self.0
    }

    /// Each step with an id: the hash of the path up to and including that step, so that
    /// equal beginnings of paths get equal ids. Nothing is stated of the id values.
    pub fn get_paths_with_id(&self) -> (r: Vec<(u64, ChangePath)>)
        ensures
            r@.len() == self@.len(),
            forall|i: int| 0 <= i < r@.len() ==> (#[trigger] r@[i]).1 == self@[i],
    {
        let mut r: Vec<(u64, ChangePath)> = Vec::new();
        let mut hasher = DefaultHasher::new();
        let mut i: usize = 0;
        while i < self.0.len()
            invariant
                i <= self@.len(),
                r@.len() == i,
                forall|k: int| 0 <= k < i ==> (#[trigger] r@[k]).1 == self@[k],
            decreases self@.len() - i,
        {
            hash_step(&self.0[i], &mut hasher);
            let id = hasher.finish();
            r.push((id, self.0[i].duplicate()));
            i = i + 1;
        }
        r
    }

    /// The step at depth index `level` of this path with its id, if the path is that long.
    pub fn get_path_by_level(&self, level: usize) -> (r: Option<(u64, ChangePath)>)
        ensures
            level < self@.len() ==> (r matches Some((_, p)) && p == self@[level as int]),
            level >= self@.len() ==> r is None,
    {
        let mut paths = self.get_paths_with_id();
        if level < paths.len() {
            let r = paths.swap_remove(level);
            Some(r)
        } else {
            None
        }
    }

    /// The numbers of the header and unit steps, in order.
    pub fn get_numbers(&self) -> (r: Vec<Number>)
        ensures
            r@ == numbers_of(self@),
    {
        let mut r: Vec<Number> = Vec::new();
        let mut i: usize = 0;
        while i < self.0.len()
            invariant
                i <= self@.len(),
                r@ == numbers_of(self@.subrange(0, i as int)),
            decreases self@.len() - i,
        {
            assert(self@.subrange(0, i + 1).drop_last() =~= self@.subrange(0, i as int));
            match &self.0[i] {
                ChangePath::Header { number, header_type: _ } => r.push(number.duplicate()),
                ChangePath::Item { number, item_type: _ } => r.push(number.duplicate()),
                _ => {},
            }
            i = i + 1;
        }
        assert(self@.subrange(0, self@.len() as int) =~= self@);
        r
    }
}

impl TargetPath {
    /// Sorts the steps of this path; see `sort_change_paths`.
    pub fn sort(&mut self)
        ensures
            final(self)@.to_multiset() == old(self)@.to_multiset(),
            weak_order_on(old(self)@) ==> sorted(final(self)@),
    {
        sort_change_paths(&mut self.0);
    }

    /// Joins paths into one and sorts its steps.
    pub fn flatten(vec: Vec<Self>) -> (r: Self)
        ensures
            r@.to_multiset() == joined_paths(vec@).to_multiset(),
            weak_order_on(joined_paths(vec@)) ==> sorted(r@),
    {
        let mut slf = TargetPath::new();
        let mut i: usize = 0;
        while i < vec.len()
            invariant
                i <= vec@.len(),
                slf@ == joined_paths(vec@.subrange(0, i as int)),
            decreases vec@.len() - i,
        {
            let mut k: usize = 0;
            let ghost start = slf@;
            while k < vec[i].0.len()
                invariant
                    i < vec@.len(),
                    k <= vec@[i as int]@.len(),
                    slf@ == start + vec@[i as int]@.subrange(0, k as int),
                decreases vec@[i as int]@.len() - k,
            {
                slf.0.push(vec[i].0[k].duplicate());
                k = k + 1;
                assert(slf@ =~= start + vec@[i as int]@.subrange(0, k as int));
            }
            assert(vec@[i as int]@.subrange(0, k as int) =~= vec@[i as int]@);
            assert(vec@.subrange(0, i + 1).drop_last() =~= vec@.subrange(0, i as int));
            i = i + 1;
        }
        assert(vec@.subrange(0, vec@.len() as int) =~= vec@);
        slf.sort();
        slf
    }
}

/// The steps of several paths, one path after the other.
pub open spec fn joined_paths(v: Seq<TargetPath>) -> Seq<ChangePath>
    decreases v.len(),
{
    if v.len() == 0 {
        seq![]
    } else {
        joined_paths(v.drop_last()) + v.last()@
    }
}

impl AsMarkdown for TargetPath {
    open spec fn markdown(&self) -> Seq<char> {
        target_markdown(self@)
    }

    fn as_markdown(&self) -> (r: String) {
        let mut paths = String::new();
        let mut i: usize = 0;
        while i < self.0.len()
            invariant
                i <= self@.len(),
                paths@ == target_markdown(self@.subrange(0, i as int)),
            decreases self@.len() - i,
        {
            let m = self.0[i].as_markdown();
            push_str(&mut paths, m.as_str());
            push_str(&mut paths, " ");
            assert(self@.subrange(0, i + 1).drop_last() =~= self@.subrange(0, i as int));
            i = i + 1;
        }
        assert(self@.subrange(0, self@.len() as int) =~= self@);
        paths
    }
}

impl AsText for TargetPath {
    open spec fn plain_text(&self) -> Seq<char> {
        target_markdown(self@)
    }

    fn as_text(&self) -> (r: String) {
        let mut paths = String::new();
        let mut i: usize = 0;
        while i < self.0.len()
            invariant
                i <= self@.len(),
                paths@ == target_markdown(self@.subrange(0, i as int)),
            decreases self@.len() - i,
        {
            let m = self.0[i].as_text();
            push_str(&mut paths, m.as_str());
            push_str(&mut paths, " ");
            assert(self@.subrange(0, i + 1).drop_last() =~= self@.subrange(0, i as int));
            i = i + 1;
        }
        assert(self@.subrange(0, self@.len() as int) =~= self@);
        paths
    }
}

} // verus!
