//! Builders of JSONPath queries that find a header, a numbered unit or a paragraph in the
//! JSON form of a legal act: `$.body.headers[?(@.number.val == '5' && @.type == 'статья')]`.
use vstd::prelude::*;
use vstd::string::StrSliceExecFns;
use crate::text::{chars_of, decimal, has_prefix, parse_u32, parse_u32_spec, push_str, starts_with, string_of, u64_to_string};
use crate::objects::number::opt_view;

verus! {

/// Kind of a step of a query: a header of the named kind, a numbered unit or a paragraph.
#[derive(Clone, Debug)]
pub enum FormatPath {
    Header(String),
    Item,
    Indent,
}

/// Kind of a step, as plain values.
pub enum PathKind {
    Header(Seq<char>),
    Item,
    Indent,
}

/// The plain kind of a step kind.
pub open spec fn kind_of(f: FormatPath) -> PathKind {
    match f {
        FormatPath::Header(t) => PathKind::Header(t@),
        FormatPath::Item => PathKind::Item,
        FormatPath::Indent => PathKind::Indent,
    }
}

impl FormatPath {
    /// A copy of this kind.
    pub fn duplicate(&self) -> (r: Self)
        ensures
            kind_of(r) == kind_of(*self),
    {
        match self {
            FormatPath::Header(t) => FormatPath::Header(t.clone()),
            FormatPath::Item => FormatPath::Item,
            FormatPath::Indent => FormatPath::Indent,
        }
    }

    /// The text of this kind: the header's kind word, `пункт, подпункт итд.` or `абзац`.
    pub fn to_text(&self) -> (r: String)
        ensures
            r@ == (match kind_of(*self) {
                PathKind::Header(t) => t,
                PathKind::Item => "пункт, подпункт итд."@,
                PathKind::Indent => "абзац"@,
            }),
    {
        match self {
            FormatPath::Header(t) => t.clone(),
            FormatPath::Item => string_of("пункт, подпункт итд."),
            FormatPath::Indent => string_of("абзац"),
        }
    }
}

/// Whether two step kinds are equal.
pub fn format_path_equal(a: &FormatPath, b: &FormatPath) -> (r: bool)
    ensures
        r == (kind_of(*a) == kind_of(*b)),
{
    match (a, b) {
        (FormatPath::Header(x), FormatPath::Header(y)) => *x == *y,
        (FormatPath::Item, FormatPath::Item) => true,
        (FormatPath::Indent, FormatPath::Indent) => true,
        _ => false,
    }
}

/// A step of a query, as plain values.
pub struct PathStep {
    pub kind: PathKind,
    pub number: Option<Seq<char>>,
}

/// A step of a query: its kind and, if the step names one, the number it looks for.
#[derive(Clone, Debug)]
pub struct FormatPathItem {
    item: FormatPath,
    number: Option<String>,
}

impl View for FormatPathItem {
    type V = PathStep;

    closed spec fn view(&self) -> PathStep {
        PathStep { kind: kind_of(self.item), number: opt_view(self.number) }
    }
}

const OPEN_SEARCH_TAG: &'static str = "[?(";

const CLOSE_SEARCH_TAG: &'static str = ")]";

/// The filter that finds an object by its number.
pub open spec fn number_filter(number: Seq<char>) -> Seq<char> {
    "@.number.val == '"@ + number + "'"@
}

/// The filter that finds a header by its number and kind.
pub open spec fn header_filter(number: Seq<char>, h_type: Seq<char>) -> Seq<char> {
    number_filter(number) + " && @.type == '"@ + h_type + "'"@
}

/// The number written in a paragraph step is a count from 1.
pub open spec fn step_ok(s: PathStep) -> bool {
    match s.kind {
        PathKind::Indent => match s.number {
            Some(n) => parse_u32_spec(n) matches Some(v) && v >= 1,
            None => true,
        },
        _ => true,
    }
}

/// The query text of one step. A paragraph step looks up index `count - 1` of `indents`.
pub open spec fn step_path(s: PathStep) -> Seq<char> {
    match s.kind {
        PathKind::Header(t) => match s.number {
            Some(n) => ".headers"@ + "[?("@ + header_filter(n, t) + ")]"@,
            None => ".headers"@ + "[?("@ + "*"@ + ")]"@,
        },
        PathKind::Item => match s.number {
            Some(n) => ".items"@ + "[?("@ + number_filter(n) + ")]"@,
            None => ".items"@ + "[?("@ + "*"@ + ")]"@,
        },
        PathKind::Indent => match s.number {
            Some(n) => ".indents["@ + decimal((parse_u32_spec(n)->0 - 1) as nat) + "]"@,
            None => ".indents["@ + "*"@ + "]"@,
        },
    }
}

/// The query text of a sequence of steps.
pub open spec fn steps_path(s: Seq<PathStep>) -> Seq<char>
    decreases s.len(),
{
    if s.len() == 0 {
        seq![]
    } else {
        steps_path(s.drop_last()) + step_path(s.last())
    }
}

/// Every step of the sequence is well formed.
pub open spec fn steps_ok(s: Seq<PathStep>) -> bool {
    forall|i: int| 0 <= i < s.len() ==> step_ok(#[trigger] s[i])
}

/// The text of an optional number, empty when there is none.
pub open spec fn number_or_empty(n: Option<Seq<char>>) -> Seq<char> {
    match n {
        Some(t) => t,
        None => seq![],
    }
}

/// The numbers named by the steps that name one, in order.
pub open spec fn named_numbers(s: Seq<PathStep>) -> Seq<Seq<char>>
    decreases s.len(),
{
    if s.len() == 0 {
        seq![]
    } else {
        match s.last().number {
            Some(n) => named_numbers(s.drop_last()).push(n),
            None => named_numbers(s.drop_last()),
        }
    }
}

/// The canonical header kind word for a word that starts with its stem.
pub open spec fn header_name_of(h: Seq<char>) -> Seq<char> {
    if has_prefix(h, "стат"@) || has_prefix(h, "Стат"@) {
        "статья"@
    } else if has_prefix(h, "глав"@) || has_prefix(h, "Глав"@) {
        "глава"@
    } else if has_prefix(h, "разд"@) || has_prefix(h, "Разд"@) {
        "раздел"@
    } else {
        "НЕОПРЕДЕЛЕН"@
    }
}

impl FormatPathItem {
    /// The kind of this step.
    pub fn get_item_type(&self) -> (r: &FormatPath)
        ensures
            kind_of(*r) == self@.kind,
    {
        &self.item
    }

    /// The number this step looks for, if any.
    pub fn get_item_number(&self) -> (r: Option<&String>)
        ensures
            match r {
                Some(s) => self@.number == Some(s@),
                None => self@.number is None,
            },
    {
        match &self.number {
            Some(n) => Some(n),
            None => None,
        }
    }

    /// The query text of this step.
    pub fn get_path(&self) -> (r: String)
        requires
            step_ok(self@),
        ensures
            r@ == step_path(self@),
    {
        match &self.item {
            FormatPath::Header(t) => {
                if let Some(num) = &self.number {
                    FormatPathItem::get_header(num.as_str(), t.as_str())
                } else {
                    let mut r = String::new();
                    push_str(&mut r, ".headers");
                    push_str(&mut r, OPEN_SEARCH_TAG);
                    push_str(&mut r, "*");
                    push_str(&mut r, CLOSE_SEARCH_TAG);
                    r
                }
            },
            FormatPath::Item => {
                if let Some(num) = &self.number {
                    FormatPathItem::get_item(num.as_str())
                } else {
                    let mut r = String::new();
                    push_str(&mut r, ".items");
                    push_str(&mut r, OPEN_SEARCH_TAG);
                    push_str(&mut r, "*");
                    push_str(&mut r, CLOSE_SEARCH_TAG);
                    r
                }
            },
            FormatPath::Indent => {
                if let Some(num) = &self.number {
                    match parse_u32(num.as_str()) {
                        Some(v) => FormatPathItem::get_indent(v),
                        None => {
                            proof {
                                assert(false);
                            }
                            String::new()
                        },
                    }
                } else {
                    let mut r = String::new();
                    push_str(&mut r, ".indents[");
                    push_str(&mut r, "*");
                    push_str(&mut r, "]");
                    r
                }
            },
        }
    }

    /// The kind of this step and its number, or an empty text when it has none.
    pub fn get_enum(&self) -> (r: (FormatPath, String))
        ensures
            kind_of(r.0) == self@.kind,
            r.1@ == number_or_empty(self@.number),
    {
        match &self.number {
            Some(n) => (self.item.duplicate(), n.clone()),
            None => (self.item.duplicate(), String::new()),
        }
    }

    /// The query text of a paragraph step, counted from 1.
    fn get_indent(number: u32) -> (r: String)
        requires
            number >= 1,
        ensures
            r@ == ".indents["@ + decimal((number - 1) as nat) + "]"@,
    {
        let mut r = String::new();
        push_str(&mut r, ".indents[");
        let n = u64_to_string((number - 1) as u64);
        push_str(&mut r, n.as_str());
        push_str(&mut r, "]");
        r
    }

    /// The query text of a numbered-unit step.
    fn get_item(number: &str) -> (r: String)
        ensures
            r@ == ".items"@ + "[?("@ + number_filter(number@) + ")]"@,
    {
        let mut r = String::new();
        push_str(&mut r, ".items");
        push_str(&mut r, OPEN_SEARCH_TAG);
        let f = number_search(number);
        push_str(&mut r, f.as_str());
        push_str(&mut r, CLOSE_SEARCH_TAG);
        r
    }

    /// The query text of a header step.
    fn get_header(number: &str, header_type: &str) -> (r: String)
        ensures
            r@ == ".headers"@ + "[?("@ + header_filter(number@, header_type@) + ")]"@,
    {
        let mut r = String::new();
        push_str(&mut r, ".headers");
        push_str(&mut r, OPEN_SEARCH_TAG);
        let f = header_search(number, header_type);
        push_str(&mut r, f.as_str());
        push_str(&mut r, CLOSE_SEARCH_TAG);
        r
    }

    /// A copy of this step.
    pub fn duplicate(&self) -> (r: Self)
        ensures
            r@ == self@,
    {
        let number = match &self.number {
            Some(n) => Some(n.clone()),
            None => None,
        };
        FormatPathItem { item: self.item.duplicate(), number }
    }
}

/// A query under construction: the steps from the largest unit down to the target, and
/// how many numbered-unit steps with a number were added one by one.
#[derive(Clone, Debug)]
pub struct JsonPathCreator {
    items: Vec<FormatPathItem>,
    hierarchy_lvl: usize,
}

impl JsonPathCreator {
    /// The steps of this query.
    pub closed spec fn steps(&self) -> Seq<PathStep> {
        self.items@.map_values(|i: FormatPathItem| i@)
    }

    /// How many numbered-unit steps with a number were added by `add_item`.
    pub closed spec fn level(&self) -> nat {
        self.hierarchy_lvl as nat
    }

    /// An empty query.
    pub fn empty() -> (r: Self)
        ensures
            r.steps() == Seq::<PathStep>::empty(),
            r.level() == 0,
    {
        let r = JsonPathCreator { items: Vec::new(), hierarchy_lvl: 0 };
        assert(r.steps() =~= Seq::<PathStep>::empty());
        r
    }

    /// A query of one paragraph step.
    pub fn new_with_indent(number: Option<u32>) -> (r: Self)
        ensures
            r.steps() == seq![indent_step(number)],
            r.level() == 0,
    {
        let mut js = JsonPathCreator::empty();
        js.add_indent(number);
        assert(js.steps() =~= seq![indent_step(number)]);
        js
    }

    /// A query of one header step.
    pub fn new_with_header(h_type: &str, number: Option<&str>) -> (r: Self)
        ensures
            r.steps() == seq![header_step(h_type@, number)],
            r.level() == 0,
    {
        let mut js = JsonPathCreator::empty();
        js.add_header(h_type, number);
        assert(js.steps() =~= seq![header_step(h_type@, number)]);
        js
    }

    /// A query of one numbered-unit step.
    pub fn new_with_item(number: Option<&str>) -> (r: Self)
        ensures
            r.steps() == seq![item_step(number)],
            r.level() == (if number is Some {
                1nat
            } else {
                0nat
            }),
    {
        let mut js = JsonPathCreator::empty();
        js.add_item(number);
        assert(js.steps() =~= seq![item_step(number)]);
        js
    }

    /// Appends a header step; the kind word is reduced to `статья`, `глава` or `раздел`.
    pub fn add_header(&mut self, header_type: &str, number: Option<&str>) -> (r: &mut Self)
        ensures
            r.steps() == old(self).steps().push(header_step(header_type@, number)),
            r.level() == old(self).level(),
            *final(self) == *final(r),
    {
        let num: Option<String> = match number {
            Some(n) => Some(string_of(n)),
            None => None,
        };
        let fi = FormatPathItem { item: FormatPath::Header(reverse_header_name(header_type)), number: num };
        self.items.push(fi);
        assert(self.steps() =~= old(self).steps().push(header_step(header_type@, number)));
        self
    }

    /// Appends copies of the given steps.
    pub fn add(&mut self, items: &[FormatPathItem]) -> (r: &mut Self)
        ensures
            r.steps() == old(self).steps() + items@.map_values(|i: FormatPathItem| i@),
            r.level() == old(self).level(),
            *final(self) == *final(r),
    {
        let mut k: usize = 0;
        let ghost start = self.items@;
        while k < items.len()
            invariant
                k <= items@.len(),
                self.level() == old(self).level(),
                start == old(self).items@,
                self.items@.len() == start.len() + k,
                forall|j: int| 0 <= j < start.len() ==> self.items@[j] == start[j],
                forall|j: int| 0 <= j < k ==> (#[trigger] self.items@[start.len() + j])@ == items@[j]@,
            decreases items@.len() - k,
        {
            let d = items[k].duplicate();
            self.items.push(d);
            k = k + 1;
        }
        assert(self.steps() =~= old(self).steps() + items@.map_values(|i: FormatPathItem| i@)) by {
            assert forall|j: int| 0 <= j < self.items@.len() implies #[trigger] self.steps()[j] == (
            old(self).steps() + items@.map_values(|i: FormatPathItem| i@))[j] by {
                if j >= start.len() {
                    assert(self.items@[start.len() + (j - start.len())]@ == items@[j - start.len()]@);
                }
            }
        }
        self
    }

    /// Reverses the order of the steps.
    pub fn reverse(&mut self)
        ensures
            final(self).steps() == old(self).steps().reverse(),
            final(self).level() == old(self).level(),
    {
        let n = self.items.len();
        let mut out: Vec<FormatPathItem> = Vec::new();
        let mut k: usize = n;
        while k > 0
            invariant
                k <= n,
                n == self.items@.len(),
                self.steps() == old(self).steps(),
                self.level() == old(self).level(),
                out@.len() == n - k,
                forall|j: int| 0 <= j < n - k ==> (#[trigger] out@[j])@ == self.items@[n - 1 - j]@,
            decreases k,
        {
            k = k - 1;
            out.push(self.items[k].duplicate());
        }
        self.items = out;
        assert(self.steps() =~= old(self).steps().reverse());
    }

    /// Appends a numbered-unit step; a step with a number counts one more level.
    pub fn add_item(&mut self, number: Option<&str>) -> (r: &mut Self)
        requires
            number is Some ==> old(self).level() < usize::MAX,
        ensures
            r.steps() == old(self).steps().push(item_step(number)),
            r.level() == old(self).level() + if number is Some {
                1nat
            } else {
                0nat
            },
            *final(self) == *final(r),
    {
        let num: Option<String> = match number {
            Some(n) => {
                self.hierarchy_lvl = self.hierarchy_lvl + 1;
                Some(string_of(n))
            },
            None => None,
        };
        let fi = FormatPathItem { item: FormatPath::Item, number: num };
        self.items.push(fi);
        assert(self.steps() =~= old(self).steps().push(item_step(number)));
        self
    }

    /// Appends a paragraph step, its count written in decimal.
    pub fn add_indent(&mut self, number: Option<u32>) -> (r: &mut Self)
        ensures
            r.steps() == old(self).steps().push(indent_step(number)),
            r.level() == old(self).level(),
            *final(self) == *final(r),
    {
        let num: Option<String> = match number {
            Some(n) => Some(u64_to_string(n as u64)),
            None => None,
        };
        let fi = FormatPathItem { item: FormatPath::Indent, number: num };
        self.items.push(fi);
        assert(self.steps() =~= old(self).steps().push(indent_step(number)));
        self
    }

    /// The query text of the steps.
    pub fn get_jsonpath(&self) -> (r: String)
        requires
            steps_ok(self.steps()),
        ensures
            r@ == steps_path(self.steps()),
    {
        let mut path = String::new();
        let mut k: usize = 0;
        while k < self.items.len()
            invariant
                k <= self.items@.len(),
                steps_ok(self.steps()),
                path@ == steps_path(self.steps().subrange(0, k as int)),
            decreases self.items@.len() - k,
        {
            assert(step_ok(self.steps()[k as int]));
            let p = self.items[k].get_path();
            push_str(&mut path, p.as_str());
            assert(self.steps().subrange(0, k + 1).drop_last() =~= self.steps().subrange(
                0,
                k as int,
            ));
            k = k + 1;
        }
        assert(self.steps().subrange(0, self.items@.len() as int) =~= self.steps());
        path
    }

    /// The kind of the first step and the numbers of all steps, last step first; a step
    /// without a number gives an empty text. `None` for an empty query.
    pub fn get_sequence(&self) -> (r: Option<(FormatPath, Vec<String>)>)
        ensures
            self.steps().len() == 0 ==> r is None,
            self.steps().len() > 0 ==> (r matches Some((f, v)) && kind_of(f) == self.steps()[0].kind
                && v@.len() == self.steps().len() && forall|i: int|
                0 <= i < v@.len() ==> (#[trigger] v@[i])@ == number_or_empty(
                    self.steps()[self.steps().len() - 1 - i].number,
                )),
    {
        if self.items.len() == 0 {
            return None;
        }
        let first = self.items[0].item.duplicate();
        let n = self.items.len();
        let mut numbers: Vec<String> = Vec::new();
        let mut k: usize = n;
        while k > 0
            invariant
                k <= n,
                n == self.items@.len(),
                numbers@.len() == n - k,
                forall|j: int| 0 <= j < n - k ==> (#[trigger] numbers@[j])@ == number_or_empty(
                    self.steps()[n - 1 - j].number,
                ),
            decreases k,
        {
            k = k - 1;
            let (_, t) = self.items[k].get_enum();
            numbers.push(t);
        }
        Some((first, numbers))
    }

    /// The numbers of the steps that name one, in order.
    pub fn get_numbers(&self) -> (r: Vec<String>)
        ensures
            r@.map_values(|s: String| s@) == named_numbers(self.steps()),
    {
        let mut r: Vec<String> = Vec::new();
        let mut k: usize = 0;
        while k < self.items.len()
            invariant
                k <= self.items@.len(),
                r@.map_values(|s: String| s@) == named_numbers(self.steps().subrange(0, k as int)),
            decreases self.items@.len() - k,
        {
            assert(self.steps().subrange(0, k + 1).drop_last() =~= self.steps().subrange(
                0,
                k as int,
            ));
            match &self.items[k].number {
                Some(n) => {
                    r.push(n.clone());
                    assert(r@.map_values(|s: String| s@) =~= named_numbers(
                        self.steps().subrange(0, k + 1),
                    ));
                },
                None => {},
            }
            k = k + 1;
        }
        assert(self.steps().subrange(0, self.items@.len() as int) =~= self.steps());
        r
    }

    /// The steps, by reference.
    pub fn get_path_items(&self) -> (r: Vec<&FormatPathItem>)
        ensures
            r@.len() == self.steps().len(),
            forall|i: int| 0 <= i < r@.len() ==> (#[trigger] r@[i])@ == self.steps()[i],
    {
        let mut r: Vec<&FormatPathItem> = Vec::new();
        let mut k: usize = 0;
        while k < self.items.len()
            invariant
                k <= self.items@.len(),
                r@.len() == k,
                forall|i: int| 0 <= i < k ==> (#[trigger] r@[i])@ == self.steps()[i],
            decreases self.items@.len() - k,
        {
            r.push(&self.items[k]);
            k = k + 1;
        }
        r
    }

    /// Does nothing.
    pub fn get_unique_path() {
    }

    /// The query from the body of the document: `$.body` and the steps.
    pub fn get_body_jsonpath(&self) -> (r: String)
        requires
            steps_ok(self.steps()),
        ensures
            r@ == "$.body"@ + steps_path(self.steps()),
    {
        let mut r = string_of("$.body");
        let p = self.get_jsonpath();
        push_str(&mut r, p.as_str());
        r
    }

    /// The last step, if any.
    pub fn last_path(&self) -> (r: Option<&FormatPathItem>)
        ensures
            self.steps().len() == 0 ==> r is None,
            self.steps().len() > 0 ==> (r matches Some(i) && i@ == self.steps().last()),
    {
        if self.items.len() == 0 {
            None
        } else {
            Some(&self.items[self.items.len() - 1])
        }
    }

    /// Whether the query has no steps.
    pub fn is_empty(&self) -> (r: bool)
        ensures
            r == (self.steps().len() == 0),
    {
        self.items.len() == 0
    }

    /// How many numbered-unit steps with a number were added by `add_item`.
    pub fn get_hierarchy_item_query(&self) -> (r: usize)
        ensures
            r == self.level(),
    {
        self.hierarchy_lvl
    }

    /// The steps.
    pub fn get_items(&self) -> (r: &Vec<FormatPathItem>)
        ensures
            r@.map_values(|i: FormatPathItem| i@) == self.steps(),
    {
        &self.items
    }

    /// The steps of `self` followed by those of `rhs`; the level starts again from 0.
    pub fn concat(self, rhs: Self) -> (r: Self)
        ensures
            r.steps() == self.steps() + rhs.steps(),
            r.level() == 0,
    {
        let mut self_vec = self.items;
        let mut rest = rhs.items;
        self_vec.append(&mut rest);
        let r = JsonPathCreator { hierarchy_lvl: 0, items: self_vec };
        assert(r.steps() =~= self.steps() + rhs.steps());
        r
    }

    /// The steps of `self` followed by `rhs`; the level starts again from 0.
    pub fn append_item(self, rhs: FormatPathItem) -> (r: Self)
        ensures
            r.steps() == self.steps().push(rhs@),
            r.level() == 0,
    {
        let mut self_vec = self.items;
        self_vec.push(rhs);
        let r = JsonPathCreator { hierarchy_lvl: 0, items: self_vec };
        assert(r.steps() =~= self.steps().push(rhs@));
        r
    }

    /// All the queries joined in order, as summing them does.
    pub fn sum_of(parts: Vec<Self>) -> (r: Self)
        ensures
            r.steps() == joined_steps(parts@),
            r.level() == 0,
    {
        let mut acc = JsonPathCreator::empty();
        let mut rest = parts;
        let ghost all = rest@;
        let ghost n = all.len();
        assert(all.subrange(0, 0) =~= Seq::<JsonPathCreator>::empty());
        while rest.len() > 0
            invariant
                rest@.len() <= n,
                n == all.len(),
                rest@ == all.subrange(n - rest@.len(), n as int),
                acc.steps() == joined_steps(all.subrange(0, n - rest@.len())),
                acc.level() == 0,
            decreases rest@.len(),
        {
            let ghost consumed = n - rest@.len();
            let p = rest.remove(0);
            assert(p == all[consumed]);
            assert(all.subrange(0, consumed + 1).drop_last() =~= all.subrange(0, consumed));
            assert(rest@ =~= all.subrange(n - rest@.len(), n as int));
            acc = acc.concat(p);
        }
        assert(all.subrange(0, n as int) =~= all);
        acc
    }
}

/// The steps of several queries, one after the other.
pub open spec fn joined_steps(v: Seq<JsonPathCreator>) -> Seq<PathStep>
    decreases v.len(),
{
    if v.len() == 0 {
        seq![]
    } else {
        joined_steps(v.drop_last()) + v.last().steps()
    }
}

/// The step `add_header` appends.
pub open spec fn header_step(h_type: Seq<char>, number: Option<&str>) -> PathStep {
    PathStep {
        kind: PathKind::Header(header_name_of(h_type)),
        number: match number {
            Some(n) => Some(n@),
            None => None,
        },
    }
}

/// The step `add_item` appends.
pub open spec fn item_step(number: Option<&str>) -> PathStep {
    PathStep {
        kind: PathKind::Item,
        number: match number {
            Some(n) => Some(n@),
            None => None,
        },
    }
}

/// The step `add_indent` appends.
pub open spec fn indent_step(number: Option<u32>) -> PathStep {
    PathStep {
        kind: PathKind::Indent,
        number: match number {
            Some(n) => Some(decimal(n as nat)),
            None => None,
        },
    }
}

impl Default for JsonPathCreator {
    fn default() -> (r: Self)
        ensures
            r.steps() == Seq::<PathStep>::empty(),
            r.level() == 0,
    {
        JsonPathCreator::empty()
    }
}

/// Reduces a header kind word to `статья`, `глава` or `раздел` by its stem, in lower or
/// title case; any other word gives `НЕОПРЕДЕЛЕН`.
pub fn reverse_header_name(header_type: &str) -> (r: String)
    ensures
        r@ == header_name_of(header_type@),
{
    if starts_with(header_type, "стат") || starts_with(header_type, "Стат") {
        return string_of("статья");
    }
    if starts_with(header_type, "глав") || starts_with(header_type, "Глав") {
        return string_of("глава");
    }
    if starts_with(header_type, "разд") || starts_with(header_type, "Разд") {
        return string_of("раздел");
    }
    string_of("НЕОПРЕДЕЛЕН")
}

/// Index of the first occurrence of `c` in `s`, if any.
pub open spec fn first_index_of(s: Seq<char>, c: char) -> Option<int> {
    if exists|i: int| 0 <= i < s.len() && s[i] == c {
        Some(choose|i: int| 0 <= i < s.len() && s[i] == c && forall|k: int| 0 <= k < i ==> s[k] != c)
    } else {
        None
    }
}

/// Splits a text at the first occurrence of `c`, dropping it.
fn split_at_char(number: &str, c: char) -> (r: Option<(&str, &str)>)
    ensures
        match r {
            None => forall|i: int| 0 <= i < number@.len() ==> number@[i] != c,
            Some((a, b)) => exists|i: int|
                0 <= i < number@.len() && number@[i] == c && (forall|k: int|
                    0 <= k < i ==> number@[k] != c) && a@ == number@.subrange(0, i) && b@
                    == number@.subrange(i + 1, number@.len() as int),
        },
{
    let cs = chars_of(number);
    let mut i: usize = 0;
    while i < cs.len()
        invariant
            cs@ == number@,
            i <= cs@.len(),
            forall|k: int| 0 <= k < i ==> cs@[k] != c,
        decreases cs@.len() - i,
    {
        if cs[i] == c {
            return Some((number.substring_char(0, i), number.substring_char(i + 1, cs.len())));
        }
        i = i + 1;
    }
    None
}

/// Splits `2^1` into `2` and `1` at the first `^`.
pub fn split_superscript_number(number: &str) -> (r: Option<(&str, &str)>)
    ensures
        match r {
            None => forall|i: int| 0 <= i < number@.len() ==> number@[i] != '^',
            Some((a, b)) => exists|i: int|
                0 <= i < number@.len() && number@[i] == '^' && (forall|k: int|
                    0 <= k < i ==> number@[k] != '^') && a@ == number@.subrange(0, i) && b@
                    == number@.subrange(i + 1, number@.len() as int),
        },
{
    split_at_char(number, '^')
}

/// Splits `2_1` into `2` and `1` at the first `_`.
pub fn split_subscript_number(number: &str) -> (r: Option<(&str, &str)>)
    ensures
        match r {
            None => forall|i: int| 0 <= i < number@.len() ==> number@[i] != '_',
            Some((a, b)) => exists|i: int|
                0 <= i < number@.len() && number@[i] == '_' && (forall|k: int|
                    0 <= k < i ==> number@[k] != '_') && a@ == number@.subrange(0, i) && b@
                    == number@.subrange(i + 1, number@.len() as int),
        },
{
    split_at_char(number, '_')
}

/// The filter that finds an object by its number.
pub fn number_search(number: &str) -> (r: String)
    ensures
        r@ == number_filter(number@),
{
    let mut r = string_of("@.number.val == '");
    push_str(&mut r, number);
    push_str(&mut r, "'");
    r
}

/// The filter that finds a header by its number and kind.
pub fn header_search(number: &str, h_type: &str) -> (r: String)
    ensures
        r@ == header_filter(number@, h_type@),
{
    let mut r = number_search(number);
    push_str(&mut r, " && @.type == '");
    push_str(&mut r, h_type);
    push_str(&mut r, "'");
    r
}

/// The query of steps joined one after the other is the queries of each joined.
pub proof fn lemma_jsonpath_concat(a: Seq<PathStep>, b: Seq<PathStep>)
    ensures
        steps_path(a + b) == steps_path(a) + steps_path(b),
    decreases b.len(),
{
    if b.len() == 0 {
        assert(a + b =~= a);
    } else {
        lemma_jsonpath_concat(a, b.drop_last());
        assert((a + b).drop_last() =~= a + b.drop_last());
    }
}

/// Reversing the steps twice gives the steps back.
pub proof fn lemma_reverse_twice(s: Seq<PathStep>)
    ensures
        s.reverse().reverse() == s,
{
    assert(s.reverse().reverse() =~= s);
}

} // verus!
