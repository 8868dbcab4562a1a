//! The map of changes of an amending act: for each place of the amended act, the
//! operations to apply there.
use vstd::prelude::*;
use crate::change_action::{ActionView, ChangeAction, actions_view};
use crate::json_path_creator::{FormatPathItem, JsonPathCreator, PathKind, PathStep, format_path_equal};
pub use crate::objects::remain_tokens::RemainTokens;

verus! {

/// The operations to apply at one place of the amended act.
#[derive(Debug)]
pub struct ChangesMap {
    /// The place of the element.
    pub path: JsonPathCreator,
    pub operations: Vec<ChangeAction>,
}

impl Default for ChangesMap {
    fn default() -> (r: Self)
        ensures
            r.path.steps() == Seq::<PathStep>::empty(),
            r.operations@.len() == 0,
    {
        ChangesMap { path: JsonPathCreator::empty(), operations: Vec::new() }
    }
}

impl ChangesMap {
    /// The operations `operations` at `path`.
    pub fn new(path: JsonPathCreator, operations: Vec<ChangeAction>) -> (r: Self)
        ensures
            r.path == path,
            r.operations == operations,
    {
        ChangesMap { path, operations }
    }

    /// No operations yet at `path`.
    pub fn with_path(path: JsonPathCreator) -> (r: Self)
        ensures
            r.path == path,
            r.operations@.len() == 0,
    {
        ChangesMap { path, operations: Vec::new() }
    }

    /// Appends one operation.
    pub fn add_operation(&mut self, operation: ChangeAction)
        ensures
            final(self).path == old(self).path,
            final(self).operations@ == old(self).operations@.push(operation),
    {
        self.operations.push(operation);
    }

    /// Appends operations, in order.
    pub fn add_operations(&mut self, operations: Vec<ChangeAction>)
        ensures
            final(self).path == old(self).path,
            final(self).operations@ == old(self).operations@ + operations@,
    {
        let mut ops = operations;
        let ghost start = self.operations@;
        let ghost all = ops@;
        let ghost n = all.len();
        while ops.len() > 0
            invariant
                self.path == old(self).path,
                n == all.len(),
                ops@.len() <= n,
                ops@ == all.subrange(n - ops@.len(), n as int),
                self.operations@ == start + all.subrange(0, n - ops@.len()),
            decreases ops@.len(),
        {
            let ghost k = n - ops@.len();
            let op = ops.remove(0);
            assert(op == all[k]);
            self.operations.push(op);
            assert(ops@ =~= all.subrange(k + 1, n as int));
            assert(self.operations@ =~= start + all.subrange(0, k + 1));
        }
        assert(all.subrange(0, n as int) =~= all);
    }
}

/// The steps of `s`, keeping only the first of each kind, in order.
pub open spec fn first_of_each_kind(s: Seq<PathStep>) -> Seq<PathStep>
    decreases s.len(),
{
    if s.len() == 0 {
        seq![]
    } else {
        let u = first_of_each_kind(s.drop_last());
        if exists|j: int| 0 <= j < u.len() && (#[trigger] u[j]).kind == s.last().kind {
            u
        } else {
            u.push(s.last())
        }
    }
}

/// The common path of an enumeration of elements (`пункты 1, 2 и 10`): when the path
/// has more than one step, the first step of each kind except the last of these;
/// otherwise nothing.
pub fn group_self_path(self_path: &JsonPathCreator) -> (r: JsonPathCreator)
    ensures
        self_path.steps().len() > 1 ==> r.steps() == first_of_each_kind(self_path.steps()).drop_last(),
        self_path.steps().len() <= 1 ==> r.steps() == Seq::<PathStep>::empty(),
{
    let self_items = self_path.get_path_items();
    let mut paths = JsonPathCreator::empty();
    if self_items.len() > 1 {
        let ghost all = self_path.steps();
        let mut items: Vec<FormatPathItem> = Vec::new();
        let mut i: usize = 0;
        while i < self_items.len()
            invariant
                self_items@.len() == all.len(),
                forall|k: int| 0 <= k < self_items@.len() ==> (#[trigger] self_items@[k])@ == all[k],
                i <= self_items@.len(),
                items@.map_values(|f: FormatPathItem| f@) == first_of_each_kind(all.subrange(0, i as int)),
            decreases self_items@.len() - i,
        {
            let item = self_items[i];
            let mut seen = false;
            let mut j: usize = 0;
            let ghost u = items@.map_values(|f: FormatPathItem| f@);
            while j < items.len()
                invariant
                    u == items@.map_values(|f: FormatPathItem| f@),
                    j <= items@.len(),
                    seen <==> exists|m: int| 0 <= m < j && (#[trigger] u[m]).kind == item@.kind,
                decreases items@.len() - j,
            {
                assert(u[j as int] == items@[j as int]@);
                if format_path_equal(items[j].get_item_type(), item.get_item_type()) {
                    seen = true;
                }
                proof {
                    if u[j as int].kind == item@.kind {
                        assert(exists|m: int| 0 <= m < j + 1 && (#[trigger] u[m]).kind == item@.kind);
                    }
                }
                j = j + 1;
            }
            assert(all.subrange(0, i + 1).drop_last() =~= all.subrange(0, i as int));
            assert(all.subrange(0, i + 1).last() == item@);
            if !seen {
                items.push(item.duplicate());
                assert(items@.map_values(|f: FormatPathItem| f@) =~= u.push(item@));
            }
            i = i + 1;
        }
        assert(all.subrange(0, all.len() as int) =~= all);
        proof {
            lemma_first_of_each_kind_nonempty(all);
        }
        let keep = items.len() - 1;
        let slice = slice_to(&items, keep);
        paths.add(slice);
        assert(slice@.map_values(|f: FormatPathItem| f@) =~= first_of_each_kind(all).drop_last());
        assert(paths.steps() =~= first_of_each_kind(all).drop_last());
    }
    paths
}

/// The first `n` elements.
fn slice_to(v: &Vec<FormatPathItem>, n: usize) -> (r: &[FormatPathItem])
    requires
        n <= v@.len(),
    ensures
        r@ == v@.subrange(0, n as int),
{
    vstd::slice::slice_subrange(v.as_slice(), 0, n)
}

proof fn lemma_first_of_each_kind_nonempty(s: Seq<PathStep>)
    requires
        s.len() > 0,
    ensures
        first_of_each_kind(s).len() > 0,
    decreases s.len(),
{
    if s.len() > 1 {
        lemma_first_of_each_kind_nonempty(s.drop_last());
    }
}

} // verus!
