//! The graph of changes: one node per step of the changed paths, an edge from each step
//! to the next one, and on the last step of a path the change made there.
use vstd::prelude::*;
use std::collections::{HashMap, HashSet};
use crate::change_path::{ChangePath, TargetPath, lemma_target_len, path_markdown};
use crate::outputs::markdown::AsMarkdown;
use crate::change_path_order::{change_path_equal, path_equal};
use crate::parsers::changes_parser::{Change, ChangeView, Changes, changes_view};

verus! {

/// A step of a changed path.
#[derive(Debug)]
pub struct ChangeNode {
    /// Id of the path up to this step; equal beginnings of paths share it.
    pub id: u64,
    pub change_path: ChangePath,
    /// The change made at this step, when a path ends here.
    pub change: Option<Change>,
    /// Depth of the step in its path, from 0.
    pub level: usize,
}

/// An edge from a step to the step that follows it.
#[derive(Debug)]
pub struct ChangeEdge {
    pub from_id: u64,
    pub to_id: u64,
}

/// The graph of the changes of an amending act.
#[derive(Debug)]
pub struct ChangesGraph {
    pub nodes: Vec<ChangeNode>,
    pub edges: Vec<ChangeEdge>,
    /// Number of nodes that carry a change.
    pub total_changes: u32,
}

impl Default for ChangesGraph {
    fn default() -> (r: Self)
        ensures
            r.nodes@.len() == 0,
            r.edges@.len() == 0,
            r.total_changes == 0,
    {
        ChangesGraph { nodes: Vec::new(), edges: Vec::new(), total_changes: 0 }
    }
}

/// `c` is one of the changes of `s`.
pub open spec fn is_one_of(s: Seq<ChangeView>, c: ChangeView) -> bool {
    exists|i: int| 0 <= i < s.len() && s[i] == c
}

/// Changes that share the step at one depth and the id of the path up to it.
struct Group {
    id: u64,
    path: ChangePath,
    changes: Vec<Change>,
}

/// `g` is a sound group of changes of `input` at depth `level`: not empty, each of its
/// paths reaches that depth and has there the group's step or one equal to it, and its
/// step is that of its first change.
spec fn group_ok(g: Group, level: int, input: Seq<ChangeView>) -> bool {
    &&& g.changes@.len() > 0
    &&& level < g.changes@[0]@.target.len()
    &&& g.path == g.changes@[0]@.target[level]
    &&& forall|j: int|
        0 <= j < g.changes@.len() ==> {
            &&& level < (#[trigger] g.changes@[j])@.target.len()
            &&& (g.changes@[j]@.target[level] == g.path || path_equal(
                g.path,
                g.changes@[j]@.target[level],
            ))
            &&& is_one_of(input, g.changes@[j]@)
        }
}

/// Some group of `groups` holds `c`.
spec fn held_by(groups: Seq<Group>, c: ChangeView) -> bool {
    exists|k: int, j: int|
        0 <= k < groups.len() && 0 <= j < groups[k].changes@.len() && (
        #[trigger] groups[k].changes@[j])@ == c
}

/// Splits changes into groups by their step at depth `level`, in the order of first
/// appearance; a change joins the first group with its id and an equal step. Changes
/// whose paths are shorter are left out.
fn group_by_level(changes: Vec<Change>, level: usize) -> (groups: Vec<Group>)
    ensures
        forall|k: int| 0 <= k < groups@.len() ==> group_ok(#[trigger] groups@[k], level as int, changes_view(changes@)),
        forall|i: int|
            0 <= i < changes@.len() && level < (#[trigger] changes@[i])@.target.len() ==> held_by(
                groups@,
                changes@[i]@,
            ),
{
    let ghost input = changes_view(changes@);
    let ghost n = changes@.len();
    let ghost all = changes@;
    let mut rest = changes;
    let mut groups: Vec<Group> = Vec::new();
    while rest.len() > 0
        invariant
            n == all.len(),
            input == changes_view(all),
            rest@.len() <= n,
            rest@ == all.subrange(n - rest@.len(), n as int),
            forall|k: int| 0 <= k < groups@.len() ==> group_ok(#[trigger] groups@[k], level as int, input),
            forall|i: int|
                0 <= i < n - rest@.len() && level < (#[trigger] all[i])@.target.len() ==> held_by(
                    groups@,
                    all[i]@,
                ),
        decreases rest@.len(),
    {
        let ghost idx = n - rest@.len();
        let c = rest.remove(0);
        assert(c == all[idx]);
        assert(rest@ =~= all.subrange(idx + 1, n as int));
        assert(is_one_of(input, c@)) by {
            assert(input[idx] == c@);
        }
        let ghost old_groups = groups@;
        match c.target_path.get_path_by_level(level) {
            Some((id, p)) => {
                let mut k: usize = 0;
                let mut found = false;
                while k < groups.len()
                    invariant_except_break
                        !found,
                    invariant
                        groups@ == old_groups,
                        k <= groups@.len(),
                    ensures
                        found ==> k < groups@.len() && groups@[k as int].id == id && path_equal(
                            groups@[k as int].path,
                            p,
                        ),
                    decreases groups@.len() - k,
                {
                    if groups[k].id == id && change_path_equal(&groups[k].path, &p) {
                        found = true;
                        break;
                    }
                    k = k + 1;
                }
                if found {
                    let ghost gk = groups@[k as int];
                    groups[k].changes.push(c);
                    assert(groups@[k as int].changes@ == gk.changes@.push(c));
                    assert(group_ok(gk, level as int, input));
                    assert forall|j: int|
                        0 <= j < groups@[k as int].changes@.len() implies {
                        &&& level < (#[trigger] groups@[k as int].changes@[j])@.target.len()
                        &&& (groups@[k as int].changes@[j]@.target[level as int]
                            == groups@[k as int].path || path_equal(
                            groups@[k as int].path,
                            groups@[k as int].changes@[j]@.target[level as int],
                        ))
                        &&& is_one_of(input, groups@[k as int].changes@[j]@)
                    } by {
                        if j < gk.changes@.len() {
                            assert(groups@[k as int].changes@[j] == gk.changes@[j]);
                        }
                    }
                    assert(group_ok(groups@[k as int], level as int, input));
                    assert forall|i: int|
                        0 <= i < idx + 1 && level < (#[trigger] all[i])@.target.len() implies held_by(
                        groups@,
                        all[i]@,
                    ) by {
                        if i == idx {
                            assert(groups@[k as int].changes@[gk.changes@.len() as int] == c);
                        } else {
                            let (k2, j2) = choose|k2: int, j2: int|
                                0 <= k2 < old_groups.len() && 0 <= j2 < old_groups[k2].changes@.len()
                                    && (#[trigger] old_groups[k2].changes@[j2])@ == all[i]@;
                            assert(groups@[k2].changes@[j2] == old_groups[k2].changes@[j2]);
                        }
                    }
                } else {
                    let mut v: Vec<Change> = Vec::new();
                    v.push(c);
                    groups.push(Group { id, path: p, changes: v });
                    assert(group_ok(groups@[groups@.len() - 1], level as int, input));
                    assert forall|i: int|
                        0 <= i < idx + 1 && level < (#[trigger] all[i])@.target.len() implies held_by(
                        groups@,
                        all[i]@,
                    ) by {
                        if i == idx {
                            assert(groups@[groups@.len() - 1].changes@[0] == c);
                        } else {
                            let (k2, j2) = choose|k2: int, j2: int|
                                0 <= k2 < old_groups.len() && 0 <= j2 < old_groups[k2].changes@.len()
                                    && (#[trigger] old_groups[k2].changes@[j2])@ == all[i]@;
                            assert(groups@[k2] == old_groups[k2]);
                        }
                    }
                }
            },
            None => {
                assert forall|i: int|
                    0 <= i < idx + 1 && level < (#[trigger] all[i])@.target.len() implies held_by(
                    groups@,
                    all[i]@,
                ) by {
                    if i == idx {
                        assert(false);
                    }
                }
            },
        }
    }
    groups
}


/// Some node at depth `level` has the step `step`, or a step equal to it.
pub open spec fn step_covered(nodes: Seq<ChangeNode>, level: int, step: ChangePath) -> bool {
    exists|m: int|
        0 <= m < nodes.len() && (#[trigger] nodes[m]).level == level && (nodes[m].change_path
            == step || path_equal(nodes[m].change_path, step))
}

/// A node made from the changes `input`: its step is the step at its depth of one of
/// them; a node at depth 0 carries no change; a carried change is one of them, whose
/// path reaches the node's depth and ends with a step equal to the node's.
pub open spec fn node_from(input: Seq<ChangeView>, n: ChangeNode) -> bool {
    &&& exists|i: int|
        0 <= i < input.len() && n.level < (#[trigger] input[i]).target.len()
            && input[i].target[n.level as int] == n.change_path
    &&& n.level == 0 ==> n.change is None
    &&& n.change matches Some(c) ==> {
        &&& is_one_of(input, c@)
        &&& n.level < c@.target.len()
        &&& path_equal(n.change_path, c@.target.last())
    }
}

/// Some node has the id `id`.
pub open spec fn has_node(nodes: Seq<ChangeNode>, id: u64) -> bool {
    exists|m: int| 0 <= m < nodes.len() && (#[trigger] nodes[m]).id == id
}

/// The ids of the nodes below depth 0, in order.
pub open spec fn later_ids(nodes: Seq<ChangeNode>) -> Seq<u64>
    decreases nodes.len(),
{
    if nodes.len() == 0 {
        seq![]
    } else {
        let r = later_ids(nodes.drop_last());
        if nodes.last().level > 0 {
            r.push(nodes.last().id)
        } else {
            r
        }
    }
}

/// The targets of the edges, in order.
pub open spec fn edge_targets(edges: Seq<ChangeEdge>) -> Seq<u64> {
    edges.map_values(|e: ChangeEdge| e.to_id)
}

/// The number of nodes that carry a change.
pub open spec fn changed_count(nodes: Seq<ChangeNode>) -> nat
    decreases nodes.len(),
{
    if nodes.len() == 0 {
        0
    } else {
        changed_count(nodes.drop_last()) + if nodes.last().change is Some {
            1nat
        } else {
            0nat
        }
    }
}

/// Two steps are the same: equal, or equal as the order of steps sees them.
pub open spec fn step_matches(p: ChangePath, q: ChangePath) -> bool {
    q == p || path_equal(p, q)
}

/// Some change of `input` has the step of `b` at `b`'s depth and, at `a`'s depth, a step
/// the same as `a`'s: `b` follows `a` on that change's path.
pub open spec fn step_follows(input: Seq<ChangeView>, a: ChangeNode, b: ChangeNode) -> bool {
    exists|i: int|
        0 <= i < input.len() && b.level < (#[trigger] input[i]).target.len() && a.level < input[i].target.len()
            && input[i].target[b.level as int] == b.change_path && step_matches(
            a.change_path,
            input[i].target[a.level as int],
        )
}

/// The edge `e` joins a node one depth up to a node that follows it on the path of some
/// change: its source has the id `from_id`, its target the id `to_id` and the next depth.
pub open spec fn edge_joins(input: Seq<ChangeView>, nodes: Seq<ChangeNode>, e: ChangeEdge) -> bool {
    exists|a: int, b: int|
        #![trigger nodes[a], nodes[b]]
        0 <= a < nodes.len() && 0 <= b < nodes.len() && nodes[a].id == e.from_id && nodes[b].id == e.to_id
            && nodes[a].level + 1 == nodes[b].level && step_follows(input, nodes[a], nodes[b])
}

/// A node with the id `p`, one depth above `level`, whose step is the same as the step
/// at that depth of each of the changes `cs`.
spec fn parent_node(nodes: Seq<ChangeNode>, p: u64, level: int, cs: Seq<ChangeView>) -> bool {
    exists|a: int|
        0 <= a < nodes.len() && (#[trigger] nodes[a]).id == p && nodes[a].level + 1 == level && forall|j: int|
            0 <= j < cs.len() ==> level - 1 < (#[trigger] cs[j]).target.len() && step_matches(
                nodes[a].change_path,
                cs[j].target[level - 1],
            )
}

proof fn lemma_edge_joins_kept(input: Seq<ChangeView>, nodes: Seq<ChangeNode>, more: Seq<ChangeNode>, e: ChangeEdge)
    requires
        edge_joins(input, nodes, e),
        nodes.len() <= more.len(),
        more.subrange(0, nodes.len() as int) == nodes,
    ensures
        edge_joins(input, more, e),
{
    let (a, b) = choose|a: int, b: int|
        #![trigger nodes[a], nodes[b]]
        0 <= a < nodes.len() && 0 <= b < nodes.len() && nodes[a].id == e.from_id && nodes[b].id == e.to_id
            && nodes[a].level + 1 == nodes[b].level && step_follows(input, nodes[a], nodes[b]);
    assert(more[a] == nodes[a]);
    assert(more[b] == nodes[b]);
}

proof fn lemma_parent_node_kept(nodes: Seq<ChangeNode>, more: Seq<ChangeNode>, p: u64, level: int, cs: Seq<ChangeView>)
    requires
        parent_node(nodes, p, level, cs),
        nodes.len() <= more.len(),
        more.subrange(0, nodes.len() as int) == nodes,
    ensures
        parent_node(more, p, level, cs),
{
    let a = choose|a: int|
        0 <= a < nodes.len() && (#[trigger] nodes[a]).id == p && nodes[a].level + 1 == level && forall|j: int|
            0 <= j < cs.len() ==> level - 1 < (#[trigger] cs[j]).target.len() && step_matches(
                nodes[a].change_path,
                cs[j].target[level - 1],
            );
    assert(more[a] == nodes[a]);
}

/// A parent of some changes is a parent of any changes taken among them.
proof fn lemma_parent_node_subset(nodes: Seq<ChangeNode>, p: u64, level: int, cs: Seq<ChangeView>, ds: Seq<ChangeView>)
    requires
        parent_node(nodes, p, level, cs),
        forall|j: int| 0 <= j < ds.len() ==> is_one_of(cs, #[trigger] ds[j]),
    ensures
        parent_node(nodes, p, level, ds),
{
    let a = choose|a: int|
        0 <= a < nodes.len() && (#[trigger] nodes[a]).id == p && nodes[a].level + 1 == level && forall|j: int|
            0 <= j < cs.len() ==> level - 1 < (#[trigger] cs[j]).target.len() && step_matches(
                nodes[a].change_path,
                cs[j].target[level - 1],
            );
    assert forall|j: int| 0 <= j < ds.len() implies level - 1 < (#[trigger] ds[j]).target.len() && step_matches(
        nodes[a].change_path,
        ds[j].target[level - 1],
    ) by {
        let i = choose|i: int| 0 <= i < cs.len() && cs[i] == ds[j];
    }
}

/// The longest path among the changes.
spec fn longest(input: Seq<ChangeView>) -> nat
    decreases input.len(),
{
    if input.len() == 0 {
        0
    } else {
        let r = longest(input.drop_last());
        if input.last().target.len() > r {
            input.last().target.len()
        } else {
            r
        }
    }
}

proof fn lemma_longest(input: Seq<ChangeView>, i: int)
    requires
        0 <= i < input.len(),
    ensures
        input[i].target.len() <= longest(input),
    decreases input.len(),
{
    if i < input.len() - 1 {
        lemma_longest(input.drop_last(), i);
        assert(input.drop_last()[i] == input[i]);
    }
}

/// Changes waiting to be split at the next depth, with the id of their parent step.
struct Pending {
    changes: Vec<Change>,
    parent: Option<u64>,
}

/// The nodes and edges built so far are sound.
#[verifier::opaque]
spec fn graph_ok(input: Seq<ChangeView>, nodes: Seq<ChangeNode>, edges: Seq<ChangeEdge>, level: int) -> bool {
    &&& forall|m: int| 0 <= m < nodes.len() ==> node_from(input, #[trigger] nodes[m])
    &&& forall|m: int| 0 <= m < nodes.len() ==> (#[trigger] nodes[m]).level <= level
    &&& forall|a: int, b: int|
        0 <= a < b < nodes.len() ==> (#[trigger] nodes[a]).level <= (#[trigger] nodes[b]).level
    &&& edge_targets(edges) == later_ids(nodes)
    &&& forall|k: int| 0 <= k < edges.len() ==> has_node(nodes, (#[trigger] edges[k]).from_id)
    &&& forall|k: int| 0 <= k < edges.len() ==> edge_joins(input, nodes, #[trigger] edges[k])
}

impl ChangesGraph {
    /// Adds the node of a group at depth `level`, with an edge from its parent when it
    /// has one. The node carries the group's last change when that change's path ends
    /// with a step equal to the group's.
    fn add_group_node(&mut self, g: &Group, parent: Option<u64>, level: usize, Ghost(input): Ghost<Seq<ChangeView>>)
        requires
            group_ok(*g, level as int, input),
            graph_ok(input, old(self).nodes@, old(self).edges@, level as int),
            level == 0 <==> parent is None,
            parent matches Some(p) ==> has_node(old(self).nodes@, p),
            parent matches Some(p) ==> parent_node(old(self).nodes@, p, level as int, changes_view(g.changes@)),
        ensures
            graph_ok(input, final(self).nodes@, final(self).edges@, level as int),
            final(self).nodes@.len() == old(self).nodes@.len() + 1,
            final(self).nodes@.subrange(0, old(self).nodes@.len() as int) == old(self).nodes@,
            final(self).nodes@.last().id == g.id,
            final(self).nodes@.last().level == level,
            final(self).nodes@.last().change_path == g.path,
    {
        proof {
            reveal(graph_ok);
            reveal(pending_ok);
        }
        let ghost old_nodes = self.nodes@;
        let ghost old_edges = self.edges@;
        let n = g.changes.len();
        let last = &g.changes[n - 1];
        assert(level < last@.target.len());
        assert(is_one_of(input, last@));
        let change = match parent {
            Some(_) => {
                let paths = last.target_path.get_paths();
                if change_path_equal(&g.path, &paths[paths.len() - 1]) {
                    Some(last.duplicate())
                } else {
                    None
                }
            },
            None => None,
        };
        let node = ChangeNode { id: g.id, change_path: g.path.duplicate(), change, level };
        assert(node_from(input, node)) by {
            let i = choose|i: int| 0 <= i < input.len() && input[i] == g.changes@[0]@;
            assert(n > 0);
        }
        self.nodes.push(node);
        assert(self.nodes@.drop_last() =~= old_nodes);
        match parent {
            Some(p_id) => {
                self.edges.push(ChangeEdge { from_id: p_id, to_id: g.id });
                assert(edge_targets(self.edges@) =~= edge_targets(old_edges).push(g.id));
                assert(self.nodes@.drop_last() =~= old_nodes);
            },
            None => {
                assert(self.nodes@.drop_last() =~= old_nodes);
            },
        }
        assert forall|k: int| 0 <= k < self.edges@.len() implies has_node(self.nodes@, (#[trigger] self.edges@[k]).from_id) by {
            if k < old_edges.len() {
                let m = choose|m: int| 0 <= m < old_nodes.len() && (#[trigger] old_nodes[m]).id == old_edges[k].from_id;
                assert(self.nodes@[m] == old_nodes[m]);
            } else {
                let m = choose|m: int| 0 <= m < old_nodes.len() && (#[trigger] old_nodes[m]).id == parent->0;
                assert(self.nodes@[m] == old_nodes[m]);
            }
        }
        assert forall|m: int| 0 <= m < self.nodes@.len() implies node_from(input, #[trigger] self.nodes@[m]) by {
            if m < old_nodes.len() {
                assert(self.nodes@[m] == old_nodes[m]);
            }
        }
        assert(self.nodes@.subrange(0, old_nodes.len() as int) =~= old_nodes);
        assert forall|k: int| 0 <= k < self.edges@.len() implies edge_joins(input, self.nodes@, #[trigger] self.edges@[k]) by {
            if k < old_edges.len() {
                assert(self.edges@[k] == old_edges[k]);
                lemma_edge_joins_kept(input, old_nodes, self.nodes@, old_edges[k]);
            } else {
                let p = parent->0;
                let cs = changes_view(g.changes@);
                let a = choose|a: int|
                    0 <= a < old_nodes.len() && (#[trigger] old_nodes[a]).id == p && old_nodes[a].level + 1 == level
                        && forall|j: int|
                        0 <= j < cs.len() ==> level - 1 < (#[trigger] cs[j]).target.len() && step_matches(
                            old_nodes[a].change_path,
                            cs[j].target[level - 1],
                        );
                let b = self.nodes@.len() - 1;
                assert(self.nodes@[a] == old_nodes[a]);
                assert(cs[0] == g.changes@[0]@);
                let i = choose|i: int| 0 <= i < input.len() && input[i] == g.changes@[0]@;
                assert(step_follows(input, self.nodes@[a], self.nodes@[b]));
                assert(edge_joins(input, self.nodes@, self.edges@[k]));
            }
        }
    }
}


/// Some node at depth `level` has exactly the step `path`.
spec fn node_with_path(nodes: Seq<ChangeNode>, level: int, path: ChangePath) -> bool {
    exists|m: int| 0 <= m < nodes.len() && (#[trigger] nodes[m]).level == level && nodes[m].change_path == path
}

/// The entries still to split at depth `level` are sound.
#[verifier::opaque]
spec fn pending_ok(input: Seq<ChangeView>, nodes: Seq<ChangeNode>, pending: Seq<Pending>, level: int) -> bool {
    forall|e: int| 0 <= e < pending.len() ==> {
        &&& (level == 0 <==> (#[trigger] pending[e]).parent is None)
        &&& (pending[e].parent matches Some(p) ==> has_node(nodes, p) && parent_node(
            nodes,
            p,
            level,
            changes_view(pending[e].changes@),
        ))
        &&& (level > 0 ==> pending[e].changes@.len() > 0)
        &&& forall|j: int| 0 <= j < pending[e].changes@.len() ==> {
            &&& is_one_of(input, (#[trigger] pending[e].changes@[j])@)
            &&& level <= pending[e].changes@[j]@.target.len()
        }
    }
}

/// `c` is held by one of the pending entries.
spec fn pending_holds(pending: Seq<Pending>, c: ChangeView) -> bool {
    exists|e: int, j: int|
        0 <= e < pending.len() && 0 <= j < pending[e].changes@.len() && (
        #[trigger] pending[e].changes@[j])@ == c
}

proof fn lemma_has_node_kept(nodes: Seq<ChangeNode>, more: Seq<ChangeNode>, id: u64)
    requires
        has_node(nodes, id),
        nodes.len() <= more.len(),
        more.subrange(0, nodes.len() as int) == nodes,
    ensures
        has_node(more, id),
{
    let m = choose|m: int| 0 <= m < nodes.len() && (#[trigger] nodes[m]).id == id;
    assert(more[m] == nodes[m]);
}

proof fn lemma_covered_kept(nodes: Seq<ChangeNode>, more: Seq<ChangeNode>, level: int, step: ChangePath)
    requires
        step_covered(nodes, level, step),
        nodes.len() <= more.len(),
        more.subrange(0, nodes.len() as int) == nodes,
    ensures
        step_covered(more, level, step),
{
    let m = choose|m: int|
        0 <= m < nodes.len() && (#[trigger] nodes[m]).level == level && (nodes[m].change_path
            == step || path_equal(nodes[m].change_path, step));
    assert(more[m] == nodes[m]);
}

proof fn lemma_path_kept(nodes: Seq<ChangeNode>, more: Seq<ChangeNode>, level: int, path: ChangePath)
    requires
        node_with_path(nodes, level, path),
        nodes.len() <= more.len(),
        more.subrange(0, nodes.len() as int) == nodes,
    ensures
        node_with_path(more, level, path),
{
    let m = choose|m: int| 0 <= m < nodes.len() && (#[trigger] nodes[m]).level == level && nodes[m].change_path == path;
    assert(more[m] == nodes[m]);
}

/// After all entries of depth `level` were split: the changes that reach deeper are
/// pending for the next depth, every step up to `level` is met, and a next depth exists
/// only within the longest path.
proof fn lemma_level_done(
    input: Seq<ChangeView>,
    entries: Seq<Pending>,
    next: Seq<Pending>,
    nodes_at_start: Seq<ChangeNode>,
    nodes: Seq<ChangeNode>,
    level: int,
    top: nat,
)
    requires
        0 <= level,
        forall|i: int| 0 <= i < input.len() ==> #[trigger] input[i].target.len() <= top,
        forall|i: int|
            0 <= i < input.len() && level < (#[trigger] input[i]).target.len() ==> pending_holds(entries, input[i]),
        forall|i: int, l: int|
            0 <= i < input.len() && 0 <= l < level && l < input[i].target.len() ==> step_covered(
                nodes_at_start,
                l,
                #[trigger] input[i].target[l],
            ),
        nodes_at_start.len() <= nodes.len(),
        nodes.subrange(0, nodes_at_start.len() as int) == nodes_at_start,
        pending_ok(input, nodes, next, level + 1),
        forall|e: int, j: int|
            0 <= e < entries.len() && 0 <= j < entries[e].changes@.len() && level
                < (#[trigger] entries[e].changes@[j])@.target.len() ==> {
                &&& pending_holds(next, entries[e].changes@[j]@)
                &&& step_covered(nodes, level, entries[e].changes@[j]@.target[level])
            },
    ensures
        forall|i: int|
            0 <= i < input.len() && level < (#[trigger] input[i]).target.len() ==> pending_holds(next, input[i]),
        forall|i: int, l: int|
            0 <= i < input.len() && 0 <= l < level + 1 && l < input[i].target.len() ==> step_covered(
                nodes,
                l,
                #[trigger] input[i].target[l],
            ),
        next.len() > 0 ==> level + 1 <= top,
{
    reveal(pending_ok);
    assert forall|i: int|
        0 <= i < input.len() && level < (#[trigger] input[i]).target.len() implies {
            &&& pending_holds(next, input[i])
            &&& step_covered(nodes, level, input[i].target[level])
        } by {
        let (e, j) = choose|e: int, j: int|
            0 <= e < entries.len() && 0 <= j < entries[e].changes@.len() && (
            #[trigger] entries[e].changes@[j])@ == input[i];
        assert(level < entries[e].changes@[j]@.target.len());
    }
    assert forall|i: int, l: int|
        0 <= i < input.len() && 0 <= l < level + 1 && l < input[i].target.len() implies step_covered(
            nodes,
            l,
            #[trigger] input[i].target[l],
        ) by {
        if l < level {
            lemma_covered_kept(nodes_at_start, nodes, l, input[i].target[l]);
        } else {
            assert(level < input[i].target.len());
        }
    }
    if next.len() > 0 {
        assert(next[0].changes@.len() > 0);
        let c = next[0].changes@[0];
        assert(is_one_of(input, c@));
        let i = choose|i: int| 0 <= i < input.len() && input[i] == c@;
        assert(input[i].target.len() <= top);
    }
}

/// Soundness at one depth holds at the next.
proof fn lemma_graph_up(input: Seq<ChangeView>, nodes: Seq<ChangeNode>, edges: Seq<ChangeEdge>, level: int)
    requires
        graph_ok(input, nodes, edges, level),
    ensures
        graph_ok(input, nodes, edges, level + 1),
{
    reveal(graph_ok);
}

proof fn lemma_longest_bound(input: Seq<ChangeView>, bound: int)
    requires
        forall|i: int| 0 <= i < input.len() ==> #[trigger] input[i].target.len() <= bound,
        0 <= bound,
    ensures
        longest(input) <= bound,
    decreases input.len(),
{
    if input.len() > 0 {
        assert forall|i: int| 0 <= i < input.len() - 1 implies #[trigger] input.drop_last()[i].target.len() <= bound by {
            assert(input.drop_last()[i] == input[i]);
        }
        lemma_longest_bound(input.drop_last(), bound);
        assert(input[input.len() - 1].target.len() <= bound);
    }
}

/// The start of the construction: all changes pending at depth 0, nothing built.
proof fn lemma_start(input: Seq<ChangeView>, all: Seq<Change>, current: Seq<Pending>, top: nat)
    requires
        input == changes_view(all),
        current.len() == 1,
        current[0].changes@ == all,
        current[0].parent is None,
        top == longest(input),
    ensures
        graph_ok(input, Seq::<ChangeNode>::empty(), Seq::<ChangeEdge>::empty(), 0),
        pending_ok(input, Seq::<ChangeNode>::empty(), current, 0),
        forall|i: int| 0 <= i < input.len() ==> #[trigger] input[i].target.len() <= top,
        top <= usize::MAX,
        forall|i: int|
            0 <= i < input.len() && 0 < (#[trigger] input[i]).target.len() ==> pending_holds(current, input[i]),
{
    reveal(graph_ok);
    reveal(pending_ok);
    assert(edge_targets(Seq::<ChangeEdge>::empty()) =~= later_ids(Seq::<ChangeNode>::empty()));
    assert forall|i: int| 0 <= i < input.len() implies #[trigger] input[i].target.len() <= top by {
        lemma_longest(input, i);
    }
    assert forall|i: int| 0 <= i < input.len() implies #[trigger] input[i].target.len() <= usize::MAX by {
        assert(input[i] == all[i]@);
        lemma_target_len(&all[i].target_path);
    }
    lemma_longest_bound(input, usize::MAX as int);
    assert forall|i: int| 0 <= i < input.len() && 0 < (#[trigger] input[i]).target.len() implies pending_holds(current, input[i]) by {
        assert(current[0].changes@[i] == all[i]);
    }
    assert forall|j: int| 0 <= j < current[0].changes@.len() implies is_one_of(input, (#[trigger] current[0].changes@[j])@) by {
        assert(input[j] == all[j]@);
    }
}

/// The end of the construction: nothing pending, so every step was met.
proof fn lemma_finish(input: Seq<ChangeView>, current: Seq<Pending>, nodes: Seq<ChangeNode>, level: int)
    requires
        current.len() == 0,
        forall|i: int|
            0 <= i < input.len() && level < (#[trigger] input[i]).target.len() ==> pending_holds(current, input[i]),
        forall|i: int, l: int|
            0 <= i < input.len() && 0 <= l < level && l < input[i].target.len() ==> step_covered(
                nodes,
                l,
                #[trigger] input[i].target[l],
            ),
    ensures
        forall|i: int, l: int|
            0 <= i < input.len() && 0 <= l < input[i].target.len() ==> step_covered(
                nodes,
                l,
                #[trigger] input[i].target[l],
            ),
{
    assert forall|i: int, l: int|
        0 <= i < input.len() && 0 <= l < input[i].target.len() implies step_covered(
            nodes,
            l,
            #[trigger] input[i].target[l],
        ) by {
        if level < input[i].target.len() {
            assert(pending_holds(current, input[i]));
        }
    }
}

/// The number of nodes that carry a change.
fn count_changed(nodes: &Vec<ChangeNode>) -> (r: usize)
    ensures
        r == changed_count(nodes@),
{
    let mut count: usize = 0;
    let mut m: usize = 0;
    while m < nodes.len()
        invariant
            m <= nodes@.len(),
            count == changed_count(nodes@.subrange(0, m as int)),
            count <= m,
        decreases nodes@.len() - m,
    {
        if nodes[m].change.is_some() {
            count = count + 1;
        }
        m = m + 1;
        assert(nodes@.subrange(0, m as int).drop_last() =~= nodes@.subrange(0, m - 1));
    }
    assert(nodes@.subrange(0, nodes@.len() as int) =~= nodes@);
    count
}

impl ChangesGraph {
    /// Splits the changes of one pending entry at depth `level`: one node per group, and
    /// each group pending for the next depth.
    fn split_entry(
        &mut self,
        entry: Pending,
        level: usize,
        next: &mut Vec<Pending>,
        Ghost(input): Ghost<Seq<ChangeView>>,
    )
        requires
            graph_ok(input, old(self).nodes@, old(self).edges@, level as int),
            level == 0 <==> entry.parent is None,
            entry.parent matches Some(p) ==> has_node(old(self).nodes@, p),
            entry.parent matches Some(p) ==> parent_node(old(self).nodes@, p, level as int, changes_view(entry.changes@)),
            forall|j: int| 0 <= j < entry.changes@.len() ==> is_one_of(input, (#[trigger] entry.changes@[j])@),
            pending_ok(input, old(self).nodes@, old(next)@, level + 1),
            level + 1 > 0,
        ensures
            graph_ok(input, final(self).nodes@, final(self).edges@, level as int),
            old(self).nodes@.len() <= final(self).nodes@.len(),
            final(self).nodes@.subrange(0, old(self).nodes@.len() as int) == old(self).nodes@,
            final(self).nodes@.len() - old(self).nodes@.len() == final(next)@.len() - old(next)@.len(),
            old(next)@.len() <= final(next)@.len(),
            final(next)@.subrange(0, old(next)@.len() as int) == old(next)@,
            pending_ok(input, final(self).nodes@, final(next)@, level + 1),
            forall|j: int|
                0 <= j < entry.changes@.len() && level < (#[trigger] entry.changes@[j])@.target.len() ==> {
                    &&& pending_holds(final(next)@, entry.changes@[j]@)
                    &&& step_covered(final(self).nodes@, level as int, entry.changes@[j]@.target[level as int])
                },
    {
        proof {
            reveal(graph_ok);
            reveal(pending_ok);
        }
        let parent = entry.parent;
        let ghost entry_changes = entry.changes@;
        let mut groups = group_by_level(entry.changes, level);
        let ghost all_groups = groups@;
        let ghost ng = all_groups.len();
        let ghost next_at_start = next@;
        let ghost nodes_before = self.nodes@;
        while groups.len() > 0
            invariant
                ng == all_groups.len(),
                groups@.len() <= ng,
                groups@ == all_groups.subrange(ng - groups@.len(), ng as int),
                forall|k: int| 0 <= k < ng ==> group_ok(#[trigger] all_groups[k], level as int, changes_view(entry_changes)),
                forall|j: int| 0 <= j < entry_changes.len() ==> is_one_of(input, (#[trigger] entry_changes[j])@),
                level == 0 <==> parent is None,
                parent matches Some(p) ==> has_node(nodes_before, p),
                parent matches Some(p) ==> parent_node(nodes_before, p, level as int, changes_view(entry_changes)),
                level + 1 > 0,
                graph_ok(input, self.nodes@, self.edges@, level as int),
                nodes_before.len() <= self.nodes@.len(),
                self.nodes@.subrange(0, nodes_before.len() as int) == nodes_before,
                self.nodes@.len() - nodes_before.len() == ng - groups@.len(),
                next@.len() == next_at_start.len() + (ng - groups@.len()),
                next@.subrange(0, next_at_start.len() as int) == next_at_start,
                forall|k: int| 0 <= k < ng - groups@.len() ==> {
                    &&& next@[next_at_start.len() + k].changes@ == all_groups[k].changes@
                    &&& node_with_path(self.nodes@, level as int, (#[trigger] all_groups[k]).path)
                },
                pending_ok(input, self.nodes@, next@, level + 1),
            decreases groups@.len(),
        {
            proof {
                reveal(graph_ok);
                reveal(pending_ok);
            }
            let ghost k_idx = ng - groups@.len();
            let g = groups.remove(0);
            assert(g == all_groups[k_idx]);
            assert(groups@ =~= all_groups.subrange(k_idx + 1, ng as int));
            let ghost nodes_prev = self.nodes@;
            let ghost next_prev = next@;
            proof {
                assert(group_ok(g, level as int, changes_view(entry_changes)));
                assert forall|j: int| 0 <= j < g.changes@.len() implies is_one_of(input, (#[trigger] g.changes@[j])@) by {
                    let i = choose|i: int| 0 <= i < changes_view(entry_changes).len() && changes_view(entry_changes)[i] == g.changes@[j]@;
                    assert(changes_view(entry_changes)[i] == entry_changes[i]@);
                    assert(is_one_of(input, entry_changes[i]@));
                }
                assert(group_ok(g, level as int, input));
                if parent is Some {
                    lemma_has_node_kept(nodes_before, nodes_prev, parent->0);
                    lemma_parent_node_kept(nodes_before, nodes_prev, parent->0, level as int, changes_view(entry_changes));
                    assert forall|j: int| 0 <= j < changes_view(g.changes@).len() implies is_one_of(
                        changes_view(entry_changes),
                        #[trigger] changes_view(g.changes@)[j],
                    ) by {
                        assert(changes_view(g.changes@)[j] == g.changes@[j]@);
                    }
                    lemma_parent_node_subset(nodes_prev, parent->0, level as int, changes_view(entry_changes), changes_view(g.changes@));
                }
            }
            self.add_group_node(&g, parent, level, Ghost(input));
            let ghost gid = g.id;
            let ghost gpath = g.path;
            let ghost gchanges = g.changes@;
            next.push(Pending { changes: g.changes, parent: Some(g.id) });
            proof {
                assert(self.nodes@.subrange(0, nodes_before.len() as int) =~= nodes_before) by {
                    assert(self.nodes@.subrange(0, nodes_prev.len() as int) == nodes_prev);
                }
                assert(next@.subrange(0, next_at_start.len() as int) =~= next_at_start) by {
                    assert(next@.subrange(0, next_prev.len() as int) =~= next_prev);
                }
                let last = self.nodes@.len() - 1;
                assert(self.nodes@[last].id == gid);
                assert(has_node(self.nodes@, gid));
                assert(node_with_path(self.nodes@, level as int, gpath)) by {
                    assert(self.nodes@[last].change_path == gpath);
                    assert(self.nodes@[last].level == level);
                }
                assert forall|k: int| 0 <= k < ng - groups@.len() implies {
                    &&& next@[next_at_start.len() + k].changes@ == all_groups[k].changes@
                    &&& node_with_path(self.nodes@, level as int, (#[trigger] all_groups[k]).path)
                } by {
                    if k < k_idx {
                        assert(next@[next_at_start.len() + k] == next_prev[next_at_start.len() + k]);
                        lemma_path_kept(nodes_prev, self.nodes@, level as int, all_groups[k].path);
                    }
                }
                assert forall|e: int| 0 <= e < next@.len() implies {
                    &&& (level + 1 == 0 <==> (#[trigger] next@[e]).parent is None)
                    &&& (next@[e].parent matches Some(p) ==> has_node(self.nodes@, p))
                    &&& (level + 1 > 0 ==> next@[e].changes@.len() > 0)
                    &&& forall|j: int| 0 <= j < next@[e].changes@.len() ==> {
                        &&& is_one_of(input, (#[trigger] next@[e].changes@[j])@)
                        &&& level + 1 <= next@[e].changes@[j]@.target.len()
                    }
                } by {
                    if e < next_prev.len() {
                        assert(next@[e] == next_prev[e]);
                        lemma_has_node_kept(nodes_prev, self.nodes@, next_prev[e].parent->0);
                    } else {
                        assert(next@[e].changes@ == gchanges);
                    }
                }
            }
        }
        proof {
            assert forall|j: int|
                0 <= j < entry_changes.len() && level < (#[trigger] entry_changes[j])@.target.len() implies {
                    &&& pending_holds(next@, entry_changes[j]@)
                    &&& step_covered(self.nodes@, level as int, entry_changes[j]@.target[level as int])
                } by {
                let (k, j2) = choose|k: int, j2: int|
                    0 <= k < all_groups.len() && 0 <= j2 < all_groups[k].changes@.len() && (
                    #[trigger] all_groups[k].changes@[j2])@ == entry_changes[j]@;
                let g = all_groups[k];
                assert(group_ok(g, level as int, changes_view(entry_changes)));
                assert(level < g.changes@[j2]@.target.len());
                assert(next@[next_at_start.len() + k].changes@[j2] == g.changes@[j2]);
                assert(node_with_path(self.nodes@, level as int, g.path));
                let m = choose|m: int| 0 <= m < self.nodes@.len() && (#[trigger] self.nodes@[m]).level == level && self.nodes@[m].change_path == g.path;
                assert(self.nodes@[m].level == level);
            }
        }
    }

    /// Splits every pending entry at depth `level`, in order; gives back the entries for
    /// the next depth.
    fn split_level(
        &mut self,
        current: Vec<Pending>,
        level: usize,
        Ghost(input): Ghost<Seq<ChangeView>>,
        Ghost(top): Ghost<nat>,
    ) -> (next: Vec<Pending>)
        requires
            forall|i: int| 0 <= i < input.len() ==> #[trigger] input[i].target.len() <= top,
            level <= top,
            graph_ok(input, old(self).nodes@, old(self).edges@, level as int),
            pending_ok(input, old(self).nodes@, current@, level as int),
        ensures
            graph_ok(input, final(self).nodes@, final(self).edges@, level as int),
            old(self).nodes@.len() <= final(self).nodes@.len(),
            final(self).nodes@.subrange(0, old(self).nodes@.len() as int) == old(self).nodes@,
            pending_ok(input, final(self).nodes@, next@, level + 1),
            forall|e: int, j: int|
                0 <= e < current@.len() && 0 <= j < current@[e].changes@.len() && level
                    < (#[trigger] current@[e].changes@[j])@.target.len() ==> {
                    &&& pending_holds(next@, current@[e].changes@[j]@)
                    &&& step_covered(final(self).nodes@, level as int, current@[e].changes@[j]@.target[level as int])
                },
    {
        proof {
            reveal(graph_ok);
            reveal(pending_ok);
        }
        let mut current = current;
        let mut next: Vec<Pending> = Vec::new();
        let ghost entries = current@;
        let ghost ne = entries.len();
        let ghost nodes_at_start = self.nodes@;
        proof {
            assert(pending_ok(input, self.nodes@, next@, level + 1));
        }
        while current.len() > 0
            invariant
                forall|i: int| 0 <= i < input.len() ==> #[trigger] input[i].target.len() <= top,
                ne == entries.len(),
                current@.len() <= ne,
                current@ == entries.subrange(ne - current@.len(), ne as int),
                level <= top,
                graph_ok(input, self.nodes@, self.edges@, level as int),
                nodes_at_start.len() <= self.nodes@.len(),
                self.nodes@.subrange(0, nodes_at_start.len() as int) == nodes_at_start,
                self.nodes@.len() - nodes_at_start.len() == next@.len(),
                pending_ok(input, nodes_at_start, entries, level as int),
                pending_ok(input, self.nodes@, next@, level + 1),
                forall|e: int, j: int|
                    0 <= e < ne - current@.len() && 0 <= j < entries[e].changes@.len() && level
                        < (#[trigger] entries[e].changes@[j])@.target.len() ==> {
                        &&& pending_holds(next@, entries[e].changes@[j]@)
                        &&& step_covered(self.nodes@, level as int, entries[e].changes@[j]@.target[level as int])
                    },
            decreases current@.len(),
        {
            proof {
                reveal(graph_ok);
                reveal(pending_ok);
            }
            let ghost e_idx = ne - current@.len();
            let entry = current.remove(0);
            assert(entry == entries[e_idx]);
            assert(current@ =~= entries.subrange(e_idx + 1, ne as int));
            let ghost nodes_prev = self.nodes@;
            let ghost next_prev = next@;
            proof {
                if entry.parent is Some {
                    lemma_has_node_kept(nodes_at_start, nodes_prev, entry.parent->0);
                }
            }
            self.split_entry(entry, level, &mut next, Ghost(input));
            proof {
                assert(self.nodes@.subrange(0, nodes_at_start.len() as int) =~= nodes_at_start) by {
                    assert(self.nodes@.subrange(0, nodes_prev.len() as int) == nodes_prev);
                }
                assert forall|e: int, j: int|
                    0 <= e < ne - current@.len() && 0 <= j < entries[e].changes@.len() && level
                        < (#[trigger] entries[e].changes@[j])@.target.len() implies {
                        &&& pending_holds(next@, entries[e].changes@[j]@)
                        &&& step_covered(self.nodes@, level as int, entries[e].changes@[j]@.target[level as int])
                    } by {
                    if e < e_idx {
                        let (e2, j2) = choose|e2: int, j2: int|
                            0 <= e2 < next_prev.len() && 0 <= j2 < next_prev[e2].changes@.len() && (
                            #[trigger] next_prev[e2].changes@[j2])@ == entries[e].changes@[j]@;
                        assert(next@[e2] == next_prev[e2]);
                        lemma_covered_kept(nodes_prev, self.nodes@, level as int, entries[e].changes@[j]@.target[level as int]);
                    }
                }
            }
        }
        next
    }

    /// The graph of a list of changes. Level by level, the changes are grouped by their
    /// step at that depth (a change joins the first group with the same id and an equal
    /// step); each group gives a node, linked from the node of its parent group, and
    /// carrying the group's last change when that change's path ends with an equal
    /// step. Every step of every path is met by a node at its depth, and every edge runs
    /// from a node to a node one depth below it that follows it on some change's path.
    pub fn from_changes(changes: Changes) -> (g: ChangesGraph)
        ensures
            forall|m: int| 0 <= m < g.nodes@.len() ==> node_from(changes@, #[trigger] g.nodes@[m]),
            forall|a: int, b: int|
                0 <= a < b < g.nodes@.len() ==> (#[trigger] g.nodes@[a]).level <= (
                #[trigger] g.nodes@[b]).level,
            edge_targets(g.edges@) == later_ids(g.nodes@),
            forall|k: int| 0 <= k < g.edges@.len() ==> has_node(g.nodes@, (#[trigger] g.edges@[k]).from_id),
            forall|k: int| 0 <= k < g.edges@.len() ==> edge_joins(changes@, g.nodes@, #[trigger] g.edges@[k]),
            forall|i: int, l: int|
                0 <= i < changes@.len() && 0 <= l < changes@[i].target.len() ==> step_covered(
                    g.nodes@,
                    l,
                    #[trigger] changes@[i].target[l],
                ),
            g.total_changes == changed_count(g.nodes@) as u32,
    {
        let ghost input = changes@;
        let all = changes.into_list();
        let ghost all_v = all@;
        let ghost top = longest(input);
        let mut data = ChangesGraph::default();
        let mut current: Vec<Pending> = Vec::new();
        current.push(Pending { changes: all, parent: None });
        let mut level: usize = 0;
        proof {
            lemma_start(input, all_v, current@, top);
            assert(data.nodes@ =~= Seq::<ChangeNode>::empty());
            assert(data.edges@ =~= Seq::<ChangeEdge>::empty());
        }
        while current.len() > 0
            invariant
                forall|i: int| 0 <= i < input.len() ==> #[trigger] input[i].target.len() <= top,
                graph_ok(input, data.nodes@, data.edges@, level as int),
                current@.len() > 0 ==> level <= top,
                pending_ok(input, data.nodes@, current@, level as int),
                forall|i: int|
                    0 <= i < input.len() && level < (#[trigger] input[i]).target.len() ==> pending_holds(current@, input[i]),
                forall|i: int, l: int|
                    0 <= i < input.len() && 0 <= l < level && l < input[i].target.len() ==> step_covered(
                        data.nodes@,
                        l,
                        #[trigger] input[i].target[l],
                    ),
                top <= usize::MAX,
            decreases if current@.len() > 0 { top + 2 - level } else { 0 },
        {
            let ghost entries = current@;
            let ghost nodes_at_start = data.nodes@;
            assert(level <= top);
            let next = data.split_level(current, level, Ghost(input), Ghost(top));
            let ghost next_v = next@;
            proof {
                lemma_level_done(input, entries, next_v, nodes_at_start, data.nodes@, level as int, top);
            }
            current = next;
            if current.len() > 0 {
                proof {
                    lemma_graph_up(input, data.nodes@, data.edges@, level as int);
                }
                level = level + 1;
                proof {
                    assert forall|i: int|
                        0 <= i < input.len() && level < (#[trigger] input[i]).target.len() implies pending_holds(current@, input[i]) by {
                        assert(level - 1 < input[i].target.len());
                    }
                }
            } else {
                proof {
                    reveal(pending_ok);
                    assert forall|i: int|
                        0 <= i < input.len() && level < (#[trigger] input[i]).target.len() implies pending_holds(current@, input[i]) by {
                        assert(pending_holds(next_v, input[i]));
                    }
                }
            }
        }
        proof {
            lemma_finish(input, current@, data.nodes@, level as int);
            reveal(graph_ok);
        }
        let count = count_changed(&data.nodes);
        data.total_changes = count as u32;
        data
    }
}


/// The index of the first edge into `id`.
pub open spec fn first_edge_to(edges: Seq<ChangeEdge>, id: u64) -> Option<int>
    decreases edges.len(),
{
    if edges.len() == 0 {
        None
    } else {
        match first_edge_to(edges.drop_last(), id) {
            Some(i) => Some(i),
            None => if edges.last().to_id == id {
                Some(edges.len() - 1)
            } else {
                None
            },
        }
    }
}

/// The index of the first node with the id `id`.
pub open spec fn first_node_with(nodes: Seq<ChangeNode>, id: u64) -> Option<int>
    decreases nodes.len(),
{
    if nodes.len() == 0 {
        None
    } else {
        match first_node_with(nodes.drop_last(), id) {
            Some(i) => Some(i),
            None => if nodes.last().id == id {
                Some(nodes.len() - 1)
            } else {
                None
            },
        }
    }
}

/// The parent of the node with id `id`: the first node with the source id of the first
/// edge into `id`.
pub open spec fn parent_of(nodes: Seq<ChangeNode>, edges: Seq<ChangeEdge>, id: u64) -> Option<int> {
    match first_edge_to(edges, id) {
        None => None,
        Some(e) => first_node_with(nodes, edges[e].from_id),
    }
}

/// The chain of parents of `id`, nearest first, followed at most `fuel` steps.
pub open spec fn ancestors(nodes: Seq<ChangeNode>, edges: Seq<ChangeEdge>, id: u64, fuel: nat) -> Seq<ChangeNode>
    decreases fuel,
{
    if fuel == 0 {
        seq![]
    } else {
        match parent_of(nodes, edges, id) {
            None => seq![],
            Some(j) => seq![nodes[j]] + ancestors(nodes, edges, nodes[j].id, (fuel - 1) as nat),
        }
    }
}

/// The chain of parents of `id` ends within `fuel` steps.
pub open spec fn chain_ends(nodes: Seq<ChangeNode>, edges: Seq<ChangeEdge>, id: u64, fuel: nat) -> bool
    decreases fuel,
{
    match parent_of(nodes, edges, id) {
        None => true,
        Some(j) => fuel > 0 && chain_ends(nodes, edges, nodes[j].id, (fuel - 1) as nat),
    }
}

/// The nodes of `nodes` whose ids are among `ids`, in order.
pub open spec fn nodes_among(nodes: Seq<ChangeNode>, ids: Seq<u64>) -> Seq<ChangeNode>
    decreases nodes.len(),
{
    if nodes.len() == 0 {
        seq![]
    } else {
        let r = nodes_among(nodes.drop_last(), ids);
        if ids.contains(nodes.last().id) {
            r.push(nodes.last())
        } else {
            r
        }
    }
}

/// The Markdown of the steps of some nodes.
pub open spec fn nodes_markdown(nodes: Seq<ChangeNode>) -> Seq<Seq<char>> {
    nodes.map_values(|n: ChangeNode| path_markdown(n.change_path))
}

/// The nodes behind references.
pub open spec fn derefs(v: Seq<&ChangeNode>) -> Seq<ChangeNode> {
    v.map_values(|n: &ChangeNode| *n)
}

proof fn lemma_first_edge(edges: Seq<ChangeEdge>, id: u64, k: int)
    requires
        0 <= k <= edges.len(),
        forall|i: int| 0 <= i < k ==> (#[trigger] edges[i]).to_id != id,
    ensures
        first_edge_to(edges.subrange(0, k), id) is None,
    decreases k,
{
    if k > 0 {
        assert(edges.subrange(0, k).drop_last() =~= edges.subrange(0, k - 1));
        lemma_first_edge(edges, id, k - 1);
    }
}

proof fn lemma_first_node(nodes: Seq<ChangeNode>, id: u64, k: int)
    requires
        0 <= k <= nodes.len(),
        forall|i: int| 0 <= i < k ==> (#[trigger] nodes[i]).id != id,
    ensures
        first_node_with(nodes.subrange(0, k), id) is None,
    decreases k,
{
    if k > 0 {
        assert(nodes.subrange(0, k).drop_last() =~= nodes.subrange(0, k - 1));
        lemma_first_node(nodes, id, k - 1);
    }
}

proof fn lemma_first_edge_at(edges: Seq<ChangeEdge>, id: u64, i: int)
    requires
        0 <= i < edges.len(),
        forall|k: int| 0 <= k < i ==> (#[trigger] edges[k]).to_id != id,
        edges[i].to_id == id,
    ensures
        first_edge_to(edges, id) == Some(i),
    decreases edges.len(),
{
    if i == edges.len() - 1 {
        lemma_first_edge(edges, id, i);
        assert(edges.drop_last() =~= edges.subrange(0, i));
    } else {
        lemma_first_edge_at(edges.drop_last(), id, i);
    }
}

proof fn lemma_first_node_at(nodes: Seq<ChangeNode>, id: u64, i: int)
    requires
        0 <= i < nodes.len(),
        forall|k: int| 0 <= k < i ==> (#[trigger] nodes[k]).id != id,
        nodes[i].id == id,
    ensures
        first_node_with(nodes, id) == Some(i),
    decreases nodes.len(),
{
    if i == nodes.len() - 1 {
        lemma_first_node(nodes, id, i);
        assert(nodes.drop_last() =~= nodes.subrange(0, i));
    } else {
        lemma_first_node_at(nodes.drop_last(), id, i);
    }
}

proof fn lemma_first_node_found(nodes: Seq<ChangeNode>, id: u64)
    ensures
        first_node_with(nodes, id) matches Some(i) ==> 0 <= i < nodes.len() && nodes[i].id == id,
    decreases nodes.len(),
{
    if nodes.len() > 0 {
        lemma_first_node_found(nodes.drop_last(), id);
    }
}

proof fn lemma_first_edge_found(edges: Seq<ChangeEdge>, id: u64)
    ensures
        first_edge_to(edges, id) matches Some(i) ==> 0 <= i < edges.len() && edges[i].to_id == id,
    decreases edges.len(),
{
    if edges.len() > 0 {
        lemma_first_edge_found(edges.drop_last(), id);
    }
}

impl ChangesGraph {
    /// Index of the first edge into `id`.
    fn find_edge_to(&self, id: u64) -> (r: Option<usize>)
        ensures
            r matches Some(i) ==> first_edge_to(self.edges@, id) == Some(i as int) && i < self.edges@.len(),
            r is None ==> first_edge_to(self.edges@, id) is None,
    {
        let mut i: usize = 0;
        while i < self.edges.len()
            invariant
                i <= self.edges@.len(),
                forall|k: int| 0 <= k < i ==> (#[trigger] self.edges@[k]).to_id != id,
            decreases self.edges@.len() - i,
        {
            if self.edges[i].to_id == id {
                proof {
                    lemma_first_edge_at(self.edges@, id, i as int);
                }
                return Some(i);
            }
            i = i + 1;
        }
        proof {
            lemma_first_edge(self.edges@, id, self.edges@.len() as int);
            assert(self.edges@.subrange(0, self.edges@.len() as int) =~= self.edges@);
        }
        None
    }
}


/// Whether `id` is among `ids`.
fn contains_id(ids: &[u64], id: u64) -> (r: bool)
    ensures
        r == ids@.contains(id),
{
    let mut i: usize = 0;
    while i < ids.len()
        invariant
            i <= ids@.len(),
            forall|k: int| 0 <= k < i ==> ids@[k] != id,
        decreases ids@.len() - i,
    {
        if ids[i] == id {
            assert(ids@[i as int] == id);
            return true;
        }
        i = i + 1;
    }
    false
}

impl ChangesGraph {
    /// Index of the first node with id `id`.
    fn find_node_with(&self, id: u64) -> (r: Option<usize>)
        ensures
            r matches Some(i) ==> first_node_with(self.nodes@, id) == Some(i as int) && i < self.nodes@.len(),
            r is None ==> first_node_with(self.nodes@, id) is None,
    {
        let mut i: usize = 0;
        while i < self.nodes.len()
            invariant
                i <= self.nodes@.len(),
                forall|k: int| 0 <= k < i ==> (#[trigger] self.nodes@[k]).id != id,
            decreases self.nodes@.len() - i,
        {
            if self.nodes[i].id == id {
                proof {
                    lemma_first_node_at(self.nodes@, id, i as int);
                }
                return Some(i);
            }
            i = i + 1;
        }
        proof {
            lemma_first_node(self.nodes@, id, self.nodes@.len() as int);
            assert(self.nodes@.subrange(0, self.nodes@.len() as int) =~= self.nodes@);
        }
        None
    }

    /// The first node with the id `node_id`, which must exist.
    pub fn get_node(&self, node_id: &u64) -> (r: &ChangeNode)
        requires
            first_node_with(self.nodes@, *node_id) is Some,
        ensures
            *r == self.nodes@[first_node_with(self.nodes@, *node_id)->0],
    {
        let i = self.find_node_with(*node_id);
        proof {
            lemma_first_node_found(self.nodes@, *node_id);
        }
        &self.nodes[i.unwrap()]
    }

    /// The nodes whose ids are among `node_ids`, in order.
    pub fn get_nodes(&self, node_ids: &[u64]) -> (r: Vec<&ChangeNode>)
        ensures
            derefs(r@) == nodes_among(self.nodes@, node_ids@),
    {
        let mut r: Vec<&ChangeNode> = Vec::new();
        let mut i: usize = 0;
        while i < self.nodes.len()
            invariant
                i <= self.nodes@.len(),
                derefs(r@) == nodes_among(self.nodes@.subrange(0, i as int), node_ids@),
            decreases self.nodes@.len() - i,
        {
            let ghost before = r@;
            if contains_id(node_ids, self.nodes[i].id) {
                r.push(&self.nodes[i]);
                assert(derefs(r@) =~= derefs(before).push(self.nodes@[i as int]));
            }
            i = i + 1;
            assert(self.nodes@.subrange(0, i as int).drop_last() =~= self.nodes@.subrange(0, i - 1));
        }
        assert(self.nodes@.subrange(0, self.nodes@.len() as int) =~= self.nodes@);
        r
    }

    /// The Markdown of the steps of the nodes whose ids are among `node_ids`, in order.
    pub fn get_nodes_as_markdown(&self, node_ids: &[u64]) -> (r: Vec<String>)
        ensures
            r@.map_values(|s: String| s@) == nodes_markdown(nodes_among(self.nodes@, node_ids@)),
    {
        let nodes = self.get_nodes(node_ids);
        let mut r: Vec<String> = Vec::new();
        let mut i: usize = 0;
        while i < nodes.len()
            invariant
                i <= nodes@.len(),
                r@.map_values(|s: String| s@) == nodes_markdown(derefs(nodes@).subrange(0, i as int)),
            decreases nodes@.len() - i,
        {
            let md = nodes[i].change_path.as_markdown();
            let ghost before = r@;
            r.push(md);
            assert(r@.map_values(|s: String| s@) =~= before.map_values(|s: String| s@).push(md@));
            assert(derefs(nodes@).subrange(0, i + 1) =~= derefs(nodes@).subrange(0, i as int).push(*nodes@[i as int]));
            i = i + 1;
            assert(r@.map_values(|s: String| s@) =~= nodes_markdown(derefs(nodes@).subrange(0, i as int)));
        }
        assert(derefs(nodes@).subrange(0, nodes@.len() as int) =~= derefs(nodes@));
        r
    }

    /// The steps above a node that carries a change, from the top of its path down to
    /// its parent: from the node, the first edge into it leads to the first node with
    /// that edge's source id, and so on. A node without a change has none listed.
    pub fn get_parent_nodes<'a>(&'a self, node: &'a ChangeNode) -> (r: Vec<&'a ChangeNode>)
        requires
            node.change is Some ==> chain_ends(self.nodes@, self.edges@, node.id, self.edges@.len()),
        ensures
            node.change is None ==> r@.len() == 0,
            node.change is Some ==> derefs(r@) == ancestors(
                self.nodes@,
                self.edges@,
                node.id,
                self.edges@.len(),
            ).reverse(),
    {
        let mut nodes: Vec<&ChangeNode> = Vec::new();
        if node.change.is_some() {
            let ghost full = ancestors(self.nodes@, self.edges@, node.id, self.edges@.len());
            let mut id = node.id;
            let mut fuel: usize = self.edges.len();
            assert(derefs(nodes@).reverse() =~= Seq::<ChangeNode>::empty());
            loop
                invariant
                    chain_ends(self.nodes@, self.edges@, id, fuel as nat),
                    full == derefs(nodes@).reverse() + ancestors(self.nodes@, self.edges@, id, fuel as nat),
                ensures
                    full == derefs(nodes@).reverse(),
                decreases fuel,
            {
                let e = self.find_edge_to(id);
                if e.is_none() {
                    assert(ancestors(self.nodes@, self.edges@, id, fuel as nat) =~= Seq::<ChangeNode>::empty());
                    assert(full =~= derefs(nodes@).reverse());
                    break;
                }
                let from = self.edges[e.unwrap()].from_id;
                let j = self.find_node_with(from);
                if j.is_none() {
                    assert(ancestors(self.nodes@, self.edges@, id, fuel as nat) =~= Seq::<ChangeNode>::empty());
                    assert(full =~= derefs(nodes@).reverse());
                    break;
                }
                let j = j.unwrap();
                let ghost before = nodes@;
                nodes.insert(0, &self.nodes[j]);
                assert(derefs(nodes@).reverse() =~= derefs(before).reverse().push(self.nodes@[j as int]));
                assert(ancestors(self.nodes@, self.edges@, id, fuel as nat) == seq![self.nodes@[j as int]] + ancestors(self.nodes@, self.edges@, self.nodes@[j as int].id, (fuel - 1) as nat));
                assert(full =~= derefs(nodes@).reverse() + ancestors(self.nodes@, self.edges@, self.nodes@[j as int].id, (fuel - 1) as nat));
                id = self.nodes[j].id;
                fuel = fuel - 1;
            }
            assert(derefs(nodes@) =~= full.reverse());
        }
        nodes
    }
}


/// There is an edge from `from` to `to`, and `to` has a node.
pub open spec fn linked(nodes: Seq<ChangeNode>, edges: Seq<ChangeEdge>, from: u64, to: u64) -> bool {
    exists|e: int|
        0 <= e < edges.len() && (#[trigger] edges[e]).from_id == from && edges[e].to_id == to
            && first_node_with(nodes, to) is Some
}

/// The ids reached from `root` in at most `k` steps along edges into existing nodes.
pub open spec fn reach(nodes: Seq<ChangeNode>, edges: Seq<ChangeEdge>, root: u64, k: nat) -> Set<u64>
    decreases k,
{
    if k == 0 {
        set![root]
    } else {
        let r = reach(nodes, edges, root, (k - 1) as nat);
        r.union(Set::new(|t: u64| exists|f: u64| r.contains(f) && linked(nodes, edges, f, t)))
    }
}

/// `t` is reached from `root` along edges into existing nodes.
pub open spec fn reachable(nodes: Seq<ChangeNode>, edges: Seq<ChangeEdge>, root: u64, t: u64) -> bool {
    exists|k: nat| #[trigger] reach(nodes, edges, root, k).contains(t)
}

/// The descendants of `root` that a breadth-first walk lists: the first node of each id
/// reached from `root` (other than `root`), at a depth other than `level`, each once.
pub open spec fn descendants_ok(
    nodes: Seq<ChangeNode>,
    edges: Seq<ChangeEdge>,
    root: u64,
    level: usize,
    list: Seq<ChangeNode>,
) -> bool {
    &&& forall|i: int|
        0 <= i < list.len() ==> {
            &&& first_node_with(nodes, (#[trigger] list[i]).id) matches Some(m) && nodes[m] == list[i]
            &&& list[i].level != level
            &&& list[i].id != root
            &&& reachable(nodes, edges, root, list[i].id)
        }
    &&& forall|i: int, j: int| 0 <= i < j < list.len() ==> (#[trigger] list[i]).id != (#[trigger] list[j]).id
    &&& forall|t: u64|
        #[trigger] reachable(nodes, edges, root, t) && t != root && (first_node_with(nodes, t) matches Some(m)
            && nodes[m].level != level) ==> exists|i: int| 0 <= i < list.len() && (#[trigger] list[i]).id == t
}

/// `a` is no farther from `root` than `b`: every number of steps that reaches `b` from
/// `root` reaches `a`.
pub open spec fn no_farther(nodes: Seq<ChangeNode>, edges: Seq<ChangeEdge>, root: u64, a: u64, b: u64) -> bool {
    forall|k: nat| #[trigger] reach(nodes, edges, root, k).contains(b) ==> reach(nodes, edges, root, k).contains(a)
}

/// A list is in breadth-first order from `root`: no node is farther from the root than
/// a node after it.
pub open spec fn breadth_first(nodes: Seq<ChangeNode>, edges: Seq<ChangeEdge>, root: u64, list: Seq<ChangeNode>) -> bool {
    forall|i: int, j: int| 0 <= i < j < list.len() ==> no_farther(nodes, edges, root, (#[trigger] list[i]).id, (#[trigger] list[j]).id)
}

/// The state of a breadth-first walk: the ids in the order they were found (the root
/// first), of which the first `done` have had all their successors found; the found ids
/// are the visited ones, each no farther than those found after it, and the last found
/// is at most one step farther than the next to process; the listed nodes follow the
/// breadth-first order.
spec fn walk_ok(
    nodes: Seq<ChangeNode>,
    edges: Seq<ChangeEdge>,
    root: u64,
    order: Seq<u64>,
    done: int,
    vis: Set<u64>,
    list: Seq<ChangeNode>,
) -> bool {
    &&& 0 <= done <= order.len()
    &&& order.len() > 0 && order[0] == root
    &&& forall|x: u64| vis.contains(x) <==> order.contains(x)
    &&& forall|a: int, b: int| 0 <= a < b < order.len() ==> no_farther(nodes, edges, root, #[trigger] order[a], #[trigger] order[b])
    &&& forall|a: int, t: u64| 0 <= a < done && #[trigger] linked(nodes, edges, order[a], t) ==> vis.contains(t)
    &&& done < order.len() ==> forall|k: nat|
        #[trigger] reach(nodes, edges, root, k).contains(order[done]) ==> reach(nodes, edges, root, k + 1).contains(order.last())
    &&& forall|i: int| 0 <= i < list.len() ==> vis.contains((#[trigger] list[i]).id)
    &&& breadth_first(nodes, edges, root, list)
}

/// Where the id being processed is not reached in `m` steps, every id reached in `m`
/// steps has been processed.
proof fn lemma_reached_processed(
    nodes: Seq<ChangeNode>,
    edges: Seq<ChangeEdge>,
    root: u64,
    order: Seq<u64>,
    done: int,
    vis: Set<u64>,
    list: Seq<ChangeNode>,
    m: nat,
)
    requires
        walk_ok(nodes, edges, root, order, done, vis, list),
        done < order.len(),
        !reach(nodes, edges, root, m).contains(order[done]),
    ensures
        forall|x: u64| #[trigger] reach(nodes, edges, root, m).contains(x) ==> exists|a: int| 0 <= a < done && order[a] == x,
    decreases m,
{
    if m == 0 {
        assert(reach(nodes, edges, root, 0) == set![root]);
        if done == 0 {
            assert(reach(nodes, edges, root, 0).contains(order[0]));
        }
        assert forall|x: u64| #[trigger] reach(nodes, edges, root, m).contains(x) implies exists|a: int| 0 <= a < done && order[a] == x by {
            assert(order[0] == x);
        }
    } else {
        let prev = reach(nodes, edges, root, (m - 1) as nat);
        assert(!prev.contains(order[done]));
        lemma_reached_processed(nodes, edges, root, order, done, vis, list, (m - 1) as nat);
        assert forall|x: u64| #[trigger] reach(nodes, edges, root, m).contains(x) implies exists|a: int| 0 <= a < done && order[a] == x by {
            if !prev.contains(x) {
                let f = choose|f: u64| prev.contains(f) && linked(nodes, edges, f, x);
                let a = choose|a: int| 0 <= a < done && order[a] == f;
                assert(linked(nodes, edges, order[a], x));
                assert(vis.contains(x));
                assert(order.contains(x));
                let b = choose|b: int| 0 <= b < order.len() && order[b] == x;
                if b >= done {
                    if b > done {
                        assert(no_farther(nodes, edges, root, order[done], order[b]));
                    }
                    assert(reach(nodes, edges, root, m).contains(order[done]));
                    assert(false);
                }
            }
        }
    }
}

/// A newly found id is no farther than any found before it, and at most one step
/// farther than the id being processed.
proof fn lemma_walk_find(
    nodes: Seq<ChangeNode>,
    edges: Seq<ChangeEdge>,
    root: u64,
    order: Seq<u64>,
    done: int,
    vis: Set<u64>,
    list: Seq<ChangeNode>,
    t: ChangeNode,
)
    requires
        walk_ok(nodes, edges, root, order, done, vis, list),
        done < order.len(),
        linked(nodes, edges, order[done], t.id),
        !vis.contains(t.id),
    ensures
        walk_ok(nodes, edges, root, order.push(t.id), done, vis.insert(t.id), list),
        walk_ok(nodes, edges, root, order.push(t.id), done, vis.insert(t.id), list.push(t)),
{
    let cur = order[done];
    let last = order.last();
    assert forall|a: int| 0 <= a < order.len() implies no_farther(nodes, edges, root, #[trigger] order[a], t.id) by {
        assert forall|k: nat| #[trigger] reach(nodes, edges, root, k).contains(t.id) implies reach(nodes, edges, root, k).contains(order[a]) by {
            if k == 0 {
                assert(reach(nodes, edges, root, 0) == set![root]);
                assert(order.contains(root));
                assert(false);
            } else {
                let km = (k - 1) as nat;
                if !reach(nodes, edges, root, km).contains(cur) {
                    lemma_reached_processed(nodes, edges, root, order, done, vis, list, km);
                    let prev = reach(nodes, edges, root, km);
                    if prev.contains(t.id) {
                        let a2 = choose|a2: int| 0 <= a2 < done && order[a2] == t.id;
                        assert(order.contains(t.id));
                        assert(false);
                    } else {
                        let f = choose|f: u64| prev.contains(f) && linked(nodes, edges, f, t.id);
                        let a2 = choose|a2: int| 0 <= a2 < done && order[a2] == f;
                        assert(linked(nodes, edges, order[a2], t.id));
                        assert(false);
                    }
                }
                assert(reach(nodes, edges, root, km + 1).contains(last));
                assert(km + 1 == k);
                if a < order.len() - 1 {
                    assert(no_farther(nodes, edges, root, order[a], order[order.len() - 1]));
                }
            }
        }
    }
    let o2 = order.push(t.id);
    assert forall|a: int, b: int| 0 <= a < b < o2.len() implies no_farther(nodes, edges, root, #[trigger] o2[a], #[trigger] o2[b]) by {
        if b == o2.len() - 1 {
            assert(o2[a] == order[a]);
        } else {
            assert(o2[a] == order[a] && o2[b] == order[b]);
        }
    }
    assert forall|x: u64| vis.insert(t.id).contains(x) <==> o2.contains(x) by {
        if o2.contains(x) && x != t.id {
            let b = choose|b: int| 0 <= b < o2.len() && o2[b] == x;
            assert(order[b] == x);
        }
        if order.contains(x) {
            let b = choose|b: int| 0 <= b < order.len() && order[b] == x;
            assert(o2[b] == x);
        }
        if x == t.id {
            assert(o2[o2.len() - 1] == x);
        }
    }
    assert forall|a: int, u: u64| 0 <= a < done && #[trigger] linked(nodes, edges, o2[a], u) implies vis.insert(t.id).contains(u) by {
        assert(o2[a] == order[a]);
    }
    assert forall|k: nat| #[trigger] reach(nodes, edges, root, k).contains(o2[done]) implies reach(nodes, edges, root, k + 1).contains(o2.last()) by {
        assert(o2[done] == cur);
        assert(linked(nodes, edges, cur, t.id));
    }
    let l2 = list.push(t);
    assert forall|i: int, j: int| 0 <= i < j < l2.len() implies no_farther(nodes, edges, root, (#[trigger] l2[i]).id, (#[trigger] l2[j]).id) by {
        if j == l2.len() - 1 {
            assert(l2[i] == list[i]);
            assert(vis.contains(list[i].id));
            let a = choose|a: int| 0 <= a < order.len() && order[a] == list[i].id;
        } else {
            assert(l2[i] == list[i] && l2[j] == list[j]);
        }
    }
    assert forall|i: int| 0 <= i < l2.len() implies vis.insert(t.id).contains((#[trigger] l2[i]).id) by {
        if i < list.len() {
            assert(l2[i] == list[i]);
        }
    }
    assert forall|i: int| 0 <= i < list.len() implies vis.insert(t.id).contains((#[trigger] list[i]).id) by {}
}

/// Once all successors of the id being processed are found, it is done.
proof fn lemma_walk_next(
    nodes: Seq<ChangeNode>,
    edges: Seq<ChangeEdge>,
    root: u64,
    order: Seq<u64>,
    done: int,
    vis: Set<u64>,
    list: Seq<ChangeNode>,
)
    requires
        walk_ok(nodes, edges, root, order, done, vis, list),
        done < order.len(),
        forall|t: u64| #[trigger] linked(nodes, edges, order[done], t) ==> vis.contains(t),
    ensures
        walk_ok(nodes, edges, root, order, done + 1, vis, list),
{
    assert forall|a: int, t: u64| 0 <= a < done + 1 && #[trigger] linked(nodes, edges, order[a], t) implies vis.contains(t) by {}
    if done + 1 < order.len() {
        assert forall|k: nat| #[trigger] reach(nodes, edges, root, k).contains(order[done + 1]) implies reach(nodes, edges, root, k + 1).contains(order.last()) by {
            assert(no_farther(nodes, edges, root, order[done], order[done + 1]));
            assert(reach(nodes, edges, root, k).contains(order[done]));
        }
    }
}

proof fn lemma_reach_step(nodes: Seq<ChangeNode>, edges: Seq<ChangeEdge>, root: u64, f: u64, t: u64)
    requires
        reachable(nodes, edges, root, f),
        linked(nodes, edges, f, t),
    ensures
        reachable(nodes, edges, root, t),
{
    let k = choose|k: nat| #[trigger] reach(nodes, edges, root, k).contains(f);
    assert(reach(nodes, edges, root, k + 1).contains(t));
}

/// A set that holds `root` and is closed along edges into existing nodes holds all that
/// is reached from `root`.
proof fn lemma_closed_holds_reach(nodes: Seq<ChangeNode>, edges: Seq<ChangeEdge>, root: u64, vis: Set<u64>, k: nat)
    requires
        vis.contains(root),
        forall|f: u64, t: u64| vis.contains(f) && #[trigger] linked(nodes, edges, f, t) ==> vis.contains(t),
    ensures
        reach(nodes, edges, root, k).subset_of(vis),
    decreases k,
{
    if k > 0 {
        lemma_closed_holds_reach(nodes, edges, root, vis, (k - 1) as nat);
        let r = reach(nodes, edges, root, (k - 1) as nat);
        assert forall|t: u64| reach(nodes, edges, root, k).contains(t) implies vis.contains(t) by {
            if !r.contains(t) {
                let f = choose|f: u64| r.contains(f) && linked(nodes, edges, f, t);
                assert(vis.contains(f));
            }
        }
    }
}

/// The ids of the nodes, and `root`.
spec fn id_universe(nodes: Seq<ChangeNode>, root: u64) -> Set<u64> {
    nodes.map_values(|n: ChangeNode| n.id).to_set().insert(root)
}

proof fn lemma_universe(nodes: Seq<ChangeNode>, root: u64)
    ensures
        id_universe(nodes, root).finite(),
        id_universe(nodes, root).len() <= nodes.len() + 1,
{
    let ids = nodes.map_values(|n: ChangeNode| n.id);
    ids.lemma_cardinality_of_set();
    vstd::seq_lib::seq_to_set_is_finite(ids);
}

impl ChangesGraph {
    /// The descendants of the node `root_id` at depths other than `level`, breadth
    /// first: the edges are followed in their order, and each id is visited once.
    fn descendants_bfs(&self, root_id: u64, level: usize) -> (r: Vec<&ChangeNode>)
        ensures
            descendants_ok(self.nodes@, self.edges@, root_id, level, derefs(r@)),
            breadth_first(self.nodes@, self.edges@, root_id, derefs(r@)),
    {
        broadcast use vstd::std_specs::hash::group_hash_axioms;
        let ghost nodes = self.nodes@;
        let ghost edges = self.edges@;
        let mut descendants: Vec<&ChangeNode> = Vec::new();
        let mut queue: Vec<u64> = Vec::new();
        queue.push(root_id);
        let mut visited: HashSet<u64> = HashSet::new();
        visited.insert(root_id);
        let ghost bound = (nodes.len() + 1) as int;
        let ghost mut order: Seq<u64> = seq![root_id];
        let ghost mut done: int = 0;
        proof {
            assert forall|x: u64| visited@.contains(x) <==> order.contains(x) by {
                if order.contains(x) {
                    let b = choose|b: int| 0 <= b < order.len() && order[b] == x;
                }
                if x == root_id {
                    assert(order[0] == x);
                }
            }
            assert(derefs(descendants@) =~= Seq::<ChangeNode>::empty());
            assert(walk_ok(nodes, edges, root_id, order, done, visited@, derefs(descendants@)));
            lemma_universe(nodes, root_id);
            assert(reach(nodes, edges, root_id, 0).contains(root_id));
            assert(queue@[0] == root_id);
            assert(id_universe(nodes, root_id).contains(root_id));
        }
        while queue.len() > 0
            invariant
                nodes == self.nodes@,
                edges == self.edges@,
                id_universe(nodes, root_id).finite(),
                id_universe(nodes, root_id).len() <= bound,
                visited@.contains(root_id),
                visited@.subset_of(id_universe(nodes, root_id)),
                forall|x: u64| visited@.contains(x) ==> #[trigger] reachable(nodes, edges, root_id, x),
                forall|i: int| 0 <= i < queue@.len() ==> visited@.contains(#[trigger] queue@[i]),
                forall|f: u64, t: u64|
                    visited@.contains(f) && !queue@.contains(f) && #[trigger] linked(nodes, edges, f, t)
                        ==> visited@.contains(t),
                bfs_list_ok(nodes, root_id, level, visited@, derefs(descendants@)),
                walk_ok(nodes, edges, root_id, order, done, visited@, derefs(descendants@)),
                queue@ == order.subrange(done, order.len() as int),
            decreases bound - visited@.len(), queue@.len(),
        {
            let ghost q0 = queue@;
            let current_id = queue.remove(0);
            assert(order[done] == q0[0]);
            let ghost rest = queue@;
            assert(rest =~= q0.drop_first());
            let ghost vis_start = visited@;
            proof {
                lemma_len_grows(vis_start, vis_start, id_universe(nodes, root_id));
            }
            let mut j: usize = 0;
            while j < self.edges.len()
                invariant
                    nodes == self.nodes@,
                    edges == self.edges@,
                    j <= edges.len(),
                    vis_start.subset_of(visited@),
                    vis_start.contains(current_id),
                    id_universe(nodes, root_id).finite(),
                    visited@.finite(),
                    visited@.contains(root_id),
                    visited@.subset_of(id_universe(nodes, root_id)),
                    forall|x: u64| visited@.contains(x) ==> #[trigger] reachable(nodes, edges, root_id, x),
                    forall|i: int| 0 <= i < queue@.len() ==> visited@.contains(#[trigger] queue@[i]),
                    queue@.len() >= rest.len(),
                    queue@.subrange(0, rest.len() as int) == rest,
                    queue@.len() - rest.len() == visited@.len() - vis_start.len(),
                    forall|x: u64| visited@.contains(x) && !vis_start.contains(x) ==> queue@.contains(x),
                    forall|e: int|
                        0 <= e < j && (#[trigger] edges[e]).from_id == current_id && first_node_with(nodes, edges[e].to_id) is Some
                            ==> visited@.contains(edges[e].to_id),
                    bfs_list_ok(nodes, root_id, level, visited@, derefs(descendants@)),
                    walk_ok(nodes, edges, root_id, order, done, visited@, derefs(descendants@)),
                    done < order.len(),
                    order[done] == current_id,
                    queue@ == order.subrange(done + 1, order.len() as int),
                decreases edges.len() - j,
            {
                let edge = &self.edges[j];
                if edge.from_id == current_id && !visited.contains(&edge.to_id) {
                    match self.find_node_with(edge.to_id) {
                        Some(m) => {
                            proof {
                                lemma_first_node_found(nodes, edge.to_id);
                            }
                            let node = &self.nodes[m];
                            let ghost before = derefs(descendants@);
                            let ghost vis_before = visited@;
                            let ghost queue_before = queue@;
                            proof {
                                assert(linked(nodes, edges, current_id, node.id));
                                assert(reachable(nodes, edges, root_id, current_id));
                                lemma_reach_step(nodes, edges, root_id, current_id, node.id);
                                assert(nodes.map_values(|n: ChangeNode| n.id)[m as int] == node.id);
                                assert(id_universe(nodes, root_id).contains(node.id));
                                lemma_walk_find(nodes, edges, root_id, order, done, visited@, before, *node);
                            }
                            if node.level != level {
                                descendants.push(node);
                                assert(derefs(descendants@) =~= before.push(*node));
                            }
                            queue.push(node.id);
                            visited.insert(node.id);
                            proof {
                                assert(queue@ =~= order.push(node.id).subrange(done + 1, order.len() + 1 as int));
                                order = order.push(node.id);
                                assert(queue@.subrange(0, rest.len() as int) =~= queue_before.subrange(0, rest.len() as int));
                                assert(queue@[queue@.len() - 1] == node.id);
                                assert forall|x: u64| visited@.contains(x) && !vis_start.contains(x) implies queue@.contains(x) by {
                                    if x != node.id {
                                        assert(queue_before.contains(x));
                                        let k = choose|k: int| 0 <= k < queue_before.len() && queue_before[k] == x;
                                        assert(queue@[k] == x);
                                    }
                                }
                                lemma_list_grows(nodes, root_id, level, vis_before, before, node.id, m as int, derefs(descendants@));
                            }
                        },
                        None => {},
                    }
                }
                j = j + 1;
            }
            proof {
                assert forall|f: u64, t: u64|
                    visited@.contains(f) && !queue@.contains(f) && #[trigger] linked(nodes, edges, f, t)
                        implies visited@.contains(t) by {
                    if f == current_id {
                        let e = choose|e: int| 0 <= e < edges.len() && (#[trigger] edges[e]).from_id == f && edges[e].to_id == t && first_node_with(nodes, t) is Some;
                    } else {
                        if !vis_start.contains(f) {
                            assert(false);
                        }
                        assert forall|i: int| 0 <= i < q0.len() implies q0[i] != f by {
                            if i > 0 {
                                assert(queue@[i - 1] == rest[i - 1]);
                            }
                        }
                        assert(!q0.contains(f));
                        assert(vis_start.contains(t));
                    }
                }
                lemma_len_grows(vis_start, visited@, id_universe(nodes, root_id));
                assert forall|t: u64| #[trigger] linked(nodes, edges, order[done], t) implies visited@.contains(t) by {
                    let e = choose|e: int| 0 <= e < edges.len() && (#[trigger] edges[e]).from_id == current_id && edges[e].to_id == t && first_node_with(nodes, t) is Some;
                }
                lemma_walk_next(nodes, edges, root_id, order, done, visited@, derefs(descendants@));
                done = done + 1;
            }
        }
        proof {
            assert forall|t: u64|
                #[trigger] reachable(nodes, edges, root_id, t) && t != root_id && (first_node_with(nodes, t) matches Some(m)
                    && nodes[m].level != level) implies exists|i: int|
                    0 <= i < descendants@.len() && (#[trigger] derefs(descendants@)[i]).id == t by {
                let k = choose|k: nat| #[trigger] reach(nodes, edges, root_id, k).contains(t);
                lemma_closed_holds_reach(nodes, edges, root_id, visited@, k);
                assert(visited@.contains(t));
                lemma_first_node_found(nodes, t);
            }
            assert forall|i: int| 0 <= i < descendants@.len() implies reachable(nodes, edges, root_id, (#[trigger] derefs(descendants@)[i]).id) by {
                assert(visited@.contains(derefs(descendants@)[i].id));
            }
        }
        descendants
    }
}

/// The list built so far by the walk: the first nodes of the visited ids other than the
/// root, at depths other than `level`, each once.
spec fn bfs_list_ok(nodes: Seq<ChangeNode>, root: u64, level: usize, vis: Set<u64>, list: Seq<ChangeNode>) -> bool {
    &&& forall|i: int|
        0 <= i < list.len() ==> {
            &&& first_node_with(nodes, (#[trigger] list[i]).id) matches Some(m) && 0 <= m < nodes.len() && nodes[m] == list[i]
            &&& list[i].level != level
            &&& list[i].id != root
            &&& vis.contains(list[i].id)
        }
    &&& forall|i: int, j: int| 0 <= i < j < list.len() ==> (#[trigger] list[i]).id != (#[trigger] list[j]).id
    &&& forall|t: u64|
        #[trigger] vis.contains(t) && t != root && (first_node_with(nodes, t) matches Some(m)
            && 0 <= m < nodes.len() && nodes[m].level != level) ==> exists|i: int| 0 <= i < list.len() && (#[trigger] list[i]).id == t
}

proof fn lemma_list_grows(
    nodes: Seq<ChangeNode>,
    root: u64,
    level: usize,
    vis: Set<u64>,
    list: Seq<ChangeNode>,
    id: u64,
    m: int,
    new_list: Seq<ChangeNode>,
)
    requires
        bfs_list_ok(nodes, root, level, vis, list),
        !vis.contains(id),
        vis.contains(root),
        first_node_with(nodes, id) == Some(m),
        0 <= m < nodes.len(),
        nodes[m].id == id,
        new_list == if nodes[m].level != level { list.push(nodes[m]) } else { list },
    ensures
        bfs_list_ok(nodes, root, level, vis.insert(id), new_list),
{
    let v2 = vis.insert(id);
    assert forall|i: int| 0 <= i < new_list.len() implies {
        &&& first_node_with(nodes, (#[trigger] new_list[i]).id) matches Some(mm) && 0 <= mm < nodes.len() && nodes[mm] == new_list[i]
        &&& new_list[i].level != level
        &&& new_list[i].id != root
        &&& v2.contains(new_list[i].id)
    } by {
        if i < list.len() {
            assert(new_list[i] == list[i]);
        }
    }
    assert forall|i: int, j: int| 0 <= i < j < new_list.len() implies (#[trigger] new_list[i]).id != (#[trigger] new_list[j]).id by {
        if j < list.len() {
            assert(new_list[i] == list[i] && new_list[j] == list[j]);
        } else {
            assert(new_list[i] == list[i]);
            assert(vis.contains(list[i].id));
        }
    }
    assert forall|t: u64|
        #[trigger] v2.contains(t) && t != root && (first_node_with(nodes, t) matches Some(mm)
            && 0 <= mm < nodes.len() && nodes[mm].level != level) implies exists|i: int| 0 <= i < new_list.len() && (#[trigger] new_list[i]).id == t by {
        if t == id {
            assert(new_list[new_list.len() - 1].id == t);
        } else {
            let i = choose|i: int| 0 <= i < list.len() && (#[trigger] list[i]).id == t;
            assert(new_list[i] == list[i]);
        }
    }
}

/// A set that grows inside a finite set keeps within its size.
proof fn lemma_len_grows(a: Set<u64>, b: Set<u64>, u: Set<u64>)
    requires
        u.finite(),
        a.subset_of(b),
        b.subset_of(u),
    ensures
        a.len() <= b.len() <= u.len(),
        a.finite(),
        b.finite(),
{
    vstd::set_lib::lemma_len_subset(b, u);
    vstd::set_lib::lemma_len_subset(a, b);
}


/// Some node at depth `level` has the id `id`.
pub open spec fn root_at(nodes: Seq<ChangeNode>, level: usize, id: u64) -> bool {
    exists|m: int| 0 <= m < nodes.len() && (#[trigger] nodes[m]).level == level && nodes[m].id == id
}

impl ChangesGraph {
    /// For each node at depth `level`, the nodes below it at other depths: `пункт 2 ->
    /// пункт 3 -> абзац 2 -> абзац 3 -> статья 20`. Each list holds the first node of
    /// every id reached from the root along edges, once, in breadth-first order: no node
    /// is farther from the root than a node listed after it.
    pub fn get_descendants_for_level_bfs(&self, level: usize) -> (r: HashMap<u64, Vec<&ChangeNode>>)
        ensures
            forall|k: u64| #[trigger] r@.contains_key(k) <==> root_at(self.nodes@, level, k),
            forall|k: u64|
                #[trigger] r@.contains_key(k) ==> descendants_ok(self.nodes@, self.edges@, k, level, derefs(r@[k]@)),
            forall|k: u64| #[trigger] r@.contains_key(k) ==> breadth_first(self.nodes@, self.edges@, k, derefs(r@[k]@)),
    {
        broadcast use vstd::std_specs::hash::group_hash_axioms;
        let mut result: HashMap<u64, Vec<&ChangeNode>> = HashMap::new();
        let mut i: usize = 0;
        while i < self.nodes.len()
            invariant
                i <= self.nodes@.len(),
                forall|k: u64|
                    #[trigger] result@.contains_key(k) <==> exists|m: int|
                        0 <= m < i && (#[trigger] self.nodes@[m]).level == level && self.nodes@[m].id == k,
                forall|k: u64|
                    #[trigger] result@.contains_key(k) ==> descendants_ok(self.nodes@, self.edges@, k, level, derefs(result@[k]@)),
                forall|k: u64| #[trigger] result@.contains_key(k) ==> breadth_first(self.nodes@, self.edges@, k, derefs(result@[k]@)),
            decreases self.nodes@.len() - i,
        {
            if self.nodes[i].level == level {
                let id = self.nodes[i].id;
                let d = self.descendants_bfs(id, level);
                result.insert(id, d);
            }
            i = i + 1;
        }
        result
    }
}


/// The chain of parents of every node that carries a change ends.
pub open spec fn change_chains_end(g: ChangesGraph) -> bool {
    forall|m: int|
        0 <= m < g.nodes@.len() && (#[trigger] g.nodes@[m]).change is Some ==> chain_ends(
            g.nodes@,
            g.edges@,
            g.nodes@[m].id,
            g.edges@.len(),
        )
}

impl ChangesGraph {
    /// Whether the chain of parents of `id` ends within `fuel` steps.
    fn chain_ends_within(&self, id: u64, fuel: usize) -> (r: bool)
        ensures
            r == chain_ends(self.nodes@, self.edges@, id, fuel as nat),
    {
        let mut cur = id;
        let mut left = fuel;
        loop
            invariant
                chain_ends(self.nodes@, self.edges@, id, fuel as nat) == chain_ends(self.nodes@, self.edges@, cur, left as nat),
            decreases left,
        {
            let e = match self.find_edge_to(cur) {
                Some(e) => e,
                None => return true,
            };
            let j = match self.find_node_with(self.edges[e].from_id) {
                Some(j) => j,
                None => return true,
            };
            if left == 0 {
                return false;
            }
            cur = self.nodes[j].id;
            left = left - 1;
        }
    }

    /// Whether the chain of parents of every node that carries a change ends, as
    /// writing the graph as text needs.
    pub fn chains_end(&self) -> (r: bool)
        ensures
            r == change_chains_end(*self),
    {
        let mut m: usize = 0;
        while m < self.nodes.len()
            invariant
                m <= self.nodes@.len(),
                forall|k: int|
                    0 <= k < m && (#[trigger] self.nodes@[k]).change is Some ==> chain_ends(
                        self.nodes@,
                        self.edges@,
                        self.nodes@[k].id,
                        self.edges@.len(),
                    ),
            decreases self.nodes@.len() - m,
        {
            if self.nodes[m].change.is_some() && !self.chain_ends_within(self.nodes[m].id, self.edges.len()) {
                return false;
            }
            m = m + 1;
        }
        true
    }
}


/// The index of the last node with the id `id`.
pub open spec fn last_node_with(nodes: Seq<ChangeNode>, id: u64) -> Option<int>
    decreases nodes.len(),
{
    if nodes.len() == 0 {
        None
    } else if nodes.last().id == id {
        Some(nodes.len() - 1)
    } else {
        last_node_with(nodes.drop_last(), id)
    }
}

/// The targets of the edges from `id`, in the order of the edges.
pub open spec fn children_of(edges: Seq<ChangeEdge>, id: u64) -> Seq<u64>
    decreases edges.len(),
{
    if edges.len() == 0 {
        seq![]
    } else {
        let r = children_of(edges.drop_last(), id);
        if edges.last().from_id == id {
            r.push(edges.last().to_id)
        } else {
            r
        }
    }
}

/// `t` is a child of `f` that has a node.
pub open spec fn child_step(nodes: Seq<ChangeNode>, edges: Seq<ChangeEdge>, f: u64, t: u64) -> bool {
    children_of(edges, f).contains(t) && last_node_with(nodes, t) is Some
}

/// The ids reached from `root` in at most `k` child steps.
pub open spec fn reach_children(nodes: Seq<ChangeNode>, edges: Seq<ChangeEdge>, root: u64, k: nat) -> Set<u64>
    decreases k,
{
    if k == 0 {
        set![root]
    } else {
        let r = reach_children(nodes, edges, root, (k - 1) as nat);
        r.union(Set::new(|t: u64| exists|f: u64| r.contains(f) && child_step(nodes, edges, f, t)))
    }
}

/// `t` is reached from `root` by child steps.
pub open spec fn reached(nodes: Seq<ChangeNode>, edges: Seq<ChangeEdge>, root: u64, t: u64) -> bool {
    exists|k: nat| #[trigger] reach_children(nodes, edges, root, k).contains(t)
}

/// A walk from `root`: it starts at `root`, and each next id is a child, with a node, of
/// the one before.
pub open spec fn walk_from(nodes: Seq<ChangeNode>, edges: Seq<ChangeEdge>, root: u64, path: Seq<u64>) -> bool {
    &&& path.len() >= 1
    &&& path[0] == root
    &&& forall|j: int| 0 <= j < path.len() - 1 ==> #[trigger] child_step(nodes, edges, path[j], path[j + 1])
}

/// The changed descendants of `root`, each with the walk that found it: a node that
/// carries a change (the last node of its id), reached by a walk from `root` of at least
/// one step that ends at it; and every child with a change of every id reached from
/// `root` is listed.
pub open spec fn changed_walks_ok(
    nodes: Seq<ChangeNode>,
    edges: Seq<ChangeEdge>,
    root: u64,
    infos: Seq<(ChangeNode, Seq<u64>)>,
) -> bool {
    &&& forall|i: int|
        0 <= i < infos.len() ==> {
            &&& (#[trigger] infos[i]).0.change is Some
            &&& last_node_with(nodes, infos[i].0.id) matches Some(m) && 0 <= m < nodes.len() && nodes[m] == infos[i].0
            &&& walk_from(nodes, edges, root, infos[i].1)
            &&& infos[i].1.len() >= 2
            &&& infos[i].1.last() == infos[i].0.id
        }
    &&& forall|f: u64, t: u64|
        reached(nodes, edges, root, f) && #[trigger] child_step(nodes, edges, f, t) && (last_node_with(nodes, t) matches Some(m)
            && 0 <= m < nodes.len() && nodes[m].change is Some) ==> exists|i: int|
            0 <= i < infos.len() && (#[trigger] infos[i]).0.id == t
}

proof fn lemma_last_node_found(nodes: Seq<ChangeNode>, id: u64)
    ensures
        last_node_with(nodes, id) matches Some(i) ==> 0 <= i < nodes.len() && nodes[i].id == id,
    decreases nodes.len(),
{
    if nodes.len() > 0 {
        lemma_last_node_found(nodes.drop_last(), id);
    }
}

proof fn lemma_reached_step(nodes: Seq<ChangeNode>, edges: Seq<ChangeEdge>, root: u64, f: u64, t: u64)
    requires
        reached(nodes, edges, root, f),
        child_step(nodes, edges, f, t),
    ensures
        reached(nodes, edges, root, t),
{
    let k = choose|k: nat| #[trigger] reach_children(nodes, edges, root, k).contains(f);
    assert(reach_children(nodes, edges, root, k + 1).contains(t));
}

proof fn lemma_closed_holds_reached(nodes: Seq<ChangeNode>, edges: Seq<ChangeEdge>, root: u64, vis: Set<u64>, k: nat)
    requires
        vis.contains(root),
        forall|f: u64, t: u64| vis.contains(f) && #[trigger] child_step(nodes, edges, f, t) ==> vis.contains(t),
    ensures
        reach_children(nodes, edges, root, k).subset_of(vis),
    decreases k,
{
    if k > 0 {
        lemma_closed_holds_reached(nodes, edges, root, vis, (k - 1) as nat);
        let r = reach_children(nodes, edges, root, (k - 1) as nat);
        assert forall|t: u64| reach_children(nodes, edges, root, k).contains(t) implies vis.contains(t) by {
            if !r.contains(t) {
                let f = choose|f: u64| r.contains(f) && child_step(nodes, edges, f, t);
            }
        }
    }
}

/// A pending step of the walk: an id and the walk that reached it.
spec fn pending_walks_ok(nodes: Seq<ChangeNode>, edges: Seq<ChangeEdge>, root: u64, stack: Seq<(u64, Vec<u64>)>) -> bool {
    forall|i: int|
        0 <= i < stack.len() ==> {
            &&& walk_from(nodes, edges, root, (#[trigger] stack[i]).1@)
            &&& stack[i].1@.last() == stack[i].0
            &&& reached(nodes, edges, root, stack[i].0)
            &&& (stack[i].0 == root || last_node_with(nodes, stack[i].0) is Some)
        }
}

/// Some pending step is at `t`.
spec fn on_stack(stack: Seq<(u64, Vec<u64>)>, t: u64) -> bool {
    exists|i: int| 0 <= i < stack.len() && (#[trigger] stack[i]).0 == t
}

/// The nodes with a change and their walks found so far are sound, and the children with a
/// change of every visited id are among them.
spec fn found_ok(
    nodes: Seq<ChangeNode>,
    edges: Seq<ChangeEdge>,
    root: u64,
    vis: Set<u64>,
    infos: Seq<(ChangeNode, Seq<u64>)>,
) -> bool {
    &&& forall|i: int|
        0 <= i < infos.len() ==> {
            &&& (#[trigger] infos[i]).0.change is Some
            &&& last_node_with(nodes, infos[i].0.id) matches Some(m) && 0 <= m < nodes.len() && nodes[m] == infos[i].0
            &&& walk_from(nodes, edges, root, infos[i].1)
            &&& infos[i].1.len() >= 2
            &&& infos[i].1.last() == infos[i].0.id
        }
    &&& forall|f: u64, t: u64|
        vis.contains(f) && #[trigger] child_step(nodes, edges, f, t) && (last_node_with(nodes, t) matches Some(m)
            && 0 <= m < nodes.len() && nodes[m].change is Some) ==> exists|i: int|
            0 <= i < infos.len() && (#[trigger] infos[i]).0.id == t
}

/// The walks found, as views.
pub open spec fn walks_view(v: Seq<(&ChangeNode, Vec<u64>)>) -> Seq<(ChangeNode, Seq<u64>)> {
    v.map_values(|p: (&ChangeNode, Vec<u64>)| (*p.0, p.1@))
}

proof fn lemma_children_of_last(edges: Seq<ChangeEdge>, id: u64, j: int)
    requires
        0 <= j <= edges.len(),
    ensures
        children_of(edges.subrange(0, j), id) == (if j == 0 { Seq::<u64>::empty() } else {
            let r = children_of(edges.subrange(0, j - 1), id);
            if edges[j - 1].from_id == id { r.push(edges[j - 1].to_id) } else { r }
        }),
{
    if j > 0 {
        assert(edges.subrange(0, j).drop_last() =~= edges.subrange(0, j - 1));
    }
}

impl ChangesGraph {
    /// Index of the last node with id `id`.
    fn find_last_node_with(&self, id: u64) -> (r: Option<usize>)
        ensures
            r matches Some(i) ==> last_node_with(self.nodes@, id) == Some(i as int) && i < self.nodes@.len(),
            r is None ==> last_node_with(self.nodes@, id) is None,
    {
        let mut i: usize = self.nodes.len();
        assert(self.nodes@.subrange(0, i as int) =~= self.nodes@);
        while i > 0
            invariant
                i <= self.nodes@.len(),
                last_node_with(self.nodes@, id) == last_node_with(self.nodes@.subrange(0, i as int), id),
            decreases i,
        {
            assert(self.nodes@.subrange(0, i as int).drop_last() =~= self.nodes@.subrange(0, i - 1));
            if self.nodes[i - 1].id == id {
                return Some(i - 1);
            }
            i = i - 1;
        }
        None
    }

    /// The targets of the edges from `id`, in order.
    fn children_ids(&self, id: u64) -> (r: Vec<u64>)
        ensures
            r@ == children_of(self.edges@, id),
    {
        let mut r: Vec<u64> = Vec::new();
        let mut j: usize = 0;
        while j < self.edges.len()
            invariant
                j <= self.edges@.len(),
                r@ == children_of(self.edges@.subrange(0, j as int), id),
            decreases self.edges@.len() - j,
        {
            proof {
                lemma_children_of_last(self.edges@, id, j + 1);
            }
            if self.edges[j].from_id == id {
                r.push(self.edges[j].to_id);
            }
            j = j + 1;
        }
        assert(self.edges@.subrange(0, self.edges@.len() as int) =~= self.edges@);
        r
    }
}


/// A copy of a walk with one more id.
fn extended(path: &Vec<u64>, id: u64) -> (r: Vec<u64>)
    ensures
        r@ == path@.push(id),
{
    let mut r: Vec<u64> = Vec::new();
    let mut i: usize = 0;
    while i < path.len()
        invariant
            i <= path@.len(),
            r@ == path@.subrange(0, i as int),
        decreases path@.len() - i,
    {
        r.push(path[i]);
        i = i + 1;
        assert(r@ =~= path@.subrange(0, i as int));
    }
    assert(path@.subrange(0, path@.len() as int) =~= path@);
    r.push(id);
    r
}

/// The ids of the nodes, and `root`, for the depth-first walk.
spec fn walk_universe(nodes: Seq<ChangeNode>, root: u64) -> Set<u64> {
    nodes.map_values(|n: ChangeNode| n.id).to_set().insert(root)
}

proof fn lemma_walk_extends(nodes: Seq<ChangeNode>, edges: Seq<ChangeEdge>, root: u64, path: Seq<u64>, t: u64)
    requires
        walk_from(nodes, edges, root, path),
        child_step(nodes, edges, path.last(), t),
    ensures
        walk_from(nodes, edges, root, path.push(t)),
{
    let p2 = path.push(t);
    assert forall|j: int| 0 <= j < p2.len() - 1 implies #[trigger] child_step(nodes, edges, p2[j], p2[j + 1]) by {
        if j < path.len() - 1 {
            assert(p2[j] == path[j] && p2[j + 1] == path[j + 1]);
        } else {
            assert(p2[j] == path.last() && p2[j + 1] == t);
        }
    }
}

impl ChangesGraph {
    /// The nodes with a change below `root_id`, depth first, each with the walk of ids that
    /// found it. A node is found again from each visited parent.
    fn changed_walks(&self, root_id: u64) -> (r: Vec<(&ChangeNode, Vec<u64>)>)
        ensures
            changed_walks_ok(self.nodes@, self.edges@, root_id, walks_view(r@)),
    {
        broadcast use vstd::std_specs::hash::group_hash_axioms;
        let ghost nodes = self.nodes@;
        let ghost edges = self.edges@;
        let ghost bound = (nodes.len() + 1) as int;
        let mut found: Vec<(&ChangeNode, Vec<u64>)> = Vec::new();
        let mut stack: Vec<(u64, Vec<u64>)> = Vec::new();
        let mut start: Vec<u64> = Vec::new();
        start.push(root_id);
        stack.push((root_id, start));
        let mut visited: HashSet<u64> = HashSet::new();
        proof {
            let ids = nodes.map_values(|n: ChangeNode| n.id);
            ids.lemma_cardinality_of_set();
            vstd::seq_lib::seq_to_set_is_finite(ids);
            assert(reach_children(nodes, edges, root_id, 0).contains(root_id));
            assert(stack@[0].0 == root_id);
            assert(walks_view(found@) =~= Seq::<(ChangeNode, Seq<u64>)>::empty());
        }
        while stack.len() > 0
            invariant
                nodes == self.nodes@,
                edges == self.edges@,
                walk_universe(nodes, root_id).finite(),
                walk_universe(nodes, root_id).len() <= bound,
                visited@.subset_of(walk_universe(nodes, root_id)),
                forall|x: u64| visited@.contains(x) ==> #[trigger] reached(nodes, edges, root_id, x),
                pending_walks_ok(nodes, edges, root_id, stack@),
                visited@.contains(root_id) || on_stack(stack@, root_id),
                forall|f: u64, t: u64|
                    visited@.contains(f) && #[trigger] child_step(nodes, edges, f, t) ==> visited@.contains(t)
                        || on_stack(stack@, t),
                found_ok(nodes, edges, root_id, visited@, walks_view(found@)),
            decreases bound - visited@.len(), stack@.len(),
        {
            let ghost s0 = stack@;
            let (cur, path) = stack.pop().unwrap();
            assert(stack@ =~= s0.drop_last());
            assert(s0.last() == (cur, path));
            let ghost vis0 = visited@;
            proof {
                vstd::set_lib::lemma_len_subset(vis0, walk_universe(nodes, root_id));
                assert forall|t: u64| on_stack(s0, t) implies on_stack(stack@, t) || t == cur by {
                    let i = choose|i: int| 0 <= i < s0.len() && (#[trigger] s0[i]).0 == t;
                    if i < s0.len() - 1 {
                        assert(stack@[i] == s0[i]);
                    }
                }
            }
            if visited.contains(&cur) {
                proof {
                    assert forall|f: u64, t: u64|
                        visited@.contains(f) && #[trigger] child_step(nodes, edges, f, t) implies visited@.contains(t)
                            || on_stack(stack@, t) by {
                        assert(vis0.contains(t) || on_stack(s0, t));
                    }
                }
            } else {
                visited.insert(cur);
                proof {
                    assert(reached(nodes, edges, root_id, cur));
                    let ids = nodes.map_values(|n: ChangeNode| n.id);
                    if cur != root_id {
                        lemma_last_node_found(nodes, cur);
                        let m = last_node_with(nodes, cur)->0;
                        assert(ids[m] == cur);
                        assert(ids.to_set().contains(cur));
                    }
                    assert(walk_universe(nodes, root_id).contains(cur));
                    vstd::set_lib::lemma_len_subset(visited@, walk_universe(nodes, root_id));
                }
                let children = self.children_ids(cur);
                let ghost stack_base = stack@;
                let mut k: usize = 0;
                while k < children.len()
                    invariant
                        nodes == self.nodes@,
                        edges == self.edges@,
                        children@ == children_of(edges, cur),
                        k <= children@.len(),
                        walk_from(nodes, edges, root_id, path@),
                        path@.last() == cur,
                        visited@ == vis0.insert(cur),
                        visited@.subset_of(walk_universe(nodes, root_id)),
                        forall|x: u64| visited@.contains(x) ==> #[trigger] reached(nodes, edges, root_id, x),
                        pending_walks_ok(nodes, edges, root_id, stack@),
                        stack@.len() >= stack_base.len(),
                        stack@.subrange(0, stack_base.len() as int) == stack_base,
                        forall|j: int|
                            0 <= j < k && last_node_with(nodes, #[trigger] children@[j]) is Some ==> on_stack(
                                stack@,
                                children@[j],
                            ),
                        forall|j: int|
                            0 <= j < k && (last_node_with(nodes, #[trigger] children@[j]) matches Some(m)
                                && 0 <= m < nodes.len() && nodes[m].change is Some) ==> exists|i: int|
                                0 <= i < walks_view(found@).len() && (#[trigger] walks_view(found@)[i]).0.id
                                    == children@[j],
                        found_ok(nodes, edges, root_id, vis0, walks_view(found@)),
                    decreases children@.len() - k,
                {
                    let child = children[k];
                    let ghost stack_k = stack@;
                    let ghost found_k = walks_view(found@);
                    match self.find_last_node_with(child) {
                        Some(m) => {
                            proof {
                                lemma_last_node_found(nodes, child);
                                assert(children@.contains(child));
                                assert(child_step(nodes, edges, cur, child));
                                lemma_walk_extends(nodes, edges, root_id, path@, child);
                                lemma_reached_step(nodes, edges, root_id, cur, child);
                            }
                            let node = &self.nodes[m];
                            let new_path = extended(&path, child);
                            if node.change.is_some() {
                                let again = extended(&path, child);
                                found.push((node, again));
                                proof {
                                    assert(walks_view(found@) =~= found_k.push((*node, path@.push(child))));
                                    assert(walks_view(found@)[found_k.len() as int].0.id == child);
                                }
                            }
                            stack.push((child, new_path));
                            proof {
                                assert(stack@[stack@.len() - 1].0 == child);
                                assert(stack@.subrange(0, stack_base.len() as int) =~= stack_k.subrange(0, stack_base.len() as int));
                                assert forall|j: int|
                                    0 <= j < k + 1 && last_node_with(nodes, #[trigger] children@[j]) is Some implies on_stack(
                                        stack@,
                                        children@[j],
                                    ) by {
                                    if j < k {
                                        let i = choose|i: int| 0 <= i < stack_k.len() && (#[trigger] stack_k[i]).0 == children@[j];
                                        assert(stack@[i] == stack_k[i]);
                                    }
                                }
                                assert forall|j: int|
                                    0 <= j < k + 1 && (last_node_with(nodes, #[trigger] children@[j]) matches Some(mm)
                                        && 0 <= mm < nodes.len() && nodes[mm].change is Some) implies exists|i: int|
                                        0 <= i < walks_view(found@).len() && (#[trigger] walks_view(found@)[i]).0.id
                                            == children@[j] by {
                                    if j < k {
                                        let i = choose|i: int| 0 <= i < found_k.len() && (#[trigger] found_k[i]).0.id == children@[j];
                                        assert(walks_view(found@)[i] == found_k[i]);
                                    }
                                }
                                assert forall|i: int| 0 <= i < stack@.len() implies {
                                    &&& walk_from(nodes, edges, root_id, (#[trigger] stack@[i]).1@)
                                    &&& stack@[i].1@.last() == stack@[i].0
                                    &&& reached(nodes, edges, root_id, stack@[i].0)
                                    &&& (stack@[i].0 == root_id || last_node_with(nodes, stack@[i].0) is Some)
                                } by {
                                    if i < stack_k.len() {
                                        assert(stack@[i] == stack_k[i]);
                                    }
                                }
                                assert(walks_view(found@).subrange(0, found_k.len() as int) =~= found_k);
                                lemma_found_grows(nodes, edges, root_id, vis0, found_k, walks_view(found@));
                            }
                        },
                        None => {},
                    }
                    k = k + 1;
                }
                proof {
                    assert forall|f: u64, t: u64|
                        visited@.contains(f) && #[trigger] child_step(nodes, edges, f, t) implies visited@.contains(t)
                            || on_stack(stack@, t) by {
                        if f == cur {
                            let j = choose|j: int| 0 <= j < children@.len() && children@[j] == t;
                            assert(last_node_with(nodes, children@[j]) is Some);
                        } else {
                            assert(vis0.contains(t) || on_stack(s0, t));
                            if on_stack(s0, t) && t != cur {
                                assert(on_stack(stack_base, t));
                                let i = choose|i: int| 0 <= i < stack_base.len() && (#[trigger] stack_base[i]).0 == t;
                                assert(stack@[i] == stack_base[i]);
                            }
                        }
                    }
                    assert forall|f: u64, t: u64|
                        visited@.contains(f) && #[trigger] child_step(nodes, edges, f, t) && (last_node_with(nodes, t) matches Some(m)
                            && 0 <= m < nodes.len() && nodes[m].change is Some) implies exists|i: int|
                            0 <= i < walks_view(found@).len() && (#[trigger] walks_view(found@)[i]).0.id == t by {
                        if f == cur {
                            let j = choose|j: int| 0 <= j < children@.len() && children@[j] == t;
                        }
                    }
                    assert(visited@.contains(root_id) || on_stack(stack@, root_id)) by {
                        if !visited@.contains(root_id) {
                            assert(on_stack(s0, root_id));
                            assert(on_stack(stack_base, root_id));
                            let i = choose|i: int| 0 <= i < stack_base.len() && (#[trigger] stack_base[i]).0 == root_id;
                            assert(stack@[i] == stack_base[i]);
                        }
                    }
                }
            }
        }
        proof {
            assert forall|f: u64, t: u64|
                reached(nodes, edges, root_id, f) && #[trigger] child_step(nodes, edges, f, t) && (last_node_with(nodes, t) matches Some(m)
                    && 0 <= m < nodes.len() && nodes[m].change is Some) implies exists|i: int|
                    0 <= i < walks_view(found@).len() && (#[trigger] walks_view(found@)[i]).0.id == t by {
                let k = choose|k: nat| #[trigger] reach_children(nodes, edges, root_id, k).contains(f);
                lemma_closed_holds_reached(nodes, edges, root_id, visited@, k);
                assert(visited@.contains(f));
            }
        }
        found
    }
}

proof fn lemma_found_grows(
    nodes: Seq<ChangeNode>,
    edges: Seq<ChangeEdge>,
    root: u64,
    vis: Set<u64>,
    infos: Seq<(ChangeNode, Seq<u64>)>,
    more: Seq<(ChangeNode, Seq<u64>)>,
)
    requires
        found_ok(nodes, edges, root, vis, infos),
        more.len() >= infos.len(),
        more.subrange(0, infos.len() as int) == infos,
        forall|i: int|
            infos.len() <= i < more.len() ==> {
                &&& (#[trigger] more[i]).0.change is Some
                &&& last_node_with(nodes, more[i].0.id) matches Some(m) && 0 <= m < nodes.len() && nodes[m] == more[i].0
                &&& walk_from(nodes, edges, root, more[i].1)
                &&& more[i].1.len() >= 2
                &&& more[i].1.last() == more[i].0.id
            },
    ensures
        found_ok(nodes, edges, root, vis, more),
{
    assert forall|i: int| 0 <= i < infos.len() implies #[trigger] more[i] == infos[i] by {
        assert(more[i] == more.subrange(0, infos.len() as int)[i]);
    }
    assert forall|f: u64, t: u64|
        vis.contains(f) && #[trigger] child_step(nodes, edges, f, t) && (last_node_with(nodes, t) matches Some(m)
            && 0 <= m < nodes.len() && nodes[m].change is Some) implies exists|i: int|
            0 <= i < more.len() && (#[trigger] more[i]).0.id == t by {
        let i = choose|i: int| 0 <= i < infos.len() && (#[trigger] infos[i]).0.id == t;
        assert(more[i] == infos[i]);
    }
}


/// A node with a change and the ids of the walk that found it.
pub struct ChangePathInfo<'a> {
    pub node: &'a ChangeNode,
    pub path: Vec<u64>,
}

/// A node with a change and the steps of the walk that found it.
pub struct ChangePathInfo2<'a> {
    pub node: &'a ChangeNode,
    pub path: Vec<&'a ChangePath>,
}

/// The walks of some infos, as views.
pub open spec fn infos_view(v: Seq<ChangePathInfo>) -> Seq<(ChangeNode, Seq<u64>)> {
    v.map_values(|i: ChangePathInfo| (*i.node, i.path@))
}

/// The ids of the nodes at depth `level`, each once, in the order of first appearance.
pub open spec fn root_ids(nodes: Seq<ChangeNode>, level: usize) -> Seq<u64>
    decreases nodes.len(),
{
    if nodes.len() == 0 {
        seq![]
    } else {
        let r = root_ids(nodes.drop_last(), level);
        if nodes.last().level == level && !r.contains(nodes.last().id) {
            r.push(nodes.last().id)
        } else {
            r
        }
    }
}

/// The steps of the last nodes of the ids of a walk.
pub open spec fn walk_steps(nodes: Seq<ChangeNode>, path: Seq<u64>) -> Seq<ChangePath> {
    path.map_values(|id: u64| nodes[last_node_with(nodes, id)->0].change_path)
}

/// Every id of `root_ids` is the id of some node.
proof fn lemma_root_ids(nodes: Seq<ChangeNode>, level: usize)
    ensures
        forall|i: int| 0 <= i < root_ids(nodes, level).len() ==> last_node_with(nodes, #[trigger] root_ids(nodes, level)[i]) is Some,
    decreases nodes.len(),
{
    if nodes.len() > 0 {
        lemma_root_ids(nodes.drop_last(), level);
        let r = root_ids(nodes.drop_last(), level);
        assert forall|i: int| 0 <= i < root_ids(nodes, level).len() implies last_node_with(nodes, #[trigger] root_ids(nodes, level)[i]) is Some by {
            if i < r.len() {
                assert(root_ids(nodes, level)[i] == r[i]);
                lemma_last_node_extends(nodes, r[i]);
            }
        }
    }
}

proof fn lemma_last_node_extends(nodes: Seq<ChangeNode>, id: u64)
    requires
        nodes.len() > 0,
        last_node_with(nodes.drop_last(), id) is Some,
    ensures
        last_node_with(nodes, id) is Some,
{
}

impl ChangesGraph {
    /// The walks from `root_id` with their node ids.
    fn infos_from(&self, root_id: u64) -> (r: Vec<ChangePathInfo<'_>>)
        ensures
            changed_walks_ok(self.nodes@, self.edges@, root_id, infos_view(r@)),
    {
        let mut walks = self.changed_walks(root_id);
        let ghost all = walks_view(walks@);
        let ghost n = walks@.len();
        let mut r: Vec<ChangePathInfo> = Vec::new();
        while walks.len() > 0
            invariant
                n == all.len(),
                walks@.len() <= n,
                walks_view(walks@) == all.subrange(n - walks@.len(), n as int),
                infos_view(r@) == all.subrange(0, n - walks@.len()),
            decreases walks@.len(),
        {
            let ghost k = n - walks@.len();
            let ghost before = walks@;
            let (node, path) = walks.remove(0);
            assert(walks_view(before)[0] == (*node, path@));
            assert(walks_view(walks@) =~= walks_view(before).drop_first());
            let ghost rv = infos_view(r@);
            r.push(ChangePathInfo { node, path });
            assert(infos_view(r@) =~= rv.push(all[k]));
            assert(all.subrange(0, k + 1) =~= all.subrange(0, k).push(all[k]));
        }
        assert(all.subrange(0, n as int) =~= all);
        r
    }

    /// For each id of a node at depth `level`, in the order of first appearance, the
    /// nodes with a change below it, each with the walk of ids that found it (depth first;
    /// a node is found again from each visited parent).
    pub fn get_changed_descendants_with_paths(&self, level: usize) -> (r: Vec<(u64, Vec<ChangePathInfo<'_>>)>)
        ensures
            r@.map_values(|e: (u64, Vec<ChangePathInfo>)| e.0) == root_ids(self.nodes@, level),
            forall|i: int|
                0 <= i < r@.len() ==> changed_walks_ok(self.nodes@, self.edges@, (#[trigger] r@[i]).0, infos_view(r@[i].1@)),
    {
        let mut result: Vec<(u64, Vec<ChangePathInfo>)> = Vec::new();
        let mut m: usize = 0;
        while m < self.nodes.len()
            invariant
                m <= self.nodes@.len(),
                result@.map_values(|e: (u64, Vec<ChangePathInfo>)| e.0) == root_ids(self.nodes@.subrange(0, m as int), level),
                forall|i: int|
                    0 <= i < result@.len() ==> changed_walks_ok(self.nodes@, self.edges@, (#[trigger] result@[i]).0, infos_view(result@[i].1@)),
            decreases self.nodes@.len() - m,
        {
            let ghost keys = result@.map_values(|e: (u64, Vec<ChangePathInfo>)| e.0);
            assert(self.nodes@.subrange(0, m + 1).drop_last() =~= self.nodes@.subrange(0, m as int));
            if self.nodes[m].level == level {
                let id = self.nodes[m].id;
                let infos = self.infos_from(id);
                let mut k: usize = 0;
                let mut found = false;
                while k < result.len()
                    invariant_except_break
                        !found,
                    invariant
                        k <= result@.len(),
                        forall|j: int| 0 <= j < k ==> result@[j].0 != id,
                    ensures
                        found ==> k < result@.len() && result@[k as int].0 == id,
                        !found ==> forall|j: int| 0 <= j < result@.len() ==> result@[j].0 != id,
                    decreases result@.len() - k,
                {
                    if result[k].0 == id {
                        found = true;
                        break;
                    }
                    k = k + 1;
                }
                if found {
                    let ghost old_result = result@;
                    result[k].1 = infos;
                    proof {
                        assert(keys.contains(id)) by {
                            assert(keys[k as int] == id);
                        }
                        assert(result@.map_values(|e: (u64, Vec<ChangePathInfo>)| e.0) =~= keys);
                        assert forall|i: int| 0 <= i < result@.len() implies changed_walks_ok(self.nodes@, self.edges@, (#[trigger] result@[i]).0, infos_view(result@[i].1@)) by {
                            if i != k {
                                assert(result@[i] == old_result[i]);
                            }
                        }
                    }
                } else {
                    let ghost old_result = result@;
                    result.push((id, infos));
                    proof {
                        assert(!keys.contains(id)) by {
                            if keys.contains(id) {
                                let j = choose|j: int| 0 <= j < keys.len() && keys[j] == id;
                                assert(old_result[j].0 == id);
                            }
                        }
                        assert(result@.map_values(|e: (u64, Vec<ChangePathInfo>)| e.0) =~= keys.push(id));
                        assert forall|i: int| 0 <= i < result@.len() implies changed_walks_ok(self.nodes@, self.edges@, (#[trigger] result@[i]).0, infos_view(result@[i].1@)) by {
                            if i < old_result.len() {
                                assert(result@[i] == old_result[i]);
                            }
                        }
                    }
                }
            }
            m = m + 1;
        }
        assert(self.nodes@.subrange(0, self.nodes@.len() as int) =~= self.nodes@);
        result
    }

    /// The same as `get_changed_descendants_with_paths`, with each walk given by the
    /// steps of the last nodes of its ids.
    pub fn get_changed_descendants_with_paths2(&self, level: usize) -> (r: Vec<(u64, Vec<ChangePathInfo2<'_>>)>)
        ensures
            r@.map_values(|e: (u64, Vec<ChangePathInfo2>)| e.0) == root_ids(self.nodes@, level),
            forall|i: int| 0 <= i < r@.len() ==> steps_found(self.nodes@, self.edges@, #[trigger] r@[i]),
    {
        let with_ids = self.get_changed_descendants_with_paths(level);
        proof {
            lemma_root_ids(self.nodes@, level);
        }
        let ghost keys = with_ids@.map_values(|e: (u64, Vec<ChangePathInfo>)| e.0);
        let ghost mut ws: Seq<Seq<(ChangeNode, Seq<u64>)>> = seq![];
        let mut r: Vec<(u64, Vec<ChangePathInfo2>)> = Vec::new();
        let mut i: usize = 0;
        while i < with_ids.len()
            invariant
                i <= with_ids@.len(),
                keys == with_ids@.map_values(|e: (u64, Vec<ChangePathInfo>)| e.0),
                keys == root_ids(self.nodes@, level),
                forall|q: int| 0 <= q < keys.len() ==> last_node_with(self.nodes@, #[trigger] keys[q]) is Some,
                forall|q: int|
                    0 <= q < with_ids@.len() ==> changed_walks_ok(self.nodes@, self.edges@, (#[trigger] with_ids@[q]).0, infos_view(with_ids@[q].1@)),
                r@.len() == i,
                ws.len() == i,
                forall|q: int| 0 <= q < i ==> (#[trigger] r@[q]).0 == with_ids@[q].0,
                forall|q: int| 0 <= q < i ==> steps_match(self.nodes@, self.edges@, (#[trigger] r@[q]).0, r@[q].1@, ws[q]),
            decreases with_ids@.len() - i,
        {
            let root = with_ids[i].0;
            assert(keys[i as int] == root);
            let infos = &with_ids[i].1;
            let ghost walks = infos_view(infos@);
            let mut list: Vec<ChangePathInfo2> = Vec::new();
            let mut k: usize = 0;
            while k < infos.len()
                invariant
                    k <= infos@.len(),
                    walks == infos_view(infos@),
                    changed_walks_ok(self.nodes@, self.edges@, root, walks),
                    last_node_with(self.nodes@, root) is Some,
                    list@.len() == k,
                    forall|j: int| 0 <= j < k ==> *(#[trigger] list@[j]).node == walks[j].0
                        && derefs_paths(list@[j].path@) == walk_steps(self.nodes@, walks[j].1),
                decreases infos@.len() - k,
            {
                let info = &infos[k];
                assert(walks[k as int] == (*info.node, info.path@));
                let steps = self.steps_of(&info.path, Ghost(root));
                list.push(ChangePathInfo2 { node: info.node, path: steps });
                k = k + 1;
            }
            let ghost old_r = r@;
            r.push((root, list));
            proof {
                ws = ws.push(walks);
                assert forall|q: int| 0 <= q < i + 1 implies steps_match(self.nodes@, self.edges@, (#[trigger] r@[q]).0, r@[q].1@, ws[q]) by {
                    if q < i {
                        assert(r@[q] == old_r[q]);
                    }
                }
                assert forall|q: int| 0 <= q < i + 1 implies (#[trigger] r@[q]).0 == with_ids@[q].0 by {
                    if q < i {
                        assert(r@[q] == old_r[q]);
                    }
                }
            }
            i = i + 1;
        }
        assert(r@.map_values(|e: (u64, Vec<ChangePathInfo2>)| e.0) =~= keys);
        assert forall|i: int| 0 <= i < r@.len() implies steps_found(self.nodes@, self.edges@, #[trigger] r@[i]) by {
            assert(steps_match(self.nodes@, self.edges@, r@[i].0, r@[i].1@, ws[i]));
        }
        r
    }

    /// The steps of the last nodes of the ids of a walk from `root`.
    fn steps_of(&self, path: &Vec<u64>, Ghost(root): Ghost<u64>) -> (r: Vec<&ChangePath>)
        requires
            walk_from(self.nodes@, self.edges@, root, path@),
            last_node_with(self.nodes@, root) is Some,
        ensures
            derefs_paths(r@) == walk_steps(self.nodes@, path@),
    {
        let mut r: Vec<&ChangePath> = Vec::new();
        let mut j: usize = 0;
        while j < path.len()
            invariant
                walk_from(self.nodes@, self.edges@, root, path@),
                last_node_with(self.nodes@, root) is Some,
                j <= path@.len(),
                derefs_paths(r@) == walk_steps(self.nodes@, path@.subrange(0, j as int)),
            decreases path@.len() - j,
        {
            proof {
                if j > 0 {
                    let jj: int = j - 1;
                    assert(child_step(self.nodes@, self.edges@, path@[jj], path@[jj + 1]));
                }
            }
            let m = self.find_last_node_with(path[j]).unwrap();
            let ghost before = r@;
            r.push(&self.nodes[m].change_path);
            assert(derefs_paths(r@) =~= derefs_paths(before).push(self.nodes@[m as int].change_path));
            assert(walk_steps(self.nodes@, path@.subrange(0, j + 1)) =~= walk_steps(self.nodes@, path@.subrange(0, j as int)).push(self.nodes@[m as int].change_path));
            j = j + 1;
        }
        assert(path@.subrange(0, path@.len() as int) =~= path@);
        r
    }
}

/// `infos` are the walks `walks` from `root`, each given by its node and the steps of the
/// last nodes of its ids.
pub open spec fn steps_match(
    nodes: Seq<ChangeNode>,
    edges: Seq<ChangeEdge>,
    root: u64,
    infos: Seq<ChangePathInfo2>,
    walks: Seq<(ChangeNode, Seq<u64>)>,
) -> bool {
    &&& changed_walks_ok(nodes, edges, root, walks)
    &&& walks.len() == infos.len()
    &&& forall|j: int| 0 <= j < walks.len() ==> *(#[trigger] infos[j]).node == walks[j].0
        && derefs_paths(infos[j].path@) == walk_steps(nodes, walks[j].1)
}

/// Some walks from the entry's id are the entry's infos (see `steps_match`).
pub open spec fn steps_found(nodes: Seq<ChangeNode>, edges: Seq<ChangeEdge>, e: (u64, Vec<ChangePathInfo2>)) -> bool {
    exists|walks: Seq<(ChangeNode, Seq<u64>)>| #[trigger] steps_match(nodes, edges, e.0, e.1@, walks)
}

/// The steps behind references.
pub open spec fn derefs_paths(v: Seq<&ChangePath>) -> Seq<ChangePath> {
    v.map_values(|p: &ChangePath| *p)
}

} // verus!
