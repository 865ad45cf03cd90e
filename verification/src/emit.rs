//! The order of the emitted declarations, and the forward declarations that
//! the order makes necessary.

use vstd::prelude::*;
use crate::filter::{collect_global_refs, global_refs};
use crate::graph::{is_next, lists, order_nodes, ordered, marked, pending};
use crate::types::{nodes_model, Global, Node, NodeModel};

verus! {

/// One emitted declaration: the body of a node, or its name alone, ahead of
/// the body.
#[derive(Clone, Copy, PartialEq, Eq, Debug, Structural)]
pub struct Item {
    pub node: usize,
    pub forward: bool,
}

/// Those of the first `m` references that are to nodes which cannot be
/// declared ahead of their body.
pub open spec fn loose(nodes: Seq<NodeModel>, all: Seq<usize>, m: nat) -> Seq<usize>
    decreases m,
{
    if m == 0 || m > all.len() {
        Seq::empty()
    } else if all[m - 1] < nodes.len() && !nodes[all[m - 1] as int].is_tagged() {
        loose(nodes, all, (m - 1) as nat).push(all[m - 1])
    } else {
        loose(nodes, all, (m - 1) as nat)
    }
}

/// The nodes whose body has to come before that of node `a`: those that the
/// declaration holds by value, and those that it refers to and that cannot be
/// declared ahead of their body.
pub open spec fn order_deps(nodes: Seq<NodeModel>, a: int) -> Seq<usize> {
    let all = global_refs(nodes[a].global, false);
    global_refs(nodes[a].global, true) + loose(nodes, all, all.len())
}

/// The graph that the order of the bodies goes by.
pub open spec fn dep_graph(nodes: Seq<NodeModel>) -> Seq<Seq<usize>> {
    Seq::new(nodes.len(), |a: int| order_deps(nodes, a))
}

/// Whether one of the first `upto` items is for node `b`.
pub open spec fn declares(items: Seq<Item>, b: usize, upto: int) -> bool {
    exists|q: int| 0 <= q < upto && q < items.len() && (#[trigger] items[q]).node == b
}

/// Whether a reference from node `a` to node `b` asks for a forward
/// declaration after `items`: `b` is another node, one that can be declared
/// ahead of its body, and no item is for it yet.
pub open spec fn needs_forward(nodes: Seq<NodeModel>, items: Seq<Item>, a: usize, b: usize) -> bool {
    b < nodes.len() && b != a && nodes[b as int].is_tagged() && !declares(items, b, items.len() as int)
}

/// `items` with the forward declarations that the first `m` references of
/// node `a` ask for.
pub open spec fn with_forwards(
    nodes: Seq<NodeModel>,
    items: Seq<Item>,
    a: usize,
    all: Seq<usize>,
    m: nat,
) -> Seq<Item>
    decreases m,
{
    if m == 0 || m > all.len() {
        items
    } else {
        let prev = with_forwards(nodes, items, a, all, (m - 1) as nat);
        if needs_forward(nodes, prev, a, all[m - 1]) {
            prev.push(Item { node: all[m - 1], forward: true })
        } else {
            prev
        }
    }
}

/// The items for the first `p` nodes of an order: before the body of a node
/// come the forward declarations that its references ask for.
pub open spec fn emit_items(nodes: Seq<NodeModel>, order: Seq<usize>, p: nat) -> Seq<Item>
    decreases p,
{
    if p == 0 || p > order.len() {
        Seq::empty()
    } else {
        let a = order[p - 1];
        let all = global_refs(nodes[a as int].global, false);
        with_forwards(nodes, emit_items(nodes, order, (p - 1) as nat), a, all, all.len()).push(
            Item { node: a, forward: false },
        )
    }
}

/// The nodes of the bodies among the items, in order.
pub open spec fn fulls(items: Seq<Item>) -> Seq<usize>
    decreases items.len(),
{
    if items.len() == 0 {
        Seq::empty()
    } else if items.last().forward {
        fulls(items.drop_last())
    } else {
        fulls(items.drop_last()).push(items.last().node)
    }
}

/// What holds of item `q`: a forward declaration is for a node that can be
/// declared ahead of its body and has no item before it; before a body, every
/// other such node that the declaration refers to has an item.
pub open spec fn item_ok(nodes: Seq<NodeModel>, items: Seq<Item>, q: int) -> bool {
    let it = items[q];
    let all = global_refs(nodes[it.node as int].global, false);
    &&& it.node < nodes.len()
    &&& it.forward ==> nodes[it.node as int].is_tagged() && !declares(items, it.node, q)
    &&& !it.forward ==> forall|t: int|
        0 <= t < all.len() && (#[trigger] all[t]) < nodes.len() && all[t] != it.node
            && nodes[all[t] as int].is_tagged() ==> declares(items, all[t], q)
}

/// One more item changes nothing before it.
pub proof fn lemma_declares_push(items: Seq<Item>, x: Item, b: usize, upto: int)
    requires
        upto <= items.len(),
    ensures
        declares(items.push(x), b, upto) == declares(items, b, upto),
{
    if declares(items.push(x), b, upto) {
        let q = choose|q: int| 0 <= q < upto && q < items.push(x).len() && (#[trigger] items.push(x)[q]).node == b;
        assert(items[q].node == b);
    }
    if declares(items, b, upto) {
        let q = choose|q: int| 0 <= q < upto && q < items.len() && (#[trigger] items[q]).node == b;
        assert(items.push(x)[q].node == b);
    }
}

/// One more item leaves what holds of the items before it.
pub proof fn lemma_item_ok_push(nodes: Seq<NodeModel>, items: Seq<Item>, x: Item, q: int)
    requires
        0 <= q < items.len(),
        item_ok(nodes, items, q),
    ensures
        item_ok(nodes, items.push(x), q),
{
    let it = items[q];
    let all = global_refs(nodes[it.node as int].global, false);
    lemma_declares_push(items, x, it.node, q);
    assert forall|t: int|
        0 <= t < all.len() && (#[trigger] all[t]) < nodes.len() && all[t] != it.node
            && nodes[all[t] as int].is_tagged() && !it.forward implies declares(items.push(x), all[t], q) by {
        lemma_declares_push(items, x, all[t], q);
    }
}

/// Whether a node can be declared ahead of its body.
pub fn is_tagged(g: &Global) -> (r: bool)
    ensures
        r == g@.tagged(),
{
    match g {
        Global::CompDecl { .. } => true,
        Global::Comp { .. } => true,
        Global::EnumDecl => true,
        Global::Enum { .. } => true,
        _ => false,
    }
}

/// For each node, the nodes whose body has to come before its own.
pub fn dep_lists(nodes: &Vec<Node>) -> (adj: Vec<Vec<usize>>)
    ensures
        lists(adj@) == dep_graph(nodes_model(nodes@)),
{
    let n: usize = nodes.len();
    let ghost model = nodes_model(nodes@);
    let mut adj: Vec<Vec<usize>> = Vec::new();
    let mut a: usize = 0;
    while a < n
        invariant
            n == nodes@.len(),
            model == nodes_model(nodes@),
            a <= n,
            adj@.len() == a,
            forall|x: int| 0 <= x < a ==> (#[trigger] adj@[x])@ == order_deps(model, x),
        decreases n - a,
    {
        let mut row: Vec<usize> = Vec::new();
        collect_global_refs(&nodes[a].global, true, &mut row);
        let mut all: Vec<usize> = Vec::new();
        collect_global_refs(&nodes[a].global, false, &mut all);
        assert(model[a as int] == nodes@[a as int]@);
        assert(row@ =~= global_refs(model[a as int].global, true));
        assert(all@ =~= global_refs(model[a as int].global, false));
        let ghost held = row@;
        let m: usize = all.len();
        let mut t: usize = 0;
        assert(row@ =~= held + loose(model, all@, 0));
        while t < m
            invariant
                n == nodes@.len(),
                model == nodes_model(nodes@),
                m == all@.len(),
                t <= m,
                row@ == held + loose(model, all@, t as nat),
            decreases m - t,
        {
            let b: usize = all[t];
            if b < n {
                assert(model[b as int] == nodes@[b as int]@);
                if !is_tagged(&nodes[b].global) {
                    row.push(b);
                }
            }
            assert(row@ =~= held + loose(model, all@, (t + 1) as nat));
            t = t + 1;
        }
        adj.push(row);
        a = a + 1;
    }
    assert(lists(adj@) =~= dep_graph(model));
    adj
}

/// Lays out the items for the nodes of an order.
pub fn lay_out(nodes: &Vec<Node>, order: &Vec<usize>) -> (items: Vec<Item>)
    requires
        forall|p: int| 0 <= p < order@.len() ==> (#[trigger] order@[p]) < nodes@.len(),
    ensures
        items@ == emit_items(nodes_model(nodes@), order@, order@.len() as nat),
        fulls(items@) == order@,
        forall|q: int| 0 <= q < items@.len() ==> item_ok(nodes_model(nodes@), items@, q),
{
    let n: usize = nodes.len();
    let ghost model = nodes_model(nodes@);
    let mut declared: Vec<bool> = Vec::new();
    let mut c: usize = 0;
    while c < n
        invariant
            c <= n,
            declared@.len() == c,
            forall|x: int| 0 <= x < c ==> !declared@[x],
        decreases n - c,
    {
        declared.push(false);
        c = c + 1;
    }
    let mut items: Vec<Item> = Vec::new();
    let count: usize = order.len();
    let mut p: usize = 0;
    assert(fulls(items@) =~= order@.take(0));
    while p < count
        invariant
            n == nodes@.len(),
            model == nodes_model(nodes@),
            count == order@.len(),
            p <= count,
            declared@.len() == n,
            forall|x: int| 0 <= x < order@.len() ==> (#[trigger] order@[x]) < n,
            forall|b: int| 0 <= b < n ==> declared@[b] == declares(items@, b as usize, items@.len() as int),
            items@ == emit_items(model, order@, p as nat),
            fulls(items@) == order@.take(p as int),
            forall|q: int| 0 <= q < items@.len() ==> item_ok(model, items@, q),
        decreases count - p,
    {
        let a: usize = order[p];
        let mut all: Vec<usize> = Vec::new();
        collect_global_refs(&nodes[a].global, false, &mut all);
        assert(model[a as int] == nodes@[a as int]@);
        assert(all@ =~= global_refs(model[a as int].global, false));
        let ghost start = items@;
        let m: usize = all.len();
        let mut t: usize = 0;
        while t < m
            invariant
                n == nodes@.len(),
                model == nodes_model(nodes@),
                a < n,
                m == all@.len(),
                t <= m,
                declared@.len() == n,
                forall|b: int|
                    0 <= b < n ==> declared@[b] == declares(items@, b as usize, items@.len() as int),
                items@ == with_forwards(model, start, a, all@, t as nat),
                fulls(items@) == fulls(start),
                forall|q: int| 0 <= q < items@.len() ==> item_ok(model, items@, q),
                forall|s: int|
                    0 <= s < t && (#[trigger] all@[s]) < n && all@[s] != a && model[all@[s] as int].is_tagged()
                        ==> declares(items@, all@[s], items@.len() as int),
            decreases m - t,
        {
            let b: usize = all[t];
            if b < n && b != a {
                assert(model[b as int] == nodes@[b as int]@);
                if is_tagged(&nodes[b].global) && !declared[b] {
                    let ghost before = items@;
                    let it = Item { node: b, forward: true };
                    items.push(it);
                    declared.set(b, true);
                    proof {
                        assert(items@.drop_last() =~= before);
                        assert(items@[before.len() as int].node == b);
                        assert forall|x: int| 0 <= x < n implies declared@[x] == declares(
                            items@,
                            x as usize,
                            items@.len() as int,
                        ) by {
                            lemma_declares_push(before, it, x as usize, before.len() as int);
                            if declares(items@, x as usize, items@.len() as int) && x != b {
                                let q = choose|q: int|
                                    0 <= q < items@.len() && q < items@.len() && (#[trigger] items@[q]).node
                                        == x as usize;
                                assert(q < before.len());
                                assert(before[q].node == x as usize);
                            }
                        }
                        assert forall|q: int| 0 <= q < items@.len() implies item_ok(model, items@, q) by {
                            if q < before.len() {
                                lemma_item_ok_push(model, before, it, q);
                            } else {
                                lemma_declares_push(before, it, b, before.len() as int);
                            }
                        }
                        assert forall|s: int|
                            0 <= s < t + 1 && (#[trigger] all@[s]) < n && all@[s] != a
                                && model[all@[s] as int].is_tagged() implies declares(
                            items@,
                            all@[s],
                            items@.len() as int,
                        ) by {
                            assert(declared@[all@[s] as int]);
                        }
                    }
                }
            }
            t = t + 1;
        }
        let ghost before = items@;
        let it = Item { node: a, forward: false };
        items.push(it);
        declared.set(a, true);
        proof {
            assert(items@.drop_last() =~= before);
            assert(items@[before.len() as int].node == a);
            assert(order@.take(p as int + 1) =~= order@.take(p as int).push(a));
            assert forall|x: int| 0 <= x < n implies declared@[x] == declares(
                items@,
                x as usize,
                items@.len() as int,
            ) by {
                lemma_declares_push(before, it, x as usize, before.len() as int);
                if declares(items@, x as usize, items@.len() as int) && x != a {
                    let q = choose|q: int|
                        0 <= q < items@.len() && q < items@.len() && (#[trigger] items@[q]).node == x as usize;
                    assert(q < before.len());
                    assert(before[q].node == x as usize);
                }
            }
            assert forall|q: int| 0 <= q < items@.len() implies item_ok(model, items@, q) by {
                if q < before.len() {
                    lemma_item_ok_push(model, before, it, q);
                } else {
                    assert forall|s: int|
                        0 <= s < all@.len() && (#[trigger] all@[s]) < n && all@[s] != a
                            && model[all@[s] as int].is_tagged() implies declares(items@, all@[s], q) by {
                        lemma_declares_push(before, it, all@[s], q);
                    }
                }
            }
        }
        p = p + 1;
    }
    assert(order@.take(count as int) =~= order@);
    items
}

/// Puts the chosen nodes in order and lays out their items.
///
/// The bodies come in the one order of the chosen nodes along the graph of
/// [`order_deps`], each body once, and the items are those of that order.
pub fn emit(nodes: &Vec<Node>, marks: &Vec<bool>) -> (items: Vec<Item>)
    requires
        marks@.len() == nodes@.len(),
    ensures
        ordered(dep_graph(nodes_model(nodes@)), marks@, fulls(items@)),
        items@ == emit_items(nodes_model(nodes@), fulls(items@), fulls(items@).len()),
        forall|q: int| 0 <= q < items@.len() ==> item_ok(nodes_model(nodes@), items@, q),
{
    let adj = dep_lists(nodes);
    assert(adj@.len() == lists(adj@).len());
    let order = order_nodes(&adj, marks);
    assert forall|p: int| 0 <= p < order@.len() implies (#[trigger] order@[p]) < nodes@.len() by {
        let done = marked(order@.take(p), marks@.len());
        assert(is_next(lists(adj@), marks@, done, order@[p] as int));
        assert(pending(marks@, done, order@[p] as int));
    }
    lay_out(nodes, &order)
}

} // verus!
