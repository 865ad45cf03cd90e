//! Graphs over node indices: what is reachable from a set of roots.

use vstd::prelude::*;

verus! {

/// The adjacency lists of a graph, as sequences.
pub open spec fn lists(adj: Seq<Vec<usize>>) -> Seq<Seq<usize>> {
    Seq::new(adj.len(), |i: int| adj[i]@)
}

/// Whether the graph has an edge from `a` to `b`. An entry of a list that is
/// no index of the graph is no edge.
pub open spec fn edge(g: Seq<Seq<usize>>, a: int, b: int) -> bool {
    0 <= a < g.len() && 0 <= b < g.len() && g[a].contains(b as usize)
}

/// Whether `b` is reached from a root in at most `k` steps.
pub open spec fn reach_in(g: Seq<Seq<usize>>, roots: Seq<bool>, b: int, k: nat) -> bool
    decreases k,
{
    if k == 0 {
        0 <= b < g.len() && b < roots.len() && roots[b]
    } else {
        reach_in(g, roots, b, (k - 1) as nat) || exists|a: int|
            reach_in(g, roots, a, (k - 1) as nat) && #[trigger] edge(g, a, b)
    }
}

/// Whether `b` is a root or is reached from one along edges.
pub open spec fn reachable(g: Seq<Seq<usize>>, roots: Seq<bool>, b: int) -> bool {
    exists|k: nat| reach_in(g, roots, b, k)
}

/// How many entries are `false`.
pub open spec fn count_false(marks: Seq<bool>) -> nat
    decreases marks.len(),
{
    if marks.len() == 0 {
        0
    } else {
        count_false(marks.drop_last()) + if marks.last() {
            0nat
        } else {
            1nat
        }
    }
}

/// Setting one `false` entry leaves one `false` entry less.
pub proof fn lemma_count_false_set(marks: Seq<bool>, i: int)
    requires
        0 <= i < marks.len(),
        !marks[i],
    ensures
        count_false(marks.update(i, true)) + 1 == count_false(marks),
    decreases marks.len(),
{
    let after = marks.update(i, true);
    if i == marks.len() - 1 {
        assert(after.drop_last() =~= marks.drop_last());
    } else {
        assert(after.drop_last() =~= marks.drop_last().update(i, true));
        lemma_count_false_set(marks.drop_last(), i);
    }
}

/// What is reached from something reachable is reachable.
pub proof fn lemma_reach_step(g: Seq<Seq<usize>>, roots: Seq<bool>, a: int, b: int)
    requires
        reachable(g, roots, a),
        edge(g, a, b),
    ensures
        reachable(g, roots, b),
{
    let k = choose|k: nat| reach_in(g, roots, a, k);
    assert(reach_in(g, roots, b, k + 1));
}

/// A set of marks that holds the roots and is closed under the edges holds
/// all that is reachable.
pub proof fn lemma_closed_holds_reachable(
    g: Seq<Seq<usize>>,
    roots: Seq<bool>,
    marks: Seq<bool>,
    b: int,
    k: nat,
)
    requires
        marks.len() == g.len(),
        roots.len() == g.len(),
        forall|r: int| 0 <= r < g.len() && roots[r] ==> marks[r],
        forall|x: int, y: int| 0 <= x < g.len() && marks[x] && #[trigger] edge(g, x, y) ==> marks[y],
        reach_in(g, roots, b, k),
    ensures
        0 <= b < g.len(),
        marks[b],
    decreases k,
{
    if k > 0 {
        if reach_in(g, roots, b, (k - 1) as nat) {
            lemma_closed_holds_reachable(g, roots, marks, b, (k - 1) as nat);
        } else {
            let a = choose|a: int| reach_in(g, roots, a, (k - 1) as nat) && #[trigger] edge(g, a, b);
            lemma_closed_holds_reachable(g, roots, marks, a, (k - 1) as nat);
        }
    }
}

/// Marks the roots and all that is reached from them.
pub fn closure(adj: &Vec<Vec<usize>>, roots: &Vec<bool>) -> (marks: Vec<bool>)
    requires
        roots@.len() == adj@.len(),
    ensures
        marks@.len() == adj@.len(),
        forall|b: int| 0 <= b < adj@.len() ==> (marks@[b] <==> reachable(lists(adj@), roots@, b)),
{
    let n: usize = adj.len();
    let ghost g = lists(adj@);
    let mut marks: Vec<bool> = Vec::new();
    let mut stack: Vec<usize> = Vec::new();
    let mut i: usize = 0;
    while i < n
        invariant
            i <= n,
            n == adj@.len(),
            roots@.len() == n,
            marks@.len() == i,
            forall|j: int| 0 <= j < i ==> marks@[j] == roots@[j],
            forall|s: int| 0 <= s < stack@.len() ==> (#[trigger] stack@[s]) < i && roots@[stack@[s] as int],
            forall|j: int| 0 <= j < i && roots@[j] ==> stack@.contains(j as usize),
        decreases n - i,
    {
        marks.push(roots[i]);
        if roots[i] {
            let ghost before = stack@;
            stack.push(i);
            assert(stack@[before.len() as int] == i);
            assert forall|j: int| 0 <= j < i + 1 && roots@[j] implies stack@.contains(j as usize) by {
                if j < i {
                    let s = choose|s: int| 0 <= s < before.len() && before[s] == j as usize;
                    assert(stack@[s] == j as usize);
                }
            }
        }
        i = i + 1;
    }
    assert forall|b: int| 0 <= b < n && marks@[b] implies reachable(g, roots@, b) by {
        assert(reach_in(g, roots@, b, 0));
    }
    while stack.len() > 0
        invariant
            n == adj@.len(),
            roots@.len() == n,
            marks@.len() == n,
            g == lists(adj@),
            forall|b: int| 0 <= b < n && roots@[b] ==> marks@[b],
            forall|b: int| 0 <= b < n && marks@[b] ==> reachable(g, roots@, b),
            forall|s: int| 0 <= s < stack@.len() ==> (#[trigger] stack@[s]) < n && marks@[stack@[s] as int],
            forall|x: int, y: int|
                0 <= x < n && marks@[x] && #[trigger] edge(g, x, y) && !marks@[y] ==> stack@.contains(
                    x as usize,
                ),
        decreases count_false(marks@), stack@.len(),
    {
        let ghost stack_before = stack@;
        let a: usize = stack.pop().unwrap();
        let row = &adj[a];
        let m: usize = row.len();
        let ghost marks0 = marks@;
        let ghost stack0 = stack@;
        assert forall|x: int, y: int|
            0 <= x < n && x != a && marks@[x] && #[trigger] edge(g, x, y) && !marks@[y] implies stack@.contains(
            x as usize,
        ) by {
            let s = choose|s: int| 0 <= s < stack_before.len() && stack_before[s] == x as usize;
            assert(stack@[s] == x as usize);
        }
        let mut j: usize = 0;
        while j < m
            invariant
                j <= m,
                m == row@.len(),
                row@ == g[a as int],
                a < n,
                n == adj@.len(),
                roots@.len() == n,
                marks@.len() == n,
                marks0.len() == n,
                g == lists(adj@),
                marks@[a as int],
                forall|b: int| 0 <= b < n && roots@[b] ==> marks@[b],
                forall|b: int| 0 <= b < n && marks@[b] ==> reachable(g, roots@, b),
                forall|s: int|
                    0 <= s < stack@.len() ==> (#[trigger] stack@[s]) < n && marks@[stack@[s] as int],
                forall|t: int| 0 <= t < j && (#[trigger] row@[t]) < n ==> marks@[row@[t] as int],
                forall|x: int, y: int|
                    0 <= x < n && x != a && marks@[x] && #[trigger] edge(g, x, y) && !marks@[y]
                        ==> stack@.contains(x as usize),
                count_false(marks@) < count_false(marks0) || (marks@ == marks0 && stack@ == stack0),
            decreases m - j,
        {
            let b: usize = row[j];
            if b < n && !marks[b] {
                proof {
                    assert(row@.contains(b));
                    assert(edge(g, a as int, b as int));
                    lemma_reach_step(g, roots@, a as int, b as int);
                    lemma_count_false_set(marks@, b as int);
                }
                let ghost marks_before = marks@;
                let ghost stack_prev = stack@;
                marks.set(b, true);
                stack.push(b);
                assert(stack@[stack_prev.len() as int] == b);
                assert forall|x: int, y: int|
                    0 <= x < n && x != a && marks@[x] && #[trigger] edge(g, x, y) && !marks@[y] implies stack@.contains(
                    x as usize,
                ) by {
                    if x != b {
                        assert(marks_before[x]);
                        assert(!marks_before[y]);
                        let s = choose|s: int| 0 <= s < stack_prev.len() && stack_prev[s] == x as usize;
                        assert(stack@[s] == x as usize);
                    }
                }
                assert forall|s: int| 0 <= s < stack@.len() implies (#[trigger] stack@[s]) < n
                    && marks@[stack@[s] as int] by {
                    if s < stack_prev.len() {
                        assert(stack@[s] == stack_prev[s]);
                    }
                }
            }
            j = j + 1;
        }
        assert forall|x: int, y: int|
            0 <= x < n && marks@[x] && #[trigger] edge(g, x, y) && !marks@[y] implies stack@.contains(
            x as usize,
        ) by {
            if x == a {
                let t = choose|t: int| 0 <= t < row@.len() && row@[t] == y as usize;
                assert(row@[t] < n);
                assert(marks@[row@[t] as int]);
            }
        }
    }
    assert forall|b: int| 0 <= b < n && reachable(g, roots@, b) implies marks@[b] by {
        let k = choose|k: nat| reach_in(g, roots@, b, k);
        assert forall|x: int, y: int| 0 <= x < n && marks@[x] && #[trigger] edge(g, x, y) implies marks@[y] by {
            if !marks@[y] {
                assert(stack@.contains(x as usize));
            }
        }
        lemma_closed_holds_reachable(g, roots@, marks@, b, k);
    }
    marks
}

/// For each index below `n`, whether `prefix` holds it.
pub open spec fn marked(prefix: Seq<usize>, n: nat) -> Seq<bool> {
    Seq::new(n, |x: int| prefix.contains(x as usize))
}

/// Whether `a` is chosen and not done yet.
pub open spec fn pending(sel: Seq<bool>, done: Seq<bool>, a: int) -> bool {
    0 <= a < sel.len() && a < done.len() && sel[a] && !done[a]
}

/// Whether `a` is pending and all chosen nodes that it has an edge to, but
/// for itself, are done.
pub open spec fn ready(g: Seq<Seq<usize>>, sel: Seq<bool>, done: Seq<bool>, a: int) -> bool {
    pending(sel, done, a) && forall|b: int| (#[trigger] edge(g, a, b)) && b != a && sel[b] ==> done[b]
}

/// Whether `a` is the node that comes next: the first that is ready, or,
/// where none is ready, the first that is pending.
pub open spec fn is_next(g: Seq<Seq<usize>>, sel: Seq<bool>, done: Seq<bool>, a: int) -> bool {
    if exists|r: int| ready(g, sel, done, r) {
        ready(g, sel, done, a) && forall|r: int| 0 <= r < a ==> !ready(g, sel, done, r)
    } else {
        pending(sel, done, a) && forall|r: int| 0 <= r < a ==> !pending(sel, done, r)
    }
}

/// Whether `order` lists the chosen nodes so that each is the next one after
/// those before it.
pub open spec fn ordered(g: Seq<Seq<usize>>, sel: Seq<bool>, order: Seq<usize>) -> bool {
    &&& forall|p: int|
        0 <= p < order.len() ==> is_next(g, sel, marked(order.take(p), sel.len()), #[trigger] order[p] as int)
    &&& forall|a: int| 0 <= a < sel.len() && sel[a] ==> order.contains(a as usize)
}

/// The marks of a prefix with one more index.
pub proof fn lemma_marked_push(prefix: Seq<usize>, a: usize, n: nat)
    requires
        a < n,
        n <= usize::MAX,
    ensures
        marked(prefix.push(a), n) == marked(prefix, n).update(a as int, true),
{
    let longer = prefix.push(a);
    assert forall|x: int| 0 <= x < n implies marked(longer, n)[x] == marked(prefix, n).update(
        a as int,
        true,
    )[x] by {
        if longer.contains(x as usize) {
            let t = choose|t: int| 0 <= t < longer.len() && longer[t] == x as usize;
            if t < prefix.len() {
                assert(prefix[t] == x as usize);
            }
        }
        if prefix.contains(x as usize) {
            let t = choose|t: int| 0 <= t < prefix.len() && prefix[t] == x as usize;
            assert(longer[t] == x as usize);
        }
        if x == a {
            assert(longer[prefix.len() as int] == a);
        }
    }
    assert(marked(longer, n) =~= marked(prefix, n).update(a as int, true));
}

fn deps_done(adj: &Vec<Vec<usize>>, sel: &Vec<bool>, done: &Vec<bool>, a: usize) -> (r: bool)
    requires
        a < adj@.len(),
        sel@.len() == adj@.len(),
        done@.len() == adj@.len(),
    ensures
        r == (forall|b: int|
            (#[trigger] edge(lists(adj@), a as int, b)) && b != a && sel@[b] ==> done@[b]),
{
    let n: usize = adj.len();
    let row = &adj[a];
    let m: usize = row.len();
    let ghost g = lists(adj@);
    let mut j: usize = 0;
    while j < m
        invariant
            j <= m,
            m == row@.len(),
            row@ == g[a as int],
            g == lists(adj@),
            a < n,
            n == adj@.len(),
            sel@.len() == n,
            done@.len() == n,
            forall|t: int|
                0 <= t < j && (#[trigger] row@[t]) < n && row@[t] != a && sel@[row@[t] as int]
                    ==> done@[row@[t] as int],
        decreases m - j,
    {
        let b: usize = row[j];
        if b < n && b != a && sel[b] && !done[b] {
            assert(row@.contains(b));
            assert(edge(g, a as int, b as int));
            return false;
        }
        j = j + 1;
    }
    assert forall|b: int| (#[trigger] edge(g, a as int, b)) && b != a && sel@[b] implies done@[b] by {
        let t = choose|t: int| 0 <= t < row@.len() && row@[t] == b as usize;
        assert(row@[t] < n);
    }
    true
}

fn next_node(adj: &Vec<Vec<usize>>, sel: &Vec<bool>, done: &Vec<bool>) -> (r: Option<usize>)
    requires
        sel@.len() == adj@.len(),
        done@.len() == adj@.len(),
    ensures
        match r {
            Some(a) => is_next(lists(adj@), sel@, done@, a as int),
            None => forall|x: int| !pending(sel@, done@, x),
        },
{
    let n: usize = adj.len();
    let ghost g = lists(adj@);
    let mut first: Option<usize> = None;
    let mut a: usize = 0;
    while a < n
        invariant
            a <= n,
            n == adj@.len(),
            sel@.len() == n,
            done@.len() == n,
            g == lists(adj@),
            forall|x: int| 0 <= x < a ==> !ready(g, sel@, done@, x),
            match first {
                Some(f) => f < a && pending(sel@, done@, f as int) && forall|x: int|
                    0 <= x < f ==> !pending(sel@, done@, x),
                None => forall|x: int| 0 <= x < a ==> !pending(sel@, done@, x),
            },
        decreases n - a,
    {
        if sel[a] && !done[a] {
            if deps_done(adj, sel, done, a) {
                assert(ready(g, sel@, done@, a as int));
                return Some(a);
            }
            if first.is_none() {
                first = Some(a);
            }
        }
        a = a + 1;
    }
    assert(!(exists|r: int| ready(g, sel@, done@, r)));
    first
}

/// Puts the chosen nodes in order: a node comes once all chosen nodes that it
/// has an edge to have come, the earliest such node first. Where the edges
/// among the nodes that are left go round in a circle, the earliest of
/// those nodes comes next.
pub fn order_nodes(adj: &Vec<Vec<usize>>, sel: &Vec<bool>) -> (order: Vec<usize>)
    requires
        sel@.len() == adj@.len(),
    ensures
        ordered(lists(adj@), sel@, order@),
{
    let n: usize = adj.len();
    let ghost g = lists(adj@);
    let mut done: Vec<bool> = Vec::new();
    let mut i: usize = 0;
    while i < n
        invariant
            i <= n,
            done@.len() == i,
            forall|x: int| 0 <= x < i ==> !done@[x],
        decreases n - i,
    {
        done.push(false);
        i = i + 1;
    }
    let mut order: Vec<usize> = Vec::new();
    assert(done@ =~= marked(order@, n as nat));
    let mut pick: Option<usize> = next_node(adj, sel, &done);
    while pick.is_some()
        invariant
            n == adj@.len(),
            sel@.len() == n,
            done@.len() == n,
            g == lists(adj@),
            done@ == marked(order@, n as nat),
            forall|p: int|
                0 <= p < order@.len() ==> is_next(
                    g,
                    sel@,
                    marked(order@.take(p), n as nat),
                    #[trigger] order@[p] as int,
                ),
            match pick {
                Some(a) => is_next(g, sel@, done@, a as int),
                None => forall|x: int| !pending(sel@, done@, x),
            },
        decreases count_false(done@),
    {
        let a: usize = pick.unwrap();
        let ghost before = order@;
        proof {
            lemma_marked_push(before, a, n as nat);
            lemma_count_false_set(done@, a as int);
        }
        done.set(a, true);
        order.push(a);
        assert(order@.take(before.len() as int) =~= before);
        assert forall|p: int| 0 <= p < order@.len() implies is_next(
            g,
            sel@,
            marked(order@.take(p), n as nat),
            #[trigger] order@[p] as int,
        ) by {
            if p < before.len() {
                assert(order@.take(p) =~= before.take(p));
            }
        }
        pick = next_node(adj, sel, &done);
    }
    assert forall|a: int| 0 <= a < n && sel@[a] implies order@.contains(a as usize) by {
        assert(!pending(sel@, done@, a));
    }
    order
}

/// There is one order only.
pub proof fn lemma_order_unique(g: Seq<Seq<usize>>, sel: Seq<bool>, o1: Seq<usize>, o2: Seq<usize>)
    requires
        ordered(g, sel, o1),
        ordered(g, sel, o2),
    ensures
        o1 == o2,
{
    lemma_order_prefix(g, sel, o1, o2, if o1.len() <= o2.len() {
        o1.len()
    } else {
        o2.len()
    });
    assert(o1.take(o1.len() as int) == o1);
    assert(o2.take(o2.len() as int) == o2);
    if o1.len() <= o2.len() {
        lemma_order_complete(g, sel, o1, o2);
    } else {
        lemma_order_complete(g, sel, o2, o1);
    }
}

proof fn lemma_order_prefix(
    g: Seq<Seq<usize>>,
    sel: Seq<bool>,
    o1: Seq<usize>,
    o2: Seq<usize>,
    k: nat,
)
    requires
        ordered(g, sel, o1),
        ordered(g, sel, o2),
        k <= o1.len(),
        k <= o2.len(),
    ensures
        o1.take(k as int) == o2.take(k as int),
    decreases k,
{
    if k == 0 {
        assert(o1.take(0) =~= o2.take(0));
    } else {
        let p = (k - 1) as int;
        lemma_order_prefix(g, sel, o1, o2, (k - 1) as nat);
        let done = marked(o1.take(p), sel.len());
        assert(is_next(g, sel, done, o1[p] as int));
        assert(is_next(g, sel, done, o2[p] as int));
        assert(o1[p] == o2[p]);
        assert(o1.take(k as int) =~= o1.take(p).push(o1[p]));
        assert(o2.take(k as int) =~= o2.take(p).push(o2[p]));
    }
}

proof fn lemma_order_complete(g: Seq<Seq<usize>>, sel: Seq<bool>, short: Seq<usize>, long: Seq<usize>)
    requires
        ordered(g, sel, short),
        ordered(g, sel, long),
        short.len() <= long.len(),
        short == long.take(short.len() as int),
    ensures
        short.len() == long.len(),
{
    if short.len() < long.len() {
        let p = short.len() as int;
        let a = long[p] as int;
        assert(is_next(g, sel, marked(long.take(p), sel.len()), a));
        assert(pending(sel, marked(short, sel.len()), a));
        assert(short.contains(a as usize));
    }
}

/// Where the edges among the chosen nodes go down along a rank, a node comes
/// in the order after all chosen nodes that it has an edge to.
pub proof fn lemma_order_respects_edges(
    g: Seq<Seq<usize>>,
    sel: Seq<bool>,
    order: Seq<usize>,
    rank: spec_fn(int) -> nat,
    p: int,
    b: int,
)
    requires
        sel.len() == g.len(),
        ordered(g, sel, order),
        forall|x: int, y: int|
            (#[trigger] edge(g, x, y)) && x != y && sel[x] && sel[y] ==> rank(y) < rank(x),
        0 <= p < order.len(),
        edge(g, order[p] as int, b),
        b != order[p],
        sel[b],
    ensures
        order.take(p).contains(b as usize),
{
    let done = marked(order.take(p), sel.len());
    let a = order[p] as int;
    assert(is_next(g, sel, done, a));
    if !exists|r: int| ready(g, sel, done, r) {
        lemma_some_ready(g, sel, done, rank, a);
    }
    assert(ready(g, sel, done, a));
    assert(done[b]);
}

proof fn lemma_some_ready(
    g: Seq<Seq<usize>>,
    sel: Seq<bool>,
    done: Seq<bool>,
    rank: spec_fn(int) -> nat,
    x: int,
)
    requires
        sel.len() == g.len(),
        done.len() == g.len(),
        forall|x: int, y: int|
            (#[trigger] edge(g, x, y)) && x != y && sel[x] && sel[y] ==> rank(y) < rank(x),
        pending(sel, done, x),
    ensures
        exists|r: int| ready(g, sel, done, r),
    decreases rank(x),
{
    if !ready(g, sel, done, x) {
        let b = choose|b: int| (#[trigger] edge(g, x, b)) && b != x && sel[b] && !done[b];
        lemma_some_ready(g, sel, done, rank, b);
    }
}

} // verus!
