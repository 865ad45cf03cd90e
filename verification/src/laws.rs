//! What holds of a generation pass as a whole.

use vstd::prelude::*;
use crate::bindings::{chosen, graph_of, produced, text_of, BindingsModel};
use crate::emit::{dep_graph, fulls, loose, order_deps};
use crate::filter::{emitted, global_refs, ref_graph, root_marks, selects};
use crate::graph::{
    edge, is_next, lemma_order_respects_edges, lemma_order_unique, lemma_reach_step, marked, ordered, pending,
    reach_in, reachable,
};
use crate::names::{keyword_views, lemma_names_distinct, lemma_names_unique};
use crate::options::{ikind_of_name, BindgenOptions};
use crate::raw::RawDecl;
use crate::registry::RegistryModel;
use crate::strings::views;
use crate::types::{GlobalModel, IKind, NodeModel};

verus! {

/// Two passes over the same stream under the same configuration give the
/// same bindings, and so the same text.
pub proof fn lemma_generation_is_deterministic(
    options: BindgenOptions,
    decls: Seq<RawDecl>,
    b1: BindingsModel,
    b2: BindingsModel,
)
    requires
        produced(options, decls, b1),
        produced(options, decls, b2),
    ensures
        b1 == b2,
        text_of(b1) == text_of(b2),
{
    lemma_names_unique(b1.nodes, keyword_views(), b1.names, b2.names);
    lemma_order_unique(dep_graph(b1.nodes), chosen(b1.nodes, options), fulls(b1.items), fulls(b2.items));
}

/// Registering a declaration a second time changes nothing.
pub proof fn lemma_register_is_idempotent(s: RegistryModel, raw: RawDecl)
    requires
        s.wf(),
        s.nodes.len() < usize::MAX,
    ensures
        !s.registered(raw).rejects(raw),
        s.registered(raw).registered(raw) == s.registered(raw),
{
    let t = s.registered(raw);
    assert(t.index.contains_key(raw.id));
    assert(!t.fills(raw));
    assert(t.declared(raw) == t);
    assert(t.stored(raw) is None);
}

/// Registering a declaration whose identity is known adds no node.
pub proof fn lemma_known_identity_adds_no_node(s: RegistryModel, raw: RawDecl)
    requires
        s.wf(),
        s.index.contains_key(raw.id),
    ensures
        s.registered(raw).nodes.len() == s.nodes.len(),
        s.registered(raw).index == s.index,
{
}

/// Registering keeps the registry well formed.
pub proof fn lemma_registered_wf(s: RegistryModel, raw: RawDecl)
    requires
        s.wf(),
        s.nodes.len() < usize::MAX,
    ensures
        s.declared(raw).wf(),
        s.registered(raw).wf(),
        s.registered(raw).nodes.len() <= s.nodes.len() + 1,
        s.registered(raw).strict == s.strict,
        s.registered(raw).enum_kind == s.enum_kind,
{
    let d = s.declared(raw);
    assert(d.wf());
    let t = s.registered(raw);
    assert(t.wf());
}

/// A stream that is registered leaves a well-formed registry: no two nodes
/// have the same identity.
pub proof fn lemma_outcome_wf(s: RegistryModel, decls: Seq<RawDecl>)
    requires
        s.wf(),
        s.nodes.len() + decls.len() <= usize::MAX,
    ensures
        s.outcome(decls) matches Ok(t) ==> t.wf() && t.nodes.len() <= s.nodes.len() + decls.len()
            && t.strict == s.strict && t.enum_kind == s.enum_kind,
    decreases decls.len(),
{
    if decls.len() > 0 {
        lemma_outcome_wf(s, decls.drop_last());
        match s.outcome(decls.drop_last()) {
            Ok(u) => {
                lemma_registered_wf(u, decls.last());
            },
            Err(_) => {},
        }
    }
}

/// In a well-formed registry a declaration identity has one node.
pub proof fn lemma_one_node_for_each_identity(s: RegistryModel, i: int, j: int)
    requires
        s.wf(),
        0 <= i < s.nodes.len(),
        0 <= j < s.nodes.len(),
        s.nodes[i].raw == s.nodes[j].raw,
    ensures
        i == j,
{
}

/// Where types need not be classified, no stream aborts the pass.
pub proof fn lemma_lenient_pass_never_fails(s: RegistryModel, decls: Seq<RawDecl>)
    requires
        !s.strict,
    ensures
        s.outcome(decls) is Ok,
        s.outcome(decls)->Ok_0.strict == s.strict,
    decreases decls.len(),
{
    if decls.len() > 0 {
        lemma_lenient_pass_never_fails(s, decls.drop_last());
    }
}

/// Whether every enum with a body among the nodes has kind `k`.
pub open spec fn enums_are(nodes: Seq<NodeModel>, k: IKind) -> bool {
    forall|i: int|
        0 <= i < nodes.len() ==> ((#[trigger] nodes[i]).global matches GlobalModel::Enum { kind, .. }
            ==> kind == k)
}

/// A forced kind is the kind of every enum that a stream brings.
pub proof fn lemma_forced_kind_reaches_every_enum(s: RegistryModel, decls: Seq<RawDecl>, k: IKind)
    requires
        s.wf(),
        s.nodes.len() + decls.len() <= usize::MAX,
        s.enum_kind == Some(k),
        enums_are(s.nodes, k),
    ensures
        s.outcome(decls) matches Ok(t) ==> t.enum_kind == Some(k) && enums_are(t.nodes, k),
    decreases decls.len(),
{
    if decls.len() > 0 {
        lemma_forced_kind_reaches_every_enum(s, decls.drop_last(), k);
        lemma_outcome_wf(s, decls.drop_last());
        match s.outcome(decls.drop_last()) {
            Ok(u) => {
                let raw = decls.last();
                let d = u.declared(raw);
                lemma_registered_wf(u, raw);
                assert(enums_are(d.nodes, k));
                let t = u.registered(raw);
                assert forall|i: int| 0 <= i < t.nodes.len() implies ((#[trigger] t.nodes[i]).global matches GlobalModel::Enum {
                    kind,
                    ..
                } ==> kind == k) by {
                    match u.stored(raw) {
                        Some(g) => {
                            assert(g matches GlobalModel::Enum { kind, .. } ==> kind == k);
                            if u.is_new_whole(raw) {
                                if i < u.nodes.len() {
                                    assert(t.nodes[i] == u.nodes[i]);
                                }
                            } else {
                                if i != d.index[raw.id] as int {
                                    assert(t.nodes[i] == d.nodes[i]);
                                }
                            }
                        },
                        None => {},
                    }
                }
            },
            Err(_) => {},
        }
    }
}

/// The bindings of a pass under a forced kind hold no enum of another kind.
pub proof fn lemma_override_holds_of_bindings(
    options: BindgenOptions,
    decls: Seq<RawDecl>,
    b: BindingsModel,
    k: IKind,
)
    requires
        produced(options, decls, b),
        decls.len() <= usize::MAX,
        ikind_of_name(options.override_enum_ty@) == Some(k),
    ensures
        enums_are(b.nodes, k),
{
    let s = RegistryModel::empty(options.fail_on_unknown_type, Some(k));
    lemma_forced_kind_reaches_every_enum(s, decls, k);
}

/// What the configuration selects is emitted.
pub proof fn lemma_selected_is_emitted(
    nodes: Seq<NodeModel>,
    patterns: Seq<Seq<char>>,
    builtins: bool,
    builtin_names: Seq<Seq<char>>,
    a: int,
)
    requires
        0 <= a < nodes.len(),
        selects(nodes[a], patterns, builtins, builtin_names),
    ensures
        emitted(nodes, patterns, builtins, builtin_names, a),
{
    assert(reach_in(ref_graph(nodes, false), root_marks(nodes, patterns, builtins, builtin_names), a, 0));
}

/// What an emitted declaration refers to is emitted.
pub proof fn lemma_emitted_is_closed(
    nodes: Seq<NodeModel>,
    patterns: Seq<Seq<char>>,
    builtins: bool,
    builtin_names: Seq<Seq<char>>,
    a: int,
    b: int,
)
    requires
        emitted(nodes, patterns, builtins, builtin_names, a),
        edge(ref_graph(nodes, false), a, b),
    ensures
        emitted(nodes, patterns, builtins, builtin_names, b),
{
    lemma_reach_step(
        ref_graph(nodes, false),
        root_marks(nodes, patterns, builtins, builtin_names),
        a,
        b,
    );
}

/// Nothing is emitted without need: what is emitted is selected, or an
/// emitted declaration refers to it.
pub proof fn lemma_emitted_is_needed(
    nodes: Seq<NodeModel>,
    patterns: Seq<Seq<char>>,
    builtins: bool,
    builtin_names: Seq<Seq<char>>,
    b: int,
)
    requires
        emitted(nodes, patterns, builtins, builtin_names, b),
    ensures
        0 <= b < nodes.len(),
        selects(nodes[b], patterns, builtins, builtin_names) || exists|a: int|
            emitted(nodes, patterns, builtins, builtin_names, a) && #[trigger] edge(
                ref_graph(nodes, false),
                a,
                b,
            ),
{
    let g = ref_graph(nodes, false);
    let roots = root_marks(nodes, patterns, builtins, builtin_names);
    let k = choose|k: nat| reach_in(g, roots, b, k);
    lemma_reach_unfold(g, roots, b, k);
}

proof fn lemma_reach_unfold(g: Seq<Seq<usize>>, roots: Seq<bool>, b: int, k: nat)
    requires
        reach_in(g, roots, b, k),
    ensures
        0 <= b < g.len(),
        (b < roots.len() && roots[b]) || exists|a: int| reachable(g, roots, a) && #[trigger] edge(g, a, b),
    decreases k,
{
    if k > 0 {
        if reach_in(g, roots, b, (k - 1) as nat) {
            lemma_reach_unfold(g, roots, b, (k - 1) as nat);
        } else {
            let a = choose|a: int| reach_in(g, roots, a, (k - 1) as nat) && #[trigger] edge(g, a, b);
            assert(reachable(g, roots, a));
        }
    }
}

/// The body of a node comes once in the order.
pub proof fn lemma_each_body_once(g: Seq<Seq<usize>>, sel: Seq<bool>, order: Seq<usize>, p: int, q: int)
    requires
        ordered(g, sel, order),
        0 <= p < q < order.len(),
    ensures
        order[p] != order[q],
        sel[order[p] as int],
{
    let done = marked(order.take(q), sel.len());
    assert(is_next(g, sel, done, order[q] as int));
    assert(pending(sel, done, order[q] as int));
    assert(order.take(q)[p] == order[p]);
    let early = marked(order.take(p), sel.len());
    assert(is_next(g, sel, early, order[p] as int));
    assert(pending(sel, early, order[p] as int));
}

/// In the bindings of a pass, no two nodes have the same identifier.
pub proof fn lemma_identifiers_are_distinct(
    options: BindgenOptions,
    decls: Seq<RawDecl>,
    b: BindingsModel,
    i: int,
    j: int,
)
    requires
        produced(options, decls, b),
        0 <= i < j < b.nodes.len(),
    ensures
        b.names[i] != b.names[j],
{
    lemma_names_distinct(b.nodes, keyword_views(), b.names, i, j);
}

/// A node that has its body keeps it, and no node loses its identity or its
/// place.
pub proof fn lemma_filled_node_is_kept(s: RegistryModel, raw: RawDecl, i: int)
    requires
        s.wf(),
        s.nodes.len() < usize::MAX,
        0 <= i < s.nodes.len(),
    ensures
        s.registered(raw).nodes.len() >= s.nodes.len(),
        s.registered(raw).nodes[i].raw == s.nodes[i].raw,
        s.registered(raw).nodes[i].name == s.nodes[i].name,
        !(s.nodes[i].global is CompDecl) && !(s.nodes[i].global is EnumDecl) ==> s.registered(raw).nodes[i]
            == s.nodes[i],
{
}

/// Where what the chosen declarations hold by value goes down along a rank,
/// as it does in every valid header, the body of a declaration comes after
/// the bodies of all that it holds by value.
pub proof fn lemma_bodies_follow_their_parts(
    options: BindgenOptions,
    decls: Seq<RawDecl>,
    b: BindingsModel,
    rank: spec_fn(int) -> nat,
    p: int,
    part: int,
)
    requires
        produced(options, decls, b),
        forall|x: int, y: int|
            (#[trigger] edge(dep_graph(b.nodes), x, y)) && x != y && chosen(b.nodes, options)[x] && chosen(
                b.nodes,
                options,
            )[y] ==> rank(y) < rank(x),
        0 <= p < fulls(b.items).len(),
        edge(dep_graph(b.nodes), fulls(b.items)[p] as int, part),
        part != fulls(b.items)[p],
        chosen(b.nodes, options)[part],
    ensures
        fulls(b.items).take(p).contains(part as usize),
{
    lemma_order_respects_edges(
        dep_graph(b.nodes),
        chosen(b.nodes, options),
        fulls(b.items),
        rank,
        p,
        part,
    );
}

/// A reference from behind a pointer to a struct, a union or an enum forces
/// no order: where a declaration holds nothing by value, its body waits for
/// no struct, union or enum.
pub proof fn lemma_pointers_force_no_order(nodes: Seq<NodeModel>, a: int, b: usize)
    requires
        0 <= a < nodes.len(),
        b < nodes.len(),
        global_refs(nodes[a].global, true).len() == 0,
        nodes[b as int].is_tagged(),
    ensures
        !edge(dep_graph(nodes), a, b as int),
{
    let all = global_refs(nodes[a].global, false);
    lemma_loose_is_untagged(nodes, all, all.len(), b);
    assert(order_deps(nodes, a) =~= loose(nodes, all, all.len()));
}

proof fn lemma_loose_is_untagged(nodes: Seq<NodeModel>, all: Seq<usize>, m: nat, b: usize)
    requires
        b < nodes.len(),
        nodes[b as int].is_tagged(),
    ensures
        !loose(nodes, all, m).contains(b),
    decreases m,
{
    if m > 0 && m <= all.len() {
        lemma_loose_is_untagged(nodes, all, (m - 1) as nat, b);
        let prev = loose(nodes, all, (m - 1) as nat);
        if loose(nodes, all, m).contains(b) {
            let now = loose(nodes, all, m);
            let i = choose|i: int| 0 <= i < now.len() && now[i] == b;
            if i < prev.len() {
                assert(prev[i] == b);
            }
        }
    }
}

} // verus!
