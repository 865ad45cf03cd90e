//! Which declarations are emitted: those that the configuration selects, and
//! all that they depend on.

use vstd::prelude::*;
use vstd::utf8::encode_utf8;
use crate::graph::{closure, lists, reachable};
use crate::strings::{contains_str, views};
use crate::types::{
    fields_model, nodes_model, FieldModel, FuncSig, Global, GlobalModel, Node, NodeModel, SigModel, Type,
    TypeModel,
};

verus! {

/// Whether `needle` stands in `hay` at offset `k`.
pub open spec fn occurs_at(hay: Seq<u8>, needle: Seq<u8>, k: int) -> bool {
    0 <= k && k + needle.len() <= hay.len() && hay.subrange(k, k + needle.len()) == needle
}

/// Whether `needle` stands somewhere in `hay`.
pub open spec fn occurs(hay: Seq<u8>, needle: Seq<u8>) -> bool {
    exists|k: int| occurs_at(hay, needle, k)
}

/// Whether a pattern matches a file name: the bytes of the pattern stand
/// somewhere in the bytes of the name.
pub open spec fn matches_pattern(file: Seq<char>, pattern: Seq<char>) -> bool {
    occurs(encode_utf8(file), encode_utf8(pattern))
}

/// Whether one of the patterns matches a file name.
pub open spec fn matches_any(file: Seq<char>, patterns: Seq<Seq<char>>) -> bool {
    exists|i: int| 0 <= i < patterns.len() && matches_pattern(file, #[trigger] patterns[i])
}

/// Whether the compiler itself brought a declaration: it has no source file,
/// or its name is one of the compiler's.
pub open spec fn is_builtin(node: NodeModel, builtin_names: Seq<Seq<char>>) -> bool {
    node.file.len() == 0 || builtin_names.contains(node.name)
}

/// Whether the configuration selects a declaration: it is not nested in
/// another, the compiler's own are allowed or it is none of them, and there
/// are no patterns or one of them matches its source file.
pub open spec fn selects(
    node: NodeModel,
    patterns: Seq<Seq<char>>,
    builtins: bool,
    builtin_names: Seq<Seq<char>>,
) -> bool {
    &&& node.parent is None
    &&& (builtins || !is_builtin(node, builtin_names))
    &&& (patterns.len() == 0 || matches_any(node.file, patterns))
}

fn stands_at(hay: &[u8], needle: &[u8], k: usize) -> (r: bool)
    requires
        k + needle@.len() <= hay@.len(),
    ensures
        r == occurs_at(hay@, needle@, k as int),
{
    let n: usize = hay.len();
    let m: usize = needle.len();
    let mut j: usize = 0;
    while j < m
        invariant
            n == hay@.len(),
            m == needle@.len(),
            k + m <= hay@.len(),
            j <= m,
            forall|t: int| 0 <= t < j ==> hay@[k + t] == needle@[t],
        decreases m - j,
    {
        if hay[k + j] != needle[j] {
            assert(hay@.subrange(k as int, k + m)[j as int] == hay@[k + j]);
            return false;
        }
        j = j + 1;
    }
    assert(hay@.subrange(k as int, k + m) =~= needle@);
    true
}

/// Whether `needle` stands somewhere in `hay`.
pub fn contains_bytes(hay: &[u8], needle: &[u8]) -> (r: bool)
    ensures
        r == occurs(hay@, needle@),
{
    let n: usize = hay.len();
    let m: usize = needle.len();
    if m > n {
        return false;
    }
    let last: usize = n - m;
    let mut k: usize = 0;
    loop
        invariant
            n == hay@.len(),
            m == needle@.len(),
            last == n - m,
            k <= last,
            forall|t: int| 0 <= t < k ==> !occurs_at(hay@, needle@, t),
        decreases last - k,
    {
        if stands_at(hay, needle, k) {
            return true;
        }
        if k == last {
            return false;
        }
        k = k + 1;
    }
}

/// Whether one of the patterns matches a file name.
pub fn matches_some(file: &str, patterns: &Vec<String>) -> (r: bool)
    ensures
        r == matches_any(file@, views(patterns@)),
{
    let n: usize = patterns.len();
    let mut i: usize = 0;
    while i < n
        invariant
            n == patterns@.len(),
            i <= n,
            forall|j: int| 0 <= j < i ==> !matches_pattern(file@, #[trigger] views(patterns@)[j]),
        decreases n - i,
    {
        if contains_bytes(file.as_bytes(), patterns[i].as_str().as_bytes()) {
            assert(matches_pattern(file@, views(patterns@)[i as int]));
            return true;
        }
        i = i + 1;
    }
    false
}

/// Whether the configuration selects a declaration.
pub fn select(node: &Node, patterns: &Vec<String>, builtins: bool, builtin_names: &Vec<String>) -> (r:
    bool)
    ensures
        r == selects(node@, views(patterns@), builtins, views(builtin_names@)),
{
    if node.parent.is_some() {
        return false;
    }
    if !builtins {
        if node.file.as_str().is_empty() {
            return false;
        }
        if contains_str(builtin_names, node.name.as_str()) {
            return false;
        }
    }
    patterns.len() == 0 || matches_some(node.file.as_str(), patterns)
}

/// The nodes that a type refers to, in order, each as often as it is named.
/// With `by_value`, only those whose body the type holds: what stands behind
/// a pointer or in a function type is left out.
pub open spec fn refs(ty: TypeModel, by_value: bool) -> Seq<usize>
    decreases ty, 0nat,
{
    match ty {
        TypeModel::Pointer(t, _) => if by_value {
            Seq::empty()
        } else {
            refs(*t, by_value)
        },
        TypeModel::Array(t, _) => refs(*t, by_value),
        TypeModel::Function(sig) => if by_value {
            Seq::empty()
        } else {
            sig_refs(*sig, sig.params.len())
        },
        TypeModel::Named(k) => seq![k],
        _ => Seq::empty(),
    }
}

/// The nodes that the return type and the first `n` parameters of a
/// signature refer to, in order.
pub open spec fn sig_refs(sig: SigModel, n: nat) -> Seq<usize>
    decreases sig, n,
{
    if n == 0 || n > sig.params.len() {
        refs(sig.ret, false)
    } else {
        sig_refs(sig, (n - 1) as nat) + refs(sig.params[n - 1].ty, false)
    }
}

/// The nodes that the first `n` fields refer to, in order.
pub open spec fn field_refs(fields: Seq<FieldModel>, n: nat, by_value: bool) -> Seq<usize>
    decreases n,
{
    if n == 0 || n > fields.len() {
        Seq::empty()
    } else {
        field_refs(fields, (n - 1) as nat, by_value) + refs(fields[n - 1].ty, by_value)
    }
}

/// The nodes that a declaration refers to, in order.
pub open spec fn global_refs(g: GlobalModel, by_value: bool) -> Seq<usize> {
    match g {
        GlobalModel::TypeAlias { ty } => refs(ty, by_value),
        GlobalModel::Comp { fields, .. } => field_refs(fields, fields.len(), by_value),
        GlobalModel::Var { ty, .. } => refs(ty, by_value),
        GlobalModel::Func { sig, .. } => if by_value {
            Seq::empty()
        } else {
            sig_refs(sig, sig.params.len())
        },
        _ => Seq::empty(),
    }
}

/// Appends to `out` the nodes that a type refers to.
pub fn collect_refs(ty: &Type, by_value: bool, out: &mut Vec<usize>)
    ensures
        final(out)@ == old(out)@ + refs(ty@, by_value),
    decreases *ty,
{
    match ty {
        Type::Pointer(t, _) => {
            if by_value {
                assert(out@ =~= out@ + Seq::<usize>::empty());
            } else {
                collect_refs(t, by_value, out);
            }
        },
        Type::Array(t, _) => collect_refs(t, by_value, out),
        Type::Function(sig) => {
            if by_value {
                assert(out@ =~= out@ + Seq::<usize>::empty());
            } else {
                collect_sig_refs(sig, out);
            }
        },
        Type::Named(k) => {
            out.push(*k);
            assert(out@ =~= old(out)@ + seq![*k]);
        },
        _ => {
            assert(out@ =~= out@ + Seq::<usize>::empty());
        },
    }
}

/// Appends to `out` the nodes that a signature refers to.
#[verifier::loop_isolation(false)]
pub fn collect_sig_refs(sig: &FuncSig, out: &mut Vec<usize>)
    ensures
        final(out)@ == old(out)@ + sig_refs(sig@, sig@.params.len()),
    decreases *sig,
{
    collect_refs(&sig.ret, false, out);
    let n: usize = sig.params.len();
    let mut i: usize = 0;
    while i < n
        invariant
            i <= n,
            out@ == old(out)@ + sig_refs(sig@, i as nat),
        decreases n - i,
    {
        collect_refs(&sig.params[i].ty, false, out);
        assert(out@ =~= old(out)@ + sig_refs(sig@, (i + 1) as nat)) by {
            assert(sig@.params[i as int].ty == sig.params@[i as int].ty@);
        }
        i = i + 1;
    }
}

/// Appends to `out` the nodes that a declaration refers to.
pub fn collect_global_refs(g: &Global, by_value: bool, out: &mut Vec<usize>)
    ensures
        final(out)@ == old(out)@ + global_refs(g@, by_value),
{
    match g {
        Global::TypeAlias { ty } => collect_refs(ty, by_value, out),
        Global::Comp { fields, .. } => {
            let n: usize = fields.len();
            let mut i: usize = 0;
            assert(out@ =~= old(out)@ + field_refs(g@->Comp_fields, 0, by_value));
            while i < n
                invariant
                    n == fields@.len(),
                    i <= n,
                    g@ is Comp,
                    g@->Comp_fields == fields_model(fields@),
                    out@ == old(out)@ + field_refs(g@->Comp_fields, i as nat, by_value),
                decreases n - i,
            {
                collect_refs(&fields[i].ty, by_value, out);
                assert(out@ =~= old(out)@ + field_refs(g@->Comp_fields, (i + 1) as nat, by_value)) by {
                    assert(fields_model(fields@)[i as int].ty == fields@[i as int].ty@);
                }
                i = i + 1;
            }
        },
        Global::Var { ty, .. } => collect_refs(ty, by_value, out),
        Global::Func { sig, .. } => {
            if by_value {
                assert(out@ =~= out@ + Seq::<usize>::empty());
            } else {
                collect_sig_refs(sig, out);
            }
        },
        _ => {
            assert(out@ =~= out@ + Seq::<usize>::empty());
        },
    }
}

/// The graph of references among the nodes: for each node, those that its
/// declaration refers to.
pub open spec fn ref_graph(nodes: Seq<NodeModel>, by_value: bool) -> Seq<Seq<usize>> {
    Seq::new(nodes.len(), |a: int| global_refs(nodes[a].global, by_value))
}

/// For each node, whether the configuration selects it.
pub open spec fn root_marks(
    nodes: Seq<NodeModel>,
    patterns: Seq<Seq<char>>,
    builtins: bool,
    builtin_names: Seq<Seq<char>>,
) -> Seq<bool> {
    Seq::new(nodes.len(), |i: int| selects(nodes[i], patterns, builtins, builtin_names))
}

/// Whether a node is emitted: the configuration selects it, or a node that is
/// emitted refers to it.
pub open spec fn emitted(
    nodes: Seq<NodeModel>,
    patterns: Seq<Seq<char>>,
    builtins: bool,
    builtin_names: Seq<Seq<char>>,
    i: int,
) -> bool {
    reachable(ref_graph(nodes, false), root_marks(nodes, patterns, builtins, builtin_names), i)
}

/// For each node, the nodes that its declaration refers to.
pub fn ref_lists(nodes: &Vec<Node>, by_value: bool) -> (adj: Vec<Vec<usize>>)
    ensures
        lists(adj@) == ref_graph(nodes_model(nodes@), by_value),
{
    let n: usize = nodes.len();
    let mut adj: Vec<Vec<usize>> = Vec::new();
    let mut i: usize = 0;
    while i < n
        invariant
            n == nodes@.len(),
            i <= n,
            adj@.len() == i,
            forall|a: int| 0 <= a < i ==> (#[trigger] adj@[a])@ == global_refs(nodes@[a]@.global, by_value),
        decreases n - i,
    {
        let mut row: Vec<usize> = Vec::new();
        collect_global_refs(&nodes[i].global, by_value, &mut row);
        assert(row@ =~= global_refs(nodes@[i as int]@.global, by_value));
        adj.push(row);
        i = i + 1;
    }
    assert(lists(adj@) =~= ref_graph(nodes_model(nodes@), by_value));
    adj
}

/// Decides for each node whether it is emitted.
pub fn select_all(
    nodes: &Vec<Node>,
    patterns: &Vec<String>,
    builtins: bool,
    builtin_names: &Vec<String>,
) -> (marks: Vec<bool>)
    ensures
        marks@.len() == nodes@.len(),
        forall|i: int|
            0 <= i < nodes@.len() ==> (marks@[i] <==> emitted(
                nodes_model(nodes@),
                views(patterns@),
                builtins,
                views(builtin_names@),
                i,
            )),
{
    let n: usize = nodes.len();
    let mut roots: Vec<bool> = Vec::new();
    let mut i: usize = 0;
    while i < n
        invariant
            n == nodes@.len(),
            i <= n,
            roots@.len() == i,
            forall|j: int|
                0 <= j < i ==> roots@[j] == selects(
                    nodes@[j]@,
                    views(patterns@),
                    builtins,
                    views(builtin_names@),
                ),
        decreases n - i,
    {
        roots.push(select(&nodes[i], patterns, builtins, builtin_names));
        i = i + 1;
    }
    assert(roots@ =~= root_marks(
        nodes_model(nodes@),
        views(patterns@),
        builtins,
        views(builtin_names@),
    ));
    let adj = ref_lists(nodes, false);
    assert(adj@.len() == lists(adj@).len());
    closure(&adj, &roots)
}

} // verus!
