//! The identifiers of the nodes: none twice, none a reserved word.

use vstd::prelude::*;
use vstd::string::*;
use crate::strings::{contains_str, lemma_views_push, views};
use crate::types::{nodes_model, Global, GlobalModel, Node, NodeModel};

verus! {

/// What stands before the spelling of a declaration, by what it declares:
/// the tags of C have a name space of their own.
pub open spec fn prefix(g: GlobalModel) -> Seq<char> {
    match g {
        GlobalModel::CompDecl { is_union } => if is_union {
            "Union_"@
        } else {
            "Struct_"@
        },
        GlobalModel::Comp { is_union, .. } => if is_union {
            "Union_"@
        } else {
            "Struct_"@
        },
        GlobalModel::EnumDecl => "Enum_"@,
        GlobalModel::Enum { .. } => "Enum_"@,
        _ => Seq::empty(),
    }
}

/// The nearest declaration with a name of its own that node `i` is nested in.
pub open spec fn named_ancestor(nodes: Seq<NodeModel>, i: int) -> Option<usize>
    decreases i,
{
    if 0 <= i < nodes.len() {
        match nodes[i].parent {
            Some(p) => if p < i {
                if nodes[p as int].anonymous() {
                    named_ancestor(nodes, p as int)
                } else {
                    Some(p)
                }
            } else {
                None
            },
            None => None,
        }
    } else {
        None
    }
}

/// The nearest named ancestor of a node comes before the node and has a name.
pub proof fn lemma_named_ancestor(nodes: Seq<NodeModel>, i: int)
    ensures
        named_ancestor(nodes, i) matches Some(a) ==> a < i && a < nodes.len() && !nodes[a as int].anonymous(),
    decreases i,
{
    if 0 <= i < nodes.len() {
        match nodes[i].parent {
            Some(p) => {
                if p < i && nodes[p as int].anonymous() {
                    lemma_named_ancestor(nodes, p as int);
                }
            },
            None => {},
        }
    }
}

/// How many of the first `upto` nodes are anonymous and have `scope` as
/// their nearest named ancestor.
pub open spec fn count_anon(nodes: Seq<NodeModel>, scope: Option<usize>, upto: int) -> nat
    decreases upto,
{
    if upto <= 0 {
        0
    } else {
        count_anon(nodes, scope, upto - 1) + if upto - 1 < nodes.len() && nodes[upto - 1].anonymous()
            && named_ancestor(nodes, upto - 1) == scope {
            1nat
        } else {
            0nat
        }
    }
}

/// A decimal digit.
pub open spec fn digit(d: nat) -> Seq<char> {
    if d == 0 {
        "0"@
    } else if d == 1 {
        "1"@
    } else if d == 2 {
        "2"@
    } else if d == 3 {
        "3"@
    } else if d == 4 {
        "4"@
    } else if d == 5 {
        "5"@
    } else if d == 6 {
        "6"@
    } else if d == 7 {
        "7"@
    } else if d == 8 {
        "8"@
    } else {
        "9"@
    }
}

/// A number in decimal, without leading zeros.
pub open spec fn digits(n: nat) -> Seq<char>
    decreases n,
{
    if n < 10 {
        digit(n)
    } else {
        digits(n / 10) + digit(n % 10)
    }
}

/// The spelling of a node: its own where it has one; else that of its
/// nearest named ancestor, an underscore, and the number of the node among
/// the anonymous ones with that ancestor, counted from one in node order.
pub open spec fn spelling(nodes: Seq<NodeModel>, i: int) -> Seq<char> {
    if nodes[i].anonymous() {
        let scope = named_ancestor(nodes, i);
        let outer = match scope {
            Some(p) => nodes[p as int].name,
            None => Seq::empty(),
        };
        outer + "_"@ + digits(count_anon(nodes, scope, i) + 1)
    } else {
        nodes[i].name
    }
}

/// The identifier that a node gets where nothing stands in the way.
pub open spec fn base_name(nodes: Seq<NodeModel>, i: int) -> Seq<char> {
    prefix(nodes[i].global) + spelling(nodes, i)
}

/// `k` underscores.
pub open spec fn underscores(k: nat) -> Seq<char>
    decreases k,
{
    if k == 0 {
        Seq::empty()
    } else {
        underscores((k - 1) as nat) + "_"@
    }
}

/// Whether an identifier is a reserved word or belongs to an earlier node.
pub open spec fn taken(reserved: Seq<Seq<char>>, earlier: Seq<Seq<char>>, s: Seq<char>) -> bool {
    reserved.contains(s) || earlier.contains(s)
}

/// Whether `name` is the identifier of a node with the given base name: the
/// base name with the fewest underscores behind it that make it free.
pub open spec fn is_fresh(
    reserved: Seq<Seq<char>>,
    earlier: Seq<Seq<char>>,
    base: Seq<char>,
    name: Seq<char>,
) -> bool {
    exists|k: nat|
        {
            &&& name == base + #[trigger] underscores(k)
            &&& !taken(reserved, earlier, name)
            &&& forall|j: nat| j < k ==> taken(reserved, earlier, base + #[trigger] underscores(j))
        }
}

/// Whether `names` holds the identifiers of the nodes, assigned in node
/// order.
pub open spec fn names_ok(nodes: Seq<NodeModel>, reserved: Seq<Seq<char>>, names: Seq<Seq<char>>) -> bool {
    &&& names.len() == nodes.len()
    &&& forall|i: int|
        0 <= i < nodes.len() ==> is_fresh(reserved, names.take(i), base_name(nodes, i), #[trigger] names[i])
}

/// The length of the longest of some strings.
pub open spec fn longest(s: Seq<Seq<char>>) -> nat
    decreases s.len(),
{
    if s.len() == 0 {
        0
    } else if s.last().len() > longest(s.drop_last()) {
        s.last().len()
    } else {
        longest(s.drop_last())
    }
}

/// No string is longer than the longest.
pub proof fn lemma_longest(s: Seq<Seq<char>>, x: Seq<char>)
    requires
        s.contains(x),
    ensures
        x.len() <= longest(s),
    decreases s.len(),
{
    if s.last() != x {
        let i = choose|i: int| 0 <= i < s.len() && s[i] == x;
        assert(s.drop_last()[i] == x);
        lemma_longest(s.drop_last(), x);
    }
}

/// The length of a run of underscores.
pub proof fn lemma_underscores_len(k: nat)
    ensures
        underscores(k).len() == k,
    decreases k,
{
    reveal_strlit("_");
    if k > 0 {
        lemma_underscores_len((k - 1) as nat);
    }
}

fn prefix_of(g: &Global) -> (r: &'static str)
    ensures
        r@ == prefix(g@),
{
    proof {
        reveal_strlit("");
    }
    match g {
        Global::CompDecl { is_union } => if *is_union {
            "Union_"
        } else {
            "Struct_"
        },
        Global::Comp { is_union, .. } => if *is_union {
            "Union_"
        } else {
            "Struct_"
        },
        Global::EnumDecl => "Enum_",
        Global::Enum { .. } => "Enum_",
        _ => "",
    }
}

fn digit_of(d: u64) -> (r: &'static str)
    requires
        d < 10,
    ensures
        r@ == digit(d as nat),
{
    if d == 0 {
        "0"
    } else if d == 1 {
        "1"
    } else if d == 2 {
        "2"
    } else if d == 3 {
        "3"
    } else if d == 4 {
        "4"
    } else if d == 5 {
        "5"
    } else if d == 6 {
        "6"
    } else if d == 7 {
        "7"
    } else if d == 8 {
        "8"
    } else {
        "9"
    }
}

/// Appends a number in decimal.
pub fn push_decimal(n: u64, out: &mut String)
    ensures
        final(out)@ == old(out)@ + digits(n as nat),
    decreases n,
{
    if n >= 10 {
        push_decimal(n / 10, out);
    }
    out.append(digit_of(n % 10));
    assert(out@ =~= old(out)@ + digits(n as nat));
}

/// Gives every node its identifier.
///
/// A node gets its base name, with as many underscores behind it as it takes
/// to tell it from the reserved words and from the identifiers of the nodes
/// before it.
pub fn resolve_names(nodes: &Vec<Node>, reserved: &Vec<String>) -> (names: Vec<String>)
    ensures
        names_ok(nodes_model(nodes@), views(reserved@), views(names@)),
{
    assign_names(nodes, reserved).0
}

/// Gives every node its identifier, and says for each node whether the
/// identifier is another than its base name.
pub fn assign_names(nodes: &Vec<Node>, reserved: &Vec<String>) -> (r: (Vec<String>, Vec<bool>))
    ensures
        names_ok(nodes_model(nodes@), views(reserved@), views(r.0@)),
        r.1@.len() == nodes@.len(),
        forall|i: int|
            0 <= i < nodes@.len() ==> r.1@[i] == (views(r.0@)[i] != base_name(nodes_model(nodes@), i)),
{
    let n: usize = nodes.len();
    let ghost model = nodes_model(nodes@);
    let mut counters: Vec<usize> = Vec::new();
    let mut c: usize = 0;
    while c < n
        invariant
            c <= n,
            counters@.len() == c,
            forall|a: int| 0 <= a < c ==> counters@[a] == 0,
        decreases n - c,
    {
        counters.push(0);
        c = c + 1;
    }
    let mut top: usize = 0;
    let mut anc: Vec<Option<usize>> = Vec::new();
    let mut names: Vec<String> = Vec::new();
    let mut moved: Vec<bool> = Vec::new();
    let mut i: usize = 0;
    while i < n
        invariant
            n == nodes@.len(),
            model == nodes_model(nodes@),
            i <= n,
            anc@.len() == i,
            names@.len() == i,
            moved@.len() == i,
            forall|j: int| 0 <= j < i ==> moved@[j] == (views(names@)[j] != base_name(model, j)),
            counters@.len() == n,
            forall|j: int| 0 <= j < i ==> anc@[j] == named_ancestor(model, j),
            forall|a: int|
                0 <= a < n ==> counters@[a] == count_anon(model, Some(a as usize), i as int)
                    && counters@[a] <= i,
            top == count_anon(model, None, i as int),
            top <= i,
            forall|j: int|
                0 <= j < i ==> is_fresh(
                    views(reserved@),
                    views(names@).take(j),
                    base_name(model, j),
                    #[trigger] views(names@)[j],
                ),
        decreases n - i,
    {
        let node = &nodes[i];
        assert(model[i as int] == node@);
        let scope: Option<usize> = match node.parent {
            Some(p) => if p < i {
                assert(model[p as int] == nodes@[p as int]@);
                if nodes[p].name.as_str().is_empty() {
                    assert(named_ancestor(model, i as int) == named_ancestor(model, p as int));
                    anc[p]
                } else {
                    assert(named_ancestor(model, i as int) == Some(p));
                    Some(p)
                }
            } else {
                None
            },
            None => None,
        };
        assert(scope == named_ancestor(model, i as int));
        proof {
            lemma_named_ancestor(model, i as int);
        }
        let mut cand: String = String::new();
        cand.append(prefix_of(&node.global));
        if node.name.as_str().is_empty() {
            let rank: usize = match scope {
                Some(a) => {
                    assert(model[a as int] == nodes@[a as int]@);
                    cand.append(nodes[a].name.as_str());
                    let r: usize = counters[a] + 1;
                    counters.set(a, r);
                    r
                },
                None => {
                    top = top + 1;
                    top
                },
            };
            cand.append("_");
            push_decimal(rank as u64, &mut cand);
            assert(cand@ =~= base_name(model, i as int));
        } else {
            cand.append(node.name.as_str());
            assert(cand@ =~= base_name(model, i as int));
        }
        assert forall|a: int| 0 <= a < n implies counters@[a] == count_anon(
            model,
            Some(a as usize),
            i as int + 1,
        ) && counters@[a] <= i + 1 by {}
        assert(top == count_anon(model, None, i as int + 1));
        let ghost base = cand@;
        let ghost earlier = views(names@);
        let ghost k: nat = 0;
        let ghost bound = longest(views(reserved@)) + longest(earlier) + 1;
        assert(cand@ =~= base + underscores(0));
        let mut free: bool = !(contains_str(reserved, cand.as_str()) || contains_str(
            &names,
            cand.as_str(),
        ));
        let mut bumped: bool = false;
        while !free
            invariant
                earlier == views(names@),
                bumped == (k > 0),
                cand@ == base + underscores(k),
                free == !taken(views(reserved@), earlier, cand@),
                forall|j: nat| j < k ==> taken(views(reserved@), earlier, base + #[trigger] underscores(j)),
                bound == longest(views(reserved@)) + longest(earlier) + 1,
            decreases bound - cand@.len(),
        {
            proof {
                if views(reserved@).contains(cand@) {
                    lemma_longest(views(reserved@), cand@);
                } else {
                    lemma_longest(earlier, cand@);
                }
                reveal_strlit("_");
            }
            cand.append("_");
            bumped = true;
            proof {
                k = k + 1;
                assert(cand@ =~= base + underscores(k));
            }
            free = !(contains_str(reserved, cand.as_str()) || contains_str(&names, cand.as_str()));
        }
        proof {
            lemma_underscores_len(k);
            assert(bumped == (cand@ != base));
            lemma_views_push(names@, cand);
            assert(earlier =~= earlier.push(cand@).take(i as int));
            assert(is_fresh(views(reserved@), earlier, base, cand@));
            assert forall|j: int| 0 <= j < i implies earlier.push(cand@).take(j) == earlier.take(j) by {
                assert(earlier.push(cand@).take(j) =~= earlier.take(j));
            }
        }
        names.push(cand);
        moved.push(bumped);
        anc.push(scope);
        i = i + 1;
    }
    assert(views(names@).len() == n);
    (names, moved)
}

/// The words that no identifier may be.
pub open spec fn keyword_views() -> Seq<Seq<char>> {
    seq![
        "as"@,
        "break"@,
        "const"@,
        "continue"@,
        "crate"@,
        "else"@,
        "enum"@,
        "extern"@,
        "false"@,
        "fn"@,
        "for"@,
        "if"@,
        "impl"@,
        "in"@,
        "let"@,
        "loop"@,
        "match"@,
        "mod"@,
        "move"@,
        "mut"@,
        "pub"@,
        "ref"@,
        "return"@,
        "self"@,
        "Self"@,
        "static"@,
        "struct"@,
        "super"@,
        "trait"@,
        "true"@,
        "type"@,
        "unsafe"@,
        "use"@,
        "where"@,
        "while"@,
    ]
}

/// The words that no identifier may be.
pub fn keywords() -> (words: Vec<String>)
    ensures
        views(words@) == keyword_views(),
{
    let mut words: Vec<String> = Vec::new();
    words.push(String::from_str("as"));
    words.push(String::from_str("break"));
    words.push(String::from_str("const"));
    words.push(String::from_str("continue"));
    words.push(String::from_str("crate"));
    words.push(String::from_str("else"));
    words.push(String::from_str("enum"));
    words.push(String::from_str("extern"));
    words.push(String::from_str("false"));
    words.push(String::from_str("fn"));
    words.push(String::from_str("for"));
    words.push(String::from_str("if"));
    words.push(String::from_str("impl"));
    words.push(String::from_str("in"));
    words.push(String::from_str("let"));
    words.push(String::from_str("loop"));
    words.push(String::from_str("match"));
    words.push(String::from_str("mod"));
    words.push(String::from_str("move"));
    words.push(String::from_str("mut"));
    words.push(String::from_str("pub"));
    words.push(String::from_str("ref"));
    words.push(String::from_str("return"));
    words.push(String::from_str("self"));
    words.push(String::from_str("Self"));
    words.push(String::from_str("static"));
    words.push(String::from_str("struct"));
    words.push(String::from_str("super"));
    words.push(String::from_str("trait"));
    words.push(String::from_str("true"));
    words.push(String::from_str("type"));
    words.push(String::from_str("unsafe"));
    words.push(String::from_str("use"));
    words.push(String::from_str("where"));
    words.push(String::from_str("while"));
    assert(views(words@) =~= keyword_views());
    words
}

/// No two nodes have the same identifier, and none has a reserved word.
pub proof fn lemma_names_distinct(
    nodes: Seq<NodeModel>,
    reserved: Seq<Seq<char>>,
    names: Seq<Seq<char>>,
    i: int,
    j: int,
)
    requires
        names_ok(nodes, reserved, names),
        0 <= i < j < nodes.len(),
    ensures
        names[i] != names[j],
        !reserved.contains(names[j]),
        !reserved.contains(names[i]),
{
    assert(is_fresh(reserved, names.take(j), base_name(nodes, j), names[j]));
    assert(is_fresh(reserved, names.take(i), base_name(nodes, i), names[i]));
    assert(names.take(j)[i] == names[i]);
}

/// The nodes and the reserved words leave one choice of identifiers only.
pub proof fn lemma_names_unique(
    nodes: Seq<NodeModel>,
    reserved: Seq<Seq<char>>,
    n1: Seq<Seq<char>>,
    n2: Seq<Seq<char>>,
)
    requires
        names_ok(nodes, reserved, n1),
        names_ok(nodes, reserved, n2),
    ensures
        n1 == n2,
{
    lemma_names_agree(nodes, reserved, n1, n2, nodes.len());
    assert(n1.take(n1.len() as int) == n1);
    assert(n2.take(n2.len() as int) == n2);
}

proof fn lemma_names_agree(
    nodes: Seq<NodeModel>,
    reserved: Seq<Seq<char>>,
    n1: Seq<Seq<char>>,
    n2: Seq<Seq<char>>,
    k: nat,
)
    requires
        names_ok(nodes, reserved, n1),
        names_ok(nodes, reserved, n2),
        k <= nodes.len(),
    ensures
        n1.take(k as int) == n2.take(k as int),
    decreases k,
{
    if k == 0 {
        assert(n1.take(0) =~= n2.take(0));
    } else {
        let i = (k - 1) as int;
        lemma_names_agree(nodes, reserved, n1, n2, (k - 1) as nat);
        let earlier = n1.take(i);
        let base = base_name(nodes, i);
        assert(is_fresh(reserved, earlier, base, n1[i]));
        assert(is_fresh(reserved, earlier, base, n2[i]));
        lemma_fresh_unique(reserved, earlier, base, n1[i], n2[i]);
        assert(n1.take(k as int) =~= n1.take(i).push(n1[i]));
        assert(n2.take(k as int) =~= n2.take(i).push(n2[i]));
    }
}

/// There is one fresh identifier only.
pub proof fn lemma_fresh_unique(
    reserved: Seq<Seq<char>>,
    earlier: Seq<Seq<char>>,
    base: Seq<char>,
    a: Seq<char>,
    b: Seq<char>,
)
    requires
        is_fresh(reserved, earlier, base, a),
        is_fresh(reserved, earlier, base, b),
    ensures
        a == b,
{
    let ka = choose|k: nat|
        {
            &&& a == base + #[trigger] underscores(k)
            &&& !taken(reserved, earlier, a)
            &&& forall|j: nat| j < k ==> taken(reserved, earlier, base + #[trigger] underscores(j))
        };
    let kb = choose|k: nat|
        {
            &&& b == base + #[trigger] underscores(k)
            &&& !taken(reserved, earlier, b)
            &&& forall|j: nat| j < k ==> taken(reserved, earlier, base + #[trigger] underscores(j))
        };
    if ka < kb {
        assert(taken(reserved, earlier, base + underscores(ka)));
    } else if kb < ka {
        assert(taken(reserved, earlier, base + underscores(kb)));
    }
}

} // verus!
