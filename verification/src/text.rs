//! The serialised form of the emitted declarations: one line for each.

use vstd::prelude::*;
use vstd::string::*;
use crate::names::{digits, push_decimal};
use crate::strings::views;
use crate::emit::Item;
use crate::options::LinkType;
use crate::types::{
    fields_model, items_model, nodes_model, Abi, EnumItem, FKind, Field, FieldModel, FuncSig, Global, GlobalModel,
    IKind, ItemModel, Node, NodeModel, SigModel, Type, TypeModel,
};

verus! {

/// How an integer kind is written.
pub open spec fn ikind_text(k: IKind) -> Seq<char> {
    match k {
        IKind::ISChar => "schar"@,
        IKind::IUChar => "uchar"@,
        IKind::IShort => "short"@,
        IKind::IUShort => "ushort"@,
        IKind::IInt => "int"@,
        IKind::IUInt => "uint"@,
        IKind::ILong => "long"@,
        IKind::IULong => "ulong"@,
        IKind::ILongLong => "longlong"@,
        IKind::IULongLong => "ulonglong"@,
    }
}

/// How a calling convention is written.
pub open spec fn abi_text(a: Abi) -> Seq<char> {
    match a {
        Abi::C => "C"@,
        Abi::Stdcall => "stdcall"@,
        Abi::Fastcall => "fastcall"@,
        Abi::Aapcs => "aapcs"@,
        Abi::Win64 => "win64"@,
    }
}

/// How the identifier of a node is written; a node that does not exist is
/// written as a question mark.
pub open spec fn name_text(names: Seq<Seq<char>>, k: usize) -> Seq<char> {
    if k < names.len() {
        names[k as int]
    } else {
        "?"@
    }
}

/// How a type is written.
pub open spec fn type_text(ty: TypeModel, names: Seq<Seq<char>>) -> Seq<char>
    decreases ty, 0nat,
{
    match ty {
        TypeModel::Void => "void"@,
        TypeModel::Bool => "bool"@,
        TypeModel::Int(k) => ikind_text(k),
        TypeModel::Float(k) => match k {
            FKind::FFloat => "float"@,
            FKind::FDouble => "double"@,
        },
        TypeModel::Pointer(t, is_const) => (if is_const {
            "*const "@
        } else {
            "*mut "@
        }) + type_text(*t, names),
        TypeModel::Array(t, len) => match len {
            Some(n) => "["@ + type_text(*t, names) + "; "@ + digits(n as nat) + "]"@,
            None => "["@ + type_text(*t, names) + "]"@,
        },
        TypeModel::Function(sig) => "fn("@ + params_text(*sig, sig.params.len(), names) + variadic_text(
            *sig,
        ) + ") -> "@ + type_text(sig.ret, names),
        TypeModel::Named(k) => name_text(names, k),
        TypeModel::Unknown(s) => "opaque("@ + s + ")"@,
    }
}

/// How the first `n` parameters of a signature are written.
pub open spec fn params_text(sig: SigModel, n: nat, names: Seq<Seq<char>>) -> Seq<char>
    decreases sig, n,
{
    if n == 0 || n > sig.params.len() {
        Seq::empty()
    } else if n == 1 {
        sig.params[0].name + ": "@ + type_text(sig.params[0].ty, names)
    } else {
        params_text(sig, (n - 1) as nat, names) + ", "@ + sig.params[n - 1].name + ": "@ + type_text(
            sig.params[n - 1].ty,
            names,
        )
    }
}

/// How it is written that a signature takes more arguments than it names.
pub open spec fn variadic_text(sig: SigModel) -> Seq<char> {
    if !sig.variadic {
        Seq::empty()
    } else if sig.params.len() == 0 {
        "..."@
    } else {
        ", ..."@
    }
}

fn ikind_str(k: IKind) -> (r: &'static str)
    ensures
        r@ == ikind_text(k),
{
    match k {
        IKind::ISChar => "schar",
        IKind::IUChar => "uchar",
        IKind::IShort => "short",
        IKind::IUShort => "ushort",
        IKind::IInt => "int",
        IKind::IUInt => "uint",
        IKind::ILong => "long",
        IKind::IULong => "ulong",
        IKind::ILongLong => "longlong",
        IKind::IULongLong => "ulonglong",
    }
}

fn abi_str(a: Abi) -> (r: &'static str)
    ensures
        r@ == abi_text(a),
{
    match a {
        Abi::C => "C",
        Abi::Stdcall => "stdcall",
        Abi::Fastcall => "fastcall",
        Abi::Aapcs => "aapcs",
        Abi::Win64 => "win64",
    }
}

fn write_name(names: &Vec<String>, k: usize, out: &mut String)
    ensures
        final(out)@ == old(out)@ + name_text(views(names@), k),
{
    if k < names.len() {
        out.append(names[k].as_str());
    } else {
        out.append("?");
    }
}

/// Appends a type as it is written.
pub fn write_type(ty: &Type, names: &Vec<String>, out: &mut String)
    ensures
        final(out)@ == old(out)@ + type_text(ty@, views(names@)),
    decreases *ty, 0nat,
{
    match ty {
        Type::Void => out.append("void"),
        Type::Bool => out.append("bool"),
        Type::Int(k) => out.append(ikind_str(*k)),
        Type::Float(k) => match k {
            FKind::FFloat => out.append("float"),
            FKind::FDouble => out.append("double"),
        },
        Type::Pointer(t, is_const) => {
            if *is_const {
                out.append("*const ");
            } else {
                out.append("*mut ");
            }
            write_type(t, names, out);
            assert(out@ =~= old(out)@ + type_text(ty@, views(names@)));
        },
        Type::Array(t, len) => {
            out.append("[");
            write_type(t, names, out);
            match len {
                Some(n) => {
                    out.append("; ");
                    push_decimal(*n, out);
                },
                None => {},
            }
            out.append("]");
            assert(out@ =~= old(out)@ + type_text(ty@, views(names@)));
        },
        Type::Function(sig) => {
            out.append("fn(");
            write_params(sig, names, out);
            write_variadic(sig, out);
            out.append(") -> ");
            write_type(&sig.ret, names, out);
            assert(out@ =~= old(out)@ + type_text(ty@, views(names@)));
        },
        Type::Named(k) => write_name(names, *k, out),
        Type::Unknown(s) => {
            out.append("opaque(");
            out.append(s.as_str());
            out.append(")");
            assert(out@ =~= old(out)@ + type_text(ty@, views(names@)));
        },
    }
}

/// Appends the parameters of a signature as they are written.
#[verifier::loop_isolation(false)]
pub fn write_params(sig: &FuncSig, names: &Vec<String>, out: &mut String)
    ensures
        final(out)@ == old(out)@ + params_text(sig@, sig@.params.len(), views(names@)),
    decreases *sig, 1nat,
{
    let n: usize = sig.params.len();
    let mut i: usize = 0;
    assert(out@ =~= old(out)@ + params_text(sig@, 0, views(names@)));
    while i < n
        invariant
            i <= n,
            out@ == old(out)@ + params_text(sig@, i as nat, views(names@)),
        decreases n - i,
    {
        if i > 0 {
            out.append(", ");
        }
        out.append(sig.params[i].name.as_str());
        out.append(": ");
        write_type(&sig.params[i].ty, names, out);
        assert(out@ =~= old(out)@ + params_text(sig@, (i + 1) as nat, views(names@))) by {
            assert(sig@.params[i as int].ty == sig.params@[i as int].ty@);
            assert(sig@.params[i as int].name == sig.params@[i as int].name@);
        }
        i = i + 1;
    }
}

fn write_variadic(sig: &FuncSig, out: &mut String)
    ensures
        final(out)@ == old(out)@ + variadic_text(sig@),
{
    if !sig.variadic {
        assert(out@ =~= out@ + Seq::<char>::empty());
    } else if sig.params.len() == 0 {
        out.append("...");
    } else {
        out.append(", ...");
    }
}

/// The link targets as values: each a name with how it is linked.
pub open spec fn link_views(links: Seq<(String, LinkType)>) -> Seq<(Seq<char>, LinkType)> {
    Seq::new(links.len(), |i: int| (links[i].0@, links[i].1))
}

/// How a whole number is written.
pub open spec fn int_text(v: int) -> Seq<char> {
    if v < 0 {
        "-"@ + digits((-v) as nat)
    } else {
        digits(v as nat)
    }
}

/// The word that a struct, a union or an enum is declared with.
pub open spec fn tag_text(g: GlobalModel) -> Seq<char> {
    match g {
        GlobalModel::CompDecl { is_union } => if is_union {
            "union "@
        } else {
            "struct "@
        },
        GlobalModel::Comp { is_union, .. } => if is_union {
            "union "@
        } else {
            "struct "@
        },
        GlobalModel::EnumDecl => "enum "@,
        GlobalModel::Enum { .. } => "enum "@,
        _ => Seq::empty(),
    }
}

/// The width that a line keeps to where the declaration can be broken.
pub const WIDTH: usize = 80;

/// What stands before a member of a declaration: a space on a line, a line
/// break and four spaces in a declaration that is broken.
pub open spec fn lead(wide: bool) -> Seq<char> {
    if wide {
        "\n    "@
    } else {
        " "@
    }
}

/// What closes the members of a declaration.
pub open spec fn close(wide: bool) -> Seq<char> {
    if wide {
        "\n}"@
    } else {
        " }"@
    }
}

/// How a field is written: its name, its type, the width of a bit-field, and
/// its offset.
pub open spec fn field_text(f: FieldModel, names: Seq<Seq<char>>) -> Seq<char> {
    f.name + ": "@ + type_text(f.ty, names) + (match f.bits {
        Some(b) => " : "@ + digits(b as nat),
        None => Seq::empty(),
    }) + " @"@ + digits(f.offset as nat) + ";"@
}

/// How the first `n` fields are written, in their order.
pub open spec fn fields_text(fields: Seq<FieldModel>, n: nat, names: Seq<Seq<char>>, wide: bool) -> Seq<
    char,
>
    decreases n,
{
    if n == 0 || n > fields.len() {
        Seq::empty()
    } else {
        fields_text(fields, (n - 1) as nat, names, wide) + lead(wide) + field_text(fields[n - 1], names)
    }
}

/// How the first `n` values of an enum are written, in their order.
pub open spec fn values_text(items: Seq<ItemModel>, n: nat, wide: bool) -> Seq<char>
    decreases n,
{
    if n == 0 || n > items.len() {
        Seq::empty()
    } else {
        values_text(items, (n - 1) as nat, wide) + lead(wide) + items[n - 1].name + " = "@ + int_text(
            items[n - 1].value as int,
        ) + ","@
    }
}

/// How the first `n` parameters are written in a declaration that is broken:
/// each on a line of its own.
pub open spec fn params_wide_text(sig: SigModel, n: nat, names: Seq<Seq<char>>) -> Seq<char>
    decreases n,
{
    if n == 0 || n > sig.params.len() {
        Seq::empty()
    } else {
        params_wide_text(sig, (n - 1) as nat, names) + lead(true) + sig.params[n - 1].name + ": "@
            + type_text(sig.params[n - 1].ty, names) + ","@
    }
}

/// How a way of linking is written.
pub open spec fn link_kind_text(k: LinkType) -> Seq<char> {
    match k {
        LinkType::Default => "dylib"@,
        LinkType::Static => "static"@,
        LinkType::Framework => "framework"@,
    }
}

/// How the first `n` link targets are written, in their order.
pub open spec fn links_text(links: Seq<(Seq<char>, LinkType)>, n: nat) -> Seq<char>
    decreases n,
{
    if n == 0 || n > links.len() {
        Seq::empty()
    } else {
        links_text(links, (n - 1) as nat) + "#[link("@ + links[n - 1].0 + ", "@ + link_kind_text(
            links[n - 1].1,
        ) + ")] "@
    }
}

/// How a typedef is written.
pub open spec fn alias_text(name: Seq<char>, ty: TypeModel, names: Seq<Seq<char>>) -> Seq<char> {
    "type "@ + name + " = "@ + type_text(ty, names) + ";"@
}

/// How a struct, a union or an enum without a body is written.
pub open spec fn opaque_text(g: GlobalModel, name: Seq<char>) -> Seq<char> {
    tag_text(g) + name + ";"@
}

/// How a struct or a union is written: its fields in their order.
pub open spec fn comp_text(
    g: GlobalModel,
    name: Seq<char>,
    fields: Seq<FieldModel>,
    names: Seq<Seq<char>>,
    wide: bool,
) -> Seq<char> {
    tag_text(g) + name + " {"@ + fields_text(fields, fields.len(), names, wide) + close(wide)
}

/// How an enum is written: its kind, and its values in their order.
pub open spec fn enum_text(
    g: GlobalModel,
    name: Seq<char>,
    kind: IKind,
    items: Seq<ItemModel>,
    wide: bool,
) -> Seq<char> {
    tag_text(g) + name + ": "@ + ikind_text(kind) + " {"@ + values_text(items, items.len(), wide) + close(
        wide,
    )
}

/// How a variable is written, behind every link target.
pub open spec fn var_text(
    name: Seq<char>,
    ty: TypeModel,
    is_const: bool,
    names: Seq<Seq<char>>,
    links: Seq<(Seq<char>, LinkType)>,
) -> Seq<char> {
    links_text(links, links.len()) + (if is_const {
        "const "@
    } else {
        "var "@
    }) + name + ": "@ + type_text(ty, names) + ";"@
}

/// How the start of a function is written, behind every link target.
pub open spec fn func_head_text(name: Seq<char>, abi: Abi, links: Seq<(Seq<char>, LinkType)>) -> Seq<
    char,
> {
    links_text(links, links.len()) + "extern "@ + abi_text(abi) + " fn "@ + name + "("@
}

/// How a function is written: its calling convention, its signature and the
/// symbol that it is linked by.
pub open spec fn func_text(
    name: Seq<char>,
    sig: SigModel,
    symbol: Seq<char>,
    names: Seq<Seq<char>>,
    links: Seq<(Seq<char>, LinkType)>,
    wide: bool,
) -> Seq<char> {
    if wide {
        func_head_text(name, sig.abi, links) + params_wide_text(sig, sig.params.len(), names) + (
        if sig.variadic {
            "\n    ..."@
        } else {
            Seq::empty()
        }) + "\n) -> "@ + type_text(sig.ret, names) + " = "@ + symbol + ";"@
    } else {
        func_head_text(name, sig.abi, links) + params_text(sig, sig.params.len(), names)
            + variadic_text(sig) + ") -> "@ + type_text(sig.ret, names) + " = "@ + symbol + ";"@
    }
}

/// How the body of a node is written, on a line or broken. A function and a
/// variable carry every link target. What has no members is written on a
/// line either way.
pub open spec fn body_text(
    node: NodeModel,
    name: Seq<char>,
    names: Seq<Seq<char>>,
    links: Seq<(Seq<char>, LinkType)>,
    wide: bool,
) -> Seq<char> {
    match node.global {
        GlobalModel::TypeAlias { ty } => alias_text(name, ty, names),
        GlobalModel::CompDecl { .. } => opaque_text(node.global, name),
        GlobalModel::Comp { fields, .. } => comp_text(node.global, name, fields, names, wide),
        GlobalModel::EnumDecl => opaque_text(node.global, name),
        GlobalModel::Enum { kind, items } => enum_text(node.global, name, kind, items, wide),
        GlobalModel::Var { ty, is_const } => var_text(name, ty, is_const, names, links),
        GlobalModel::Func { sig, symbol } => func_text(name, sig, symbol, names, links, wide),
    }
}

/// How the body of a node is written: on a line where the line keeps to the
/// width, else broken, each member on a line of its own.
pub open spec fn fitted_text(
    node: NodeModel,
    name: Seq<char>,
    names: Seq<Seq<char>>,
    links: Seq<(Seq<char>, LinkType)>,
) -> Seq<char> {
    if body_text(node, name, names, links, false).len() <= WIDTH {
        body_text(node, name, names, links, false)
    } else {
        body_text(node, name, names, links, true)
    }
}

/// How an item is written: a forward declaration as the tag and the name, a
/// body as [`fitted_text`] has it.
pub open spec fn item_text(
    nodes: Seq<NodeModel>,
    names: Seq<Seq<char>>,
    links: Seq<(Seq<char>, LinkType)>,
    it: Item,
) -> Seq<char> {
    if it.node < nodes.len() {
        if it.forward {
            opaque_text(nodes[it.node as int].global, name_text(names, it.node))
        } else {
            fitted_text(nodes[it.node as int], name_text(names, it.node), names, links)
        }
    } else {
        Seq::empty()
    }
}

/// How the first `n` items are written: each on a line of its own.
pub open spec fn items_text(
    nodes: Seq<NodeModel>,
    names: Seq<Seq<char>>,
    links: Seq<(Seq<char>, LinkType)>,
    items: Seq<Item>,
    n: nat,
) -> Seq<char>
    decreases n,
{
    if n == 0 || n > items.len() {
        Seq::empty()
    } else {
        items_text(nodes, names, links, items, (n - 1) as nat) + item_text(
            nodes,
            names,
            links,
            items[n - 1],
        ) + "\n"@
    }
}

fn write_int(v: i64, out: &mut String)
    ensures
        final(out)@ == old(out)@ + int_text(v as int),
{
    if v < 0 {
        out.append("-");
        let m: u64 = ((-(v + 1)) as u64) + 1;
        push_decimal(m, out);
        assert(out@ =~= old(out)@ + int_text(v as int));
    } else {
        push_decimal(v as u64, out);
    }
}

fn write_tag(g: &Global, out: &mut String)
    ensures
        final(out)@ == old(out)@ + tag_text(g@),
{
    match g {
        Global::CompDecl { is_union } => {
            if *is_union {
                out.append("union ");
            } else {
                out.append("struct ");
            }
        },
        Global::Comp { is_union, .. } => {
            if *is_union {
                out.append("union ");
            } else {
                out.append("struct ");
            }
        },
        Global::EnumDecl => out.append("enum "),
        Global::Enum { .. } => out.append("enum "),
        _ => {
            assert(out@ =~= out@ + Seq::<char>::empty());
        },
    }
}

fn write_field(f: &Field, names: &Vec<String>, out: &mut String)
    ensures
        final(out)@ == old(out)@ + field_text(f@, views(names@)),
{
    out.append(f.name.as_str());
    out.append(": ");
    write_type(&f.ty, names, out);
    match f.bits {
        Some(b) => {
            out.append(" : ");
            push_decimal(b as u64, out);
        },
        None => {},
    }
    out.append(" @");
    push_decimal(f.offset, out);
    out.append(";");
    assert(out@ =~= old(out)@ + field_text(f@, views(names@)));
}

fn write_lead(wide: bool, out: &mut String)
    ensures
        final(out)@ == old(out)@ + lead(wide),
{
    if wide {
        out.append("\n    ");
    } else {
        out.append(" ");
    }
}

fn write_close(wide: bool, out: &mut String)
    ensures
        final(out)@ == old(out)@ + close(wide),
{
    if wide {
        out.append("\n}");
    } else {
        out.append(" }");
    }
}

fn write_fields(fields: &Vec<Field>, names: &Vec<String>, wide: bool, out: &mut String)
    ensures
        final(out)@ == old(out)@ + fields_text(fields_model(fields@), fields@.len(), views(names@), wide),
{
    let n: usize = fields.len();
    let mut i: usize = 0;
    assert(out@ =~= old(out)@ + fields_text(fields_model(fields@), 0, views(names@), wide));
    while i < n
        invariant
            n == fields@.len(),
            i <= n,
            out@ == old(out)@ + fields_text(fields_model(fields@), i as nat, views(names@), wide),
        decreases n - i,
    {
        write_lead(wide, out);
        write_field(&fields[i], names, out);
        assert(out@ =~= old(out)@ + fields_text(
            fields_model(fields@),
            (i + 1) as nat,
            views(names@),
            wide,
        ));
        i = i + 1;
    }
}

fn write_params_wide(sig: &FuncSig, names: &Vec<String>, out: &mut String)
    ensures
        final(out)@ == old(out)@ + params_wide_text(sig@, sig@.params.len(), views(names@)),
{
    let n: usize = sig.params.len();
    let mut i: usize = 0;
    assert(out@ =~= old(out)@ + params_wide_text(sig@, 0, views(names@)));
    while i < n
        invariant
            n == sig.params@.len(),
            n == sig@.params.len(),
            i <= n,
            out@ == old(out)@ + params_wide_text(sig@, i as nat, views(names@)),
        decreases n - i,
    {
        write_lead(true, out);
        out.append(sig.params[i].name.as_str());
        out.append(": ");
        write_type(&sig.params[i].ty, names, out);
        out.append(",");
        assert(out@ =~= old(out)@ + params_wide_text(sig@, (i + 1) as nat, views(names@))) by {
            assert(sig@.params[i as int].ty == sig.params@[i as int].ty@);
            assert(sig@.params[i as int].name == sig.params@[i as int].name@);
        }
        i = i + 1;
    }
}

fn write_values(items: &Vec<EnumItem>, wide: bool, out: &mut String)
    ensures
        final(out)@ == old(out)@ + values_text(items_model(items@), items@.len(), wide),
{
    let n: usize = items.len();
    let mut i: usize = 0;
    assert(out@ =~= old(out)@ + values_text(items_model(items@), 0, wide));
    while i < n
        invariant
            n == items@.len(),
            i <= n,
            out@ == old(out)@ + values_text(items_model(items@), i as nat, wide),
        decreases n - i,
    {
        write_lead(wide, out);
        out.append(items[i].name.as_str());
        out.append(" = ");
        write_int(items[i].value, out);
        out.append(",");
        assert(out@ =~= old(out)@ + values_text(items_model(items@), (i + 1) as nat, wide));
        i = i + 1;
    }
}

fn write_links(links: &Vec<(String, LinkType)>, out: &mut String)
    ensures
        final(out)@ == old(out)@ + links_text(link_views(links@), links@.len()),
{
    let n: usize = links.len();
    let mut i: usize = 0;
    assert(out@ =~= old(out)@ + links_text(link_views(links@), 0));
    while i < n
        invariant
            n == links@.len(),
            i <= n,
            out@ == old(out)@ + links_text(link_views(links@), i as nat),
        decreases n - i,
    {
        out.append("#[link(");
        out.append(links[i].0.as_str());
        out.append(", ");
        match links[i].1 {
            LinkType::Default => out.append("dylib"),
            LinkType::Static => out.append("static"),
            LinkType::Framework => out.append("framework"),
        }
        out.append(")] ");
        assert(out@ =~= old(out)@ + links_text(link_views(links@), (i + 1) as nat));
        i = i + 1;
    }
}

fn write_alias(k: usize, ty: &Type, names: &Vec<String>, out: &mut String)
    ensures
        final(out)@ == old(out)@ + alias_text(name_text(views(names@), k), ty@, views(names@)),
{
    out.append("type ");
    write_name(names, k, out);
    out.append(" = ");
    write_type(ty, names, out);
    out.append(";");
    assert(out@ =~= old(out)@ + alias_text(name_text(views(names@), k), ty@, views(names@)));
}

fn write_opaque(g: &Global, k: usize, names: &Vec<String>, out: &mut String)
    ensures
        final(out)@ == old(out)@ + opaque_text(g@, name_text(views(names@), k)),
{
    write_tag(g, out);
    write_name(names, k, out);
    out.append(";");
    assert(out@ =~= old(out)@ + opaque_text(g@, name_text(views(names@), k)));
}

fn write_comp(
    g: &Global,
    k: usize,
    fields: &Vec<Field>,
    names: &Vec<String>,
    wide: bool,
    out: &mut String,
)
    ensures
        final(out)@ == old(out)@ + comp_text(
            g@,
            name_text(views(names@), k),
            fields_model(fields@),
            views(names@),
            wide,
        ),
{
    write_tag(g, out);
    write_name(names, k, out);
    out.append(" {");
    write_fields(fields, names, wide, out);
    write_close(wide, out);
    assert(out@ =~= old(out)@ + comp_text(
        g@,
        name_text(views(names@), k),
        fields_model(fields@),
        views(names@),
        wide,
    ));
}

fn write_enum(
    g: &Global,
    k: usize,
    kind: IKind,
    items: &Vec<EnumItem>,
    names: &Vec<String>,
    wide: bool,
    out: &mut String,
)
    ensures
        final(out)@ == old(out)@ + enum_text(
            g@,
            name_text(views(names@), k),
            kind,
            items_model(items@),
            wide,
        ),
{
    write_tag(g, out);
    write_name(names, k, out);
    out.append(": ");
    out.append(ikind_str(kind));
    out.append(" {");
    write_values(items, wide, out);
    write_close(wide, out);
    assert(out@ =~= old(out)@ + enum_text(
        g@,
        name_text(views(names@), k),
        kind,
        items_model(items@),
        wide,
    ));
}

fn write_var(
    k: usize,
    ty: &Type,
    is_const: bool,
    names: &Vec<String>,
    links: &Vec<(String, LinkType)>,
    out: &mut String,
)
    ensures
        final(out)@ == old(out)@ + var_text(
            name_text(views(names@), k),
            ty@,
            is_const,
            views(names@),
            link_views(links@),
        ),
{
    write_links(links, out);
    if is_const {
        out.append("const ");
    } else {
        out.append("var ");
    }
    write_name(names, k, out);
    out.append(": ");
    write_type(ty, names, out);
    out.append(";");
    assert(out@ =~= old(out)@ + var_text(
        name_text(views(names@), k),
        ty@,
        is_const,
        views(names@),
        link_views(links@),
    ));
}

fn write_func_head(k: usize, abi: Abi, names: &Vec<String>, links: &Vec<(String, LinkType)>, out: &mut String)
    ensures
        final(out)@ == old(out)@ + func_head_text(name_text(views(names@), k), abi, link_views(links@)),
{
    write_links(links, out);
    out.append("extern ");
    out.append(abi_str(abi));
    out.append(" fn ");
    write_name(names, k, out);
    out.append("(");
    assert(out@ =~= old(out)@ + func_head_text(name_text(views(names@), k), abi, link_views(links@)));
}

fn write_func(
    k: usize,
    sig: &FuncSig,
    symbol: &String,
    names: &Vec<String>,
    links: &Vec<(String, LinkType)>,
    wide: bool,
    out: &mut String,
)
    ensures
        final(out)@ == old(out)@ + func_text(
            name_text(views(names@), k),
            sig@,
            symbol@,
            views(names@),
            link_views(links@),
            wide,
        ),
{
    write_func_head(k, sig.abi, names, links, out);
    if wide {
        write_params_wide(sig, names, out);
        if sig.variadic {
            out.append("\n    ...");
        }
        out.append("\n) -> ");
    } else {
        write_params(sig, names, out);
        write_variadic(sig, out);
        out.append(") -> ");
    }
    write_type(&sig.ret, names, out);
    out.append(" = ");
    out.append(symbol.as_str());
    out.append(";");
    assert(out@ =~= old(out)@ + func_text(
        name_text(views(names@), k),
        sig@,
        symbol@,
        views(names@),
        link_views(links@),
        wide,
    ));
}

fn write_body(
    node: &Node,
    k: usize,
    names: &Vec<String>,
    links: &Vec<(String, LinkType)>,
    wide: bool,
    out: &mut String,
)
    ensures
        final(out)@ == old(out)@ + body_text(
            node@,
            name_text(views(names@), k),
            views(names@),
            link_views(links@),
            wide,
        ),
{
    match &node.global {
        Global::TypeAlias { ty } => write_alias(k, ty, names, out),
        Global::CompDecl { .. } => write_opaque(&node.global, k, names, out),
        Global::Comp { fields, .. } => write_comp(&node.global, k, fields, names, wide, out),
        Global::EnumDecl => write_opaque(&node.global, k, names, out),
        Global::Enum { kind, items } => write_enum(&node.global, k, *kind, items, names, wide, out),
        Global::Var { ty, is_const } => write_var(k, ty, *is_const, names, links, out),
        Global::Func { sig, symbol } => write_func(k, sig, symbol, names, links, wide, out),
    }
}

fn write_fitted(
    node: &Node,
    k: usize,
    names: &Vec<String>,
    links: &Vec<(String, LinkType)>,
    out: &mut String,
)
    ensures
        final(out)@ == old(out)@ + fitted_text(
            node@,
            name_text(views(names@), k),
            views(names@),
            link_views(links@),
        ),
{
    let mut flat: String = String::new();
    write_body(node, k, names, links, false, &mut flat);
    assert(flat@ =~= body_text(
        node@,
        name_text(views(names@), k),
        views(names@),
        link_views(links@),
        false,
    ));
    if flat.as_str().unicode_len() <= WIDTH {
        out.append(flat.as_str());
    } else {
        write_body(node, k, names, links, true, out);
    }
}

/// Writes the items, each on a line of its own.
pub fn render(
    nodes: &Vec<Node>,
    names: &Vec<String>,
    links: &Vec<(String, LinkType)>,
    items: &Vec<Item>,
) -> (text: String)
    ensures
        text@ == items_text(
            nodes_model(nodes@),
            views(names@),
            link_views(links@),
            items@,
            items@.len(),
        ),
{
    let ghost model = nodes_model(nodes@);
    let mut out: String = String::new();
    let n: usize = items.len();
    let mut i: usize = 0;
    assert(out@ =~= items_text(model, views(names@), link_views(links@), items@, 0));
    while i < n
        invariant
            n == items@.len(),
            i <= n,
            model == nodes_model(nodes@),
            out@ == items_text(model, views(names@), link_views(links@), items@, i as nat),
        decreases n - i,
    {
        let ghost before = out@;
        let it = items[i];
        if it.node < nodes.len() {
            assert(model[it.node as int] == nodes@[it.node as int]@);
            if it.forward {
                write_opaque(&nodes[it.node].global, it.node, names, &mut out);
            } else {
                write_fitted(&nodes[it.node], it.node, names, links, &mut out);
            }
        }
        assert(out@ =~= before + item_text(model, views(names@), link_views(links@), it));
        out.append("\n");
        assert(out@ =~= items_text(model, views(names@), link_views(links@), items@, (i + 1) as nat));
        i = i + 1;
    }
    out
}

} // verus!
