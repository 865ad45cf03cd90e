//! The registry: one node for each declaration identity, filled at most once.

use std::collections::HashMap;
use vstd::prelude::*;
use crate::failure::Failure;
use crate::raw::{RawBody, RawDecl, RawField, RawKind, RawSig, RawType};
use crate::strings::{lemma_views_add, lemma_views_push, views};
use crate::types::{
    items_model, fields_model, nodes_model, EnumItem, FKind, Field, FieldModel, FuncSig, Global, GlobalModel, IKind,
    Node, NodeModel, Param, ParamModel, SigModel, Type, TypeModel,
};

verus! {

/// The integer kind of a built-in type, if it is an integer type.
pub open spec fn int_kind(kind: RawKind) -> Option<IKind> {
    match kind {
        RawKind::CharS | RawKind::SChar => Some(IKind::ISChar),
        RawKind::CharU | RawKind::UChar => Some(IKind::IUChar),
        RawKind::Short => Some(IKind::IShort),
        RawKind::UShort => Some(IKind::IUShort),
        RawKind::Int => Some(IKind::IInt),
        RawKind::UInt => Some(IKind::IUInt),
        RawKind::Long => Some(IKind::ILong),
        RawKind::ULong => Some(IKind::IULong),
        RawKind::LongLong => Some(IKind::ILongLong),
        RawKind::ULongLong => Some(IKind::IULongLong),
        _ => None,
    }
}

/// The canonical type of a built-in type, if the registry can classify it.
pub open spec fn classify(kind: RawKind) -> Option<TypeModel> {
    match kind {
        RawKind::Void => Some(TypeModel::Void),
        RawKind::Bool => Some(TypeModel::Bool),
        RawKind::Float => Some(TypeModel::Float(FKind::FFloat)),
        RawKind::Double => Some(TypeModel::Float(FKind::FDouble)),
        _ => match int_kind(kind) {
            Some(k) => Some(TypeModel::Int(k)),
            None => None,
        },
    }
}

/// The canonical type of a raw type, where `index` gives the node of each
/// declaration known so far. A built-in type that cannot be classified, and a
/// declaration that is not known, become `Unknown` with their spelling.
pub open spec fn resolved(raw: RawType, index: Map<u64, usize>) -> TypeModel
    decreases raw,
{
    match raw {
        RawType::Builtin { kind, spelling } => match classify(kind) {
            Some(t) => t,
            None => TypeModel::Unknown(spelling@),
        },
        RawType::Pointer { pointee, is_const } => TypeModel::Pointer(
            Box::new(resolved(*pointee, index)),
            is_const,
        ),
        RawType::Array { elem, len } => TypeModel::Array(Box::new(resolved(*elem, index)), len),
        RawType::Function(sig) => TypeModel::Function(Box::new(resolved_sig(*sig, index))),
        RawType::Decl { id, spelling } => if index.contains_key(id) {
            TypeModel::Named(index[id])
        } else {
            TypeModel::Unknown(spelling@)
        },
    }
}

/// The canonical signature of a raw signature.
pub open spec fn resolved_sig(sig: RawSig, index: Map<u64, usize>) -> SigModel
    decreases sig,
{
    SigModel {
        ret: resolved(sig.ret, index),
        params: Seq::new(
            sig.params@.len(),
            |i: int|
                if 0 <= i < sig.params@.len() {
                    ParamModel {
                        name: sig.params@[i].name@,
                        ty: resolved(sig.params@[i].ty, index),
                    }
                } else {
                    arbitrary()
                },
        ),
        variadic: sig.variadic,
        abi: sig.abi,
    }
}

/// The canonical fields of raw fields: same order, same widths and offsets.
pub open spec fn resolved_fields(fields: Seq<RawField>, index: Map<u64, usize>) -> Seq<FieldModel> {
    Seq::new(
        fields.len(),
        |i: int|
            FieldModel {
                name: fields[i].name@,
                ty: resolved(fields[i].ty, index),
                bits: fields[i].bits,
                offset: fields[i].offset,
            },
    )
}

/// The kind of an enum: the forced one if there is one, else the one that the
/// front end inferred, else `int`.
pub open spec fn enum_kind_of(repr: RawKind, forced: Option<IKind>) -> IKind {
    match forced {
        Some(k) => k,
        None => match int_kind(repr) {
            Some(k) => k,
            None => IKind::IInt,
        },
    }
}

/// The spellings of the unclassified types in a type, in order.
pub open spec fn unknowns(ty: TypeModel) -> Seq<Seq<char>>
    decreases ty, 0nat,
{
    match ty {
        TypeModel::Pointer(t, _) => unknowns(*t),
        TypeModel::Array(t, _) => unknowns(*t),
        TypeModel::Function(sig) => sig_unknowns(*sig, sig.params.len()),
        TypeModel::Unknown(s) => seq![s],
        _ => Seq::empty(),
    }
}

/// The spellings of the unclassified types in the return type and the first
/// `n` parameters of a signature, in order.
pub open spec fn sig_unknowns(sig: SigModel, n: nat) -> Seq<Seq<char>>
    decreases sig, n,
{
    if n == 0 || n > sig.params.len() {
        unknowns(sig.ret)
    } else {
        sig_unknowns(sig, (n - 1) as nat) + unknowns(sig.params[n - 1].ty)
    }
}

/// The spellings of the unclassified types in the first `n` fields, in order.
pub open spec fn field_unknowns(fields: Seq<FieldModel>, n: nat) -> Seq<Seq<char>>
    decreases n,
{
    if n == 0 || n > fields.len() {
        Seq::empty()
    } else {
        field_unknowns(fields, (n - 1) as nat) + unknowns(fields[n - 1].ty)
    }
}

/// The spellings of the unclassified types in a declaration, in order.
pub open spec fn global_unknowns(g: GlobalModel) -> Seq<Seq<char>> {
    match g {
        GlobalModel::TypeAlias { ty } => unknowns(ty),
        GlobalModel::Comp { fields, .. } => field_unknowns(fields, fields.len()),
        GlobalModel::Var { ty, .. } => unknowns(ty),
        GlobalModel::Func { sig, .. } => sig_unknowns(sig, sig.params.len()),
        _ => Seq::empty(),
    }
}

/// The node content of a declaration whose body has not been seen, for the
/// kinds of declaration that can be declared ahead of their body.
pub open spec fn decl_only(body: RawBody) -> Option<GlobalModel> {
    match body {
        RawBody::Record { is_union, .. } => Some(GlobalModel::CompDecl { is_union }),
        RawBody::Enum { .. } => Some(GlobalModel::EnumDecl),
        _ => None,
    }
}

/// The node content that a body gives, if the declaration has its body.
pub open spec fn content(body: RawBody, index: Map<u64, usize>, forced: Option<IKind>) -> Option<
    GlobalModel,
> {
    match body {
        RawBody::Typedef { ty } => Some(GlobalModel::TypeAlias { ty: resolved(ty, index) }),
        RawBody::Record { is_union, fields } => match fields {
            Some(fs) => Some(GlobalModel::Comp { is_union, fields: resolved_fields(fs@, index) }),
            None => None,
        },
        RawBody::Enum { repr, items } => match items {
            Some(es) => Some(
                GlobalModel::Enum { kind: enum_kind_of(repr, forced), items: items_model(es@) },
            ),
            None => None,
        },
        RawBody::Var { ty, is_const } => Some(GlobalModel::Var { ty: resolved(ty, index), is_const }),
        RawBody::Func { sig, symbol } => Some(
            GlobalModel::Func { sig: resolved_sig(sig, index), symbol: symbol@ },
        ),
    }
}

/// The mathematical value of a [`Registry`].
pub struct RegistryModel {
    /// The nodes, in the order in which their declarations were first met.
    pub nodes: Seq<NodeModel>,
    /// The node of each declaration identity.
    pub index: Map<u64, usize>,
    /// Whether a type that cannot be classified aborts the pass.
    pub strict: bool,
    /// The kind forced on every enum.
    pub enum_kind: Option<IKind>,
    /// The spellings of the types that could not be classified, in the order
    /// in which they were met.
    pub unknown: Seq<Seq<char>>,
}

impl RegistryModel {
    /// Each identity has one node, and a node is nested in an earlier one.
    pub open spec fn wf(self) -> bool {
        &&& forall|id: u64| #[trigger]
            self.index.contains_key(id) ==> self.index[id] < self.nodes.len()
                && self.nodes[self.index[id] as int].raw == id
        &&& forall|i: int|
            0 <= i < self.nodes.len() ==> self.index.contains_key((#[trigger] self.nodes[i]).raw)
                && self.index[self.nodes[i].raw] == i
        &&& forall|i: int|
            0 <= i < self.nodes.len() ==> ((#[trigger] self.nodes[i]).parent matches Some(p) ==> p
                < i)
    }

    /// The empty registry.
    pub open spec fn empty(strict: bool, enum_kind: Option<IKind>) -> RegistryModel {
        RegistryModel {
            nodes: Seq::empty(),
            index: Map::empty(),
            strict,
            enum_kind,
            unknown: Seq::empty(),
        }
    }

    /// The node that a declaration is nested in, where that node is known.
    pub open spec fn parent_of(self, raw: RawDecl) -> Option<usize> {
        match raw.parent {
            Some(p) => if self.index.contains_key(p) {
                Some(self.index[p])
            } else {
                None
            },
            None => None,
        }
    }

    /// The registry with a new node for `raw` that holds `g`.
    pub open spec fn push(self, raw: RawDecl, g: GlobalModel) -> RegistryModel {
        RegistryModel {
            nodes: self.nodes.push(
                NodeModel {
                    raw: raw.id,
                    name: raw.name@,
                    parent: self.parent_of(raw),
                    file: raw.file@,
                    global: g,
                },
            ),
            index: self.index.insert(raw.id, self.nodes.len() as usize),
            strict: self.strict,
            enum_kind: self.enum_kind,
            unknown: self.unknown,
        }
    }

    /// The registry once `raw` is known: a struct, union or enum that is met
    /// for the first time gets a node without a body.
    pub open spec fn declared(self, raw: RawDecl) -> RegistryModel {
        if self.index.contains_key(raw.id) {
            self
        } else {
            match decl_only(raw.body) {
                Some(g) => self.push(raw, g),
                None => self,
            }
        }
    }

    /// Whether `raw` brings the body of a node that has none yet.
    pub open spec fn fills(self, raw: RawDecl) -> bool {
        self.index.contains_key(raw.id) && match (
            self.nodes[self.index[raw.id] as int].global,
            raw.body,
        ) {
            (GlobalModel::CompDecl { .. }, RawBody::Record { fields, .. }) => fields is Some,
            (GlobalModel::EnumDecl, RawBody::Enum { items, .. }) => items is Some,
            _ => false,
        }
    }

    /// Whether `raw` is met for the first time and is of a kind that is never
    /// declared ahead of its body.
    pub open spec fn is_new_whole(self, raw: RawDecl) -> bool {
        !self.index.contains_key(raw.id) && decl_only(raw.body) is None
    }

    /// What registering `raw` stores in its node, if it stores anything. Types
    /// are resolved after `raw` itself is known, so that a body may refer to
    /// its own declaration.
    pub open spec fn stored(self, raw: RawDecl) -> Option<GlobalModel> {
        if self.is_new_whole(raw) || self.declared(raw).fills(raw) {
            content(raw.body, self.declared(raw).index, self.enum_kind)
        } else {
            None
        }
    }

    /// Whether registering `raw` aborts the pass.
    pub open spec fn rejects(self, raw: RawDecl) -> bool {
        self.strict && self.stored(raw) is Some && global_unknowns(self.stored(raw)->0).len() > 0
    }

    /// The registry after `raw` was registered without aborting.
    pub open spec fn registered(self, raw: RawDecl) -> RegistryModel {
        let d = self.declared(raw);
        match self.stored(raw) {
            None => d,
            Some(g) => if self.is_new_whole(raw) {
                let p = self.push(raw, g);
                RegistryModel {
                    nodes: p.nodes,
                    index: p.index,
                    strict: p.strict,
                    enum_kind: p.enum_kind,
                    unknown: self.unknown + global_unknowns(g),
                }
            } else {
                let i = d.index[raw.id] as int;
                RegistryModel {
                    nodes: d.nodes.update(
                        i,
                        NodeModel {
                            raw: d.nodes[i].raw,
                            name: d.nodes[i].name,
                            parent: d.nodes[i].parent,
                            file: raw.file@,
                            global: g,
                        },
                    ),
                    index: d.index,
                    strict: d.strict,
                    enum_kind: d.enum_kind,
                    unknown: d.unknown + global_unknowns(g),
                }
            },
        }
    }

    /// The registry after a stream was registered, or the spelling of the
    /// type that aborted the pass.
    pub open spec fn outcome(self, decls: Seq<RawDecl>) -> Result<RegistryModel, Seq<char>>
        decreases decls.len(),
    {
        if decls.len() == 0 {
            Ok(self)
        } else {
            match self.outcome(decls.drop_last()) {
                Err(e) => Err(e),
                Ok(s) => if s.rejects(decls.last()) {
                    Err(global_unknowns(s.stored(decls.last())->0)[0])
                } else {
                    Ok(s.registered(decls.last()))
                },
            }
        }
    }
}

/// The integer kind of a built-in type, if it is an integer type.
pub fn int_kind_of(kind: RawKind) -> (r: Option<IKind>)
    ensures
        r == int_kind(kind),
{
    match kind {
        RawKind::CharS | RawKind::SChar => Some(IKind::ISChar),
        RawKind::CharU | RawKind::UChar => Some(IKind::IUChar),
        RawKind::Short => Some(IKind::IShort),
        RawKind::UShort => Some(IKind::IUShort),
        RawKind::Int => Some(IKind::IInt),
        RawKind::UInt => Some(IKind::IUInt),
        RawKind::Long => Some(IKind::ILong),
        RawKind::ULong => Some(IKind::IULong),
        RawKind::LongLong => Some(IKind::ILongLong),
        RawKind::ULongLong => Some(IKind::IULongLong),
        _ => None,
    }
}

/// Resolves a raw type against the declarations known so far.
pub fn resolve(raw: &RawType, index: &HashMap<u64, usize>) -> (ty: Type)
    ensures
        ty@ == resolved(*raw, index@),
    decreases *raw,
{
    match raw {
        RawType::Builtin { kind, spelling } => match kind {
            RawKind::Void => Type::Void,
            RawKind::Bool => Type::Bool,
            RawKind::Float => Type::Float(FKind::FFloat),
            RawKind::Double => Type::Float(FKind::FDouble),
            _ => match int_kind_of(*kind) {
                Some(k) => Type::Int(k),
                None => Type::Unknown(spelling.clone()),
            },
        },
        RawType::Pointer { pointee, is_const } => Type::Pointer(
            Box::new(resolve(pointee, index)),
            *is_const,
        ),
        RawType::Array { elem, len } => Type::Array(Box::new(resolve(elem, index)), *len),
        RawType::Function(sig) => Type::Function(Box::new(resolve_sig(sig, index))),
        RawType::Decl { id, spelling } => match index.get(id) {
            Some(i) => Type::Named(*i),
            None => Type::Unknown(spelling.clone()),
        },
    }
}

/// Resolves a raw signature against the declarations known so far.
#[verifier::loop_isolation(false)]
pub fn resolve_sig(sig: &RawSig, index: &HashMap<u64, usize>) -> (r: FuncSig)
    ensures
        r@ == resolved_sig(*sig, index@),
    decreases *sig,
{
    let ret = resolve(&sig.ret, index);
    let mut params: Vec<Param> = Vec::new();
    let n: usize = sig.params.len();
    let mut i: usize = 0;
    while i < n
        invariant
            i <= n,
            params@.len() == i,
            forall|j: int|
                0 <= j < i ==> (#[trigger] params@[j]).name@ == sig.params@[j].name@
                    && params@[j].ty@ == resolved(sig.params@[j].ty, index@),
        decreases n - i,
    {
        let p = &sig.params[i];
        params.push(Param { name: p.name.clone(), ty: resolve(&p.ty, index) });
        i = i + 1;
    }
    let r = FuncSig { ret, params, variadic: sig.variadic, abi: sig.abi };
    assert(r@.params =~= resolved_sig(*sig, index@).params);
    r
}

fn resolve_fields(fields: &Vec<RawField>, index: &HashMap<u64, usize>) -> (r: Vec<Field>)
    ensures
        fields_model(r@) == resolved_fields(fields@, index@),
{
    let mut out: Vec<Field> = Vec::new();
    let n: usize = fields.len();
    let mut i: usize = 0;
    while i < n
        invariant
            n == fields@.len(),
            i <= n,
            out@.len() == i,
            forall|j: int|
                0 <= j < i ==> (#[trigger] out@[j])@ == resolved_fields(fields@, index@)[j],
        decreases n - i,
    {
        let f = &fields[i];
        out.push(
            Field { name: f.name.clone(), ty: resolve(&f.ty, index), bits: f.bits, offset: f.offset },
        );
        i = i + 1;
    }
    assert(fields_model(out@) =~= resolved_fields(fields@, index@));
    out
}

fn clone_items(items: &Vec<EnumItem>) -> (r: Vec<EnumItem>)
    ensures
        items_model(r@) == items_model(items@),
{
    let mut out: Vec<EnumItem> = Vec::new();
    let n: usize = items.len();
    let mut i: usize = 0;
    while i < n
        invariant
            n == items@.len(),
            i <= n,
            out@.len() == i,
            forall|j: int| 0 <= j < i ==> (#[trigger] out@[j])@ == items@[j]@,
        decreases n - i,
    {
        out.push(EnumItem { name: items[i].name.clone(), value: items[i].value });
        i = i + 1;
    }
    assert(items_model(out@) =~= items_model(items@));
    out
}

/// Appends to `out` the spellings of the unclassified types in a type.
pub fn collect_unknowns(ty: &Type, out: &mut Vec<String>)
    ensures
        views(final(out)@) == views(old(out)@) + unknowns(ty@),
    decreases *ty,
{
    match ty {
        Type::Pointer(t, _) => collect_unknowns(t, out),
        Type::Array(t, _) => collect_unknowns(t, out),
        Type::Function(sig) => collect_sig_unknowns(sig, out),
        Type::Unknown(s) => {
            proof {
                lemma_views_push(out@, *s);
            }
            out.push(s.clone());
            assert(views(old(out)@).push(s@) =~= views(old(out)@) + seq![s@]);
        },
        _ => {
            assert(views(out@) =~= views(out@) + Seq::<Seq<char>>::empty());
        },
    }
}

/// Appends to `out` the spellings of the unclassified types in a signature.
#[verifier::loop_isolation(false)]
pub fn collect_sig_unknowns(sig: &FuncSig, out: &mut Vec<String>)
    ensures
        views(final(out)@) == views(old(out)@) + sig_unknowns(sig@, sig@.params.len()),
    decreases *sig,
{
    collect_unknowns(&sig.ret, out);
    let n: usize = sig.params.len();
    let mut i: usize = 0;
    while i < n
        invariant
            i <= n,
            views(out@) == views(old(out)@) + sig_unknowns(sig@, i as nat),
        decreases n - i,
    {
        let ghost before = views(out@);
        collect_unknowns(&sig.params[i].ty, out);
        assert(views(out@) =~= views(old(out)@) + sig_unknowns(sig@, (i + 1) as nat)) by {
            assert(sig@.params[i as int].ty == sig.params@[i as int].ty@);
        }
        i = i + 1;
    }
}

/// Appends to `out` the spellings of the unclassified types in a declaration.
pub fn collect_global_unknowns(g: &Global, out: &mut Vec<String>)
    ensures
        views(final(out)@) == views(old(out)@) + global_unknowns(g@),
{
    match g {
        Global::TypeAlias { ty } => collect_unknowns(ty, out),
        Global::Comp { fields, .. } => {
            let n: usize = fields.len();
            let mut i: usize = 0;
            assert(views(out@) =~= views(old(out)@) + field_unknowns(g@->Comp_fields, 0));
            while i < n
                invariant
                    n == fields@.len(),
                    i <= n,
                    g@ is Comp,
                    g@->Comp_fields == fields_model(fields@),
                    views(out@) == views(old(out)@) + field_unknowns(g@->Comp_fields, i as nat),
                decreases n - i,
            {
                collect_unknowns(&fields[i].ty, out);
                assert(views(out@) =~= views(old(out)@) + field_unknowns(
                    g@->Comp_fields,
                    (i + 1) as nat,
                )) by {
                    assert(fields_model(fields@)[i as int].ty == fields@[i as int].ty@);
                }
                i = i + 1;
            }
        },
        Global::Var { ty, .. } => collect_unknowns(ty, out),
        Global::Func { sig, .. } => collect_sig_unknowns(sig, out),
        _ => {
            assert(views(out@) =~= views(out@) + Seq::<Seq<char>>::empty());
        },
    }
}

/// The declarations met so far, one node for each identity.
pub struct Registry {
    nodes: Vec<Node>,
    index: HashMap<u64, usize>,
    strict: bool,
    enum_kind: Option<IKind>,
    unknown: Vec<String>,
}

impl View for Registry {
    type V = RegistryModel;

    closed spec fn view(&self) -> RegistryModel {
        RegistryModel {
            nodes: nodes_model(self.nodes@),
            index: self.index@,
            strict: self.strict,
            enum_kind: self.enum_kind,
            unknown: views(self.unknown@),
        }
    }
}

impl Registry {
    /// Each identity has one node, and a node is nested in an earlier one.
    pub open spec fn wf(&self) -> bool {
        self@.wf()
    }

    /// A registry that knows no declaration.
    pub fn new(strict: bool, enum_kind: Option<IKind>) -> (r: Registry)
        ensures
            r@ == RegistryModel::empty(strict, enum_kind),
            r.wf(),
    {
        let r = Registry {
            nodes: Vec::new(),
            index: HashMap::new(),
            strict,
            enum_kind,
            unknown: Vec::new(),
        };
        assert(r@.nodes =~= Seq::empty());
        assert(r@.unknown =~= Seq::empty());
        r
    }

    /// The node of a declaration identity, if the identity is known.
    pub fn lookup(&self, id: u64) -> (r: Option<usize>)
        ensures
            r == if self@.index.contains_key(id) {
                Some(self@.index[id])
            } else {
                None
            },
    {
        match self.index.get(&id) {
            Some(i) => Some(*i),
            None => None,
        }
    }

    /// The nodes, in the order in which their declarations were first met.
    pub fn nodes(&self) -> (r: &Vec<Node>)
        ensures
            nodes_model(r@) == self@.nodes,
    {
        &self.nodes
    }

    /// The spellings of the types that could not be classified.
    pub fn unknown(&self) -> (r: &Vec<String>)
        ensures
            views(r@) == self@.unknown,
    {
        &self.unknown
    }

    /// Gives up the registry for its nodes.
    pub fn into_nodes(self) -> (r: Vec<Node>)
        ensures
            nodes_model(r@) == self@.nodes,
    {
        self.nodes
    }

    fn push_node(&mut self, raw: &RawDecl, parent: Option<usize>, g: Global) -> (i: usize)
        requires
            old(self).wf(),
            !old(self)@.index.contains_key(raw.id),
            parent == old(self)@.parent_of(*raw),
        ensures
            final(self).wf(),
            final(self)@ == old(self)@.push(*raw, g@),
            i == old(self)@.nodes.len(),
    {
        let i: usize = self.nodes.len();
        self.nodes.push(
            Node { raw: raw.id, name: raw.name.clone(), parent, file: raw.file.clone(), global: g },
        );
        self.index.insert(raw.id, i);
        assert(self@.nodes =~= old(self)@.push(*raw, g@).nodes);
        i
    }

    fn build(&self, body: &RawBody) -> (r: Option<Global>)
        ensures
            match content(*body, self@.index, self@.enum_kind) {
                Some(c) => r is Some && r->0@ == c,
                None => r is None,
            },
    {
        match body {
            RawBody::Typedef { ty } => Some(Global::TypeAlias { ty: resolve(ty, &self.index) }),
            RawBody::Record { is_union, fields } => match fields {
                Some(fs) => Some(
                    Global::Comp { is_union: *is_union, fields: resolve_fields(fs, &self.index) },
                ),
                None => None,
            },
            RawBody::Enum { repr, items } => match items {
                Some(es) => {
                    let kind = match self.enum_kind {
                        Some(k) => k,
                        None => match int_kind_of(*repr) {
                            Some(k) => k,
                            None => IKind::IInt,
                        },
                    };
                    Some(Global::Enum { kind, items: clone_items(es) })
                },
                None => None,
            },
            RawBody::Var { ty, is_const } => Some(
                Global::Var { ty: resolve(ty, &self.index), is_const: *is_const },
            ),
            RawBody::Func { sig, symbol } => Some(
                Global::Func { sig: resolve_sig(sig, &self.index), symbol: symbol.clone() },
            ),
        }
    }

    /// Registers a declaration and gives its node.
    ///
    /// A declaration whose identity is known gets no second node. A struct,
    /// union or enum gets its node before its body is resolved, so a body may
    /// refer to its own declaration, and a body fills a node once. Where every
    /// type has to be classified and the body holds one that cannot be, the
    /// pass is aborted with the spelling of the first such type.
    pub fn register(&mut self, raw: &RawDecl) -> (r: Result<usize, Failure>)
        requires
            old(self).wf(),
        ensures
            final(self).wf(),
            old(self)@.rejects(*raw) ==> ({
                &&& r matches Err(Failure::UnknownType(s))
                &&& s@ == global_unknowns(old(self)@.stored(*raw)->0)[0]
                &&& final(self)@ == old(self)@.declared(*raw)
            }),
            !old(self)@.rejects(*raw) ==> ({
                &&& r matches Ok(i)
                &&& final(self)@ == old(self)@.registered(*raw)
                &&& final(self)@.index.contains_key(raw.id)
                &&& i == final(self)@.index[raw.id]
            }),
    {
        let found: Option<usize> = self.lookup(raw.id);
        let parent: Option<usize> = match raw.parent {
            Some(p) => self.lookup(p),
            None => None,
        };
        let mut slot: Option<usize> = found;
        if found.is_none() {
            match &raw.body {
                RawBody::Record { is_union, .. } => {
                    slot = Some(self.push_node(raw, parent, Global::CompDecl { is_union: *is_union }));
                },
                RawBody::Enum { .. } => {
                    slot = Some(self.push_node(raw, parent, Global::EnumDecl));
                },
                _ => {},
            }
        }
        assert(self@ == old(self)@.declared(*raw));
        let stores: bool = match slot {
            None => true,
            Some(i) => match (&self.nodes[i].global, &raw.body) {
                (Global::CompDecl { .. }, RawBody::Record { fields, .. }) => fields.is_some(),
                (Global::EnumDecl, RawBody::Enum { items, .. }) => items.is_some(),
                _ => false,
            },
        };
        assert(stores == (old(self)@.is_new_whole(*raw) || self@.fills(*raw)));
        if !stores {
            return Ok(slot.unwrap());
        }
        let g: Global = self.build(&raw.body).unwrap();
        let mut met: Vec<String> = Vec::new();
        collect_global_unknowns(&g, &mut met);
        assert(views(met@) =~= global_unknowns(g@));
        if self.strict && met.len() > 0 {
            return Err(Failure::UnknownType(met[0].clone()));
        }
        proof {
            lemma_views_add(self.unknown@, met@);
        }
        self.unknown.append(&mut met);
        match slot {
            None => {
                let i = self.push_node(raw, parent, g);
                Ok(i)
            },
            Some(i) => {
                let node = Node {
                    raw: self.nodes[i].raw,
                    name: self.nodes[i].name.clone(),
                    parent: self.nodes[i].parent,
                    file: raw.file.clone(),
                    global: g,
                };
                self.nodes.set(i, node);
                assert(self@.nodes =~= old(self)@.registered(*raw).nodes);
                Ok(i)
            },
        }
    }

    /// Registers a stream of declarations, in order, until one aborts the
    /// pass.
    pub fn register_all(&mut self, decls: &Vec<RawDecl>) -> (r: Result<(), Failure>)
        requires
            old(self).wf(),
        ensures
            final(self).wf(),
            match r {
                Ok(_) => old(self)@.outcome(decls@) == Ok::<RegistryModel, Seq<char>>(final(self)@),
                Err(Failure::UnknownType(s)) => old(self)@.outcome(decls@) == Err::<
                    RegistryModel,
                    Seq<char>,
                >(s@),
                Err(_) => false,
            },
    {
        let n: usize = decls.len();
        let mut i: usize = 0;
        while i < n
            invariant
                n == decls@.len(),
                i <= n,
                self.wf(),
                old(self)@.outcome(decls@.take(i as int)) == Ok::<RegistryModel, Seq<char>>(self@),
            decreases n - i,
        {
            assert(decls@.take(i as int + 1).drop_last() == decls@.take(i as int));
            match self.register(&decls[i]) {
                Ok(_) => {},
                Err(e) => {
                    proof {
                        lemma_outcome_stays_failed(old(self)@, decls@, i as int + 1);
                    }
                    return Err(e);
                },
            }
            i = i + 1;
        }
        assert(decls@.take(n as int) == decls@);
        Ok(())
    }
}

/// Once a prefix of a stream has aborted the pass, the whole stream has, on
/// the same type.
pub proof fn lemma_outcome_stays_failed(s: RegistryModel, decls: Seq<RawDecl>, k: int)
    requires
        0 <= k <= decls.len(),
        s.outcome(decls.take(k)) is Err,
    ensures
        s.outcome(decls) == s.outcome(decls.take(k)),
    decreases decls.len() - k,
{
    if k < decls.len() {
        assert(decls.take(k + 1).drop_last() == decls.take(k));
        lemma_outcome_stays_failed(s, decls, k + 1);
    } else {
        assert(decls.take(k) == decls);
    }
}

} // verus!
