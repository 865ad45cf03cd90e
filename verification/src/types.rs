//! The canonical type model.

use vstd::prelude::*;

verus! {

/// An integer type of C, by signedness and width class. The width in bits is
/// the platform's, and no variant fixes it.
#[derive(Clone, Copy, PartialEq, Eq, Debug, Structural)]
pub enum IKind {
    ISChar,
    IUChar,
    IShort,
    IUShort,
    IInt,
    IUInt,
    ILong,
    IULong,
    ILongLong,
    IULongLong,
}

/// The width class of an integer type of C.
#[derive(Clone, Copy, PartialEq, Eq, Debug, Structural)]
pub enum Width {
    Char,
    Short,
    Int,
    Long,
    LongLong,
}

impl IKind {
    /// Whether values of the kind carry a sign.
    pub open spec fn signed(self) -> bool {
        match self {
            IKind::ISChar | IKind::IShort | IKind::IInt | IKind::ILong | IKind::ILongLong => true,
            _ => false,
        }
    }

    /// The width class of the kind.
    pub open spec fn width_class(self) -> Width {
        match self {
            IKind::ISChar | IKind::IUChar => Width::Char,
            IKind::IShort | IKind::IUShort => Width::Short,
            IKind::IInt | IKind::IUInt => Width::Int,
            IKind::ILong | IKind::IULong => Width::Long,
            IKind::ILongLong | IKind::IULongLong => Width::LongLong,
        }
    }

    /// The kind with the given signedness and width class.
    pub open spec fn of(signed: bool, width: Width) -> IKind {
        match width {
            Width::Char => if signed { IKind::ISChar } else { IKind::IUChar },
            Width::Short => if signed { IKind::IShort } else { IKind::IUShort },
            Width::Int => if signed { IKind::IInt } else { IKind::IUInt },
            Width::Long => if signed { IKind::ILong } else { IKind::IULong },
            Width::LongLong => if signed { IKind::ILongLong } else { IKind::IULongLong },
        }
    }

    /// Whether values of the kind carry a sign.
    pub fn is_signed(&self) -> (r: bool)
        ensures
            r == self.signed(),
    {
        match self {
            IKind::ISChar | IKind::IShort | IKind::IInt | IKind::ILong | IKind::ILongLong => true,
            _ => false,
        }
    }

    /// The width class of the kind.
    pub fn width(&self) -> (r: Width)
        ensures
            r == self.width_class(),
    {
        match self {
            IKind::ISChar | IKind::IUChar => Width::Char,
            IKind::IShort | IKind::IUShort => Width::Short,
            IKind::IInt | IKind::IUInt => Width::Int,
            IKind::ILong | IKind::IULong => Width::Long,
            IKind::ILongLong | IKind::IULongLong => Width::LongLong,
        }
    }
}

/// A kind is its signedness together with its width class, and nothing else.
pub proof fn lemma_kind_is_sign_and_width(k: IKind)
    ensures
        IKind::of(k.signed(), k.width_class()) == k,
{
}

/// A floating-point type of C, by width class.
#[derive(Clone, Copy, PartialEq, Eq, Debug, Structural)]
pub enum FKind {
    FFloat,
    FDouble,
}

/// The calling convention of a function.
#[derive(Clone, Copy, PartialEq, Eq, Debug, Structural)]
pub enum Abi {
    C,
    Stdcall,
    Fastcall,
    Aapcs,
    Win64,
}

/// A type, as the registry holds it. A declaration is referred to by the
/// index of its node, so that a type may name a node that is not filled yet.
#[derive(PartialEq, Eq, Debug)]
pub enum Type {
    Void,
    Bool,
    Int(IKind),
    Float(FKind),
    /// The pointee, and whether it is const.
    Pointer(Box<Type>, bool),
    /// The element, and the length where the declaration gives one.
    Array(Box<Type>, Option<u64>),
    Function(Box<FuncSig>),
    /// The node that declares the type.
    Named(usize),
    /// A type that could not be classified, by its spelling in the source.
    Unknown(String),
}

/// A parameter of a function.
#[derive(PartialEq, Eq, Debug)]
pub struct Param {
    pub name: String,
    pub ty: Type,
}

/// The signature of a function.
#[derive(PartialEq, Eq, Debug)]
pub struct FuncSig {
    pub ret: Type,
    pub params: Vec<Param>,
    pub variadic: bool,
    pub abi: Abi,
}

/// A field of a struct or union, as declared.
#[derive(PartialEq, Eq, Debug)]
pub struct Field {
    pub name: String,
    pub ty: Type,
    /// The width in bits of a bit-field.
    pub bits: Option<u32>,
    /// The offset in bytes from the start of the aggregate.
    pub offset: u64,
}

/// A named value of an enum.
#[derive(Clone, PartialEq, Eq, Debug)]
pub struct EnumItem {
    pub name: String,
    pub value: i64,
}

/// What a node declares.
#[derive(PartialEq, Eq, Debug)]
pub enum Global {
    TypeAlias { ty: Type },
    /// A struct or union whose body has not been seen.
    CompDecl { is_union: bool },
    Comp { is_union: bool, fields: Vec<Field> },
    /// An enum whose body has not been seen.
    EnumDecl,
    Enum { kind: IKind, items: Vec<EnumItem> },
    Var { ty: Type, is_const: bool },
    Func { sig: FuncSig, symbol: String },
}

/// One declaration of the translated headers.
#[derive(PartialEq, Eq, Debug)]
pub struct Node {
    /// The identity that the front end gave the declaration.
    pub raw: u64,
    /// The spelling in the source; empty for an anonymous declaration.
    pub name: String,
    /// The node of the declaration that this one is nested in.
    pub parent: Option<usize>,
    /// The source file of the declaration; empty where the compiler itself
    /// brought it.
    pub file: String,
    pub global: Global,
}

/// The mathematical value of a [`Type`].
pub enum TypeModel {
    Void,
    Bool,
    Int(IKind),
    Float(FKind),
    Pointer(Box<TypeModel>, bool),
    Array(Box<TypeModel>, Option<u64>),
    Function(Box<SigModel>),
    Named(usize),
    Unknown(Seq<char>),
}

/// The mathematical value of a [`Param`].
pub struct ParamModel {
    pub name: Seq<char>,
    pub ty: TypeModel,
}

/// The mathematical value of a [`FuncSig`].
pub struct SigModel {
    pub ret: TypeModel,
    pub params: Seq<ParamModel>,
    pub variadic: bool,
    pub abi: Abi,
}

/// The mathematical value of a [`Field`].
pub struct FieldModel {
    pub name: Seq<char>,
    pub ty: TypeModel,
    pub bits: Option<u32>,
    pub offset: u64,
}

/// The mathematical value of an [`EnumItem`].
pub struct ItemModel {
    pub name: Seq<char>,
    pub value: i64,
}

/// The mathematical value of a [`Global`].
pub enum GlobalModel {
    TypeAlias { ty: TypeModel },
    CompDecl { is_union: bool },
    Comp { is_union: bool, fields: Seq<FieldModel> },
    EnumDecl,
    Enum { kind: IKind, items: Seq<ItemModel> },
    Var { ty: TypeModel, is_const: bool },
    Func { sig: SigModel, symbol: Seq<char> },
}

/// The mathematical value of a [`Node`].
pub struct NodeModel {
    pub raw: u64,
    pub name: Seq<char>,
    pub parent: Option<usize>,
    pub file: Seq<char>,
    pub global: GlobalModel,
}

pub open spec fn type_model(ty: Type) -> TypeModel
    decreases ty,
{
    match ty {
        Type::Void => TypeModel::Void,
        Type::Bool => TypeModel::Bool,
        Type::Int(k) => TypeModel::Int(k),
        Type::Float(k) => TypeModel::Float(k),
        Type::Pointer(t, c) => TypeModel::Pointer(Box::new(type_model(*t)), c),
        Type::Array(t, n) => TypeModel::Array(Box::new(type_model(*t)), n),
        Type::Function(sig) => TypeModel::Function(Box::new(sig_model(*sig))),
        Type::Named(i) => TypeModel::Named(i),
        Type::Unknown(s) => TypeModel::Unknown(s@),
    }
}

pub open spec fn sig_model(sig: FuncSig) -> SigModel
    decreases sig,
{
    SigModel {
        ret: type_model(sig.ret),
        params: Seq::new(
            sig.params@.len(),
            |i: int|
                if 0 <= i < sig.params@.len() {
                    ParamModel { name: sig.params@[i].name@, ty: type_model(sig.params@[i].ty) }
                } else {
                    arbitrary()
                },
        ),
        variadic: sig.variadic,
        abi: sig.abi,
    }
}

pub open spec fn field_model(f: Field) -> FieldModel {
    FieldModel { name: f.name@, ty: type_model(f.ty), bits: f.bits, offset: f.offset }
}

pub open spec fn item_model(e: EnumItem) -> ItemModel {
    ItemModel { name: e.name@, value: e.value }
}

pub open spec fn fields_model(fields: Seq<Field>) -> Seq<FieldModel> {
    Seq::new(fields.len(), |i: int| field_model(fields[i]))
}

pub open spec fn items_model(items: Seq<EnumItem>) -> Seq<ItemModel> {
    Seq::new(items.len(), |i: int| item_model(items[i]))
}

pub open spec fn global_model(g: Global) -> GlobalModel {
    match g {
        Global::TypeAlias { ty } => GlobalModel::TypeAlias { ty: type_model(ty) },
        Global::CompDecl { is_union } => GlobalModel::CompDecl { is_union },
        Global::Comp { is_union, fields } => GlobalModel::Comp {
            is_union,
            fields: fields_model(fields@),
        },
        Global::EnumDecl => GlobalModel::EnumDecl,
        Global::Enum { kind, items } => GlobalModel::Enum { kind, items: items_model(items@) },
        Global::Var { ty, is_const } => GlobalModel::Var { ty: type_model(ty), is_const },
        Global::Func { sig, symbol } => GlobalModel::Func { sig: sig_model(sig), symbol: symbol@ },
    }
}

pub open spec fn node_model(n: Node) -> NodeModel {
    NodeModel {
        raw: n.raw,
        name: n.name@,
        parent: n.parent,
        file: n.file@,
        global: global_model(n.global),
    }
}

pub open spec fn nodes_model(nodes: Seq<Node>) -> Seq<NodeModel> {
    Seq::new(nodes.len(), |i: int| node_model(nodes[i]))
}

impl View for Type {
    type V = TypeModel;

    open spec fn view(&self) -> TypeModel {
        type_model(*self)
    }
}

impl View for FuncSig {
    type V = SigModel;

    open spec fn view(&self) -> SigModel {
        sig_model(*self)
    }
}

impl View for Field {
    type V = FieldModel;

    open spec fn view(&self) -> FieldModel {
        field_model(*self)
    }
}

impl View for EnumItem {
    type V = ItemModel;

    open spec fn view(&self) -> ItemModel {
        item_model(*self)
    }
}

impl View for Global {
    type V = GlobalModel;

    open spec fn view(&self) -> GlobalModel {
        global_model(*self)
    }
}

impl View for Node {
    type V = NodeModel;

    open spec fn view(&self) -> NodeModel {
        node_model(*self)
    }
}

impl GlobalModel {
    /// Whether a struct, a union or an enum is declared: what has a tag and
    /// can be declared ahead of its body.
    pub open spec fn tagged(self) -> bool {
        match self {
            GlobalModel::CompDecl { .. } | GlobalModel::Comp { .. } | GlobalModel::EnumDecl | GlobalModel::Enum { .. } => true,
            _ => false,
        }
    }
}

impl NodeModel {
    /// Whether the declaration has no name of its own.
    pub open spec fn anonymous(self) -> bool {
        self.name.len() == 0
    }

    /// Whether the node declares a struct, a union or an enum.
    pub open spec fn is_tagged(self) -> bool {
        self.global.tagged()
    }

    /// Whether the node declares a function or a variable.
    pub open spec fn is_symbol(self) -> bool {
        match self.global {
            GlobalModel::Var { .. } | GlobalModel::Func { .. } => true,
            _ => false,
        }
    }
}

} // verus!
