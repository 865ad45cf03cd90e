//! What the C front end hands over: declarations and types as it saw them.

use vstd::prelude::*;
use crate::types::{Abi, EnumItem};

verus! {

/// How the front end classes a type that is built into the language.
#[derive(Clone, Copy, PartialEq, Eq, Debug, Structural)]
pub enum RawKind {
    Void,
    Bool,
    /// Plain `char` where it is signed.
    CharS,
    SChar,
    /// Plain `char` where it is unsigned.
    CharU,
    UChar,
    Short,
    UShort,
    Int,
    UInt,
    Long,
    ULong,
    LongLong,
    ULongLong,
    Float,
    Double,
    /// Any other type that the front end knows.
    Other,
}

/// A type as the front end saw it.
#[derive(PartialEq, Eq, Debug)]
pub enum RawType {
    Builtin { kind: RawKind, spelling: String },
    Pointer { pointee: Box<RawType>, is_const: bool },
    Array { elem: Box<RawType>, len: Option<u64> },
    Function(Box<RawSig>),
    /// A struct, union, enum or typedef, by the identity of its declaration.
    Decl { id: u64, spelling: String },
}

#[derive(PartialEq, Eq, Debug)]
pub struct RawParam {
    pub name: String,
    pub ty: RawType,
}

#[derive(PartialEq, Eq, Debug)]
pub struct RawSig {
    pub ret: RawType,
    pub params: Vec<RawParam>,
    pub variadic: bool,
    pub abi: Abi,
}

#[derive(PartialEq, Eq, Debug)]
pub struct RawField {
    pub name: String,
    pub ty: RawType,
    pub bits: Option<u32>,
    pub offset: u64,
}

/// What a raw declaration declares.
#[derive(PartialEq, Eq, Debug)]
pub enum RawBody {
    Typedef { ty: RawType },
    /// A struct or union; `fields` is `None` where only the tag was declared.
    Record { is_union: bool, fields: Option<Vec<RawField>> },
    /// An enum with the integer type that the front end inferred for it;
    /// `items` is `None` where only the tag was declared.
    Enum { repr: RawKind, items: Option<Vec<EnumItem>> },
    Var { ty: RawType, is_const: bool },
    Func { sig: RawSig, symbol: String },
}

/// One declaration of the front end's stream.
///
/// The front end yields a declaration before any type that refers to it, and
/// an enclosing declaration before those nested in it.
#[derive(PartialEq, Eq, Debug)]
pub struct RawDecl {
    /// The identity of the declaration: a forward declaration and the
    /// definition of one struct carry the same.
    pub id: u64,
    /// The spelling; empty for an anonymous declaration.
    pub name: String,
    /// The identity of the declaration that this one is nested in.
    pub parent: Option<u64>,
    /// The source file; empty where the compiler itself brought the
    /// declaration.
    pub file: String,
    pub body: RawBody,
}

} // verus!
