//! What a caller configures, and what of it the C front end is told.

use vstd::prelude::*;
use vstd::string::*;
use crate::strings::{clone_strings, str_eq, views};
use crate::types::IKind;

verus! {

/// How an emitted symbol is linked.
#[derive(Clone, Copy, PartialEq, Eq, Debug, Structural)]
pub enum LinkType {
    /// Dynamically, the platform's default.
    Default,
    /// Statically.
    Static,
    /// From a framework bundle.
    Framework,
}

/// The configuration of a generation pass.
#[derive(Clone, Debug, PartialEq, Eq)]
pub struct BindgenOptions {
    /// Patterns a declaration's source file is held against; none selects all.
    pub match_pat: Vec<String>,
    /// Whether declarations of the compiler itself may be emitted.
    pub builtins: bool,
    /// The link targets, each a name with how it is linked.
    pub links: Vec<(String, LinkType)>,
    /// Asks the front end to dump what it parsed.
    pub emit_ast: bool,
    /// Whether a type that cannot be classified aborts the pass.
    pub fail_on_unknown_type: bool,
    /// The name of the integer kind forced on every enum; any other text
    /// forces none.
    pub override_enum_ty: String,
    /// Arguments handed to the front end as they are.
    pub clang_args: Vec<String>,
}

impl Default for BindgenOptions {
    fn default() -> (r: BindgenOptions)
        ensures
            r.match_pat@.len() == 0,
            !r.builtins,
            r.links@.len() == 0,
            !r.emit_ast,
            !r.fail_on_unknown_type,
            r.override_enum_ty@.len() == 0,
            r.clang_args@.len() == 0,
    {
        BindgenOptions {
            match_pat: Vec::new(),
            builtins: false,
            links: Vec::new(),
            emit_ast: false,
            fail_on_unknown_type: false,
            override_enum_ty: String::new(),
            clang_args: Vec::new(),
        }
    }
}

/// What the C front end and the registry are configured with.
#[derive(Clone, Debug, PartialEq, Eq)]
pub struct ClangParserOptions {
    /// Names of the declarations that the compiler itself brings.
    pub builtin_names: Vec<String>,
    pub builtins: bool,
    pub match_pat: Vec<String>,
    pub emit_ast: bool,
    pub fail_on_unknown_type: bool,
    /// The integer kind forced on every enum, if any.
    pub override_enum_ty: Option<IKind>,
    pub clang_args: Vec<String>,
}

/// The integer kind that a name stands for.
pub open spec fn ikind_of_name(s: Seq<char>) -> Option<IKind> {
    if s == "uchar"@ {
        Some(IKind::IUChar)
    } else if s == "schar"@ {
        Some(IKind::ISChar)
    } else if s == "ushort"@ {
        Some(IKind::IUShort)
    } else if s == "sshort"@ {
        Some(IKind::IShort)
    } else if s == "uint"@ {
        Some(IKind::IUInt)
    } else if s == "sint"@ {
        Some(IKind::IInt)
    } else if s == "ulong"@ {
        Some(IKind::IULong)
    } else if s == "slong"@ {
        Some(IKind::ILong)
    } else if s == "ulonglong"@ {
        Some(IKind::IULongLong)
    } else if s == "slonglong"@ {
        Some(IKind::ILongLong)
    } else {
        None
    }
}

/// Reads the name of an integer kind.
pub fn str_to_ikind(s: &str) -> (r: Option<IKind>)
    ensures
        r == ikind_of_name(s@),
{
    if str_eq(s, "uchar") {
        Some(IKind::IUChar)
    } else if str_eq(s, "schar") {
        Some(IKind::ISChar)
    } else if str_eq(s, "ushort") {
        Some(IKind::IUShort)
    } else if str_eq(s, "sshort") {
        Some(IKind::IShort)
    } else if str_eq(s, "uint") {
        Some(IKind::IUInt)
    } else if str_eq(s, "sint") {
        Some(IKind::IInt)
    } else if str_eq(s, "ulong") {
        Some(IKind::IULong)
    } else if str_eq(s, "slong") {
        Some(IKind::ILong)
    } else if str_eq(s, "ulonglong") {
        Some(IKind::IULongLong)
    } else if str_eq(s, "slonglong") {
        Some(IKind::ILongLong)
    } else {
        None
    }
}

/// The names of the declarations that the compiler itself brings.
pub open spec fn builtin_name_views() -> Seq<Seq<char>> {
    seq!["__va_list_tag"@, "__va_list"@, "__builtin_va_list"@]
}

/// The names of the declarations that the compiler itself brings, each once.
pub fn builtin_names() -> (names: Vec<String>)
    ensures
        views(names@) == builtin_name_views(),
        forall|i: int, j: int| 0 <= i < j < names@.len() ==> names@[i]@ != names@[j]@,
{
    let mut names: Vec<String> = Vec::new();
    names.push(String::from_str("__va_list_tag"));
    names.push(String::from_str("__va_list"));
    names.push(String::from_str("__builtin_va_list"));
    proof {
        reveal_strlit("__va_list_tag");
        reveal_strlit("__va_list");
        reveal_strlit("__builtin_va_list");
        assert(views(names@) =~= builtin_name_views());
        assert(names@[0]@.len() == 13 && names@[1]@.len() == 9 && names@[2]@.len() == 17);
    }
    names
}

/// What the front end and the registry are told for the given configuration.
pub fn parser_options(options: &BindgenOptions) -> (r: ClangParserOptions)
    ensures
        views(r.builtin_names@) == builtin_name_views(),
        r.builtins == options.builtins,
        r.match_pat@ == options.match_pat@,
        r.emit_ast == options.emit_ast,
        r.fail_on_unknown_type == options.fail_on_unknown_type,
        r.override_enum_ty == ikind_of_name(options.override_enum_ty@),
        r.clang_args@ == options.clang_args@,
{
    ClangParserOptions {
        builtin_names: builtin_names(),
        builtins: options.builtins,
        match_pat: clone_strings(&options.match_pat),
        emit_ast: options.emit_ast,
        fail_on_unknown_type: options.fail_on_unknown_type,
        override_enum_ty: str_to_ikind(options.override_enum_ty.as_str()),
        clang_args: clone_strings(&options.clang_args),
    }
}

} // verus!
