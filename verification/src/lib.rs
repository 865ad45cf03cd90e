//! Translation of parsed C declarations into an ordered, deduplicated list of
//! foreign-function-interface declarations.
//!
//! A C front end hands the library a stream of raw declarations ([`raw`]).
//! The [`registry`] turns the stream into a graph of canonical nodes
//! ([`types`]), [`names`] gives every node an identifier, [`filter`] decides
//! which nodes are emitted, [`emit`] puts them in dependency order and
//! [`text`] serialises the result. [`bindings`] ties the stages together, and
//! [`laws`] states what holds of a pass as a whole.

pub mod bindings;
pub mod emit;
pub mod failure;
pub mod filter;
pub mod graph;
pub mod laws;
pub mod logger;
pub mod names;
pub mod options;
pub mod raw;
pub mod registry;
pub mod strings;
pub mod text;
pub mod types;

pub use bindings::{parse_headers, Ast, Bindings};
pub use failure::Failure;
pub use logger::{DummyLogger, Logger};
pub use options::{builtin_names, parser_options, str_to_ikind, BindgenOptions, ClangParserOptions, LinkType};
pub use raw::{RawBody, RawDecl, RawField, RawKind, RawParam, RawSig, RawType};
pub use registry::Registry;
pub use types::{Abi, EnumItem, FKind, Field, FuncSig, Global, IKind, Node, Param, Type, Width};
