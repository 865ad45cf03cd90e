use bindgen::bindings::{parse_headers, Bindings};
use bindgen::emit::Item;
use bindgen::failure::Failure;
use bindgen::logger::{DummyLogger, Logger};
use bindgen::options::{BindgenOptions, LinkType};
use bindgen::raw::{RawBody, RawDecl, RawField, RawKind, RawParam, RawSig, RawType};
use bindgen::types::{Abi, EnumItem};
use std::cell::RefCell;

struct Recorder {
    errors: RefCell<Vec<String>>,
    warnings: RefCell<Vec<String>>,
}

impl Recorder {
    fn new() -> Recorder {
        Recorder { errors: RefCell::new(Vec::new()), warnings: RefCell::new(Vec::new()) }
    }
}

impl Logger for Recorder {
    fn error(&self, msg: &str) {
        self.errors.borrow_mut().push(msg.to_string());
    }

    fn warn(&self, msg: &str) {
        self.warnings.borrow_mut().push(msg.to_string());
    }
}

fn bd_builtin(kind: RawKind, spelling: &str) -> RawType {
    RawType::Builtin { kind, spelling: spelling.to_string() }
}

fn bd_int() -> RawType {
    bd_builtin(RawKind::Int, "int")
}

fn bd_ptr(t: RawType) -> RawType {
    RawType::Pointer { pointee: Box::new(t), is_const: false }
}

fn bd_named(id: u64) -> RawType {
    RawType::Decl { id, spelling: format!("decl{}", id) }
}

fn bd_field(name: &str, ty: RawType, offset: u64) -> RawField {
    RawField { name: name.to_string(), ty, bits: None, offset }
}

fn bd_record(id: u64, name: &str, file: &str, fields: Option<Vec<RawField>>) -> RawDecl {
    RawDecl {
        id,
        name: name.to_string(),
        parent: None,
        file: file.to_string(),
        body: RawBody::Record { is_union: false, fields },
    }
}

fn bd_func(id: u64, name: &str, file: &str, params: Vec<(&str, RawType)>, ret: RawType) -> RawDecl {
    RawDecl {
        id,
        name: name.to_string(),
        parent: None,
        file: file.to_string(),
        body: RawBody::Func {
            sig: RawSig {
                ret,
                params: params
                    .into_iter()
                    .map(|(n, ty)| RawParam { name: n.to_string(), ty })
                    .collect(),
                variadic: false,
                abi: Abi::C,
            },
            symbol: name.to_string(),
        },
    }
}

fn bd_list_header() -> Vec<RawDecl> {
    vec![
        bd_record(
            1,
            "node",
            "list.h",
            Some(vec![bd_field("value", bd_int(), 0), bd_field("next", bd_ptr(bd_named(1)), 8)]),
        ),
        bd_func(
            2,
            "push",
            "list.h",
            vec![("list", bd_ptr(bd_named(1))), ("v", bd_int())],
            bd_builtin(RawKind::Void, "void"),
        ),
    ]
}

#[test]
fn a_list_header_end_to_end() {
    let mut options = BindgenOptions::default();
    options.links.push(("list".to_string(), LinkType::Static));
    let b = Bindings::generate(&options, None, &Ok(bd_list_header())).unwrap();
    assert_eq!(
        b.to_string(),
        "struct Struct_node { value: int @0; next: *mut Struct_node @8; }\n\
         #[link(list, static)] extern C fn push(\n    list: *mut Struct_node,\n    v: int,\n) -> void = push;\n"
    );
    let ast = b.into_ast();
    assert_eq!(ast.names, vec!["Struct_node", "push"]);
    assert_eq!(ast.items, vec![Item { node: 0, forward: false }, Item { node: 1, forward: false }]);
    assert_eq!(ast.links, vec![("list".to_string(), LinkType::Static)]);
    assert_eq!(ast.nodes.len(), 2);
}

#[test]
fn generating_twice_gives_the_same_text() {
    let mut options = BindgenOptions::default();
    options.match_pat.push("list".to_string());
    let a = Bindings::generate(&options, None, &Ok(bd_list_header())).unwrap();
    let b = Bindings::generate(&options, None, &Ok(bd_list_header())).unwrap();
    assert_eq!(a.to_string(), b.to_string());
    let mut x = Vec::new();
    let mut y = Vec::new();
    a.write(&mut x);
    b.write(&mut y);
    assert_eq!(x, y);
}

#[test]
fn write_puts_the_banner_first() {
    let b = Bindings::generate(&BindgenOptions::default(), None, &Ok(bd_list_header())).unwrap();
    let mut sink = b"kept".to_vec();
    b.write(&mut sink);
    let want = format!("kept/* automatically generated by rust-bindgen */\n\n{}", b.to_string());
    assert_eq!(sink, want.into_bytes());
}

#[test]
fn a_struct_declared_in_one_header_and_defined_in_another_is_emitted_once() {
    let decls = vec![
        bd_record(7, "s", "fwd.h", None),
        bd_func(8, "use_s", "fwd.h", vec![("p", bd_ptr(bd_named(7)))], bd_int()),
        bd_record(7, "s", "def.h", Some(vec![bd_field("x", bd_int(), 0)])),
    ];
    let b = Bindings::generate(&BindgenOptions::default(), None, &Ok(decls)).unwrap();
    assert_eq!(
        b.to_string(),
        "struct Struct_s { x: int @0; }\nextern C fn use_s(p: *mut Struct_s) -> int = use_s;\n"
    );
}

#[test]
fn filter_with_dependency_closure() {
    let decls = vec![
        bd_record(1, "dep", "bar.h", Some(vec![bd_field("x", bd_int(), 0)])),
        bd_func(2, "wanted", "foo.h", vec![("d", bd_named(1))], bd_int()),
        bd_func(3, "unrelated", "bar.h", vec![], bd_int()),
    ];
    let mut options = BindgenOptions::default();
    options.match_pat.push("foo.h".to_string());
    let b = Bindings::generate(&options, None, &Ok(decls)).unwrap();
    assert_eq!(
        b.to_string(),
        "struct Struct_dep { x: int @0; }\nextern C fn wanted(d: Struct_dep) -> int = wanted;\n"
    );
}

#[test]
fn strict_mode_is_enforced() {
    let decls = vec![RawDecl {
        id: 1,
        name: "v".to_string(),
        parent: None,
        file: "v.h".to_string(),
        body: RawBody::Var { ty: bd_builtin(RawKind::Other, "__m128"), is_const: true },
    }];
    let mut options = BindgenOptions::default();
    options.fail_on_unknown_type = true;
    let log = Recorder::new();
    let r = Bindings::generate(&options, Some(&log), &Ok(vec![]));
    assert!(r.is_ok());
    let parsed = Ok(decls);
    let r = Bindings::generate(&options, Some(&log), &parsed);
    assert!(matches!(r, Err(Failure::UnknownType(ref s)) if s == "__m128"));
    assert_eq!(log.errors.borrow().clone(), vec!["unsupported type `__m128`"]);
    assert!(log.warnings.borrow().is_empty());
    options.fail_on_unknown_type = false;
    let log = Recorder::new();
    let b = Bindings::generate(&options, Some(&log), &parsed).unwrap();
    assert_eq!(b.to_string(), "const v: opaque(__m128);\n");
    assert!(log.errors.borrow().is_empty());
    assert_eq!(log.warnings.borrow().clone(), vec!["unsupported type `__m128`"]);
}

#[test]
fn a_header_that_does_not_parse_is_a_failure() {
    let log = Recorder::new();
    let parsed: Result<Vec<RawDecl>, String> = Err("foo.h:1:1: fatal error".to_string());
    let r = Bindings::generate(&BindgenOptions::default(), Some(&log), &parsed);
    assert!(matches!(r, Err(Failure::HeaderParse)));
    assert_eq!(log.errors.borrow().clone(), vec!["foo.h:1:1: fatal error"]);
    assert!(matches!(Bindings::generate(&BindgenOptions::default(), None, &parsed), Err(Failure::HeaderParse)));
}

#[test]
fn the_enum_override_reaches_every_enum() {
    let items = Some(vec![
        EnumItem { name: "RED".to_string(), value: 0 },
        EnumItem { name: "NEG".to_string(), value: -5 },
        EnumItem { name: "MIN".to_string(), value: i64::MIN },
        EnumItem { name: "MAX".to_string(), value: i64::MAX },
    ]);
    let decls = vec![
        RawDecl {
            id: 1,
            name: "small".to_string(),
            parent: None,
            file: "e.h".to_string(),
            body: RawBody::Enum { repr: RawKind::UChar, items: items.clone() },
        },
        RawDecl {
            id: 2,
            name: "wide".to_string(),
            parent: None,
            file: "e.h".to_string(),
            body: RawBody::Enum { repr: RawKind::LongLong, items: Some(vec![]) },
        },
    ];
    let mut options = BindgenOptions::default();
    let parsed = Ok(decls);
    let plain = Bindings::generate(&options, None, &parsed).unwrap();
    assert_eq!(
        plain.to_string(),
        "enum Enum_small: uchar {\n    RED = 0,\n    NEG = -5,\n    MIN = -9223372036854775808,\n    \
         MAX = 9223372036854775807,\n}\n\
         enum Enum_wide: longlong { }\n"
    );
    options.override_enum_ty = "uint".to_string();
    let forced = Bindings::generate(&options, None, &parsed).unwrap();
    assert_eq!(
        forced.to_string(),
        "enum Enum_small: uint {\n    RED = 0,\n    NEG = -5,\n    MIN = -9223372036854775808,\n    \
         MAX = 9223372036854775807,\n}\n\
         enum Enum_wide: uint { }\n"
    );
}

#[test]
fn anonymous_structs_in_one_parent_get_stable_distinct_names() {
    let anon = |id: u64, is_union: bool| RawDecl {
        id,
        name: String::new(),
        parent: Some(1),
        file: "p.h".to_string(),
        body: RawBody::Record { is_union, fields: Some(vec![bd_field("x", bd_int(), 0)]) },
    };
    let decls = vec![
        bd_record(1, "parent", "p.h", None),
        anon(2, false),
        anon(3, true),
        bd_record(
            1,
            "parent",
            "p.h",
            Some(vec![bd_field("a", bd_named(2), 0), bd_field("b", bd_named(3), 4)]),
        ),
    ];
    let parsed = Ok(decls);
    let b = Bindings::generate(&BindgenOptions::default(), None, &parsed).unwrap();
    let text = b.to_string();
    assert_eq!(
        text,
        "struct Struct_parent_1 { x: int @0; }\n\
         union Union_parent_2 { x: int @0; }\n\
         struct Struct_parent { a: Struct_parent_1 @0; b: Union_parent_2 @4; }\n"
    );
    let again = Bindings::generate(&BindgenOptions::default(), None, &parsed).unwrap();
    assert_eq!(again.to_string(), text);
}

#[test]
fn every_shape_of_type_is_written() {
    let sig = RawSig {
        ret: bd_builtin(RawKind::Double, "double"),
        params: vec![],
        variadic: true,
        abi: Abi::C,
    };
    let cb = RawSig {
        ret: bd_builtin(RawKind::Bool, "_Bool"),
        params: vec![
            RawParam { name: "a".to_string(), ty: bd_builtin(RawKind::UShort, "unsigned short") },
            RawParam {
                name: "b".to_string(),
                ty: RawType::Pointer { pointee: Box::new(bd_builtin(RawKind::CharS, "char")), is_const: true },
            },
        ],
        variadic: true,
        abi: Abi::C,
    };
    let fields = vec![
        RawField { name: "bits".to_string(), ty: bd_builtin(RawKind::UInt, "unsigned"), bits: Some(3), offset: 0 },
        bd_field("arr", RawType::Array { elem: Box::new(bd_builtin(RawKind::Float, "float")), len: Some(16) }, 4),
        bd_field("open", RawType::Array { elem: Box::new(bd_builtin(RawKind::LongLong, "long long")), len: None }, 68),
        bd_field("cb", bd_ptr(RawType::Function(Box::new(cb))), 72),
        bd_field("f", bd_ptr(RawType::Function(Box::new(sig))), 80),
        bd_field("missing", bd_ptr(bd_named(404)), 88),
    ];
    let decls = vec![
        RawDecl {
            id: 1,
            name: "all".to_string(),
            parent: None,
            file: "a.h".to_string(),
            body: RawBody::Record { is_union: true, fields: Some(fields) },
        },
        RawDecl {
            id: 2,
            name: "word".to_string(),
            parent: None,
            file: "a.h".to_string(),
            body: RawBody::Typedef { ty: bd_builtin(RawKind::ULong, "unsigned long") },
        },
        RawDecl {
            id: 3,
            name: "counter".to_string(),
            parent: None,
            file: "a.h".to_string(),
            body: RawBody::Var { ty: bd_named(2), is_const: false },
        },
        RawDecl {
            id: 4,
            name: "later".to_string(),
            parent: None,
            file: "a.h".to_string(),
            body: RawBody::Enum { repr: RawKind::Int, items: None },
        },
        RawDecl {
            id: 5,
            name: "vf".to_string(),
            parent: None,
            file: "a.h".to_string(),
            body: RawBody::Func {
                sig: RawSig {
                    ret: bd_ptr(bd_named(4)),
                    params: vec![RawParam { name: "fmt".to_string(), ty: bd_ptr(bd_builtin(RawKind::SChar, "signed char")) }],
                    variadic: true,
                    abi: Abi::Stdcall,
                },
                symbol: "vf@4".to_string(),
            },
        },
    ];
    let mut options = BindgenOptions::default();
    options.links.push(("a".to_string(), LinkType::Default));
    options.links.push(("Cocoa".to_string(), LinkType::Framework));
    let log = Recorder::new();
    let b = Bindings::generate(&options, Some(&log), &Ok(decls)).unwrap();
    assert_eq!(
        b.to_string(),
        "union Union_all {\n    bits: uint : 3 @0;\n    arr: [float; 16] @4;\n    open: [longlong] @68;\n    \
         cb: *mut fn(a: ushort, b: *const schar, ...) -> bool @72;\n    f: *mut fn(...) -> double @80;\n    \
         missing: *mut opaque(decl404) @88;\n}\n\
         type word = ulong;\n\
         #[link(a, dylib)] #[link(Cocoa, framework)] var counter: word;\n\
         enum Enum_later;\n\
         #[link(a, dylib)] #[link(Cocoa, framework)] extern stdcall fn vf(\n    fmt: *mut schar,\n    ...\n\
         ) -> *mut Enum_later = vf@4;\n"
    );
    let want = vec![
        "unsupported type `decl404`",
        "link target `a` is attached to 2 symbols",
        "link target `Cocoa` is attached to 2 symbols",
    ];
    assert_eq!(log.warnings.borrow().clone(), want);
    assert_eq!(b.warnings(), &want);
    assert!(log.errors.borrow().is_empty());
}

#[test]
fn an_identifier_that_gives_way_is_reported() {
    let decls = vec![
        bd_func(1, "match", "k.h", vec![], bd_int()),
        bd_record(2, "foo", "k.h", None),
        RawDecl {
            id: 3,
            name: "Struct_foo".to_string(),
            parent: None,
            file: "k.h".to_string(),
            body: RawBody::Typedef { ty: bd_named(2) },
        },
        RawDecl {
            id: 4,
            name: String::new(),
            parent: None,
            file: "k.h".to_string(),
            body: RawBody::Enum { repr: RawKind::Int, items: None },
        },
    ];
    let log = Recorder::new();
    let mut options = BindgenOptions::default();
    options.links.push(("k".to_string(), LinkType::Default));
    let b = Bindings::generate(&options, Some(&log), &Ok(decls)).unwrap();
    assert_eq!(
        b.to_string(),
        "#[link(k, dylib)] extern C fn match_() -> int = match;\n\
         struct Struct_foo;\n\
         type Struct_foo_ = Struct_foo;\n\
         enum Enum__1;\n"
    );
    assert_eq!(
        log.warnings.borrow().clone(),
        vec![
            "`match` is emitted as `match_`",
            "`Struct_foo` is emitted as `Struct_foo_`",
            "link target `k` is attached to 1 symbols",
        ]
    );
}

#[test]
fn mutual_recursion_gets_a_forward_declaration() {
    let decls = vec![
        bd_record(2, "b", "m.h", None),
        bd_record(1, "a", "m.h", Some(vec![bd_field("b", bd_ptr(bd_named(2)), 0)])),
        bd_record(2, "b", "m.h", Some(vec![bd_field("a", bd_ptr(bd_named(1)), 0)])),
    ];
    let b = Bindings::generate(&BindgenOptions::default(), None, &Ok(decls)).unwrap();
    assert_eq!(
        b.to_string(),
        "struct Struct_a;\n\
         struct Struct_b { a: *mut Struct_a @0; }\n\
         struct Struct_a { b: *mut Struct_b @0; }\n"
    );
}

#[test]
fn parse_headers_gives_the_nodes() {
    let nodes = parse_headers(&BindgenOptions::default(), &bd_list_header(), &DummyLogger).unwrap();
    assert_eq!(nodes.len(), 2);
    assert_eq!(nodes[0].name, "node");
    assert_eq!(nodes[1].name, "push");
    let mut strict = BindgenOptions::default();
    strict.fail_on_unknown_type = true;
    let bad = vec![bd_func(1, "f", "f.h", vec![("x", bd_named(9))], bd_int())];
    assert_eq!(
        parse_headers(&strict, &bad, &DummyLogger),
        Err(Failure::UnknownType("decl9".to_string()))
    );
}

#[test]
fn builtins_are_kept_out_unless_allowed_or_needed() {
    let decls = vec![
        bd_record(1, "__va_list_tag", "", Some(vec![])),
        bd_func(2, "plain", "foo.h", vec![], bd_int()),
    ];
    let parsed = Ok(decls);
    let mut options = BindgenOptions::default();
    let b = Bindings::generate(&options, None, &parsed).unwrap();
    assert_eq!(b.to_string(), "extern C fn plain() -> int = plain;\n");
    options.builtins = true;
    let b = Bindings::generate(&options, None, &parsed).unwrap();
    assert_eq!(b.to_string(), "struct Struct___va_list_tag { }\nextern C fn plain() -> int = plain;\n");
}

#[test]
fn a_declaration_is_broken_where_its_line_is_wider_than_eighty() {
    let fits = "a".repeat(51);
    let wide = "b".repeat(52);
    let decls = vec![
        bd_record(1, &fits, "w.h", Some(vec![bd_field("x", bd_int(), 0)])),
        bd_record(2, &wide, "w.h", Some(vec![bd_field("x", bd_int(), 0)])),
        RawDecl {
            id: 3,
            name: "c".repeat(90),
            parent: None,
            file: "w.h".to_string(),
            body: RawBody::Typedef { ty: bd_int() },
        },
    ];
    let text = Bindings::generate(&BindgenOptions::default(), None, &Ok(decls)).unwrap().to_string();
    let lines: Vec<&str> = text.split('\n').collect();
    assert_eq!(lines.len(), 6);
    assert_eq!(lines[0], format!("struct Struct_{} {{ x: int @0; }}", fits));
    assert_eq!(lines[0].len(), 80);
    assert_eq!(lines[1], format!("struct Struct_{} {{", wide));
    assert_eq!(lines[2], "    x: int @0;");
    assert_eq!(lines[3], "}");
    assert_eq!(lines[4], format!("type {} = int;", "c".repeat(90)));
    assert_eq!(lines[5], "");
}
