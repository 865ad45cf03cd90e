use bindgen::failure::Failure;
use bindgen::raw::{RawBody, RawDecl, RawField, RawKind, RawParam, RawSig, RawType};
use bindgen::registry::{collect_unknowns, int_kind_of, resolve, Registry};
use bindgen::types::{Abi, EnumItem, FKind, Field, FuncSig, Global, IKind, Param, Type};
use std::collections::HashMap;

fn reg_builtin(kind: RawKind, spelling: &str) -> RawType {
    RawType::Builtin { kind, spelling: spelling.to_string() }
}

fn reg_ptr(t: RawType) -> RawType {
    RawType::Pointer { pointee: Box::new(t), is_const: false }
}

fn reg_named(id: u64, spelling: &str) -> RawType {
    RawType::Decl { id, spelling: spelling.to_string() }
}

fn reg_field(name: &str, ty: RawType, offset: u64) -> RawField {
    RawField { name: name.to_string(), ty, bits: None, offset }
}

fn reg_record(id: u64, name: &str, file: &str, fields: Option<Vec<RawField>>) -> RawDecl {
    RawDecl {
        id,
        name: name.to_string(),
        parent: None,
        file: file.to_string(),
        body: RawBody::Record { is_union: false, fields },
    }
}

fn reg_enum(id: u64, name: &str, repr: RawKind, items: Option<Vec<EnumItem>>) -> RawDecl {
    RawDecl {
        id,
        name: name.to_string(),
        parent: None,
        file: "e.h".to_string(),
        body: RawBody::Enum { repr, items },
    }
}

#[test]
fn integer_kinds_keep_sign_and_width_class() {
    assert_eq!(int_kind_of(RawKind::CharS), Some(IKind::ISChar));
    assert_eq!(int_kind_of(RawKind::SChar), Some(IKind::ISChar));
    assert_eq!(int_kind_of(RawKind::CharU), Some(IKind::IUChar));
    assert_eq!(int_kind_of(RawKind::UChar), Some(IKind::IUChar));
    assert_eq!(int_kind_of(RawKind::Short), Some(IKind::IShort));
    assert_eq!(int_kind_of(RawKind::UShort), Some(IKind::IUShort));
    assert_eq!(int_kind_of(RawKind::Int), Some(IKind::IInt));
    assert_eq!(int_kind_of(RawKind::UInt), Some(IKind::IUInt));
    assert_eq!(int_kind_of(RawKind::Long), Some(IKind::ILong));
    assert_eq!(int_kind_of(RawKind::ULong), Some(IKind::IULong));
    assert_eq!(int_kind_of(RawKind::LongLong), Some(IKind::ILongLong));
    assert_eq!(int_kind_of(RawKind::ULongLong), Some(IKind::IULongLong));
    assert_eq!(int_kind_of(RawKind::Void), None);
    assert_eq!(int_kind_of(RawKind::Bool), None);
    assert_eq!(int_kind_of(RawKind::Float), None);
    assert_eq!(int_kind_of(RawKind::Other), None);
    assert!(IKind::ILong.is_signed());
    assert!(!IKind::IULong.is_signed());
    assert_eq!(IKind::ILong.width(), IKind::IULong.width());
    assert_ne!(IKind::ILong.width(), IKind::IInt.width());
}

#[test]
fn resolve_maps_shapes_one_for_one() {
    let mut index: HashMap<u64, usize> = HashMap::new();
    index.insert(77, 3);
    assert_eq!(resolve(&reg_builtin(RawKind::Void, "void"), &index), Type::Void);
    assert_eq!(resolve(&reg_builtin(RawKind::Bool, "_Bool"), &index), Type::Bool);
    assert_eq!(resolve(&reg_builtin(RawKind::Float, "float"), &index), Type::Float(FKind::FFloat));
    assert_eq!(resolve(&reg_builtin(RawKind::Double, "double"), &index), Type::Float(FKind::FDouble));
    assert_eq!(resolve(&reg_builtin(RawKind::ULong, "unsigned long"), &index), Type::Int(IKind::IULong));
    assert_eq!(
        resolve(&reg_builtin(RawKind::Other, "__int128"), &index),
        Type::Unknown("__int128".to_string())
    );
    assert_eq!(resolve(&reg_named(77, "struct s"), &index), Type::Named(3));
    assert_eq!(resolve(&reg_named(78, "struct t"), &index), Type::Unknown("struct t".to_string()));
    let arr = RawType::Array {
        elem: Box::new(RawType::Pointer {
            pointee: Box::new(reg_named(77, "struct s")),
            is_const: true,
        }),
        len: Some(4),
    };
    assert_eq!(
        resolve(&arr, &index),
        Type::Array(Box::new(Type::Pointer(Box::new(Type::Named(3)), true)), Some(4))
    );
    let sig = RawSig {
        ret: reg_builtin(RawKind::Int, "int"),
        params: vec![
            RawParam { name: "a".to_string(), ty: reg_named(77, "struct s") },
            RawParam { name: "b".to_string(), ty: reg_builtin(RawKind::Other, "wchar_t") },
        ],
        variadic: true,
        abi: Abi::Stdcall,
    };
    assert_eq!(
        resolve(&RawType::Function(Box::new(sig)), &index),
        Type::Function(Box::new(FuncSig {
            ret: Type::Int(IKind::IInt),
            params: vec![
                Param { name: "a".to_string(), ty: Type::Named(3) },
                Param { name: "b".to_string(), ty: Type::Unknown("wchar_t".to_string()) },
            ],
            variadic: true,
            abi: Abi::Stdcall,
        }))
    );
}

#[test]
fn unknown_spellings_are_collected_in_order() {
    let ty = Type::Function(Box::new(FuncSig {
        ret: Type::Unknown("r".to_string()),
        params: vec![
            Param { name: "a".to_string(), ty: Type::Pointer(Box::new(Type::Unknown("p".to_string())), false) },
            Param { name: "b".to_string(), ty: Type::Int(IKind::IInt) },
            Param { name: "c".to_string(), ty: Type::Array(Box::new(Type::Unknown("q".to_string())), None) },
        ],
        variadic: false,
        abi: Abi::C,
    }));
    let mut out = vec!["first".to_string()];
    collect_unknowns(&ty, &mut out);
    assert_eq!(out, vec!["first", "r", "p", "q"]);
}

#[test]
fn forward_declaration_and_definition_are_one_node() {
    let mut r = Registry::new(false, None);
    let a = r.register(&reg_record(5, "point", "a.h", None)).unwrap();
    assert_eq!(r.nodes().len(), 1);
    assert_eq!(r.nodes()[0].global, Global::CompDecl { is_union: false });
    assert_eq!(r.nodes()[0].file, "a.h");
    let fields = vec![
        reg_field("x", reg_builtin(RawKind::Int, "int"), 0),
        reg_field("y", reg_builtin(RawKind::Int, "int"), 4),
    ];
    let b = r.register(&reg_record(5, "point", "b.h", Some(fields))).unwrap();
    assert_eq!(a, b);
    assert_eq!(r.nodes().len(), 1);
    assert_eq!(r.nodes()[0].name, "point");
    assert_eq!(r.nodes()[0].raw, 5);
    assert_eq!(r.nodes()[0].file, "b.h");
    assert_eq!(
        r.nodes()[0].global,
        Global::Comp {
            is_union: false,
            fields: vec![
                Field { name: "x".to_string(), ty: Type::Int(IKind::IInt), bits: None, offset: 0 },
                Field { name: "y".to_string(), ty: Type::Int(IKind::IInt), bits: None, offset: 4 },
            ],
        }
    );
    assert_eq!(r.lookup(5), Some(0));
    assert_eq!(r.lookup(6), None);
}

#[test]
fn a_body_fills_a_node_once() {
    let mut r = Registry::new(false, None);
    let first = vec![reg_field("x", reg_builtin(RawKind::Int, "int"), 0)];
    let second = vec![reg_field("other", reg_builtin(RawKind::Long, "long"), 0)];
    r.register(&reg_record(5, "s", "a.h", Some(first))).unwrap();
    r.register(&reg_record(5, "s", "b.h", Some(second))).unwrap();
    r.register(&reg_record(5, "s", "c.h", None)).unwrap();
    assert_eq!(r.nodes().len(), 1);
    assert_eq!(r.nodes()[0].file, "a.h");
    assert_eq!(
        r.nodes()[0].global,
        Global::Comp {
            is_union: false,
            fields: vec![Field { name: "x".to_string(), ty: Type::Int(IKind::IInt), bits: None, offset: 0 }],
        }
    );
}

#[test]
fn a_struct_may_point_to_itself() {
    let mut r = Registry::new(true, None);
    let fields = vec![
        reg_field("value", reg_builtin(RawKind::Int, "int"), 0),
        reg_field("next", reg_ptr(reg_named(9, "struct node")), 8),
    ];
    let i = r.register(&reg_record(9, "node", "list.h", Some(fields))).unwrap();
    assert_eq!(i, 0);
    assert_eq!(
        r.nodes()[0].global,
        Global::Comp {
            is_union: false,
            fields: vec![
                Field { name: "value".to_string(), ty: Type::Int(IKind::IInt), bits: None, offset: 0 },
                Field {
                    name: "next".to_string(),
                    ty: Type::Pointer(Box::new(Type::Named(0)), false),
                    bits: None,
                    offset: 8,
                },
            ],
        }
    );
}

#[test]
fn two_structs_may_point_to_each_other() {
    let mut r = Registry::new(true, None);
    let decls = vec![
        reg_record(2, "b", "m.h", None),
        reg_record(1, "a", "m.h", Some(vec![reg_field("b", reg_ptr(reg_named(2, "struct b")), 0)])),
        reg_record(2, "b", "m.h", Some(vec![reg_field("a", reg_ptr(reg_named(1, "struct a")), 0)])),
    ];
    assert_eq!(r.register_all(&decls), Ok(()));
    assert_eq!(r.nodes().len(), 2);
    assert_eq!(
        r.nodes()[0].global,
        Global::Comp {
            is_union: false,
            fields: vec![Field {
                name: "a".to_string(),
                ty: Type::Pointer(Box::new(Type::Named(1)), false),
                bits: None,
                offset: 0,
            }],
        }
    );
    assert_eq!(
        r.nodes()[1].global,
        Global::Comp {
            is_union: false,
            fields: vec![Field {
                name: "b".to_string(),
                ty: Type::Pointer(Box::new(Type::Named(0)), false),
                bits: None,
                offset: 0,
            }],
        }
    );
}

#[test]
fn bit_fields_and_offsets_are_kept_as_declared() {
    let mut r = Registry::new(false, None);
    let fields = vec![
        RawField { name: "hi".to_string(), ty: reg_builtin(RawKind::UInt, "unsigned"), bits: Some(3), offset: 0 },
        RawField { name: "lo".to_string(), ty: reg_builtin(RawKind::UInt, "unsigned"), bits: Some(5), offset: 0 },
        RawField { name: "rest".to_string(), ty: reg_builtin(RawKind::UChar, "unsigned char"), bits: None, offset: 1 },
    ];
    r.register(&RawDecl {
        id: 1,
        name: "flags".to_string(),
        parent: None,
        file: "f.h".to_string(),
        body: RawBody::Record { is_union: true, fields: Some(fields) },
    })
    .unwrap();
    assert_eq!(
        r.nodes()[0].global,
        Global::Comp {
            is_union: true,
            fields: vec![
                Field { name: "hi".to_string(), ty: Type::Int(IKind::IUInt), bits: Some(3), offset: 0 },
                Field { name: "lo".to_string(), ty: Type::Int(IKind::IUInt), bits: Some(5), offset: 0 },
                Field { name: "rest".to_string(), ty: Type::Int(IKind::IUChar), bits: None, offset: 1 },
            ],
        }
    );
}

#[test]
fn strict_mode_fails_on_a_type_that_cannot_be_classified() {
    let decl = RawDecl {
        id: 1,
        name: "v".to_string(),
        parent: None,
        file: "v.h".to_string(),
        body: RawBody::Var { ty: reg_builtin(RawKind::Other, "__m128"), is_const: false },
    };
    let mut strict = Registry::new(true, None);
    assert_eq!(strict.register(&decl), Err(Failure::UnknownType("__m128".to_string())));
    assert_eq!(strict.nodes().len(), 0);
    let mut lenient = Registry::new(false, None);
    assert_eq!(lenient.register(&decl), Ok(0));
    assert_eq!(
        lenient.nodes()[0].global,
        Global::Var { ty: Type::Unknown("__m128".to_string()), is_const: false }
    );
    assert_eq!(lenient.unknown(), &vec!["__m128".to_string()]);
}

#[test]
fn strict_mode_stops_the_stream_at_the_first_failure() {
    let decls = vec![
        reg_record(1, "ok", "a.h", Some(vec![reg_field("x", reg_builtin(RawKind::Int, "int"), 0)])),
        reg_record(
            2,
            "bad",
            "a.h",
            Some(vec![
                reg_field("x", reg_builtin(RawKind::Other, "first"), 0),
                reg_field("y", reg_builtin(RawKind::Other, "second"), 8),
            ]),
        ),
        reg_record(3, "later", "a.h", Some(vec![reg_field("x", reg_builtin(RawKind::Other, "third"), 0)])),
    ];
    let mut strict = Registry::new(true, None);
    assert_eq!(strict.register_all(&decls), Err(Failure::UnknownType("first".to_string())));
    let mut lenient = Registry::new(false, None);
    assert_eq!(lenient.register_all(&decls), Ok(()));
    assert_eq!(lenient.nodes().len(), 3);
    assert_eq!(lenient.unknown(), &vec!["first".to_string(), "second".to_string(), "third".to_string()]);
}

#[test]
fn enum_kind_is_inferred_or_forced() {
    let items = vec![
        EnumItem { name: "A".to_string(), value: 0 },
        EnumItem { name: "B".to_string(), value: -1 },
    ];
    let mut plain = Registry::new(false, None);
    plain.register(&reg_enum(1, "small", RawKind::UChar, Some(items.clone()))).unwrap();
    plain.register(&reg_enum(2, "odd", RawKind::Other, Some(items.clone()))).unwrap();
    plain.register(&reg_enum(3, "fwd", RawKind::Int, None)).unwrap();
    assert_eq!(plain.nodes()[0].global, Global::Enum { kind: IKind::IUChar, items: items.clone() });
    assert_eq!(plain.nodes()[1].global, Global::Enum { kind: IKind::IInt, items: items.clone() });
    assert_eq!(plain.nodes()[2].global, Global::EnumDecl);
    let mut forced = Registry::new(false, Some(IKind::IUInt));
    forced.register(&reg_enum(1, "small", RawKind::UChar, Some(items.clone()))).unwrap();
    forced.register(&reg_enum(2, "wide", RawKind::LongLong, Some(items.clone()))).unwrap();
    assert_eq!(forced.nodes()[0].global, Global::Enum { kind: IKind::IUInt, items: items.clone() });
    assert_eq!(forced.nodes()[1].global, Global::Enum { kind: IKind::IUInt, items });
}

#[test]
fn nested_declarations_know_their_parent() {
    let mut r = Registry::new(false, None);
    r.register(&reg_record(1, "outer", "n.h", None)).unwrap();
    r.register(&RawDecl {
        id: 2,
        name: String::new(),
        parent: Some(1),
        file: "n.h".to_string(),
        body: RawBody::Record { is_union: true, fields: Some(vec![]) },
    })
    .unwrap();
    r.register(&RawDecl {
        id: 3,
        name: String::new(),
        parent: Some(99),
        file: "n.h".to_string(),
        body: RawBody::Record { is_union: false, fields: Some(vec![]) },
    })
    .unwrap();
    assert_eq!(r.nodes()[0].parent, None);
    assert_eq!(r.nodes()[1].parent, Some(0));
    assert_eq!(r.nodes()[2].parent, None);
}

#[test]
fn typedefs_variables_and_functions_are_registered_whole() {
    let mut r = Registry::new(false, None);
    r.register(&RawDecl {
        id: 1,
        name: "size".to_string(),
        parent: None,
        file: "t.h".to_string(),
        body: RawBody::Typedef { ty: reg_builtin(RawKind::ULong, "unsigned long") },
    })
    .unwrap();
    r.register(&RawDecl {
        id: 2,
        name: "f".to_string(),
        parent: None,
        file: "t.h".to_string(),
        body: RawBody::Func {
            sig: RawSig {
                ret: reg_named(1, "size"),
                params: vec![RawParam { name: "n".to_string(), ty: reg_named(1, "size") }],
                variadic: false,
                abi: Abi::C,
            },
            symbol: "f_v2".to_string(),
        },
    })
    .unwrap();
    let again = r
        .register(&RawDecl {
            id: 1,
            name: "size".to_string(),
            parent: None,
            file: "t.h".to_string(),
            body: RawBody::Typedef { ty: reg_builtin(RawKind::Int, "int") },
        })
        .unwrap();
    assert_eq!(again, 0);
    assert_eq!(r.nodes().len(), 2);
    assert_eq!(r.nodes()[0].global, Global::TypeAlias { ty: Type::Int(IKind::IULong) });
    assert_eq!(
        r.nodes()[1].global,
        Global::Func {
            sig: FuncSig {
                ret: Type::Named(0),
                params: vec![Param { name: "n".to_string(), ty: Type::Named(0) }],
                variadic: false,
                abi: Abi::C,
            },
            symbol: "f_v2".to_string(),
        }
    );
    let nodes = r.into_nodes();
    assert_eq!(nodes.len(), 2);
}
