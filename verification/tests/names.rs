use bindgen::names::{keywords, push_decimal, resolve_names};
use bindgen::types::{Abi, FuncSig, Global, Node, Type};

fn nm_node(name: &str, parent: Option<usize>, global: Global) -> Node {
    Node { raw: 0, name: name.to_string(), parent, file: "n.h".to_string(), global }
}

fn nm_struct() -> Global {
    Global::Comp { is_union: false, fields: vec![] }
}

fn nm_union() -> Global {
    Global::Comp { is_union: true, fields: vec![] }
}

fn nm_func() -> Global {
    Global::Func {
        sig: FuncSig { ret: Type::Void, params: vec![], variadic: false, abi: Abi::C },
        symbol: "s".to_string(),
    }
}

fn nm_alias() -> Global {
    Global::TypeAlias { ty: Type::Void }
}

#[test]
fn decimal_numbers() {
    let cases: Vec<(u64, &str)> = vec![
        (0, "0"),
        (7, "7"),
        (9, "9"),
        (10, "10"),
        (42, "42"),
        (100, "100"),
        (1234567890, "1234567890"),
        (u64::MAX, "18446744073709551615"),
    ];
    for (n, want) in cases {
        let mut s = String::from("x");
        push_decimal(n, &mut s);
        assert_eq!(s, format!("x{}", want));
    }
}

#[test]
fn names_follow_the_kind_of_declaration() {
    let nodes = vec![
        nm_node("s", None, nm_struct()),
        nm_node("u", None, nm_union()),
        nm_node("e", None, Global::Enum { kind: bindgen::types::IKind::IInt, items: vec![] }),
        nm_node("fs", None, Global::CompDecl { is_union: false }),
        nm_node("fu", None, Global::CompDecl { is_union: true }),
        nm_node("fe", None, Global::EnumDecl),
        nm_node("t", None, nm_alias()),
        nm_node("v", None, Global::Var { ty: Type::Void, is_const: true }),
        nm_node("f", None, nm_func()),
    ];
    assert_eq!(
        resolve_names(&nodes, &keywords()),
        vec!["Struct_s", "Union_u", "Enum_e", "Struct_fs", "Union_fu", "Enum_fe", "t", "v", "f"]
    );
}

#[test]
fn anonymous_declarations_are_numbered_within_their_named_ancestor() {
    let nodes = vec![
        nm_node("outer", None, nm_struct()),
        nm_node("", Some(0), nm_struct()),
        nm_node("", Some(0), nm_union()),
        nm_node("", Some(2), nm_struct()),
        nm_node("other", None, nm_struct()),
        nm_node("", Some(4), Global::EnumDecl),
        nm_node("", Some(0), nm_struct()),
        nm_node("", None, nm_struct()),
        nm_node("", None, nm_union()),
        nm_node("inner", Some(1), nm_struct()),
        nm_node("", Some(9), nm_struct()),
    ];
    let names = resolve_names(&nodes, &keywords());
    assert_eq!(
        names,
        vec![
            "Struct_outer",
            "Struct_outer_1",
            "Union_outer_2",
            "Struct_outer_3",
            "Struct_other",
            "Enum_other_1",
            "Struct_outer_4",
            "Struct__1",
            "Union__2",
            "Struct_inner",
            "Struct_inner_1",
        ]
    );
    assert_eq!(resolve_names(&nodes, &keywords()), names);
}

#[test]
fn numbering_goes_past_nine() {
    let mut nodes = vec![nm_node("p", None, nm_struct())];
    for _ in 0..12 {
        nodes.push(nm_node("", Some(0), nm_struct()));
    }
    let names = resolve_names(&nodes, &keywords());
    assert_eq!(names[9], "Struct_p_9");
    assert_eq!(names[10], "Struct_p_10");
    assert_eq!(names[12], "Struct_p_12");
}

#[test]
fn reserved_words_and_taken_names_get_underscores() {
    let nodes = vec![
        nm_node("match", None, nm_func()),
        nm_node("type", None, nm_alias()),
        nm_node("foo", None, nm_struct()),
        nm_node("Struct_foo", None, nm_alias()),
        nm_node("Struct_foo", None, nm_func()),
        nm_node("Struct_foo_", None, nm_alias()),
        nm_node("matches", None, nm_func()),
    ];
    assert_eq!(
        resolve_names(&nodes, &keywords()),
        vec!["match_", "type_", "Struct_foo", "Struct_foo_", "Struct_foo__", "Struct_foo___", "matches"]
    );
    let reserved = vec!["foo".to_string(), "foo_".to_string()];
    let nodes = vec![nm_node("foo", None, nm_func()), nm_node("match", None, nm_func())];
    assert_eq!(resolve_names(&nodes, &reserved), vec!["foo__", "match"]);
}

#[test]
fn no_identifier_is_given_twice() {
    let mut nodes = Vec::new();
    for _ in 0..6 {
        nodes.push(nm_node("same", None, nm_alias()));
        nodes.push(nm_node("", None, nm_struct()));
    }
    let names = resolve_names(&nodes, &keywords());
    for i in 0..names.len() {
        for j in 0..i {
            assert_ne!(names[i], names[j]);
        }
        assert!(!keywords().contains(&names[i]));
    }
}

#[test]
fn a_parent_that_does_not_come_before_is_no_parent() {
    let nodes = vec![nm_node("", Some(1), nm_struct()), nm_node("late", None, nm_struct()), nm_node("", Some(2), nm_struct())];
    assert_eq!(resolve_names(&nodes, &keywords()), vec!["Struct__1", "Struct_late", "Struct__2"]);
}

#[test]
fn keyword_list() {
    let k = keywords();
    assert_eq!(k.len(), 35);
    assert!(k.contains(&"fn".to_string()));
    assert!(k.contains(&"Self".to_string()));
    assert!(!k.contains(&"int".to_string()));
}
