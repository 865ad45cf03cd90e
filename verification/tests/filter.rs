use bindgen::filter::{collect_global_refs, collect_refs, contains_bytes, matches_some, ref_lists, select, select_all};
use bindgen::graph::{closure, order_nodes};
use bindgen::types::{Abi, Field, FuncSig, Global, IKind, Node, Param, Type};

fn flt_node(name: &str, file: &str, global: Global) -> Node {
    Node { raw: 0, name: name.to_string(), parent: None, file: file.to_string(), global }
}

fn flt_func(params: Vec<Type>, ret: Type) -> Global {
    Global::Func {
        sig: FuncSig {
            ret,
            params: params.into_iter().map(|ty| Param { name: "p".to_string(), ty }).collect(),
            variadic: false,
            abi: Abi::C,
        },
        symbol: "sym".to_string(),
    }
}

fn flt_struct(fields: Vec<Type>) -> Global {
    Global::Comp {
        is_union: false,
        fields: fields
            .into_iter()
            .map(|ty| Field { name: "f".to_string(), ty, bits: None, offset: 0 })
            .collect(),
    }
}

fn flt_strings(v: &[&str]) -> Vec<String> {
    v.iter().map(|s| s.to_string()).collect()
}

#[test]
fn byte_search_finds_what_stands_somewhere() {
    assert!(contains_bytes(b"include/foo.h", b"foo.h"));
    assert!(contains_bytes(b"include/foo.h", b"include"));
    assert!(contains_bytes(b"include/foo.h", b"/"));
    assert!(contains_bytes(b"include/foo.h", b""));
    assert!(contains_bytes(b"", b""));
    assert!(contains_bytes(b"abc", b"abc"));
    assert!(!contains_bytes(b"abc", b"abcd"));
    assert!(!contains_bytes(b"", b"a"));
    assert!(!contains_bytes(b"include/foo.h", b"bar.h"));
    assert!(!contains_bytes(b"aab", b"aba"));
    assert!(contains_bytes(b"aaab", b"aab"));
}

#[test]
fn a_pattern_matches_where_it_stands_in_the_file_name() {
    assert!(matches_some("/usr/include/foo.h", &flt_strings(&["bar.h", "foo"])));
    assert!(!matches_some("/usr/include/foo.h", &flt_strings(&["bar.h", "baz"])));
    assert!(!matches_some("/usr/include/foo.h", &flt_strings(&[])));
    assert!(matches_some("gr\u{fc}n.h", &flt_strings(&["\u{fc}n"])));
}

#[test]
fn selection_goes_by_pattern_and_builtins() {
    let builtin_names = flt_strings(&["__va_list_tag"]);
    let plain = flt_node("f", "foo.h", Global::EnumDecl);
    assert!(select(&plain, &flt_strings(&[]), false, &builtin_names));
    assert!(select(&plain, &flt_strings(&["foo.h"]), false, &builtin_names));
    assert!(!select(&plain, &flt_strings(&["bar.h"]), false, &builtin_names));
    let by_name = flt_node("__va_list_tag", "foo.h", Global::EnumDecl);
    assert!(!select(&by_name, &flt_strings(&["foo.h"]), false, &builtin_names));
    assert!(select(&by_name, &flt_strings(&["foo.h"]), true, &builtin_names));
    let no_file = flt_node("x", "", Global::EnumDecl);
    assert!(!select(&no_file, &flt_strings(&[]), false, &builtin_names));
    assert!(select(&no_file, &flt_strings(&[]), true, &builtin_names));
    assert!(!select(&no_file, &flt_strings(&["foo.h"]), true, &builtin_names));
    let mut nested = flt_node("n", "foo.h", Global::EnumDecl);
    nested.parent = Some(0);
    assert!(!select(&nested, &flt_strings(&[]), true, &builtin_names));
}

#[test]
fn references_are_collected_in_order() {
    let ty = Type::Function(Box::new(FuncSig {
        ret: Type::Named(4),
        params: vec![
            Param { name: "a".to_string(), ty: Type::Pointer(Box::new(Type::Named(2)), true) },
            Param { name: "b".to_string(), ty: Type::Array(Box::new(Type::Named(4)), Some(2)) },
        ],
        variadic: false,
        abi: Abi::C,
    }));
    let mut all = vec![9];
    collect_refs(&ty, false, &mut all);
    assert_eq!(all, vec![9, 4, 2, 4]);
    let mut held = Vec::new();
    collect_refs(&ty, true, &mut held);
    assert_eq!(held, Vec::<usize>::new());
    let s = flt_struct(vec![
        Type::Named(1),
        Type::Pointer(Box::new(Type::Named(2)), false),
        Type::Array(Box::new(Type::Named(3)), None),
        Type::Int(IKind::IInt),
    ]);
    let mut all = Vec::new();
    collect_global_refs(&s, false, &mut all);
    assert_eq!(all, vec![1, 2, 3]);
    let mut held = Vec::new();
    collect_global_refs(&s, true, &mut held);
    assert_eq!(held, vec![1, 3]);
    let f = flt_func(vec![Type::Named(1)], Type::Named(2));
    let mut all = Vec::new();
    collect_global_refs(&f, false, &mut all);
    assert_eq!(all, vec![2, 1]);
    let mut held = Vec::new();
    collect_global_refs(&f, true, &mut held);
    assert_eq!(held, Vec::<usize>::new());
}

#[test]
fn closure_marks_what_is_reached() {
    let adj = vec![vec![1], vec![2, 7], vec![0], vec![4], vec![]];
    let marks = closure(&adj, &vec![true, false, false, false, false]);
    assert_eq!(marks, vec![true, true, true, false, false]);
    let marks = closure(&adj, &vec![false, false, false, true, false]);
    assert_eq!(marks, vec![false, false, false, true, true]);
    let marks = closure(&adj, &vec![false; 5]);
    assert_eq!(marks, vec![false; 5]);
    assert_eq!(closure(&Vec::new(), &Vec::new()), Vec::<bool>::new());
}

#[test]
fn order_puts_what_is_needed_first() {
    let adj = vec![vec![2], vec![], vec![1], vec![0]];
    assert_eq!(order_nodes(&adj, &vec![true, true, true, true]), vec![1, 2, 0, 3]);
    assert_eq!(order_nodes(&adj, &vec![true, false, false, true]), vec![0, 3]);
    assert_eq!(order_nodes(&adj, &vec![false; 4]), Vec::<usize>::new());
    let circle = vec![vec![1], vec![0], vec![2, 9]];
    assert_eq!(order_nodes(&circle, &vec![true, true, true]), vec![2, 0, 1]);
}

#[test]
fn what_a_selected_function_depends_on_is_emitted() {
    let nodes = vec![
        flt_node("s", "bar.h", flt_struct(vec![Type::Pointer(Box::new(Type::Named(3)), false)])),
        flt_node("f", "foo.h", flt_func(vec![Type::Pointer(Box::new(Type::Named(0)), false)], Type::Void)),
        flt_node("g", "bar.h", flt_func(vec![], Type::Named(4))),
        flt_node("deep", "baz.h", Global::CompDecl { is_union: false }),
        flt_node("alone", "bar.h", Global::EnumDecl),
    ];
    let marks = select_all(&nodes, &flt_strings(&["foo.h"]), false, &flt_strings(&[]));
    assert_eq!(marks, vec![true, true, false, true, false]);
    let all = select_all(&nodes, &flt_strings(&[]), false, &flt_strings(&[]));
    assert_eq!(all, vec![true; 5]);
    let none = select_all(&nodes, &flt_strings(&["nowhere"]), false, &flt_strings(&[]));
    assert_eq!(none, vec![false; 5]);
    assert_eq!(ref_lists(&nodes, false), vec![vec![3], vec![0], vec![4], vec![], vec![]]);
    assert_eq!(ref_lists(&nodes, true), vec![Vec::<usize>::new(); 5]);
}

#[test]
fn a_builtin_that_is_depended_on_is_still_emitted() {
    let nodes = vec![
        flt_node("__va_list_tag", "", Global::CompDecl { is_union: false }),
        flt_node("vf", "foo.h", flt_func(vec![Type::Pointer(Box::new(Type::Named(0)), false)], Type::Void)),
    ];
    let marks = select_all(&nodes, &flt_strings(&[]), false, &flt_strings(&["__va_list_tag"]));
    assert_eq!(marks, vec![true, true]);
    let lone = vec![flt_node("__va_list_tag", "", Global::CompDecl { is_union: false })];
    assert_eq!(select_all(&lone, &flt_strings(&[]), false, &flt_strings(&["__va_list_tag"])), vec![false]);
}
