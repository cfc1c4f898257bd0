use codira::function_data::{fn_data_query, AttributeSyntax, FunctionSyntax, ParamSyntax};
use codira::item_tree::{FunctionFlags, RawVisibilityId};
use codira::resolve::Path;
use codira::type_ref::{TypeRef, TypeSyntax};

fn named_type(node: u32, name: &str) -> TypeSyntax {
    TypeSyntax::Path {
        node,
        path: Some(Path { is_self: false, segments: vec![name.to_string()] }),
        args: Vec::new(),
    }
}

fn attr(name: &str, arg: Option<&str>) -> AttributeSyntax {
    AttributeSyntax { name: Some(name.to_string()), first_arg: arg.map(|a| a.to_string()) }
}

fn path_name(t: &TypeRef) -> String {
    match t {
        TypeRef::Path(p, _) => p.segments.join("."),
        _ => panic!("not a path"),
    }
}

#[test]
fn a_method_keeps_its_receiver_apart_from_its_parameters() {
    let src = FunctionSyntax {
        self_param: Some(None),
        params: vec![
            ParamSyntax { type_ref: Some(named_type(1, "i32")), consuming: false },
            ParamSyntax { type_ref: None, consuming: true },
        ],
        attributes: Vec::new(),
        ret_type: Some(named_type(2, "bool")),
        generic_params: vec![Some("T".to_string()), None, Some("N".to_string())],
    };
    let flags = FunctionFlags::empty().with(FunctionFlags::HAS_SELF_PARAM);
    let d = fn_data_query(&src, "get".to_string(), flags, RawVisibilityId(0), Vec::new());
    assert_eq!(d.name(), "get");
    assert_eq!(d.self_param(), Some(0));
    assert_eq!(d.params(), &[1, 2]);
    assert_eq!(d.ret_type(), 3);
    assert_eq!(d.consuming_params(), &[false, true]);
    assert!(d.has_self_param());
    assert!(!d.is_extern());
    assert!(!d.is_intrinsic());
    assert!(d.is_declared_pure());
    assert_eq!(d.generic_params(), &["T".to_string(), "N".to_string()]);
    let map = d.type_ref_map();
    assert_eq!(path_name(map.type_ref(0)), "Self");
    assert_eq!(path_name(map.type_ref(1)), "i32");
    assert!(matches!(map.type_ref(2), TypeRef::Error));
    assert_eq!(path_name(map.type_ref(3)), "bool");
    assert_eq!(d.type_ref_source_map().entries, vec![(1, 1), (2, 3)]);
}

#[test]
fn a_missing_return_type_is_unit() {
    let src = FunctionSyntax {
        self_param: None,
        params: Vec::new(),
        attributes: Vec::new(),
        ret_type: None,
        generic_params: Vec::new(),
    };
    let d = fn_data_query(
        &src,
        "main".to_string(),
        FunctionFlags::empty(),
        RawVisibilityId(1),
        vec!["IO".to_string()],
    );
    assert_eq!(d.self_param(), None);
    assert_eq!(d.ret_type(), 0);
    assert!(matches!(d.type_ref_map().type_ref(0), TypeRef::Tuple(v) if v.is_empty()));
    assert!(!d.is_declared_pure());
    assert_eq!(d.effects(), &["IO".to_string()]);
    assert_eq!(d.visibility(), RawVisibilityId(1));
    assert!(!d.is_strict());
    assert_eq!(d.export_abi(), None);
}

#[test]
fn an_ascribed_receiver_is_honoured() {
    let src = FunctionSyntax {
        self_param: Some(Some(named_type(4, "BitSet"))),
        params: Vec::new(),
        attributes: Vec::new(),
        ret_type: None,
        generic_params: Vec::new(),
    };
    let d = fn_data_query(&src, "len".to_string(), FunctionFlags::empty(), RawVisibilityId(0), Vec::new());
    assert_eq!(d.self_param(), Some(0));
    assert_eq!(path_name(d.type_ref_map().type_ref(0)), "BitSet");
}

#[test]
fn strict_and_export_attributes() {
    let src = FunctionSyntax {
        self_param: None,
        params: Vec::new(),
        attributes: vec![
            attr("inline", None),
            attr("export", None),
            attr("strict", None),
            attr("export", Some("\"C\"")),
            attr("export", Some("\"C++\"")),
        ],
        ret_type: None,
        generic_params: Vec::new(),
    };
    let d = fn_data_query(&src, "f".to_string(), FunctionFlags::empty(), RawVisibilityId(0), Vec::new());
    assert!(d.is_strict());
    assert_eq!(d.export_abi(), Some("C"));
}

#[test]
fn an_export_argument_of_only_quotes_is_empty() {
    let src = FunctionSyntax {
        self_param: None,
        params: Vec::new(),
        attributes: vec![attr("export", Some("\"\""))],
        ret_type: None,
        generic_params: Vec::new(),
    };
    let d = fn_data_query(&src, "f".to_string(), FunctionFlags::empty(), RawVisibilityId(0), Vec::new());
    assert_eq!(d.export_abi(), Some(""));
}

use codira::function_data::{lower_function, FunctionDefSyntax, GenericParamSyntax, ItemParam};

fn definition(name: Option<&str>) -> FunctionDefSyntax {
    FunctionDefSyntax {
        name: name.map(|n| n.to_string()),
        generic_params: vec![
            GenericParamSyntax { name: Some("T".to_string()), bound: Some(named_type(1, "Comparable")) },
            GenericParamSyntax { name: None, bound: Some(named_type(2, "Skipped")) },
            GenericParamSyntax { name: Some("N".to_string()), bound: None },
        ],
        effects: vec![Some("IO".to_string()), None, Some("Logger".to_string())],
        self_param: Some(None),
        params: vec![
            ParamSyntax { type_ref: Some(named_type(3, "T")), consuming: false },
            ParamSyntax { type_ref: None, consuming: false },
        ],
        ret_type: None,
        is_extern: false,
        has_body: true,
    }
}

#[test]
fn an_item_tree_function_lowers_bounds_then_parameters() {
    let f = lower_function(&definition(Some("max")), RawVisibilityId(2), 10).unwrap();
    assert_eq!(f.name, "max");
    assert_eq!(f.visibility, RawVisibilityId(2));
    assert_eq!(f.generic_params.len(), 2);
    assert_eq!((f.generic_params[0].name.as_str(), f.generic_params[0].bound), ("T", Some(0)));
    assert_eq!((f.generic_params[1].name.as_str(), f.generic_params[1].bound), ("N", None));
    assert_eq!(
        f.param_data,
        vec![
            ItemParam { type_ref: 1, is_self: true },
            ItemParam { type_ref: 2, is_self: false },
            ItemParam { type_ref: 3, is_self: false },
        ]
    );
    assert_eq!((f.params.start, f.params.end), (10, 13));
    assert_eq!(f.ret_type, 4);
    assert!(matches!(f.types.type_ref(4), TypeRef::Tuple(v) if v.is_empty()));
    assert_eq!(path_name(f.types.type_ref(1)), "Self");
    assert_eq!(f.effects, vec!["IO".to_string(), "Logger".to_string()]);
    assert!(f.flags.has_body());
    assert!(f.flags.has_self_param());
    assert!(!f.flags.is_extern());
    assert!(!f.flags.is_intrinsic());
}

#[test]
fn an_item_tree_function_needs_a_name() {
    assert!(lower_function(&definition(None), RawVisibilityId(0), 0).is_none());
}

#[test]
fn an_extern_declaration_has_no_body() {
    let mut d = definition(Some("puts"));
    d.is_extern = true;
    d.has_body = false;
    d.self_param = None;
    let f = lower_function(&d, RawVisibilityId(0), 0).unwrap();
    assert!(f.flags.is_extern());
    assert!(!f.flags.has_body());
    assert!(!f.flags.has_self_param());
    assert_eq!((f.params.start, f.params.end), (0, 2));
}
