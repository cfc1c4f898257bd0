use codira::resolve::{
    ExprScope, GenericParam, ItemDefinitionId, ModuleId, ModuleResolution, ModuleScope, Path,
    PerNs, PrimitiveType, ResolveValueResult, Resolver, resolver_for_scope, Scope, ScopeDef, ScopeEntry, TypeNs,
    TypeParamId, ValueNs, Visibility,
};

const MODULE: ModuleId = ModuleId { package: 0, local_id: 3 };

fn path(segments: &[&str]) -> Path {
    Path { is_self: false, segments: segments.iter().map(|s| s.to_string()).collect() }
}

fn nothing() -> ModuleResolution {
    ModuleResolution { def: PerNs { types: None, values: None }, unresolved: None }
}

fn module_scope() -> Scope {
    Scope::Module(ModuleScope {
        id: MODULE,
        entries: vec![(
            "foo".to_string(),
            PerNs {
                types: None,
                values: Some((ItemDefinitionId::FunctionId(7), Visibility::Public)),
            },
        )],
    })
}

fn expr_scope(owner: u32, bindings: &[(&str, u32)]) -> Scope {
    Scope::Expr(ExprScope {
        owner,
        entries: bindings
            .iter()
            .map(|(n, p)| ScopeEntry { name: n.to_string(), pat: *p })
            .collect(),
    })
}

fn function_resolver() -> Resolver {
    Resolver::new()
        .push_scope(module_scope())
        .push_scope(Scope::GenericParams(vec![GenericParam {
            name: "T".to_string(),
            id: TypeParamId { owner: 7, index: 0 },
        }]))
        .push_scope(expr_scope(7, &[("x", 1), ("y", 2)]))
        .push_scope(expr_scope(7, &[("x", 5)]))
}

#[test]
fn innermost_local_binding_shadows_outer_ones() {
    let r = function_resolver();
    assert_eq!(
        r.resolve_path_as_value(&path(&["x"]), &nothing()),
        Some(ResolveValueResult::ValueNs(ValueNs::LocalBinding(5), Visibility::Public))
    );
    assert_eq!(
        r.resolve_path_as_value(&path(&["y"]), &nothing()),
        Some(ResolveValueResult::ValueNs(ValueNs::LocalBinding(2), Visibility::Public))
    );
}

#[test]
fn value_lookup_falls_back_to_the_module() {
    let r = function_resolver();
    let in_module = ModuleResolution {
        def: PerNs { types: None, values: Some((ItemDefinitionId::FunctionId(7), Visibility::Public)) },
        unresolved: None,
    };
    assert_eq!(
        r.resolve_path_as_value(&path(&["foo"]), &in_module),
        Some(ResolveValueResult::ValueNs(ValueNs::FunctionId(7), Visibility::Public))
    );
    assert_eq!(
        r.resolve_path_as_value_fully(&path(&["foo"]), &in_module),
        Some((ValueNs::FunctionId(7), Visibility::Public))
    );
}

#[test]
fn a_generic_parameter_is_not_a_value() {
    let r = function_resolver();
    assert_eq!(r.resolve_path_as_value(&path(&["T"]), &nothing()), None);
}

#[test]
fn a_multi_segment_path_skips_local_bindings() {
    let r = function_resolver();
    let in_module = ModuleResolution {
        def: PerNs {
            types: Some((ItemDefinitionId::StructId(4), Visibility::Public)),
            values: None,
        },
        unresolved: Some(1),
    };
    assert_eq!(
        r.resolve_path_as_value(&path(&["x", "new"]), &in_module),
        Some(ResolveValueResult::Partial(TypeNs::StructId(4), 1))
    );
    assert_eq!(r.resolve_path_as_value_fully(&path(&["x", "new"]), &in_module), None);
}

#[test]
fn self_inside_an_impl() {
    let r = Resolver::new().push_scope(module_scope()).push_scope(Scope::Impl(9));
    assert_eq!(
        r.resolve_path_as_value(&path(&["Self"]), &nothing()),
        Some(ResolveValueResult::ValueNs(ValueNs::ImplSelf(9), Visibility::Public))
    );
    assert_eq!(
        r.resolve_path_as_value(&path(&["Self", "new"]), &nothing()),
        Some(ResolveValueResult::Partial(TypeNs::SelfType(9), 1))
    );
    assert_eq!(
        r.resolve_path_as_type(&path(&["Self"]), &nothing()),
        Some((TypeNs::SelfType(9), Visibility::Public, None))
    );
    assert_eq!(
        r.resolve_path_as_type(&path(&["Self", "Item"]), &nothing()),
        Some((TypeNs::SelfType(9), Visibility::Public, Some(1)))
    );
}

#[test]
fn the_self_path_is_looked_up_as_a_binding() {
    let r = Resolver::new().push_scope(module_scope()).push_scope(expr_scope(1, &[("self", 0)]));
    let p = Path { is_self: true, segments: Vec::new() };
    assert_eq!(
        r.resolve_path_as_value(&p, &nothing()),
        Some(ResolveValueResult::ValueNs(ValueNs::LocalBinding(0), Visibility::Public))
    );
}

#[test]
fn a_generic_parameter_shadows_a_module_type() {
    let r = function_resolver();
    let in_module = ModuleResolution {
        def: PerNs {
            types: Some((ItemDefinitionId::StructId(11), Visibility::Public)),
            values: None,
        },
        unresolved: None,
    };
    assert_eq!(
        r.resolve_path_as_type_fully(&path(&["T"]), &in_module),
        Some((TypeNs::GenericParam(TypeParamId { owner: 7, index: 0 }, "T".to_string()), Visibility::Public))
    );
    assert_eq!(
        r.resolve_path_as_type(&path(&["T", "U"]), &in_module),
        Some((TypeNs::StructId(11), Visibility::Public, None))
    );
}

#[test]
fn types_come_from_the_module_unless_shadowed() {
    let r = function_resolver();
    let prim = ModuleResolution {
        def: PerNs {
            types: Some((ItemDefinitionId::PrimitiveType(PrimitiveType { inner: 2 }), Visibility::Public)),
            values: None,
        },
        unresolved: None,
    };
    assert_eq!(
        r.resolve_path_as_type(&path(&["i32"]), &prim),
        Some((TypeNs::PrimitiveType(PrimitiveType { inner: 2 }), Visibility::Public, None))
    );
    let partial = ModuleResolution {
        def: PerNs { types: Some((ItemDefinitionId::TypeAliasId(3), Visibility::Public)), values: None },
        unresolved: Some(2),
    };
    assert_eq!(r.resolve_path_as_type_fully(&path(&["a", "b", "c"]), &partial), None);
    let function = ModuleResolution {
        def: PerNs { types: Some((ItemDefinitionId::FunctionId(3), Visibility::Public)), values: None },
        unresolved: None,
    };
    assert_eq!(r.resolve_path_as_type(&path(&["foo"]), &function), None);
}

#[test]
fn an_empty_path_resolves_to_nothing() {
    let r = function_resolver();
    assert_eq!(r.resolve_path_as_value(&path(&[]), &nothing()), None);
    assert_eq!(r.resolve_path_as_type(&path(&[]), &nothing()), None);
    assert_eq!(Resolver::new().resolve_path_as_value(&path(&["x"]), &nothing()), None);
}

#[test]
fn module_and_body_owner() {
    let r = function_resolver();
    assert_eq!(r.module(), Some(MODULE));
    assert_eq!(r.body_owner(), Some(7));
    let empty = Resolver::new();
    assert_eq!(empty.module(), None);
    assert_eq!(empty.body_owner(), None);
}

#[test]
fn names_are_offered_innermost_first() {
    let r = function_resolver().push_scope(Scope::Impl(4));
    let names: Vec<(String, ScopeDef)> = r.visit_all_names();
    let labels: Vec<&str> = names.iter().map(|(n, _)| n.as_str()).collect();
    assert_eq!(labels, vec!["Self", "x", "x", "y", "foo"]);
    assert_eq!(names[0].1, ScopeDef::ImplSelfType(4));
    assert_eq!(names[1].1, ScopeDef::Local(5));
    assert_eq!(names[3].1, ScopeDef::Local(2));
    assert!(matches!(names[4].1, ScopeDef::PerNs(_)));
}

#[test]
fn a_scope_chain_is_pushed_outermost_first() {
    let base = Resolver::new().push_scope(module_scope());
    let inner = vec![ScopeEntry { name: "x".to_string(), pat: 9 }];
    let outer = vec![
        ScopeEntry { name: "x".to_string(), pat: 1 },
        ScopeEntry { name: "z".to_string(), pat: 3 },
    ];
    let r = resolver_for_scope(base, 12, vec![inner, outer]);
    assert_eq!(r.scopes.len(), 3);
    assert_eq!(
        r.resolve_path_as_value(&path(&["x"]), &nothing()),
        Some(ResolveValueResult::ValueNs(ValueNs::LocalBinding(9), Visibility::Public))
    );
    assert_eq!(
        r.resolve_path_as_value(&path(&["z"]), &nothing()),
        Some(ResolveValueResult::ValueNs(ValueNs::LocalBinding(3), Visibility::Public))
    );
    assert_eq!(r.body_owner(), Some(12));
}
