use codira::const_cycles::ConstDecl;
use codira::item_tree::{
    module_diagnostics, FunctionFlags, IdRange, ItemTreeDiagnostic, ModItem, RawVisibilityId,
    StructDefKind,
};

#[test]
fn function_flags_read_back_what_was_set() {
    let flags = FunctionFlags::empty()
        .with(FunctionFlags::HAS_SELF_PARAM)
        .with(FunctionFlags::IS_EXTERN);
    assert!(flags.has_self_param());
    assert!(!flags.has_body());
    assert!(flags.is_extern());
    assert!(!flags.is_intrinsic());
    assert_eq!(flags.bits, 5);
    let flags = flags.with(FunctionFlags::HAS_BODY).with(FunctionFlags::IS_INTRINSIC);
    assert!(flags.has_body() && flags.is_intrinsic() && flags.has_self_param());
    assert!(flags.contains(FunctionFlags::HAS_BODY | FunctionFlags::IS_EXTERN));
    assert!(!FunctionFlags::empty().contains(FunctionFlags::HAS_BODY));
}

#[test]
fn reserved_visibilities_print_their_spelling() {
    assert_eq!(RawVisibilityId::public().debug_text(), "RawVisibilityId(\"pub\")");
    assert_eq!(RawVisibilityId::private().debug_text(), "RawVisibilityId(\"pub(self)\")");
    assert_eq!(
        RawVisibilityId::public_package().debug_text(),
        "RawVisibilityId(\"pub(package)\")"
    );
    assert_eq!(RawVisibilityId::public_super().debug_text(), "RawVisibilityId(\"pub(super)\")");
    assert_eq!(RawVisibilityId(7).debug_text(), "RawVisibilityId(7)");
    assert_eq!(RawVisibilityId::public().0, u32::MAX);
}

#[test]
fn id_ranges_count_down_to_empty() {
    let mut range = IdRange::new(3, 5);
    assert!(!range.is_empty());
    assert_eq!(range.next_id(), Some(3));
    assert_eq!(range.next_id(), Some(4));
    assert!(range.is_empty());
    assert_eq!(range.next_id(), None);
    assert!(IdRange::new(5, 5).is_empty());
    assert!(IdRange::new(6, 5).is_empty());
    assert_ne!(StructDefKind::Record, StructDefKind::Unit);
}

fn named(name: &str) -> Option<String> {
    Some(name.to_string())
}

#[test]
fn test_duplicate_import() {
    // import foo.Bar; import baz.Bar; struct Bar {}
    let top = vec![ModItem::Import(0), ModItem::Import(1), ModItem::Struct(0)];
    let defined = vec![named("Bar"), named("Bar"), named("Bar")];
    let diags = module_diagnostics(&top, &defined, &Vec::new());
    assert_eq!(diags.len(), 2);
    match &diags[0] {
        ItemTreeDiagnostic::DuplicateDefinition { name, first, second } => {
            assert_eq!(name, "Bar");
            assert_eq!(*first, ModItem::Import(0));
            assert_eq!(*second, ModItem::Import(1));
        }
        other => panic!("expected a duplicate, got {other:?}"),
    }
    match &diags[1] {
        ItemTreeDiagnostic::DuplicateDefinition { name, first, second } => {
            assert_eq!(name, "Bar");
            assert_eq!(*first, ModItem::Import(0));
            assert_eq!(*second, ModItem::Struct(0));
        }
        other => panic!("expected a duplicate, got {other:?}"),
    }
}

#[test]
fn impls_and_glob_imports_define_no_name() {
    let top = vec![ModItem::Impl(0), ModItem::Import(0), ModItem::Impl(1), ModItem::Import(1)];
    let defined = vec![None, None, None, None];
    assert!(module_diagnostics(&top, &defined, &Vec::new()).is_empty());
}

#[test]
fn duplicates_come_before_cycles() {
    // let A = B; func f; let B = A; func f
    let consts = vec![
        ConstDecl { name: "A".to_string(), references: vec!["B".to_string()] },
        ConstDecl { name: "B".to_string(), references: vec!["A".to_string()] },
    ];
    let top = vec![ModItem::Const(0), ModItem::Function(0), ModItem::Const(1), ModItem::Function(1)];
    let defined = vec![named("A"), named("f"), named("B"), named("f")];
    let diags = module_diagnostics(&top, &defined, &consts);
    assert_eq!(diags.len(), 2);
    assert!(matches!(
        &diags[0],
        ItemTreeDiagnostic::DuplicateDefinition { first: ModItem::Function(0), second: ModItem::Function(1), .. }
    ));
    match &diags[1] {
        ItemTreeDiagnostic::CyclicConstDefinition { items, names } => {
            assert_eq!(*items, vec![ModItem::Const(0), ModItem::Const(1)]);
            assert_eq!(*names, vec!["A".to_string(), "B".to_string()]);
        }
        other => panic!("expected a cycle, got {other:?}"),
    }
}

#[test]
fn only_top_level_bindings_are_vertices() {
    // The binding data holds a third binding that is not a top-level item.
    let consts = vec![
        ConstDecl { name: "X".to_string(), references: vec!["X".to_string()] },
        ConstDecl { name: "Y".to_string(), references: vec![] },
    ];
    let top = vec![ModItem::Const(1)];
    let defined = vec![named("Y")];
    assert!(module_diagnostics(&top, &defined, &consts).is_empty());
}
