use codira::resolve::Path;
use codira::type_ref::{TypeRef, TypeRefMapBuilder, TypeSyntax};

fn named(node: u32, name: &str, args: Vec<TypeSyntax>) -> TypeSyntax {
    TypeSyntax::Path {
        node,
        path: Some(Path { is_self: false, segments: vec![name.to_string()] }),
        args,
    }
}

fn segments(t: &TypeRef) -> Vec<String> {
    match t {
        TypeRef::Path(p, _) => p.segments.clone(),
        _ => panic!("not a path"),
    }
}

#[test]
fn generic_arguments_are_lowered_before_their_path() {
    let mut b = TypeRefMapBuilder::new();
    let t = named(1, "Box", vec![named(2, "i32", vec![]), named(3, "f64", vec![])]);
    let id = b.alloc_from_node(&t);
    assert_eq!(id, 2);
    let (map, sources) = b.finish();
    assert_eq!(map.len(), 3);
    assert_eq!(segments(map.type_ref(0)), vec!["i32".to_string()]);
    assert_eq!(segments(map.type_ref(1)), vec!["f64".to_string()]);
    match map.type_ref(2) {
        TypeRef::Path(p, args) => {
            assert_eq!(p.segments, vec!["Box".to_string()]);
            assert_eq!(args, &vec![0, 1]);
        }
        _ => panic!("not a path"),
    }
    assert_eq!(sources.entries, vec![(2, 0), (3, 1), (1, 2)]);
    assert_eq!(sources.syntax_type_ref(1), Some(2));
    assert_eq!(sources.type_ref_syntax(0), Some(2));
    assert_eq!(sources.syntax_type_ref(9), None);
}

#[test]
fn parentheses_and_references_lower_to_what_they_wrap() {
    let mut b = TypeRefMapBuilder::new();
    let t = TypeSyntax::Paren {
        node: 1,
        inner: Some(Box::new(TypeSyntax::Reference {
            node: 2,
            inner: Some(Box::new(TypeSyntax::Never { node: 3 })),
        })),
    };
    let id = b.alloc_from_node(&t);
    let (map, sources) = b.finish();
    assert_eq!(id, 0);
    assert_eq!(map.len(), 1);
    assert!(matches!(map.type_ref(0), TypeRef::Never));
    assert_eq!(sources.entries, vec![(3, 0)]);
}

#[test]
fn missing_and_unsupported_types_are_errors() {
    let mut b = TypeRefMapBuilder::new();
    let a = b.alloc_from_node(&TypeSyntax::Array { node: 1, inner: None });
    let f = b.alloc_from_node(&TypeSyntax::Function { node: 2 });
    let p = b.alloc_from_node(&TypeSyntax::Path { node: 3, path: None, args: Vec::new() });
    let m = b.alloc_from_node_opt(None);
    let (map, sources) = b.finish();
    assert_eq!((a, f, p, m), (1, 2, 3, 4));
    assert!(matches!(map.type_ref(0), TypeRef::Error));
    assert!(matches!(map.type_ref(1), TypeRef::Array(0)));
    assert!(matches!(map.type_ref(2), TypeRef::Error));
    assert!(matches!(map.type_ref(3), TypeRef::Error));
    assert!(matches!(map.type_ref(4), TypeRef::Error));
    assert_eq!(sources.entries, vec![(1, 1), (2, 2), (3, 3)]);
    assert_eq!(sources.type_ref_syntax(0), None);
}

#[test]
fn unit_self_and_optional() {
    let mut b = TypeRefMapBuilder::new();
    let u = b.unit();
    let s = b.alloc_self();
    let o = b.alloc_from_node(&TypeSyntax::Optional {
        node: 5,
        inner: Some(Box::new(TypeSyntax::Tuple { node: 6, fields: Vec::new() })),
    });
    let (map, _) = b.finish();
    assert_eq!((u, s, o), (0, 1, 3));
    assert!(matches!(map.type_ref(0), TypeRef::Tuple(v) if v.is_empty()));
    assert_eq!(segments(map.type_ref(1)), vec!["Self".to_string()]);
    assert!(matches!(map.type_ref(2), TypeRef::Tuple(v) if v.is_empty()));
    assert!(matches!(map.type_ref(3), TypeRef::Optional(2)));
}
