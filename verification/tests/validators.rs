use codira::validators::{
    contains_type_parameter, first_type_parameter, validate_codegen_support,
    validate_effect_obligations, validate_move_checking, CodegenGap, LiteralKind, ResolvedCall,
    TyShape,
};

#[test]
fn use_after_consume_is_reported_from_the_second_use_on() {
    // Parameter 0 is consuming; it is used three times.
    let refs = [Some(0), Some(1), Some(0), None, Some(0)];
    assert_eq!(validate_move_checking(true, &refs, &[0]), vec![2, 4]);
}

#[test]
fn double_use_without_strict_is_not_checked() {
    let refs = [Some(0), Some(0)];
    assert!(validate_move_checking(false, &refs, &[0]).is_empty());
}

#[test]
fn single_use_in_strict_function_is_fine() {
    let refs = [Some(0), Some(1), Some(1)];
    assert!(validate_move_checking(true, &refs, &[0]).is_empty());
}

#[test]
fn undeclared_effects_are_reported_per_call() {
    let caller = vec!["io".to_string()];
    let calls = vec![
        ResolvedCall { expr: 3, effects: vec!["io".to_string(), "net".to_string()] },
        ResolvedCall { expr: 7, effects: vec!["alloc".to_string()] },
        ResolvedCall { expr: 9, effects: vec![] },
    ];
    assert_eq!(
        validate_effect_obligations(&caller, &calls),
        vec![(3, "net".to_string()), (7, "alloc".to_string())]
    );
}

#[test]
fn declared_effects_produce_nothing() {
    let caller = vec!["io".to_string(), "net".to_string()];
    let calls = vec![ResolvedCall { expr: 1, effects: vec!["net".to_string(), "io".to_string()] }];
    assert!(validate_effect_obligations(&caller, &calls).is_empty());
}

#[test]
fn type_parameters_are_found_inside_arrays_and_tuples() {
    let nested = TyShape::Tuple(vec![
        TyShape::Other,
        TyShape::Array(Box::new(TyShape::TypeParam("T".to_string()))),
    ]);
    assert!(contains_type_parameter(&nested));
    assert!(!contains_type_parameter(&TyShape::Tuple(vec![TyShape::Other])));
    let sig = vec![TyShape::Other, nested, TyShape::TypeParam("U".to_string())];
    assert_eq!(first_type_parameter(&sig), Some(1));
    assert_eq!(first_type_parameter(&vec![TyShape::Other]), None);
}

#[test]
fn generic_function_is_reported_once() {
    let sig = vec![TyShape::TypeParam("T".to_string())];
    let gaps = validate_codegen_support(&sig, "T", &vec![(4, LiteralKind::Nil)]);
    assert_eq!(
        gaps,
        vec![CodegenGap::GenericFunction {
            what: "a generic function (`T` is not instantiated)".to_string(),
            because: "monomorphisation is not implemented yet, so there is no concrete type to generate code for".to_string(),
        }]
    );
}

#[test]
fn each_nil_literal_is_reported() {
    let sig = vec![TyShape::Other];
    let literals = vec![(1, LiteralKind::Int), (4, LiteralKind::Nil), (6, LiteralKind::Nil)];
    let gaps = validate_codegen_support(&sig, "", &literals);
    assert_eq!(gaps.len(), 2);
    match &gaps[1] {
        CodegenGap::Literal { expr, what, .. } => {
            assert_eq!(*expr, 6);
            assert_eq!(what, "`nil`");
        }
        other => panic!("unexpected {other:?}"),
    }
}
