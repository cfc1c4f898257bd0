use codira::diagnostic_messages::{
    cyclic_const_definition, duplicate_definition, field_count_mismatch, invalid_float_base,
    mismatched_struct_lit, missing_fields, parameter_count_mismatch, undeclared_effect,
    unsatisfiable_refinement, use_after_consume,
};
use codira::supervisor_validator::StructureDiagnostic;

#[test]
fn counts_are_spelled_out() {
    assert_eq!(
        parameter_count_mismatch(2, 3),
        "this function takes 2 parameters but 3 parameters was supplied"
    );
    assert_eq!(
        field_count_mismatch(1, 2),
        "this tuple struct literal has 1 field but 2 fields were supplied"
    );
    assert_eq!(
        field_count_mismatch(3, 1),
        "this tuple struct literal has 3 fields but 1 field was supplied"
    );
    assert_eq!(
        field_count_mismatch(0, 10),
        "this tuple struct literal has 0 fields but 10 fields were supplied"
    );
}

#[test]
fn missing_fields_are_listed_one_per_line() {
    assert_eq!(
        missing_fields(&vec!["x".to_string(), "y".to_string()]),
        "missing record fields:\n- x\n- y\n"
    );
    assert_eq!(missing_fields(&vec![]), "missing record fields:\n");
}

#[test]
fn named_messages() {
    assert_eq!(invalid_float_base(16), "hexadecimal float literal is not supported");
    assert_eq!(invalid_float_base(10), "unsupported base for floating pointer literal");
    assert_eq!(
        undeclared_effect("read_file", "io"),
        "call to `read_file` requires effect `io`, which is not declared in this function's `uses` clause"
    );
    assert_eq!(
        unsatisfiable_refinement("x > 0 && x < 0"),
        "unsatisfiable refinement type: no value can ever satisfy `x > 0 && x < 0` (proven by SMT solver, not just a heuristic)"
    );
    assert_eq!(
        use_after_consume("buf"),
        "use of `buf` after it was consumed -- `consuming` parameters may only be used once in an `@strict` function"
    );
    assert_eq!(
        cyclic_const_definition("A -> B -> A"),
        "module-level bindings form a dependency cycle: A -> B -> A"
    );
    assert_eq!(duplicate_definition("foo"), "the name `foo` is defined multiple times");
    assert_eq!(
        mismatched_struct_lit("record", "tuple"),
        "mismatched struct literal kind. expected `record`, found `tuple`"
    );
    assert_eq!(
        StructureDiagnostic::DuplicateChild("ConnPool".to_string()).message(),
        "a child named `ConnPool` is already declared in this supervisor"
    );
    assert_eq!(
        StructureDiagnostic::DuplicateEntry("strategy".to_string()).message(),
        "the key `strategy` is already set in this block"
    );
}
