use codira::data_derive::{synthesize, FieldDecl, StructDecl, StructShape};

const PRIMITIVES: [&str; 14] = [
    "bool", "i8", "i16", "i32", "i64", "i128", "isize", "u8", "u16", "u32", "u64", "u128", "f32",
    "f64",
];

fn field(name: &str, ty: &str) -> FieldDecl {
    FieldDecl { name: Some(name.to_string()), ty_text: Some(ty.to_string()) }
}

fn record(is_data: bool, name: &str, fields: Vec<FieldDecl>) -> StructDecl {
    StructDecl {
        is_data,
        generic: false,
        name: Some(name.to_string()),
        shape: StructShape::Record(fields),
    }
}

#[test]
fn no_data_keyword_is_a_cheap_no_op() {
    // struct Foo { x: i32 }
    let structs = vec![record(false, "Foo", vec![field("x", "i32")])];
    assert_eq!(synthesize(&structs, &PRIMITIVES), None);
    assert_eq!(synthesize(&Vec::new(), &PRIMITIVES), None);
}

#[test]
fn non_data_struct_derives_nothing() {
    // struct Foo { x: i32 } // data mentioned in a comment
    let structs = vec![record(false, "Foo", vec![field("x", "i32")])];
    assert_eq!(synthesize(&structs, &PRIMITIVES), None);
}

#[test]
fn generic_data_struct_is_skipped() {
    // data struct Pair[T] { first: T, second: T }
    let mut pair = record(true, "Pair", vec![field("first", "T"), field("second", "T")]);
    pair.generic = true;
    assert_eq!(synthesize(&vec![pair], &PRIMITIVES), None);
}

#[test]
fn non_primitive_field_is_skipped() {
    // data struct Wrapper { inner: Other }
    let structs = vec![record(true, "Wrapper", vec![field("inner", "Other")])];
    assert_eq!(synthesize(&structs, &PRIMITIVES), None);
}

#[test]
fn primitive_fields_derive_eq() {
    // data struct Point { x: f64, y: f64 }
    let structs = vec![record(true, "Point", vec![field("x", "f64"), field("y", "f64")])];
    let derived = synthesize(&structs, &PRIMITIVES).unwrap();
    assert!(derived.contains("extend Point {"));
    assert!(derived.contains("func eq(self, other: Point) -> bool"));
    assert!(derived.contains("self.x == other.x && self.y == other.y"));
    assert_eq!(
        derived,
        "\nextend Point {\n    func eq(self, other: Point) -> bool {\n        self.x == other.x && self.y == other.y\n    }\n}\n"
    );
}

#[test]
fn zero_field_data_struct_derives_trivial_eq() {
    // data struct Unit {}
    let structs = vec![record(true, "Unit", vec![])];
    let derived = synthesize(&structs, &PRIMITIVES).unwrap();
    assert!(derived.contains("true"));
}

#[test]
fn plain_struct_alongside_data_struct_is_unaffected() {
    let structs = vec![
        record(true, "Point", vec![field("x", "f64"), field("y", "f64")]),
        record(false, "Plain", vec![field("x", "f64")]),
    ];
    let derived = synthesize(&structs, &PRIMITIVES).unwrap();
    assert!(derived.contains("extend Point"));
    assert!(!derived.contains("extend Plain"));
}

#[test]
fn tuple_and_unnamed_declarations_are_skipped() {
    let tuple = StructDecl {
        is_data: true,
        generic: false,
        name: Some("T".to_string()),
        shape: StructShape::Tuple,
    };
    let unnamed = StructDecl {
        is_data: true,
        generic: false,
        name: None,
        shape: StructShape::Record(vec![]),
    };
    let untyped = record(true, "U", vec![FieldDecl { name: Some("a".to_string()), ty_text: None }]);
    assert_eq!(synthesize(&vec![tuple, unnamed, untyped], &PRIMITIVES), None);
}

#[test]
fn each_eligible_struct_gets_its_own_block() {
    let structs = vec![
        record(true, "A", vec![field("v", "i32")]),
        record(true, "B", vec![field("w", "bool"), field("z", "u8"), field("q", "u16")]),
    ];
    let derived = synthesize(&structs, &PRIMITIVES).unwrap();
    let a = derived.find("extend A").unwrap();
    let b = derived.find("extend B").unwrap();
    assert!(a < b);
    assert!(derived.contains("self.w == other.w && self.z == other.z && self.q == other.q"));
}
