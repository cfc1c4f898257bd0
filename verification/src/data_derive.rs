//! Derivation of `eq` for `data struct`s.
//!
//! For every eligible `data` struct of a file, source text for an `extend`
//! block with `func eq(self, other: Name) -> bool` is produced, to be
//! appended to the file before it is parsed, so the derived method takes
//! the same path through the compiler as a hand-written one. A struct is
//! eligible when it is a `data` struct, not generic, named, a record
//! struct, and every field is named and typed by a primitive scalar type.
use vstd::prelude::*;

verus! {

/// A record field as declared: its name and the text of its type, where
/// they are written.
pub struct FieldDecl {
    pub name: Option<String>,
    pub ty_text: Option<String>,
}

/// The body form of a struct declaration.
pub enum StructShape {
    /// `struct S { .. }`, with its fields in order.
    Record(Vec<FieldDecl>),
    /// `struct S(..);`
    Tuple,
    /// `struct S;`
    Unit,
}

/// A struct declaration of a file, as parsed.
pub struct StructDecl {
    /// Declared with the `data` keyword.
    pub is_data: bool,
    /// Has a generic parameter list.
    pub generic: bool,
    pub name: Option<String>,
    pub shape: StructShape,
}

/// Whether `ty` is one of the primitive type names.
pub open spec fn is_primitive(primitives: Seq<&str>, ty: Seq<char>) -> bool {
    exists|i: int| 0 <= i < primitives.len() && #[trigger] primitives[i]@ == ty
}

/// Whether a field is named and typed by a primitive type.
pub open spec fn field_ok(primitives: Seq<&str>, f: FieldDecl) -> bool {
    match (f.name, f.ty_text) {
        (Some(_), Some(t)) => is_primitive(primitives, t@),
        _ => false,
    }
}

/// Whether `eq` is derived for a struct.
pub open spec fn eligible(primitives: Seq<&str>, d: StructDecl) -> bool {
    &&& d.is_data
    &&& !d.generic
    &&& d.name is Some
    &&& match d.shape {
        StructShape::Record(fields) => forall|k: int|
            0 <= k < fields@.len() ==> #[trigger] field_ok(primitives, fields@[k]),
        _ => false,
    }
}

/// `self.f == other.f`.
pub open spec fn clause(f: Seq<char>) -> Seq<char> {
    "self."@ + f + " == other."@ + f
}

/// The clauses of the field names joined by ` && `.
pub open spec fn joined(names: Seq<Seq<char>>) -> Seq<char>
    decreases names.len(),
{
    if names.len() == 0 {
        Seq::empty()
    } else if names.len() == 1 {
        clause(names[0])
    } else {
        joined(names.drop_last()) + " && "@ + clause(names.last())
    }
}

/// The names of the fields, by their texts.
pub open spec fn field_names(fields: Seq<FieldDecl>) -> Seq<Seq<char>> {
    fields.map_values(|f: FieldDecl| f.name.unwrap()@)
}

/// The body of the derived `eq`: `true` for no fields, else the
/// field-wise comparisons joined by `&&`.
pub open spec fn eq_body(fields: Seq<FieldDecl>) -> Seq<char> {
    if fields.len() == 0 {
        "true"@
    } else {
        joined(field_names(fields))
    }
}

/// The `extend` block deriving `eq` for struct `name`.
pub open spec fn extend_block(name: Seq<char>, fields: Seq<FieldDecl>) -> Seq<char> {
    "\nextend "@ + name + " {\n    func eq(self, other: "@ + name + ") -> bool {\n        "@
        + eq_body(fields) + "\n    }\n}\n"@
}

/// The text derived for the declarations, in order.
pub open spec fn derived_text(primitives: Seq<&str>, decls: Seq<StructDecl>) -> Seq<char>
    decreases decls.len(),
{
    if decls.len() == 0 {
        Seq::empty()
    } else {
        let d = decls.last();
        let rest = derived_text(primitives, decls.drop_last());
        if eligible(primitives, d) {
            match d.shape {
                StructShape::Record(fields) => rest + extend_block(d.name.unwrap()@, fields@),
                _ => rest,
            }
        } else {
            rest
        }
    }
}

fn append(a: String, b: &str) -> (r: String)
    ensures
        r@ == a@ + b@,
{
    let mut r = a;
    r.append(b);
    r
}

fn is_primitive_name(primitives: &[&str], ty: &str) -> (b: bool)
    ensures
        b == is_primitive(primitives@, ty@),
{
    let mut i: usize = 0;
    while i < primitives.len()
        invariant
            0 <= i <= primitives@.len(),
            forall|j: int| 0 <= j < i ==> primitives@[j]@ != ty@,
        decreases primitives@.len() - i,
    {
        if crate::text::str_eq(primitives[i], ty) {
            return true;
        }
        i = i + 1;
    }
    false
}

/// Whether every field is named and primitive-typed.
fn all_primitive(primitives: &[&str], fields: &Vec<FieldDecl>) -> (b: bool)
    ensures
        b == forall|k: int| 0 <= k < fields@.len() ==> #[trigger] field_ok(primitives@, fields@[k]),
{
    let mut i: usize = 0;
    while i < fields.len()
        invariant
            0 <= i <= fields@.len(),
            forall|k: int| 0 <= k < i ==> #[trigger] field_ok(primitives@, fields@[k]),
        decreases fields@.len() - i,
    {
        let f = &fields[i];
        let ok = match (&f.name, &f.ty_text) {
            (Some(_), Some(t)) => is_primitive_name(primitives, t.as_str()),
            _ => false,
        };
        if !ok {
            assert(!field_ok(primitives@, fields@[i as int]));
            return false;
        }
        i = i + 1;
    }
    true
}

/// The body of the derived `eq` for record fields that are all named.
fn eq_body_text(fields: &Vec<FieldDecl>) -> (r: String)
    requires
        forall|k: int| 0 <= k < fields@.len() ==> (#[trigger] fields@[k]).name is Some,
    ensures
        r@ == eq_body(fields@),
{
    if fields.len() == 0 {
        return String::from_str("true");
    }
    let mut out = String::new();
    let mut i: usize = 0;
    while i < fields.len()
        invariant
            0 <= i <= fields@.len(),
            fields@.len() > 0,
            forall|k: int| 0 <= k < fields@.len() ==> (#[trigger] fields@[k]).name is Some,
            out@ == joined(field_names(fields@.take(i as int))),
        decreases fields@.len() - i,
    {
        let name = match &fields[i].name {
            Some(n) => n,
            None => {
                assert(fields@[i as int].name is Some);
                return out;
            },
        };
        proof {
            let prev = field_names(fields@.take(i as int));
            let next = field_names(fields@.take(i + 1));
            assert(next.drop_last() =~= prev);
            assert(next.last() == name@);
            assert(next.len() == i + 1);
        }
        if i > 0 {
            out = append(out, " && ");
        }
        out = append(out, "self.");
        out = append(out, name.as_str());
        out = append(out, " == other.");
        out = append(out, name.as_str());
        proof {
            let next = field_names(fields@.take(i + 1));
            if i == 0 {
                assert(next.len() == 1);
                assert(next[0] == name@);
                assert(joined(field_names(fields@.take(0))) =~= Seq::<char>::empty());
                assert(out@ =~= clause(name@));
            } else {
                assert(out@ =~= joined(next.drop_last()) + " && "@ + clause(name@));
            }
        }
        i = i + 1;
    }
    proof {
        assert(fields@.take(i as int) =~= fields@);
    }
    out
}

/// The `extend` blocks that derive `eq` for the eligible `data` structs
/// among `structs`, in order, or `None` when no struct is eligible.
/// `primitives` are the names of the primitive scalar types.
pub fn synthesize(structs: &Vec<StructDecl>, primitives: &[&str]) -> (r: Option<String>)
    ensures
        r is None <==> derived_text(primitives@, structs@).len() == 0,
        r matches Some(t) ==> t@ == derived_text(primitives@, structs@),
{
    let mut out = String::new();
    let mut wrote = false;
    let mut i: usize = 0;
    while i < structs.len()
        invariant
            0 <= i <= structs@.len(),
            out@ == derived_text(primitives@, structs@.take(i as int)),
            wrote <==> out@.len() > 0,
        decreases structs@.len() - i,
    {
        let d = &structs[i];
        proof {
            assert(structs@.take(i + 1).drop_last() =~= structs@.take(i as int));
            assert(structs@.take(i + 1).last() == structs@[i as int]);
        }
        if d.is_data && !d.generic {
            if let Some(name) = &d.name {
                if let StructShape::Record(fields) = &d.shape {
                    if all_primitive(primitives, fields) {
                        proof {
                            assert forall|k: int| 0 <= k < fields@.len() implies (
                            #[trigger] fields@[k]).name is Some by {
                                assert(field_ok(primitives@, fields@[k]));
                            }
                        }
                        let body = eq_body_text(fields);
                        out = append(out, "\nextend ");
                        out = append(out, name.as_str());
                        out = append(out, " {\n    func eq(self, other: ");
                        out = append(out, name.as_str());
                        out = append(out, ") -> bool {\n        ");
                        out = append(out, body.as_str());
                        out = append(out, "\n    }\n}\n");
                        proof {
                            reveal_strlit("\n    }\n}\n");
                        }
                        wrote = true;
                    }
                }
            }
        }
        i = i + 1;
    }
    proof {
        assert(structs@.take(i as int) =~= structs@);
    }
    if !wrote {
        None
    } else {
        Some(out)
    }
}

/// A file without `data` structs derives nothing, so `synthesize` returns
/// `None` and the file is parsed unchanged.
pub proof fn law_no_data_struct_derives_nothing(primitives: Seq<&str>, decls: Seq<StructDecl>)
    requires
        forall|i: int| 0 <= i < decls.len() ==> !(#[trigger] decls[i]).is_data,
    ensures
        derived_text(primitives, decls).len() == 0,
    decreases decls.len(),
{
    if decls.len() > 0 {
        law_no_data_struct_derives_nothing(primitives, decls.drop_last());
    }
}

/// Declarations that are not eligible contribute nothing: the derived text
/// of a file is that of its eligible structs alone.
pub proof fn law_ineligible_struct_contributes_nothing(
    primitives: Seq<&str>,
    decls: Seq<StructDecl>,
    d: StructDecl,
)
    requires
        !eligible(primitives, d),
    ensures
        derived_text(primitives, decls.push(d)) == derived_text(primitives, decls),
{
    assert(decls.push(d).drop_last() =~= decls);
}

} // verus!
