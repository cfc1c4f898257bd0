//! The messages of the compiler's diagnostics that depend on what was
//! found: counts with their plurals, names, and lists.
use crate::text::decimal;
use vstd::prelude::*;

verus! {

fn append(a: String, b: &str) -> (r: String)
    ensures
        r@ == a@ + b@,
{
    let mut r = a;
    r.append(b);
    r
}

fn number(n: usize) -> (s: String)
    ensures
        s@ == decimal(n as nat),
{
    crate::text::u64_decimal(n as u64)
}

/// The message for a call with the wrong number of arguments.
pub fn parameter_count_mismatch(expected: usize, found: usize) -> (m: String)
    ensures
        m@ == "this function takes "@ + decimal(expected as nat) + " parameters but "@ + decimal(
            found as nat,
        ) + " parameters was supplied"@,
{
    let m = String::from_str("this function takes ");
    let m = append(m, number(expected).as_str());
    let m = append(m, " parameters but ");
    let m = append(m, number(found).as_str());
    append(m, " parameters was supplied")
}

/// `field` or `fields` by the count.
pub open spec fn fields_word(n: usize) -> Seq<char> {
    if n == 1 {
        ""@
    } else {
        "s"@
    }
}

/// ` was` or `s were` by the count.
pub open spec fn supplied_word(n: usize) -> Seq<char> {
    if n == 1 {
        " was"@
    } else {
        "s were"@
    }
}

/// The message for a tuple struct literal with the wrong number of fields.
pub fn field_count_mismatch(expected: usize, found: usize) -> (m: String)
    ensures
        m@ == "this tuple struct literal has "@ + decimal(expected as nat) + " field"@ + fields_word(
            expected,
        ) + " but "@ + decimal(found as nat) + " field"@ + supplied_word(found) + " supplied"@,
{
    let m = String::from_str("this tuple struct literal has ");
    let m = append(m, number(expected).as_str());
    let m = append(m, " field");
    let m = append(
        m,
        if expected == 1 {
            ""
        } else {
            "s"
        },
    );
    let m = append(m, " but ");
    let m = append(m, number(found).as_str());
    let m = append(m, " field");
    let m = append(
        m,
        if found == 1 {
            " was"
        } else {
            "s were"
        },
    );
    append(m, " supplied")
}

/// One line per missing field, each `- name`.
pub open spec fn field_lines(names: Seq<String>) -> Seq<char>
    decreases names.len(),
{
    if names.len() == 0 {
        Seq::empty()
    } else {
        field_lines(names.drop_last()) + "- "@ + names.last()@ + "\n"@
    }
}

/// The message for a record literal that misses fields.
pub fn missing_fields(field_names: &Vec<String>) -> (m: String)
    ensures
        m@ == "missing record fields:\n"@ + field_lines(field_names@),
{
    let mut m = String::from_str("missing record fields:\n");
    let mut i: usize = 0;
    while i < field_names.len()
        invariant
            0 <= i <= field_names@.len(),
            m@ == "missing record fields:\n"@ + field_lines(field_names@.take(i as int)),
        decreases field_names@.len() - i,
    {
        proof {
            assert(field_names@.take(i + 1).drop_last() =~= field_names@.take(i as int));
        }
        m = append(m, "- ");
        m = append(m, field_names[i].as_str());
        m = append(m, "\n");
        i = i + 1;
    }
    proof {
        assert(field_names@.take(i as int) =~= field_names@);
    }
    m
}

/// The message for a float literal written in another base.
pub fn invalid_float_base(base: u32) -> (m: &'static str)
    ensures
        m@ == if base == 2 {
            "binary float literal is not supported"@
        } else if base == 8 {
            "octal float literal is not supported"@
        } else if base == 16 {
            "hexadecimal float literal is not supported"@
        } else {
            "unsupported base for floating pointer literal"@
        },
{
    if base == 2 {
        "binary float literal is not supported"
    } else if base == 8 {
        "octal float literal is not supported"
    } else if base == 16 {
        "hexadecimal float literal is not supported"
    } else {
        "unsupported base for floating pointer literal"
    }
}

/// The message for a call whose effect the caller does not declare.
pub fn undeclared_effect(callee: &str, effect: &str) -> (m: String)
    ensures
        m@ == "call to `"@ + callee@ + "` requires effect `"@ + effect@
            + "`, which is not declared in this function's `uses` clause"@,
{
    let m = String::from_str("call to `");
    let m = append(m, callee);
    let m = append(m, "` requires effect `");
    let m = append(m, effect);
    append(m, "`, which is not declared in this function's `uses` clause")
}

/// The message for a refinement predicate no value satisfies.
pub fn unsatisfiable_refinement(predicate_text: &str) -> (m: String)
    ensures
        m@ == "unsatisfiable refinement type: no value can ever satisfy `"@ + predicate_text@
            + "` (proven by SMT solver, not just a heuristic)"@,
{
    let m = String::from_str("unsatisfiable refinement type: no value can ever satisfy `");
    let m = append(m, predicate_text);
    append(m, "` (proven by SMT solver, not just a heuristic)")
}

/// The message for a use of a consumed parameter.
pub fn use_after_consume(binding: &str) -> (m: String)
    ensures
        m@ == "use of `"@ + binding@
            + "` after it was consumed -- `consuming` parameters may only be used once in an `@strict` function"@,
{
    let m = String::from_str("use of `");
    let m = append(m, binding);
    append(
        m,
        "` after it was consumed -- `consuming` parameters may only be used once in an `@strict` function",
    )
}

/// The message for a child declared twice in a supervisor block.
pub fn duplicate_supervisor_child(name: &str) -> (m: String)
    ensures
        m@ == "a child named `"@ + name@ + "` is already declared in this supervisor"@,
{
    let m = String::from_str("a child named `");
    let m = append(m, name);
    append(m, "` is already declared in this supervisor")
}

/// The message for a key set twice in a supervisor block.
pub fn duplicate_supervisor_entry(name: &str) -> (m: String)
    ensures
        m@ == "the key `"@ + name@ + "` is already set in this block"@,
{
    let m = String::from_str("the key `");
    let m = append(m, name);
    append(m, "` is already set in this block")
}

/// The message for module-level bindings that depend on each other.
pub fn cyclic_const_definition(cycle: &str) -> (m: String)
    ensures
        m@ == "module-level bindings form a dependency cycle: "@ + cycle@,
{
    let m = String::from_str("module-level bindings form a dependency cycle: ");
    append(m, cycle)
}

/// The names joined by ` -> `, as a dependency cycle is written.
pub open spec fn joined_path(names: Seq<String>) -> Seq<char>
    decreases names.len(),
{
    if names.len() == 0 {
        Seq::empty()
    } else if names.len() == 1 {
        names[0]@
    } else {
        joined_path(names.drop_last()) + " -> "@ + names.last()@
    }
}

/// Writes a dependency cycle: its names joined by ` -> `.
pub fn cycle_path(names: &Vec<String>) -> (s: String)
    ensures
        s@ == joined_path(names@),
{
    let mut s = String::new();
    let mut i: usize = 0;
    while i < names.len()
        invariant
            0 <= i <= names@.len(),
            s@ == joined_path(names@.take(i as int)),
        decreases names@.len() - i,
    {
        proof {
            assert(names@.take(i + 1).drop_last() =~= names@.take(i as int));
        }
        if i > 0 {
            s = append(s, " -> ");
        }
        s = append(s, names[i].as_str());
        proof {
            if i == 0 {
                assert(s@ =~= names@[0]@);
            }
        }
        i = i + 1;
    }
    proof {
        assert(names@.take(names@.len() as int) =~= names@);
    }
    s
}

/// The message for a name defined twice.
pub fn duplicate_definition(name: &str) -> (m: String)
    ensures
        m@ == "the name `"@ + name@ + "` is defined multiple times"@,
{
    let m = String::from_str("the name `");
    let m = append(m, name);
    append(m, "` is defined multiple times")
}

/// The message for a struct literal of the wrong kind.
pub fn mismatched_struct_lit(expected: &str, found: &str) -> (m: String)
    ensures
        m@ == "mismatched struct literal kind. expected `"@ + expected@ + "`, found `"@ + found@
            + "`"@,
{
    let m = String::from_str("mismatched struct literal kind. expected `");
    let m = append(m, expected);
    let m = append(m, "`, found `");
    let m = append(m, found);
    append(m, "`")
}

} // verus!
