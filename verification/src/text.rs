//! Small text helpers shared by the modules that compare or build names.
use vstd::prelude::*;

verus! {

/// Compares two string slices with `<str as PartialEq>::eq`, which the
/// standard library documents as equality of their contents; the contract
/// states exactly that, over the character sequences.
#[verifier::external_body]
pub(crate) fn str_eq(a: &str, b: &str) -> (r: bool)
    ensures
        r == (a@ == b@),
{
    a == b
}

/// The decimal digit character for `d < 10`.
pub open spec fn digit_char(d: nat) -> char {
    (48 + d) as char
}

/// The decimal representation of `n`: no sign and no leading zeros.
pub open spec fn decimal(n: nat) -> Seq<char>
    decreases n,
{
    if n < 10 {
        seq![digit_char(n)]
    } else {
        decimal(n / 10).push(digit_char(n % 10))
    }
}

/// Formats `n` with `<u64 as Display>`, which the standard library
/// documents as its plain decimal representation; the contract states that
/// representation.
#[verifier::external_body]
pub(crate) fn u64_decimal(n: u64) -> (s: String)
    ensures
        s@ == decimal(n as nat),
{
    n.to_string()
}

/// The lower-case hexadecimal digit character for `d < 16`.
pub open spec fn hex_char(d: nat) -> char {
    if d < 10 {
        (48 + d) as char
    } else {
        (87 + d) as char
    }
}

/// The lower-case hexadecimal digits of `n`, without leading zeros.
pub open spec fn hex_digits(n: nat) -> Seq<char>
    decreases n,
{
    if n < 16 {
        seq![hex_char(n)]
    } else {
        hex_digits(n / 16).push(hex_char(n % 16))
    }
}

/// Formats `n` with `{:#x}`, which the standard library documents as the
/// lower-case hexadecimal digits behind a `0x` prefix; the contract states
/// that text.
#[verifier::external_body]
pub(crate) fn u64_hex(n: u64) -> (s: String)
    ensures
        s@ == seq!['0', 'x'] + hex_digits(n as nat),
{
    format!("{:#x}", n)
}

} // verus!
