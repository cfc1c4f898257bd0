//! The legality matrix of `expr as Type` and the machine operation each
//! legal cast performs.
//!
//! * Int -> Int wraps: truncation when narrowing, sign- or zero-extension by
//!   the source's signedness when widening, nothing at the same width.
//! * Float -> Int saturates (`FpToSi` / `FpToUi` by the target's signedness);
//!   Int -> Float is `SiToFp` / `UiToFp` by the source's signedness.
//! * Float -> Float truncates or extends; the same width is an identity.
//! * `bool` only converts to integers (zero-extension) and to itself.
//! * Everything else is illegal; unresolved sides stay undetermined.
//!
//! Every legal conversion is wrapping.
use vstd::prelude::*;

verus! {

/// The width of an integer type; `Size` is the target's pointer width.
#[derive(Debug, Clone, Copy, PartialEq, Eq, Structural)]
pub enum IntBitness {
    X8,
    X16,
    X32,
    X64,
    X128,
    Xsize,
}

/// The width of a floating-point type.
#[derive(Debug, Clone, Copy, PartialEq, Eq, Structural)]
pub enum FloatBitness {
    X32,
    X64,
}

/// What a cast sees of a type.
#[derive(Debug, Clone, Copy, PartialEq, Eq, Structural)]
pub enum CastType {
    /// An integer type.
    Int { signed: bool, bitness: IntBitness },
    /// A floating-point type.
    Float { bitness: FloatBitness },
    /// `bool`.
    Bool,
    /// An unsuffixed integer literal whose type is not pinned down yet.
    IntVar,
    /// An unsuffixed float literal whose type is not pinned down yet.
    FloatVar,
    /// An error type, an unresolved type variable, or a cyclic alias.
    Unknown,
    /// The diverging type.
    Never,
    /// Any other known type: aggregates, functions, strings, type
    /// parameters.
    Other,
}

/// The conversion a legal cast emits.
#[derive(Debug, Clone, Copy, PartialEq, Eq, Structural)]
pub enum CastKind {
    Trunc,
    Sext,
    Zext,
    FpToSi,
    FpToUi,
    SiToFp,
    UiToFp,
    FpTrunc,
    FpExt,
}

/// How a conversion treats values out of range.
#[derive(Debug, Clone, Copy, PartialEq, Eq, Structural)]
pub enum CastMode {
    Wrapping,
    Checked,
}

/// The machine-level operation a legal cast performs.
#[derive(Debug, Clone, Copy, PartialEq, Eq, Structural)]
pub enum CastOp {
    /// The same machine representation: nothing is emitted.
    Identity,
    /// A real conversion.
    Convert(CastKind, CastMode),
}

/// Why a cast was rejected.
#[derive(Debug, Clone, Copy, PartialEq, Eq, Hash, Structural)]
pub enum InvalidCastReason {
    /// The target is `bool` and the source is not.
    ToBool,
    /// The source is `bool` and the target is a floating-point type.
    BoolToFloat,
    /// At least one side is not a primitive numeric type (or `bool`).
    NotNumeric,
}

/// The message of each rejection.
pub open spec fn reason_message(r: InvalidCastReason) -> &'static str {
    match r {
        InvalidCastReason::ToBool => "cannot cast to `bool` with `as`; use a comparison instead",
        InvalidCastReason::BoolToFloat => "`bool` can only be cast to an integer type",
        InvalidCastReason::NotNumeric => "`as` can only convert between primitive numeric types",
    }
}

impl InvalidCastReason {
    /// A complete, human-readable explanation of the rejection.
    pub fn message(self) -> (m: &'static str)
        ensures
            m == reason_message(self),
    {
        match self {
            InvalidCastReason::ToBool => "cannot cast to `bool` with `as`; use a comparison instead",
            InvalidCastReason::BoolToFloat => "`bool` can only be cast to an integer type",
            InvalidCastReason::NotNumeric => "`as` can only convert between primitive numeric types",
        }
    }
}

/// The outcome of checking `source as target`.
#[derive(Debug, Clone, Copy, PartialEq, Eq, Structural)]
pub enum CastCheck {
    /// The cast is legal and performs this operation.
    Legal(CastOp),
    /// A side is not concrete yet; nothing is reported.
    Undetermined,
    /// The cast is a type error.
    Illegal(InvalidCastReason),
}

/// The width in bits of an integer type on a target whose pointers are
/// `pointer_bits` wide.
pub open spec fn int_bits(b: IntBitness, pointer_bits: u32) -> u32 {
    match b {
        IntBitness::X8 => 8,
        IntBitness::X16 => 16,
        IntBitness::X32 => 32,
        IntBitness::X64 => 64,
        IntBitness::X128 => 128,
        IntBitness::Xsize => pointer_bits,
    }
}

/// The width in bits of a floating-point type.
pub open spec fn float_bits(b: FloatBitness) -> u32 {
    match b {
        FloatBitness::X32 => 32,
        FloatBitness::X64 => 64,
    }
}

/// A side that is an error or still unresolved.
pub open spec fn is_unknown(t: CastType) -> bool {
    t is Unknown
}

/// A side that can never take part in a cast.
pub open spec fn is_other(t: CastType) -> bool {
    t is Other || t is Never
}

/// The legality matrix.
pub open spec fn cast_matrix(source: CastType, target: CastType, pointer_bits: u32) -> CastCheck {
    if source is Never {
        CastCheck::Undetermined
    } else if is_unknown(source) || is_unknown(target) {
        CastCheck::Undetermined
    } else if is_other(source) || is_other(target) {
        CastCheck::Illegal(InvalidCastReason::NotNumeric)
    } else {
        match (source, target) {
            (CastType::Bool, CastType::Bool) => CastCheck::Legal(CastOp::Identity),
            (CastType::Bool, CastType::Int { .. }) => CastCheck::Legal(
                CastOp::Convert(CastKind::Zext, CastMode::Wrapping),
            ),
            (CastType::Bool, _) => CastCheck::Illegal(InvalidCastReason::BoolToFloat),
            (_, CastType::Bool) => CastCheck::Illegal(InvalidCastReason::ToBool),
            (CastType::IntVar, _) => CastCheck::Undetermined,
            (CastType::FloatVar, _) => CastCheck::Undetermined,
            (_, CastType::IntVar) => CastCheck::Undetermined,
            (_, CastType::FloatVar) => CastCheck::Undetermined,
            (CastType::Int { signed: ss, bitness: sb }, CastType::Int { signed: _, bitness: tb }) => {
                let sw = int_bits(sb, pointer_bits);
                let tw = int_bits(tb, pointer_bits);
                CastCheck::Legal(
                    if tw == sw {
                        CastOp::Identity
                    } else if tw < sw {
                        CastOp::Convert(CastKind::Trunc, CastMode::Wrapping)
                    } else if ss {
                        CastOp::Convert(CastKind::Sext, CastMode::Wrapping)
                    } else {
                        CastOp::Convert(CastKind::Zext, CastMode::Wrapping)
                    },
                )
            },
            (CastType::Int { signed: ss, .. }, CastType::Float { .. }) => CastCheck::Legal(
                CastOp::Convert(
                    if ss {
                        CastKind::SiToFp
                    } else {
                        CastKind::UiToFp
                    },
                    CastMode::Wrapping,
                ),
            ),
            (CastType::Float { .. }, CastType::Int { signed: ts, .. }) => CastCheck::Legal(
                CastOp::Convert(
                    if ts {
                        CastKind::FpToSi
                    } else {
                        CastKind::FpToUi
                    },
                    CastMode::Wrapping,
                ),
            ),
            (CastType::Float { bitness: sb }, CastType::Float { bitness: tb }) => {
                let sw = float_bits(sb);
                let tw = float_bits(tb);
                CastCheck::Legal(
                    if sw == tw {
                        CastOp::Identity
                    } else if tw < sw {
                        CastOp::Convert(CastKind::FpTrunc, CastMode::Wrapping)
                    } else {
                        CastOp::Convert(CastKind::FpExt, CastMode::Wrapping)
                    },
                )
            },
            _ => CastCheck::Undetermined,
        }
    }
}

fn int_width(b: IntBitness, pointer_bits: u32) -> (w: u32)
    ensures
        w == int_bits(b, pointer_bits),
{
    match b {
        IntBitness::X8 => 8,
        IntBitness::X16 => 16,
        IntBitness::X32 => 32,
        IntBitness::X64 => 64,
        IntBitness::X128 => 128,
        IntBitness::Xsize => pointer_bits,
    }
}

fn float_width(b: FloatBitness) -> (w: u32)
    ensures
        w == float_bits(b),
{
    match b {
        FloatBitness::X32 => 32,
        FloatBitness::X64 => 64,
    }
}

/// Checks `source as target` against the legality matrix and selects the
/// operation of a legal cast; `pointer_bits` is the target's pointer width,
/// which decides the width of `isize` and `usize`.
pub fn check_cast(source: CastType, target: CastType, pointer_bits: u32) -> (c: CastCheck)
    ensures
        c == cast_matrix(source, target, pointer_bits),
{
    if let CastType::Never = source {
        return CastCheck::Undetermined;
    }
    if let CastType::Unknown = source {
        return CastCheck::Undetermined;
    }
    if let CastType::Unknown = target {
        return CastCheck::Undetermined;
    }
    match source {
        CastType::Other | CastType::Never => {
            return CastCheck::Illegal(InvalidCastReason::NotNumeric);
        },
        _ => {},
    }
    match target {
        CastType::Other | CastType::Never => {
            return CastCheck::Illegal(InvalidCastReason::NotNumeric);
        },
        _ => {},
    }
    match (source, target) {
        (CastType::Bool, CastType::Bool) => CastCheck::Legal(CastOp::Identity),
        (CastType::Bool, CastType::Int { .. }) => CastCheck::Legal(
            CastOp::Convert(CastKind::Zext, CastMode::Wrapping),
        ),
        (CastType::Bool, _) => CastCheck::Illegal(InvalidCastReason::BoolToFloat),
        (_, CastType::Bool) => CastCheck::Illegal(InvalidCastReason::ToBool),
        (CastType::IntVar, _) => CastCheck::Undetermined,
        (CastType::FloatVar, _) => CastCheck::Undetermined,
        (_, CastType::IntVar) => CastCheck::Undetermined,
        (_, CastType::FloatVar) => CastCheck::Undetermined,
        (CastType::Int { signed: ss, bitness: sb }, CastType::Int { signed: _, bitness: tb }) => {
            let sw = int_width(sb, pointer_bits);
            let tw = int_width(tb, pointer_bits);
            CastCheck::Legal(
                if tw == sw {
                    CastOp::Identity
                } else if tw < sw {
                    CastOp::Convert(CastKind::Trunc, CastMode::Wrapping)
                } else if ss {
                    CastOp::Convert(CastKind::Sext, CastMode::Wrapping)
                } else {
                    CastOp::Convert(CastKind::Zext, CastMode::Wrapping)
                },
            )
        },
        (CastType::Int { signed: ss, .. }, CastType::Float { .. }) => CastCheck::Legal(
            CastOp::Convert(
                if ss {
                    CastKind::SiToFp
                } else {
                    CastKind::UiToFp
                },
                CastMode::Wrapping,
            ),
        ),
        (CastType::Float { .. }, CastType::Int { signed: ts, .. }) => CastCheck::Legal(
            CastOp::Convert(
                if ts {
                    CastKind::FpToSi
                } else {
                    CastKind::FpToUi
                },
                CastMode::Wrapping,
            ),
        ),
        (CastType::Float { bitness: sb }, CastType::Float { bitness: tb }) => {
            let sw = float_width(sb);
            let tw = float_width(tb);
            CastCheck::Legal(
                if sw == tw {
                    CastOp::Identity
                } else if tw < sw {
                    CastOp::Convert(CastKind::FpTrunc, CastMode::Wrapping)
                } else {
                    CastOp::Convert(CastKind::FpExt, CastMode::Wrapping)
                },
            )
        },
        _ => CastCheck::Undetermined,
    }
}

/// Every legal conversion wraps: `as` never produces a checked cast.
pub proof fn law_casts_wrap(source: CastType, target: CastType, pointer_bits: u32)
    ensures
        cast_matrix(source, target, pointer_bits) matches CastCheck::Legal(
            CastOp::Convert(_, mode),
        ) ==> mode == CastMode::Wrapping,
{
}

/// Between two integer types a cast is always legal, and it emits nothing
/// exactly when the two are equally wide.
pub proof fn law_int_casts_legal(
    ss: bool,
    sb: IntBitness,
    ts: bool,
    tb: IntBitness,
    pointer_bits: u32,
)
    ensures
        cast_matrix(
            CastType::Int { signed: ss, bitness: sb },
            CastType::Int { signed: ts, bitness: tb },
            pointer_bits,
        ) is Legal,
        (cast_matrix(
            CastType::Int { signed: ss, bitness: sb },
            CastType::Int { signed: ts, bitness: tb },
            pointer_bits,
        ) == CastCheck::Legal(CastOp::Identity)) <==> int_bits(sb, pointer_bits) == int_bits(
            tb,
            pointer_bits,
        ),
{
}

/// Only `bool` converts to `bool`: any other known, concrete source is
/// rejected or undetermined.
pub proof fn law_only_bool_to_bool(source: CastType, pointer_bits: u32)
    requires
        !(source is Bool),
    ensures
        !(cast_matrix(source, CastType::Bool, pointer_bits) is Legal),
{
}

/// A cast there and back between two types of equal width is an identity
/// both ways.
pub proof fn law_same_width_identity_round_trip(a: CastType, b: CastType, pointer_bits: u32)
    requires
        cast_matrix(a, b, pointer_bits) == CastCheck::Legal(CastOp::Identity),
        !(a is Bool),
    ensures
        cast_matrix(b, a, pointer_bits) == CastCheck::Legal(CastOp::Identity),
{
}

} // verus!
