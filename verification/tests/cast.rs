use codira::cast::{
    check_cast, CastCheck, CastKind, CastMode, CastOp, CastType, FloatBitness, IntBitness,
    InvalidCastReason,
};

fn int_ty(signed: bool, bitness: IntBitness) -> CastType {
    CastType::Int { signed, bitness }
}

fn i8_ty() -> CastType {
    int_ty(true, IntBitness::X8)
}
fn u8_ty() -> CastType {
    int_ty(false, IntBitness::X8)
}
fn i32_ty() -> CastType {
    int_ty(true, IntBitness::X32)
}
fn u32_ty() -> CastType {
    int_ty(false, IntBitness::X32)
}
fn i64_ty() -> CastType {
    int_ty(true, IntBitness::X64)
}
fn u64_ty() -> CastType {
    int_ty(false, IntBitness::X64)
}
fn isize_ty() -> CastType {
    int_ty(true, IntBitness::Xsize)
}
fn f32_ty() -> CastType {
    CastType::Float { bitness: FloatBitness::X32 }
}
fn f64_ty() -> CastType {
    CastType::Float { bitness: FloatBitness::X64 }
}

fn convert(kind: CastKind) -> CastCheck {
    CastCheck::Legal(CastOp::Convert(kind, CastMode::Wrapping))
}

fn check(source: CastType, target: CastType) -> CastCheck {
    check_cast(source, target, 64)
}

#[test]
fn int_to_int_is_wrapping() {
    assert_eq!(check(i64_ty(), i8_ty()), convert(CastKind::Trunc));
    assert_eq!(check(u64_ty(), u8_ty()), convert(CastKind::Trunc));
    assert_eq!(check(u64_ty(), i8_ty()), convert(CastKind::Trunc));

    assert_eq!(check(i8_ty(), i64_ty()), convert(CastKind::Sext));
    assert_eq!(check(i8_ty(), u64_ty()), convert(CastKind::Sext));
    assert_eq!(check(u8_ty(), i64_ty()), convert(CastKind::Zext));
    assert_eq!(check(u8_ty(), u64_ty()), convert(CastKind::Zext));
}

#[test]
fn same_width_int_casts_emit_no_conversion() {
    assert_eq!(check(i32_ty(), i32_ty()), CastCheck::Legal(CastOp::Identity));
    assert_eq!(check(i32_ty(), u32_ty()), CastCheck::Legal(CastOp::Identity));
    assert_eq!(check(u64_ty(), i64_ty()), CastCheck::Legal(CastOp::Identity));
}

#[test]
fn variable_bitness_is_resolved_against_the_target() {
    assert_eq!(
        check_cast(isize_ty(), i64_ty(), 64),
        CastCheck::Legal(CastOp::Identity)
    );
    assert_eq!(check_cast(isize_ty(), i32_ty(), 64), convert(CastKind::Trunc));

    assert_eq!(
        check_cast(isize_ty(), i32_ty(), 32),
        CastCheck::Legal(CastOp::Identity)
    );
    assert_eq!(check_cast(isize_ty(), i64_ty(), 32), convert(CastKind::Sext));
}

#[test]
fn float_conversions_follow_signedness_and_width() {
    assert_eq!(check(i32_ty(), f64_ty()), convert(CastKind::SiToFp));
    assert_eq!(check(u32_ty(), f64_ty()), convert(CastKind::UiToFp));
    assert_eq!(check(f64_ty(), i32_ty()), convert(CastKind::FpToSi));
    assert_eq!(check(f64_ty(), u32_ty()), convert(CastKind::FpToUi));

    assert_eq!(check(f64_ty(), f32_ty()), convert(CastKind::FpTrunc));
    assert_eq!(check(f32_ty(), f64_ty()), convert(CastKind::FpExt));
    assert_eq!(check(f32_ty(), f32_ty()), CastCheck::Legal(CastOp::Identity));
}

#[test]
fn bool_is_only_a_source_and_only_to_integers() {
    let bool_ty = CastType::Bool;

    assert_eq!(check(bool_ty, i32_ty()), convert(CastKind::Zext));
    assert_eq!(check(bool_ty, bool_ty), CastCheck::Legal(CastOp::Identity));
    assert_eq!(
        check(bool_ty, f64_ty()),
        CastCheck::Illegal(InvalidCastReason::BoolToFloat)
    );
    assert_eq!(
        check(i32_ty(), bool_ty),
        CastCheck::Illegal(InvalidCastReason::ToBool)
    );
    assert_eq!(
        check(f64_ty(), bool_ty),
        CastCheck::Illegal(InvalidCastReason::ToBool)
    );
}

#[test]
fn aggregates_are_never_castable() {
    let aggregate = CastType::Other;
    let never = CastType::Never;

    assert_eq!(
        check(aggregate, i32_ty()),
        CastCheck::Illegal(InvalidCastReason::NotNumeric)
    );
    assert_eq!(
        check(i32_ty(), aggregate),
        CastCheck::Illegal(InvalidCastReason::NotNumeric)
    );
    assert_eq!(check(never, i32_ty()), CastCheck::Undetermined);
    assert_eq!(
        check(i32_ty(), never),
        CastCheck::Illegal(InvalidCastReason::NotNumeric)
    );
}

#[test]
fn unresolved_types_never_produce_an_error() {
    let unknown = CastType::Unknown;
    let int_var = CastType::IntVar;

    assert_eq!(check(unknown, i32_ty()), CastCheck::Undetermined);
    assert_eq!(check(i32_ty(), unknown), CastCheck::Undetermined);
    assert_eq!(check(int_var, i32_ty()), CastCheck::Undetermined);
    assert_eq!(check(int_var, f64_ty()), CastCheck::Undetermined);
    assert_eq!(
        check(int_var, CastType::Bool),
        CastCheck::Illegal(InvalidCastReason::ToBool)
    );
    assert_eq!(
        check(int_var, CastType::Other),
        CastCheck::Illegal(InvalidCastReason::NotNumeric)
    );
}

#[test]
fn invalid_cast_messages_name_the_rule() {
    assert!(!InvalidCastReason::ToBool.message().is_empty());
    assert_ne!(
        InvalidCastReason::ToBool.message(),
        InvalidCastReason::BoolToFloat.message()
    );
}
