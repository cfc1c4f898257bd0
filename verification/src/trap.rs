//! Hardware faults as the trap handler sees them: the kinds of fault it
//! intercepts, the record it keeps of one, and the decisions it makes from
//! the operating system's exception record (which codes it handles, and
//! which address a faulting access touched).
use vstd::prelude::*;

verus! {

/// The exception code of an invalid memory access.
pub const EXCEPTION_ACCESS_VIOLATION: i32 = -1073741819;

/// The exception code of an integer division by zero.
pub const EXCEPTION_INT_DIVIDE_BY_ZERO: i32 = -1073741676;

/// The exception code of a floating-point division by zero.
pub const EXCEPTION_FLT_DIVIDE_BY_ZERO: i32 = -1073741682;

/// The exception code of an invalid floating-point operation.
pub const EXCEPTION_FLT_INVALID_OPERATION: i32 = -1073741680;

/// The exception code of an illegal instruction.
pub const EXCEPTION_ILLEGAL_INSTRUCTION: i32 = -1073741795;

/// The kind of hardware fault that was intercepted.
#[derive(Debug, Clone, Copy, PartialEq, Eq, Structural)]
pub enum FaultKind {
    /// An invalid memory access.
    AccessViolation,
    /// Integer division by zero.
    IntegerDivideByZero,
    /// Floating-point division by zero.
    FloatDivideByZero,
    /// An invalid floating-point operation.
    FloatInvalidOperation,
    /// An illegal CPU instruction.
    IllegalInstruction,
}

/// What was recorded of an intercepted fault.
#[derive(Debug, Clone, Copy, PartialEq, Eq, Structural)]
pub struct FaultInfo {
    /// The kind of fault.
    pub kind: FaultKind,
    /// The address of the faulting instruction.
    pub instruction_pointer: usize,
    /// For an access violation, the address the instruction tried to
    /// access.
    pub faulting_address: Option<usize>,
}

/// The fault kind an exception code stands for, if the handler handles it.
pub open spec fn kind_of_code(code: i32) -> Option<FaultKind> {
    if code == EXCEPTION_ACCESS_VIOLATION {
        Some(FaultKind::AccessViolation)
    } else if code == EXCEPTION_INT_DIVIDE_BY_ZERO {
        Some(FaultKind::IntegerDivideByZero)
    } else if code == EXCEPTION_FLT_DIVIDE_BY_ZERO {
        Some(FaultKind::FloatDivideByZero)
    } else if code == EXCEPTION_FLT_INVALID_OPERATION {
        Some(FaultKind::FloatInvalidOperation)
    } else if code == EXCEPTION_ILLEGAL_INSTRUCTION {
        Some(FaultKind::IllegalInstruction)
    } else {
        None
    }
}

/// The fault kind of an exception code; `None` for codes the handler
/// passes on.
pub fn classify(code: i32) -> (k: Option<FaultKind>)
    ensures
        k == kind_of_code(code),
{
    if code == EXCEPTION_ACCESS_VIOLATION {
        Some(FaultKind::AccessViolation)
    } else if code == EXCEPTION_INT_DIVIDE_BY_ZERO {
        Some(FaultKind::IntegerDivideByZero)
    } else if code == EXCEPTION_FLT_DIVIDE_BY_ZERO {
        Some(FaultKind::FloatDivideByZero)
    } else if code == EXCEPTION_FLT_INVALID_OPERATION {
        Some(FaultKind::FloatInvalidOperation)
    } else if code == EXCEPTION_ILLEGAL_INSTRUCTION {
        Some(FaultKind::IllegalInstruction)
    } else {
        None
    }
}

/// The record the handler keeps of an exception: `None` for a code it does
/// not handle; the accessed address (the second information word) only for
/// an access violation that carries at least two words.
pub fn fault_info_from_record(
    code: i32,
    instruction_pointer: usize,
    number_parameters: u32,
    access_address: usize,
) -> (r: Option<FaultInfo>)
    ensures
        r is None <==> kind_of_code(code) is None,
        r is Some ==> {
            let info = r.unwrap();
            &&& Some(info.kind) == kind_of_code(code)
            &&& info.instruction_pointer == instruction_pointer
            &&& info.faulting_address == if info.kind == FaultKind::AccessViolation
                && number_parameters >= 2 {
                Some(access_address)
            } else {
                None
            }
        },
{
    let kind = match classify(code) {
        Some(k) => k,
        None => {
            return None;
        },
    };
    let faulting_address = if kind == FaultKind::AccessViolation && number_parameters >= 2 {
        Some(access_address)
    } else {
        None
    };
    Some(FaultInfo { kind, instruction_pointer, faulting_address })
}

/// The description of a fault kind.
pub open spec fn kind_description(k: FaultKind) -> Seq<char> {
    match k {
        FaultKind::AccessViolation => "access violation (SIGSEGV-equivalent)"@,
        FaultKind::IntegerDivideByZero => "integer divide by zero (SIGFPE-equivalent)"@,
        FaultKind::FloatDivideByZero => "float divide by zero (SIGFPE-equivalent)"@,
        FaultKind::FloatInvalidOperation => "invalid floating-point operation"@,
        FaultKind::IllegalInstruction => "illegal instruction"@,
    }
}

impl FaultKind {
    /// The human-readable description of the fault kind.
    pub fn to_string(&self) -> (s: String)
        ensures
            s@ == kind_description(*self),
    {
        match self {
            FaultKind::AccessViolation => String::from_str("access violation (SIGSEGV-equivalent)"),
            FaultKind::IntegerDivideByZero => String::from_str(
                "integer divide by zero (SIGFPE-equivalent)",
            ),
            FaultKind::FloatDivideByZero => String::from_str(
                "float divide by zero (SIGFPE-equivalent)",
            ),
            FaultKind::FloatInvalidOperation => String::from_str("invalid floating-point operation"),
            FaultKind::IllegalInstruction => String::from_str("illegal instruction"),
        }
    }
}

} // verus!
