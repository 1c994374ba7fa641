//! Stable symbolic classifications for terminal faults, independent of diagnostics.
use vstd::prelude::*;

verus! {

/// A host-visible terminal failure category, not a guest exception or recoverable Result.
///
/// Guest code cannot choose this value. Explicit guest faults always use `UserFault`.
/// Match with a fallback: future runtime releases may add categories. Use `as_str()`
/// for stable identifiers rather than an enum ordinal.
#[non_exhaustive]
#[derive(Debug, Clone, Copy, PartialEq, Eq, Hash)]
pub enum FaultCode {
    /// A runtime/host failure without a more specific classification yet.
    RuntimeError,
    /// An explicit guest `fault` instruction or `System.Fault(message)` call.
    UserFault,
    /// Invalid program metadata or verified instruction behavior.
    InvalidProgram,
    /// The interpreter's configured call-frame limit was reached.
    StackOverflow,
    /// The interpreter's configured operand-stack limit was reached.
    EvaluationStackOverflow,
    /// The invocation exhausted its instruction budget.
    InstructionLimitExceeded,
    /// The host cancelled or stopped execution (not guest Task cancellation).
    ExecutionCancelled,
    /// An operation dereferenced a null managed object, array or interface.
    NullReference,
    /// A boxed value did not have the exact requested unboxing type.
    InvalidCast,
    /// An operation dereferenced a null native pointer.
    NullPointer,
    /// A managed array index was outside its valid range.
    IndexOutOfRange,
    /// Checked integer arithmetic or conversion overflowed.
    ArithmeticOverflow,
    /// Integer division or remainder used a zero divisor.
    DivideByZero,
    /// The managed object or identity budget was exhausted.
    HeapLimitExceeded,
    /// Managed array payload or supported-length limits were exceeded.
    ArrayLimitExceeded,
    /// The native pointer heap byte or allocation budget was exceeded.
    NativeMemoryLimitExceeded,
    /// The execution's String intern entry or UTF-8 payload budget was exceeded.
    InternPoolLimitExceeded,
}

/// The stable identifier of each category: its variant name.
pub open spec fn fault_code_name(code: FaultCode) -> Seq<char> {
    match code {
        FaultCode::RuntimeError => "RuntimeError"@,
        FaultCode::UserFault => "UserFault"@,
        FaultCode::InvalidProgram => "InvalidProgram"@,
        FaultCode::StackOverflow => "StackOverflow"@,
        FaultCode::EvaluationStackOverflow => "EvaluationStackOverflow"@,
        FaultCode::InstructionLimitExceeded => "InstructionLimitExceeded"@,
        FaultCode::ExecutionCancelled => "ExecutionCancelled"@,
        FaultCode::NullReference => "NullReference"@,
        FaultCode::InvalidCast => "InvalidCast"@,
        FaultCode::NullPointer => "NullPointer"@,
        FaultCode::IndexOutOfRange => "IndexOutOfRange"@,
        FaultCode::ArithmeticOverflow => "ArithmeticOverflow"@,
        FaultCode::DivideByZero => "DivideByZero"@,
        FaultCode::HeapLimitExceeded => "HeapLimitExceeded"@,
        FaultCode::ArrayLimitExceeded => "ArrayLimitExceeded"@,
        FaultCode::NativeMemoryLimitExceeded => "NativeMemoryLimitExceeded"@,
        FaultCode::InternPoolLimitExceeded => "InternPoolLimitExceeded"@,
    }
}

impl FaultCode {
    /// Stable, case-sensitive identifier for logs and machine-readable diagnostics.
    pub fn as_str(self) -> (s: &'static str)
        ensures
            s@ == fault_code_name(self),
    {
        match self {
            FaultCode::RuntimeError => "RuntimeError",
            FaultCode::UserFault => "UserFault",
            FaultCode::InvalidProgram => "InvalidProgram",
            FaultCode::StackOverflow => "StackOverflow",
            FaultCode::EvaluationStackOverflow => "EvaluationStackOverflow",
            FaultCode::InstructionLimitExceeded => "InstructionLimitExceeded",
            FaultCode::ExecutionCancelled => "ExecutionCancelled",
            FaultCode::NullReference => "NullReference",
            FaultCode::InvalidCast => "InvalidCast",
            FaultCode::NullPointer => "NullPointer",
            FaultCode::IndexOutOfRange => "IndexOutOfRange",
            FaultCode::ArithmeticOverflow => "ArithmeticOverflow",
            FaultCode::DivideByZero => "DivideByZero",
            FaultCode::HeapLimitExceeded => "HeapLimitExceeded",
            FaultCode::ArrayLimitExceeded => "ArrayLimitExceeded",
            FaultCode::NativeMemoryLimitExceeded => "NativeMemoryLimitExceeded",
            FaultCode::InternPoolLimitExceeded => "InternPoolLimitExceeded",
        }
    }
}

} // verus!
