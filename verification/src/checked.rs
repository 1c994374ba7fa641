//! Checked numeric conversion preserves integer precision and validates the
//! range before narrowing.
use crate::fault::Fault;
use crate::text::push_str;
use crate::value::{Value, ValueView};
use vstd::prelude::*;
use vstd::string::StringExecFns;

verus! {

/// The integer type a checked conversion narrows to.
#[derive(Debug, Clone, Copy, PartialEq, Eq, Structural)]
pub enum ConversionTarget {
    SByte,
    Byte,
    Int16,
    UInt16,
    Int32,
    UInt32,
    Int64,
    UInt64,
    IntPtr,
    UIntPtr,
}

/// The least value of each target.
pub open spec fn target_lower(t: ConversionTarget) -> int {
    match t {
        ConversionTarget::SByte => -0x80,
        ConversionTarget::Int16 => -0x8000,
        ConversionTarget::Int32 => -0x8000_0000,
        ConversionTarget::Int64 => -0x8000_0000_0000_0000,
        ConversionTarget::IntPtr => isize::MIN as int,
        _ => 0,
    }
}

/// One past the greatest value of each target.
pub open spec fn target_upper(t: ConversionTarget) -> int {
    match t {
        ConversionTarget::SByte => 0x80,
        ConversionTarget::Byte => 0x100,
        ConversionTarget::Int16 => 0x8000,
        ConversionTarget::UInt16 => 0x1_0000,
        ConversionTarget::Int32 => 0x8000_0000,
        ConversionTarget::UInt32 => 0x1_0000_0000,
        ConversionTarget::Int64 => 0x8000_0000_0000_0000,
        ConversionTarget::UInt64 => 0x1_0000_0000_0000_0000,
        ConversionTarget::IntPtr => isize::MAX as int + 1,
        ConversionTarget::UIntPtr => usize::MAX as int + 1,
    }
}

/// The name of each target as it appears in an overflow message.
pub open spec fn target_name(t: ConversionTarget) -> Seq<char> {
    match t {
        ConversionTarget::SByte => "SByte"@,
        ConversionTarget::Byte => "Byte"@,
        ConversionTarget::Int16 => "Int16"@,
        ConversionTarget::UInt16 => "UInt16"@,
        ConversionTarget::Int32 => "Int32"@,
        ConversionTarget::UInt32 => "UInt32"@,
        ConversionTarget::Int64 => "Int64"@,
        ConversionTarget::UInt64 => "UInt64"@,
        ConversionTarget::IntPtr => "IntPtr"@,
        ConversionTarget::UIntPtr => "UIntPtr"@,
    }
}

/// A signed number read as the unsigned number of the same bits.
pub open spec fn as_unsigned(n: int, modulus: int) -> int {
    if n < 0 { n + modulus } else { n }
}

/// An unsigned number read as the signed number of the same bits.
pub open spec fn as_signed(n: int, modulus: int) -> int {
    if n >= modulus / 2 { n - modulus } else { n }
}

/// The number a source value stands for, its bits read as unsigned when
/// `unsigned` is set; `None` for a value that is not an integer.
pub open spec fn source_number(v: ValueView, unsigned: bool) -> Option<int> {
    match v {
        ValueView::Int32(n) => Some(if unsigned { as_unsigned(n as int, 0x1_0000_0000) } else { n as int }),
        ValueView::Int64(n) => Some(
            if unsigned { as_unsigned(n as int, 0x1_0000_0000_0000_0000) } else { n as int },
        ),
        ValueView::IntPtr(n) => Some(
            if unsigned { as_unsigned(n as int, usize::MAX as int + 1) } else { n as int },
        ),
        ValueView::UIntPtr(n) => Some(
            if unsigned { n as int } else { as_signed(n as int, usize::MAX as int + 1) },
        ),
        _ => None,
    }
}

/// The value a number in range is stored as: the small targets widen to Int32
/// and the 64-bit ones to Int64, both keeping the bits of the number.
pub open spec fn converted(t: ConversionTarget, n: int) -> ValueView {
    match t {
        ConversionTarget::Int64 | ConversionTarget::UInt64 => ValueView::Int64(
            as_signed(n, 0x1_0000_0000_0000_0000) as i64,
        ),
        ConversionTarget::IntPtr => ValueView::IntPtr(n as isize),
        ConversionTarget::UIntPtr => ValueView::UIntPtr(n as usize),
        _ => ValueView::Int32(as_signed(n, 0x1_0000_0000) as i32),
    }
}

/// The message of an overflow to a target.
pub open spec fn overflow_message(t: ConversionTarget) -> Seq<char> {
    "checked conversion overflow to "@ + target_name(t)
}

fn target_text(t: ConversionTarget) -> (s: &'static str)
    ensures
        s@ == target_name(t),
{
    match t {
        ConversionTarget::SByte => "SByte",
        ConversionTarget::Byte => "Byte",
        ConversionTarget::Int16 => "Int16",
        ConversionTarget::UInt16 => "UInt16",
        ConversionTarget::Int32 => "Int32",
        ConversionTarget::UInt32 => "UInt32",
        ConversionTarget::Int64 => "Int64",
        ConversionTarget::UInt64 => "UInt64",
        ConversionTarget::IntPtr => "IntPtr",
        ConversionTarget::UIntPtr => "UIntPtr",
    }
}

fn overflow(t: ConversionTarget) -> (f: Fault)
    ensures
        f.message@ == overflow_message(t),
        f.function is None,
        f.instruction is None,
{
    let mut message = String::from_str("checked conversion overflow to ");
    push_str(&mut message, target_text(t));
    Fault::from_message(message)
}

fn bounds(t: ConversionTarget) -> (r: (i128, i128))
    ensures
        r.0 == target_lower(t),
        r.1 == target_upper(t),
{
    match t {
        ConversionTarget::SByte => (-0x80, 0x80),
        ConversionTarget::Byte => (0, 0x100),
        ConversionTarget::Int16 => (-0x8000, 0x8000),
        ConversionTarget::UInt16 => (0, 0x1_0000),
        ConversionTarget::Int32 => (-0x8000_0000, 0x8000_0000),
        ConversionTarget::UInt32 => (0, 0x1_0000_0000),
        ConversionTarget::Int64 => (-0x8000_0000_0000_0000, 0x8000_0000_0000_0000),
        ConversionTarget::UInt64 => (0, 0x1_0000_0000_0000_0000),
        ConversionTarget::IntPtr => (isize::MIN as i128, isize::MAX as i128 + 1),
        ConversionTarget::UIntPtr => (0, usize::MAX as i128 + 1),
    }
}

fn number_of(value: &Value, unsigned: bool) -> (r: Option<i128>)
    ensures
        match source_number(value@, unsigned) {
            Some(n) => r == Some(n as i128) && i128::MIN <= n <= i128::MAX,
            None => r is None,
        },
{
    match value {
        Value::Int32(n) => {
            if unsigned && *n < 0 {
                Some(*n as i128 + 0x1_0000_0000)
            } else {
                Some(*n as i128)
            }
        },
        Value::Int64(n) => {
            if unsigned && *n < 0 {
                Some(*n as i128 + 0x1_0000_0000_0000_0000)
            } else {
                Some(*n as i128)
            }
        },
        Value::IntPtr(n) => {
            if unsigned && *n < 0 {
                Some(*n as i128 + (usize::MAX as i128 + 1))
            } else {
                Some(*n as i128)
            }
        },
        Value::UIntPtr(n) => {
            if !unsigned && *n as i128 >= (usize::MAX as i128 + 1) / 2 {
                Some(*n as i128 - (usize::MAX as i128 + 1))
            } else {
                Some(*n as i128)
            }
        },
        _ => None,
    }
}

/// The ranges a checked conversion admits, as the target types define them:
/// a signed target of `w` bits takes exactly the numbers from -2^(w-1) up
/// to 2^(w-1) - 1, an unsigned one those from 0 up to 2^w - 1, and the
/// native ones those of `isize` and `usize`.
pub proof fn law_conversion_ranges(n: int)
    ensures
        target_lower(ConversionTarget::SByte) <= n < target_upper(ConversionTarget::SByte) <==> -128
            <= n < 128,
        target_lower(ConversionTarget::Byte) <= n < target_upper(ConversionTarget::Byte) <==> 0 <= n
            < 256,
        target_lower(ConversionTarget::Int16) <= n < target_upper(ConversionTarget::Int16) <==> -32768
            <= n < 32768,
        target_lower(ConversionTarget::UInt16) <= n < target_upper(ConversionTarget::UInt16) <==> 0
            <= n < 65536,
        target_lower(ConversionTarget::Int32) <= n < target_upper(ConversionTarget::Int32) <==> -2147483648
            <= n < 2147483648,
        target_lower(ConversionTarget::UInt32) <= n < target_upper(ConversionTarget::UInt32) <==> 0
            <= n < 4294967296,
        target_lower(ConversionTarget::Int64) <= n < target_upper(ConversionTarget::Int64)
            <==> -9223372036854775808 <= n < 9223372036854775808,
        target_lower(ConversionTarget::UInt64) <= n < target_upper(ConversionTarget::UInt64) <==> 0
            <= n < 18446744073709551616,
        target_lower(ConversionTarget::IntPtr) <= n < target_upper(ConversionTarget::IntPtr)
            <==> isize::MIN <= n <= isize::MAX,
        target_lower(ConversionTarget::UIntPtr) <= n < target_upper(ConversionTarget::UIntPtr) <==> 0
            <= n <= usize::MAX,
{
}

/// Converts an integer value to `target`, reading its bits as unsigned when
/// `source_unsigned` is set. A value outside the target's range is an
/// overflow fault; a value that is not an integer is refused.
pub fn convert(target: ConversionTarget, source_unsigned: bool, value: Value) -> (r: Result<
    Value,
    Fault,
>)
    ensures
        match source_number(value@, source_unsigned) {
            None => r matches Err(f) && f.message@ == "checked conversion requires numeric value"@,
            Some(n) => if target_lower(target) <= n < target_upper(target) {
                r matches Ok(v) && v@ == converted(target, n)
            } else {
                r matches Err(f) && f.message@ == overflow_message(target)
            },
        },
{
    let (lower, upper) = bounds(target);
    let number = match number_of(&value, source_unsigned) {
        Some(n) => n,
        None => return Err(Fault::new("checked conversion requires numeric value")),
    };
    if number < lower || number >= upper {
        return Err(overflow(target));
    }
    match target {
        ConversionTarget::Int64 | ConversionTarget::UInt64 => {
            if number >= 0x8000_0000_0000_0000 {
                Ok(Value::Int64((number - 0x1_0000_0000_0000_0000) as i64))
            } else {
                Ok(Value::Int64(number as i64))
            }
        },
        ConversionTarget::IntPtr => Ok(Value::IntPtr(number as isize)),
        ConversionTarget::UIntPtr => Ok(Value::UIntPtr(number as usize)),
        _ => {
            if number >= 0x8000_0000 {
                Ok(Value::Int32((number - 0x1_0000_0000) as i32))
            } else {
                Ok(Value::Int32(number as i32))
            }
        },
    }
}

} // verus!
