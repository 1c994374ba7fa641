//! The intrinsic Object contracts of boxed Int32, Int64 and Boolean values:
//! equality on full payloads, hashing and display text.
use crate::fault::Fault;
use crate::numbers::{push_signed_decimal, signed_decimal};
use crate::types::{Type, TypeView};
use crate::value::{Value, ValueView};
use vstd::prelude::*;
use vstd::string::StringExecFns;

verus! {

/// The payload of a boxed primitive.
#[derive(Debug, Clone, Copy, PartialEq, Eq, Structural)]
pub enum PrimitiveValue {
    Int32(i32),
    Int64(i64),
    Boolean(bool),
}

/// The hash of a payload: Int32 itself, Int64 folded by xor of its halves,
/// Boolean as 0 or 1.
pub open spec fn spec_hash(v: PrimitiveValue) -> i32 {
    match v {
        PrimitiveValue::Int32(n) => n,
        PrimitiveValue::Int64(n) => (n as i32) ^ ((n >> 32u64) as i32),
        PrimitiveValue::Boolean(b) => if b {
            1
        } else {
            0
        },
    }
}

/// The display text of a payload.
pub open spec fn spec_display(v: PrimitiveValue) -> Seq<char> {
    match v {
        PrimitiveValue::Int32(n) => signed_decimal(n as int),
        PrimitiveValue::Int64(n) => signed_decimal(n as int),
        PrimitiveValue::Boolean(b) => if b {
            "True"@
        } else {
            "False"@
        },
    }
}

impl PrimitiveValue {
    /// Equality on full payloads: a hash is never what is compared.
    pub fn equals(&self, other: &PrimitiveValue) -> (r: bool)
        ensures
            r == (*self == *other),
    {
        match (self, other) {
            (PrimitiveValue::Int32(a), PrimitiveValue::Int32(b)) => *a == *b,
            (PrimitiveValue::Int64(a), PrimitiveValue::Int64(b)) => *a == *b,
            (PrimitiveValue::Boolean(a), PrimitiveValue::Boolean(b)) => *a == *b,
            _ => false,
        }
    }

    /// The display text (see `spec_display`).
    pub fn display(&self) -> (r: Option<String>)
        ensures
            r matches Some(s) && s@ == spec_display(*self),
    {
        match *self {
            PrimitiveValue::Int32(n) => {
                let mut s = String::new();
                push_signed_decimal(&mut s, n as i64);
                assert(s@ =~= signed_decimal(n as int));
                Some(s)
            },
            PrimitiveValue::Int64(n) => {
                let mut s = String::new();
                push_signed_decimal(&mut s, n);
                assert(s@ =~= signed_decimal(n as int));
                Some(s)
            },
            PrimitiveValue::Boolean(b) => Some(
                if b {
                    String::from_str("True")
                } else {
                    String::from_str("False")
                },
            ),
        }
    }

    /// The hash (see `spec_hash`).
    pub fn hash(&self) -> (h: i32)
        ensures
            h == spec_hash(*self),
    {
        match *self {
            PrimitiveValue::Int32(n) => n,
            PrimitiveValue::Int64(n) => (n as i32) ^ ((n >> 32u64) as i32),
            PrimitiveValue::Boolean(b) => if b {
                1
            } else {
                0
            },
        }
    }
}

/// The payload of a boxed value of a concrete type, when the stored value
/// matches that type.
pub open spec fn spec_primitive(ty: TypeView, v: ValueView) -> Option<PrimitiveValue> {
    match (ty, v) {
        (TypeView::Int32, ValueView::Int32(n)) => Some(PrimitiveValue::Int32(n)),
        (TypeView::Int64, ValueView::Int64(n)) => Some(PrimitiveValue::Int64(n)),
        (TypeView::Boolean, ValueView::Boolean(b)) => Some(PrimitiveValue::Boolean(b)),
        _ => None,
    }
}

/// Reads the payload of a boxed primitive.
pub fn primitive_value(ty: &Type, value: &Value) -> (r: Result<PrimitiveValue, Fault>)
    ensures
        match spec_primitive(ty@, value@) {
            Some(p) => r == Ok::<PrimitiveValue, Fault>(p),
            None => r matches Err(f) && f.message@ == "boxed primitive has an invalid payload"@,
        },
{
    match (ty, value) {
        (Type::Int32, Value::Int32(n)) => Ok(PrimitiveValue::Int32(*n)),
        (Type::Int64, Value::Int64(n)) => Ok(PrimitiveValue::Int64(*n)),
        (Type::Boolean, Value::Boolean(b)) => Ok(PrimitiveValue::Boolean(*b)),
        _ => Err(Fault::new("boxed primitive has an invalid payload")),
    }
}

/// Equal payloads hash alike, so hashing agrees with equality.
pub proof fn law_equal_payloads_hash_alike(a: PrimitiveValue, b: PrimitiveValue)
    requires
        a == b,
    ensures
        spec_hash(a) == spec_hash(b),
{
}

} // verus!
