use neoclr::boxed_values::{primitive_value, PrimitiveValue};
use neoclr::types::Type;
use neoclr::value::Value;

#[test]
fn integral_object_contracts() {
    let a = PrimitiveValue::Int64(0x1_0000_0002);
    assert_eq!(a.hash(), 3);
    assert_eq!(PrimitiveValue::Int64(-1).hash(), 0);
    assert_eq!(PrimitiveValue::Int32(-7).hash(), -7);
    assert_eq!(PrimitiveValue::Boolean(true).hash(), 1);
    assert_eq!(PrimitiveValue::Boolean(false).hash(), 0);
    assert!(a.equals(&PrimitiveValue::Int64(0x1_0000_0002)));
    assert!(!PrimitiveValue::Int64(3).equals(&PrimitiveValue::Int64(0x1_0000_0002)));
    assert!(!PrimitiveValue::Int32(1).equals(&PrimitiveValue::Boolean(true)));
    assert_eq!(PrimitiveValue::Int32(-42).display().unwrap(), "-42");
    assert_eq!(PrimitiveValue::Int64(i64::MIN).display().unwrap(), "-9223372036854775808");
    assert_eq!(PrimitiveValue::Boolean(true).display().unwrap(), "True");
    assert_eq!(PrimitiveValue::Boolean(false).display().unwrap(), "False");
}

#[test]
fn payloads_must_match_their_boxed_type() {
    assert_eq!(primitive_value(&Type::Int32, &Value::Int32(5)).unwrap(), PrimitiveValue::Int32(5));
    assert_eq!(primitive_value(&Type::Boolean, &Value::Boolean(true)).unwrap(), PrimitiveValue::Boolean(true));
    assert_eq!(
        primitive_value(&Type::Int64, &Value::Int32(5)).unwrap_err().message,
        "boxed primitive has an invalid payload"
    );
}
