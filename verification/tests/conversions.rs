use neoclr::arrays::{check_replacement, index};
use neoclr::checked::{convert, ConversionTarget};
use neoclr::types::Type;
use neoclr::value::Value;

fn message<T: std::fmt::Debug>(r: Result<T, neoclr::Fault>) -> String {
    r.unwrap_err().message
}

#[test]
fn checked_conversion_keeps_values_in_range() {
    assert_eq!(convert(ConversionTarget::SByte, false, Value::Int32(127)).unwrap(), Value::Int32(127));
    assert_eq!(convert(ConversionTarget::SByte, false, Value::Int32(-128)).unwrap(), Value::Int32(-128));
    assert_eq!(convert(ConversionTarget::Byte, false, Value::Int64(255)).unwrap(), Value::Int32(255));
    assert_eq!(
        convert(ConversionTarget::UInt32, false, Value::Int64(4_294_967_295)).unwrap(),
        Value::Int32(-1)
    );
    assert_eq!(convert(ConversionTarget::UInt64, true, Value::Int64(-1)).unwrap(), Value::Int64(-1));
    assert_eq!(convert(ConversionTarget::Int64, false, Value::Int32(-5)).unwrap(), Value::Int64(-5));
    assert_eq!(convert(ConversionTarget::IntPtr, false, Value::UIntPtr(7)).unwrap(), Value::IntPtr(7));
    assert_eq!(convert(ConversionTarget::UIntPtr, true, Value::IntPtr(-1)).unwrap(), Value::UIntPtr(usize::MAX));
    assert_eq!(convert(ConversionTarget::UInt16, true, Value::Int32(65535)).unwrap(), Value::Int32(65535));
}

#[test]
fn checked_conversion_reports_overflow() {
    assert_eq!(
        message(convert(ConversionTarget::SByte, false, Value::Int32(128))),
        "checked conversion overflow to SByte"
    );
    assert_eq!(
        message(convert(ConversionTarget::Byte, false, Value::Int32(-1))),
        "checked conversion overflow to Byte"
    );
    assert_eq!(
        message(convert(ConversionTarget::Int32, true, Value::Int32(-1))),
        "checked conversion overflow to Int32"
    );
    assert_eq!(
        message(convert(ConversionTarget::UInt64, false, Value::Int64(-1))),
        "checked conversion overflow to UInt64"
    );
    assert_eq!(
        convert(ConversionTarget::IntPtr, false, Value::UIntPtr(usize::MAX)).unwrap(),
        Value::IntPtr(-1)
    );
    assert_eq!(
        message(convert(ConversionTarget::IntPtr, true, Value::UIntPtr(usize::MAX))),
        "checked conversion overflow to IntPtr"
    );
    assert_eq!(
        message(convert(ConversionTarget::Int16, false, Value::String("1".into()))),
        "checked conversion requires numeric value"
    );
}

#[test]
fn array_indices_accept_int32_and_native_integers() {
    assert_eq!(index(Value::Int32(3)).unwrap(), 3);
    assert_eq!(index(Value::IntPtr(0)).unwrap(), 0);
    assert_eq!(index(Value::UIntPtr(9)).unwrap(), 9);
    assert_eq!(message(index(Value::Int32(-1))), "array index out of range");
    assert_eq!(message(index(Value::IntPtr(-2))), "array index out of range");
    assert_eq!(
        message(index(Value::Int64(1))),
        "array index requires Int32 or native integer"
    );
}

fn array(elements: Vec<Value>) -> Value {
    Value::Array { element: Type::Int32, elements }
}

#[test]
fn replacement_keeps_array_shapes() {
    let old = array(vec![array(vec![Value::Int32(1)]), Value::Int32(2)]);
    let same = array(vec![array(vec![Value::Int32(5)]), Value::Boolean(true)]);
    assert!(check_replacement(&old, &same).is_ok());
    let shorter = array(vec![array(vec![Value::Int32(5)])]);
    assert_eq!(
        message(check_replacement(&old, &shorter)),
        "array replacement requires equal lengths"
    );
    let nested = array(vec![array(vec![]), Value::Int32(2)]);
    assert!(check_replacement(&old, &nested).is_err());
    let object = Value::Object { ty: Type::Named("P".into()), fields: vec![array(vec![Value::Int32(1)])] };
    let object_new = Value::Object { ty: Type::Named("P".into()), fields: vec![array(vec![])] };
    assert!(check_replacement(&object, &object_new).is_err());
    assert!(check_replacement(&Value::Int32(1), &array(vec![])).is_ok());
}
