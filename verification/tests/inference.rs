use neoclr::inference::infer_parameters;
use neoclr::types::Type;

fn list(arguments: Vec<Type>) -> Type {
    Type::Constructed { definition: "List".to_string(), arguments }
}

const CONFLICT: &str = "conflicting inferred type arguments; supply explicit type arguments";

#[test]
fn a_method_type_parameter_takes_the_argument_type() {
    let mut found = vec![None, None];
    assert!(infer_parameters(&Type::MethodTypeParameter(1), &Type::Int32, &mut found).is_ok());
    assert_eq!(found, vec![None, Some(Type::Int32)]);
}

#[test]
fn the_same_type_twice_is_no_conflict() {
    let mut found = vec![Some(Type::String)];
    assert!(infer_parameters(&Type::MethodTypeParameter(0), &Type::String, &mut found).is_ok());
    assert_eq!(found, vec![Some(Type::String)]);
}

#[test]
fn another_type_for_a_bound_parameter_is_a_conflict() {
    let mut found = vec![Some(Type::String)];
    let e = infer_parameters(&Type::MethodTypeParameter(0), &Type::Int32, &mut found).unwrap_err();
    assert_eq!(e.message, CONFLICT);
    assert_eq!(found, vec![Some(Type::String)]);
}

#[test]
fn constructed_types_are_matched_argument_by_argument() {
    let mut found = vec![None, None];
    let formal = list(vec![Type::MethodTypeParameter(0), Type::MethodTypeParameter(1)]);
    let actual = list(vec![Type::Int32, Type::String]);
    assert!(infer_parameters(&formal, &actual, &mut found).is_ok());
    assert_eq!(found, vec![Some(Type::Int32), Some(Type::String)]);
}

#[test]
fn a_conflict_inside_a_constructed_type_keeps_what_came_before() {
    let mut found = vec![None];
    let formal = list(vec![Type::MethodTypeParameter(0), Type::MethodTypeParameter(0)]);
    let actual = list(vec![Type::Int32, Type::String]);
    assert_eq!(infer_parameters(&formal, &actual, &mut found).unwrap_err().message, CONFLICT);
    assert_eq!(found, vec![Some(Type::Int32)]);
}

#[test]
fn shapes_that_differ_infer_nothing() {
    let mut found = vec![None];
    let formal = list(vec![Type::MethodTypeParameter(0)]);
    let other = Type::Constructed { definition: "Set".to_string(), arguments: vec![Type::Int32] };
    assert!(infer_parameters(&formal, &other, &mut found).is_ok());
    assert!(infer_parameters(&formal, &list(vec![]), &mut found).is_ok());
    assert!(infer_parameters(&Type::Array(Box::new(Type::MethodTypeParameter(0))), &Type::Int32, &mut found).is_ok());
    assert_eq!(found, vec![None]);
}

#[test]
fn by_reference_kinds_match_each_other() {
    let mut found = vec![None];
    let formal = Type::ReadOnlyByRef(Box::new(Type::MethodTypeParameter(0)));
    assert!(infer_parameters(&formal, &Type::ByRef(Box::new(Type::Boolean)), &mut found).is_ok());
    assert_eq!(found, vec![Some(Type::Boolean)]);
    let mut arrays = vec![None];
    let formal = Type::Array(Box::new(Type::MethodTypeParameter(0)));
    assert!(infer_parameters(&formal, &Type::Array(Box::new(Type::Byte)), &mut arrays).is_ok());
    assert_eq!(arrays, vec![Some(Type::Byte)]);
}
