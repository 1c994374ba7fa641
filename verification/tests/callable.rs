use neoclr::assembler::parse_callable;
use neoclr::types::Type;

#[test]
fn declarations_name_their_parameters_and_mark_out_ones() {
    let (target, names, outs) = parse_callable("Add(Int32 left, out Int32 right)", true).unwrap();
    assert_eq!(target.name, "Add");
    assert_eq!(target.parameters, vec![Type::Int32, Type::Int32]);
    assert_eq!(names, vec![Some("left".to_string()), Some("right".to_string())]);
    assert_eq!(outs, vec![1]);
    assert!(target.owner.is_none());
    assert!(!target.instance);
    assert!(target.definition.is_none());
}

#[test]
fn a_declared_parameter_may_be_a_bare_type() {
    let (target, names, outs) = parse_callable("Run(Int32)", true).unwrap();
    assert_eq!(target.parameters, vec![Type::Int32]);
    assert_eq!(names, vec![None]);
    assert!(outs.is_empty());
}

#[test]
fn an_owner_qualifies_the_declared_name() {
    let (target, names, _) = parse_callable("Point::Move(Int32 dx)", true).unwrap();
    assert_eq!(target.name, "Point.Move");
    assert_eq!(target.owner, Some(Type::Named("Point".to_string())));
    assert_eq!(names, vec![Some("dx".to_string())]);
}

#[test]
fn call_targets_carry_no_names() {
    let (target, names, outs) = parse_callable("Add(Int32, Int32)", false).unwrap();
    assert_eq!(target.parameters, vec![Type::Int32, Type::Int32]);
    assert_eq!(names, vec![None, None]);
    assert!(outs.is_empty());
}

#[test]
fn malformed_declarations_are_refused() {
    assert_eq!(parse_callable("Add(Int32 a", true).unwrap_err().message, "unclosed call signature");
    assert_eq!(parse_callable("Add(List<Int32 a)", true).unwrap_err().message, "unbalanced call parameter type");
    assert_eq!(parse_callable("Add(Int32 1x)", true).unwrap_err().message, "invalid parameter/local name");
    assert_eq!(parse_callable("F() @ M:1", true).unwrap_err().message, "unclosed call signature");
    assert_eq!(
        parse_callable("Add", true).unwrap_err().message,
        "call requires an explicit signature: Name(Type, ...) or Name()"
    );
}
