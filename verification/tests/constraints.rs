use neoclr::assembler::parse_type;
use neoclr::constraints::{bounds, is_symbolic, parse, split_words, validate, ConstraintKind, GenericConstraint};
use neoclr::types::Type;

fn names(list: &[&str]) -> Vec<Option<String>> {
    list.iter().map(|n| Some(n.to_string())).collect()
}

fn constraint(parameter: u16, kind: ConstraintKind) -> GenericConstraint {
    GenericConstraint { parameter, kind }
}

#[test]
fn constraint_lines() {
    assert_eq!(parse("T notvoid", &names(&["T"])).unwrap(), vec![constraint(0, ConstraintKind::NotVoid)]);
    assert_eq!(
        parse("  1\tnotreference  IShape ", &names(&["T", "U"])).unwrap(),
        vec![
            constraint(1, ConstraintKind::NotReference),
            constraint(1, ConstraintKind::TypeBound(Type::Named("IShape".into()))),
        ]
    );
    assert_eq!(parse(" ", &names(&["T"])).unwrap_err().message, "constraint requires a parameter");
    assert_eq!(parse("X notvoid", &names(&["T"])).unwrap_err().message, "unknown constraint parameter");
    assert_eq!(parse("1 notvoid", &names(&["T"])).unwrap_err().message, "unknown constraint parameter");
    assert_eq!(parse("T", &names(&["T"])).unwrap_err().message, "constraint requires a restriction");
    assert_eq!(parse("T List<", &names(&["T"])).unwrap_err().message, "unclosed generic type");
    assert_eq!(
        parse("0 notvoid", &vec![None]).unwrap(),
        vec![constraint(0, ConstraintKind::NotVoid)]
    );
}

#[test]
fn words_split_at_any_whitespace() {
    let chars: Vec<char> = " a\u{2003}bc \n d ".chars().collect();
    let words: Vec<String> = split_words(&chars).iter().map(|w| w.iter().collect()).collect();
    assert_eq!(words, vec!["a", "bc", "d"]);
    assert!(split_words(&vec![]).is_empty());
}

#[test]
fn constraint_lists_are_checked() {
    assert!(validate(&vec![constraint(0, ConstraintKind::NotVoid), constraint(0, ConstraintKind::NotReference)], 1).is_ok());
    assert_eq!(
        validate(&vec![constraint(0, ConstraintKind::NotVoid), constraint(0, ConstraintKind::NotVoid)], 1)
            .unwrap_err()
            .message,
        "duplicate generic constraint"
    );
    assert_eq!(
        validate(&vec![constraint(1, ConstraintKind::NotVoid)], 1).unwrap_err().message,
        "generic constraint parameter outside declaring context"
    );
    let bound = |t: &str| constraint(0, ConstraintKind::TypeBound(parse_type(t).unwrap()));
    assert!(validate(&vec![bound("List<Int32>"), bound("List<String>")], 1).is_ok());
    assert!(validate(&vec![bound("List<Int32>"), bound("List<Int32>")], 1).is_err());
}

#[test]
fn symbolic_types_and_bounds() {
    assert!(is_symbolic(&parse_type("List<!0>").unwrap()));
    assert!(is_symbolic(&parse_type("[M]Map<Int32, !1*>").unwrap()));
    assert!(!is_symbolic(&parse_type("List<Int32>").unwrap()));
    assert!(!is_symbolic(&parse_type("Ref<!0>").unwrap()));
    assert!(is_symbolic(&Type::Array(Box::new(Type::MethodTypeParameter(0)))));
    let list = vec![
        constraint(0, ConstraintKind::NotVoid),
        constraint(0, ConstraintKind::TypeBound(Type::Named("IShape".into()))),
    ];
    assert_eq!(bounds(&list), vec![Type::Named("IShape".into())]);
}
