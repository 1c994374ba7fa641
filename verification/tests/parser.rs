use neoclr::constraints::{ConstraintKind, GenericConstraint};
use neoclr::frontend::Ty;
use neoclr::parser::{Parser, Pattern};
use neoclr::types::Type;

fn parser(source: &str) -> Parser {
    Parser::new(source).unwrap()
}

fn boxed(t: Ty) -> Box<Ty> {
    Box::new(t)
}

#[test]
fn type_annotations_parse_with_suffixes() {
    let mut p = parser("Int32[]& x");
    assert_eq!(p.ty().unwrap(), Ty::Ref(boxed(Ty::Array(boxed(Ty::Int)))));
    assert_eq!(p.current().text, "x");
    let mut p = parser("()[]");
    assert_eq!(p.ty().unwrap(), Ty::Array(boxed(Ty::Void)));
    assert_eq!(p.current().text, "");
    let mut p = parser("readonly String&");
    assert_eq!(p.ty().unwrap(), Ty::ReadOnlyRef(boxed(Ty::String)));
}

#[test]
fn source_names_alias_metadata_names() {
    assert_eq!(parser("bool").ty().unwrap(), Ty::Bool);
    assert_eq!(parser("unit").ty().unwrap(), Ty::Void);
    assert_eq!(parser("Company.Shapes.Circle").ty().unwrap(), Ty::Record("Company.Shapes.Circle".to_string()));
    assert_eq!(
        parser("Option<Int32, Result<bool, String[]>>").ty().unwrap(),
        Ty::Record("System.Option<Int32,System.Result<Boolean,String[]>>".to_string())
    );
}

#[test]
fn refused_type_annotations_say_why() {
    let mut p = parser("readonly Int32 x");
    assert_eq!(
        p.ty().unwrap_err().message,
        "source 1:16: readonly type requires a managed reference"
    );
    assert_eq!(p.position, 0);
    assert_eq!(parser("func").ty().unwrap_err().message, "source 1:1: keyword cannot be used as a name");
    assert_eq!(parser("42").ty().unwrap_err().message, "source 1:1: expected a name");
    assert_eq!(parser("byte").ty().unwrap_err().message, "unsupported source type");
    assert_eq!(
        parser("Option<Int32 String").ty().unwrap_err().message,
        "source 1:14: expected \">\", found \"String\""
    );
    assert_eq!(parser("(]").ty().unwrap_err().message, "source 1:2: expected \")\", found \"]\"");
}

#[test]
fn type_nesting_is_limited() {
    let deep = format!("{}Int32{}", "Option<".repeat(31), ">".repeat(31));
    assert!(parser(&deep).ty().is_ok());
    let deeper = format!("{}Int32{}", "Option<".repeat(32), ">".repeat(32));
    assert!(parser(&deeper).ty().unwrap_err().message.ends_with("type nesting limit exceeded"));
    let arrays = format!("Int32{}", "[]".repeat(32));
    assert!(parser(&arrays).ty().unwrap_err().message.ends_with("type nesting limit exceeded"));
    let arrays = format!("Int32{}", "[]".repeat(31));
    assert!(parser(&arrays).ty().is_ok());
}

#[test]
fn cursor_takes_eats_and_skips() {
    let mut p = parser("\n\n; let x\n");
    p.newlines();
    assert_eq!(p.current().text, ";");
    p.lines();
    assert!(p.at("let"));
    assert!(!p.eat("var"));
    assert!(p.eat("let"));
    assert_eq!(p.name().unwrap().text, "x");
    assert_eq!(p.expect(";").unwrap_err().message, "source 3:8: expected \";\", found \"\\n\"");
    assert_eq!(p.expect("\n").unwrap().line, 3);
    let end = p.take();
    assert_eq!(end.text, "");
    assert_eq!(p.take().text, "");
    let mut q = parser("let");
    assert_eq!(q.name().unwrap_err().message, "source 1:1: keyword cannot be used as a name");
    assert_eq!(q.current().text, "");
}

#[test]
fn parameter_lists_parse_with_modifiers() {
    let mut p = parser("(a: Int32, readonly b: String&,\n out c: Int32&) -> Void");
    let fields = p.fields(true).unwrap();
    assert_eq!(fields.len(), 3);
    assert_eq!(fields[0].name.text, "a");
    assert_eq!(fields[0].ty, Ty::Int);
    assert!(!fields[0].readonly && !fields[0].output);
    assert_eq!(fields[1].name.text, "b");
    assert_eq!(fields[1].ty, Ty::Ref(boxed(Ty::String)));
    assert!(fields[1].readonly && !fields[1].output);
    assert_eq!((fields[2].name.line, fields[2].name.column), (2, 6));
    assert!(!fields[2].readonly && fields[2].output);
    assert_eq!(p.current().text, "->");
    assert!(parser("()").fields(false).unwrap().is_empty());
    assert!(parser("(\n\n)").fields(true).unwrap().is_empty());
}

#[test]
fn parameter_lists_refuse_bad_entries() {
    let message = |source: &str, parameters: bool| parser(source).fields(parameters).unwrap_err().message;
    assert_eq!(message("(a: Int32, a: String)", true), "source 1:12: duplicate parameter or field");
    assert_eq!(message("(out c: Int32)", true), "source 1:6: out parameter requires a managed reference type");
    assert_eq!(
        message("(readonly b: Int32)", true),
        "source 1:11: readonly parameter requires a managed input reference"
    );
    assert_eq!(
        message("(readonly out c: Int32&)", true),
        "source 1:15: readonly parameter requires a managed input reference"
    );
    assert_eq!(message("(readonly: Int32)", false), "source 1:2: keyword cannot be used as a name");
    assert_eq!(message("(a Int32)", false), "source 1:4: expected \":\", found \"Int32\"");
    assert_eq!(message("(a: Int32 b: Int32)", false), "source 1:11: expected \")\", found \"b\"");
    assert_eq!(message("a: Int32)", false), "source 1:1: expected \"(\", found \"a\"");
}

#[test]
fn statements_end_at_breaks_or_braces() {
    let mut p = parser("; \n ;y");
    assert!(p.end_statement().is_ok());
    assert_eq!(p.current().text, "y");
    assert_eq!(p.end_statement().unwrap_err().message, "source 2:3: expected newline or semicolon");
    let mut p = parser("}");
    assert!(p.end_statement().is_ok());
    assert_eq!(p.current().text, "}");
    assert!(parser("").end_statement().is_ok());
}

#[test]
fn conditional_patterns_bind_payloads() {
    match parser("Some(value) =>").conditional_pattern().unwrap() {
        Pattern::Case(case, Some(Some(binding))) => {
            assert_eq!(case.text, "Some");
            assert_eq!(binding.text, "value");
        }
        _ => panic!("expected a bound payload"),
    }
    assert!(matches!(parser("Some(_)").conditional_pattern().unwrap(), Pattern::Case(_, Some(None))));
    assert!(matches!(parser("None").conditional_pattern().unwrap(), Pattern::Case(_, None)));
    assert_eq!(
        parser("Some(value").conditional_pattern().unwrap_err().message,
        "source 1:11: expected \")\", found \"\""
    );
}

#[test]
fn where_clauses_parse_into_constraints() {
    let parameters = vec!["T".to_string(), "U".to_string()];
    let mut p = parser("where T: notvoid, IShape\nwhere U: notreference\n{");
    let constraints = p.constraints(&parameters).unwrap();
    assert_eq!(
        constraints,
        vec![
            GenericConstraint { parameter: 0, kind: ConstraintKind::NotVoid },
            GenericConstraint { parameter: 0, kind: ConstraintKind::TypeBound(Type::Named("IShape".into())) },
            GenericConstraint { parameter: 1, kind: ConstraintKind::NotReference },
        ]
    );
    assert_eq!(p.current().text, "\n");
    let mut q = parser("\n{");
    assert!(q.constraints(&parameters).unwrap().is_empty());
    assert_eq!(q.position, 0);
    assert_eq!(
        parser("where T: notvoid, notvoid").constraints(&parameters).unwrap_err().message,
        "source 1:26: duplicate generic constraint"
    );
    assert_eq!(
        parser("where X: notvoid").constraints(&parameters).unwrap_err().message,
        "source 1:7: unknown constraint parameter"
    );
}
