use neoclr::frontend::Ty;
use neoclr::parser::{Parser, Pattern};
use neoclr::tree::{ArmBody, Expr, ExprKind, Stmt};

fn parser(source: &str) -> Parser {
    Parser::new(source).unwrap()
}

fn ty(t: &Ty) -> String {
    format!("{:?}", t)
}

/// A compact rendering of an expression tree.
fn show(e: &Expr) -> String {
    match &e.kind {
        ExprKind::Lambda(params, body) => {
            let names: Vec<String> = params.iter().map(|(t, _)| t.text.clone()).collect();
            let body = match &**body {
                ArmBody::Expression(x) => show(x),
                ArmBody::Block(stmts) => format!("{{{}}}", stmts.len()),
            };
            format!("(fn [{}] {})", names.join(" "), body)
        }
        ExprKind::Int(n) => n.to_string(),
        ExprKind::String(s) => format!("{:?}", s),
        ExprKind::Bool(b) => b.to_string(),
        ExprKind::Name(n) => n.clone(),
        ExprKind::Field(x, t) => format!("{}.{}", show(x), t.text),
        ExprKind::Call(f, args) => {
            let args: Vec<String> = args.iter().map(show).collect();
            format!("{}({})", show(f), args.join(", "))
        }
        ExprKind::Unary(op, x) => format!("({}{})", op, show(x)),
        ExprKind::Binary(op, a, b) => format!("({} {} {})", show(a), op, show(b)),
        ExprKind::Match(x, arms) => format!("(match {} {})", show(x), arms.len()),
        ExprKind::TypeOf(t) => format!("typeof({})", ty(t)),
        ExprKind::Default(t) => format!("default({})", ty(t)),
        ExprKind::Generic(x, tys) => format!("{}<{}>", show(x), tys.len()),
        ExprKind::Out(x) => format!("(out {})", show(x)),
        ExprKind::InterfaceCast(x, t) => format!("({} as {})", show(x), ty(t)),
        ExprKind::ArrayLiteral(items) => {
            let items: Vec<String> = items.iter().map(show).collect();
            format!("[{}]", items.join(", "))
        }
        ExprKind::NewArray(t, n, items) => {
            format!("(new {}[{}] {})", ty(t), show(n), items.len())
        }
        ExprKind::Index(a, b) => format!("{}[{}]", show(a), show(b)),
    }
}

fn expression(source: &str) -> String {
    show(&parser(source).expression(0).unwrap())
}

fn expression_error(source: &str) -> String {
    parser(source).expression(0).unwrap_err().message
}

#[test]
fn multiplication_binds_tighter_than_addition() {
    assert_eq!(expression("1 + 2 * 3"), "(1 + (2 * 3))");
    assert_eq!(expression("1 * 2 + 3"), "((1 * 2) + 3)");
    assert_eq!(expression("a == b && c < d || e"), "(((a == b) && (c < d)) || e)");
}

#[test]
fn operators_of_equal_power_group_to_the_left() {
    assert_eq!(expression("10 - 4 - 3"), "((10 - 4) - 3)");
    assert_eq!(expression("8 / 2 / 2"), "((8 / 2) / 2)");
}

#[test]
fn parentheses_override_precedence() {
    assert_eq!(expression("(1 + 2) * 3"), "((1 + 2) * 3)");
}

#[test]
fn literals_of_each_kind() {
    assert_eq!(expression("42"), "42");
    assert_eq!(expression("-2147483648"), "-2147483648");
    assert_eq!(expression("true"), "true");
    assert_eq!(expression("false"), "false");
    assert_eq!(expression("\"a\\nb\""), "\"a\\nb\"");
}

#[test]
fn a_string_literal_is_decoded() {
    let e = parser("\"tab\\there\"").expression(0).unwrap();
    match e.kind {
        ExprKind::String(s) => assert_eq!(s, "tab\there"),
        other => panic!("unexpected {:?}", other),
    }
}

#[test]
fn integers_outside_int32_are_refused() {
    assert_eq!(
        expression_error("2147483648"),
        "source 1:1: integer literal is outside Int32 range"
    );
}

#[test]
fn prefix_operators_and_out() {
    assert_eq!(expression("!done"), "(!done)");
    assert_eq!(expression("-x * 2"), "((-x) * 2)");
    assert_eq!(expression("out value"), "(out value)");
}

#[test]
fn calls_fields_and_indexing_chain() {
    assert_eq!(expression("a.b(1, 2)[3]"), "a.b(1, 2)[3]");
    assert_eq!(expression("f()"), "f()");
}

#[test]
fn lambdas_with_and_without_parentheses() {
    assert_eq!(expression("x => x + 1"), "(fn [x] (x + 1))");
    assert_eq!(expression("(a, b) => a * b"), "(fn [a b] (a * b))");
    assert_eq!(expression("() => 0"), "(fn [] 0)");
    assert_eq!(expression("x => { return x }"), "(fn [x] {1})");
}

#[test]
fn a_parameter_named_twice_is_not_a_lambda() {
    assert!(parser("(a, a) => a").expression(0).is_err());
}

#[test]
fn array_literals_and_new_arrays() {
    assert_eq!(expression("[1, 2, 3]"), "[1, 2, 3]");
    assert_eq!(expression("new Int32[2]"), "(new Int[2] 0)");
}

#[test]
fn type_operands() {
    assert_eq!(expression("typeof(String)"), "typeof(String)");
    assert_eq!(expression("default(Int32)"), "default(Int)");
}

#[test]
fn explicit_generic_arguments_before_a_call() {
    assert_eq!(expression("make<Int32>(1)"), "make<1>(1)");
    assert_eq!(expression("a < b"), "(a < b)");
}

#[test]
fn match_expressions_collect_their_arms() {
    let e = parser("x match {\n A => 1,\n B(let y) => y\n _ => 0\n}").expression(0).unwrap();
    match e.kind {
        ExprKind::Match(_, arms) => {
            assert_eq!(arms.len(), 3);
            assert!(matches!(&arms[0].pattern, Pattern::Case(t, None) if t.text == "A"));
            assert!(
                matches!(&arms[1].pattern, Pattern::Case(t, Some(Some(b))) if t.text == "B" && b.text == "y")
            );
            assert!(matches!(&arms[2].pattern, Pattern::Wildcard(_)));
        }
        other => panic!("unexpected {:?}", other),
    }
}

#[test]
fn a_missing_operand_is_reported_where_it_was_expected() {
    assert_eq!(expression_error("1 + )"), "source 1:5: expected expression");
}

#[test]
fn expressions_nest_at_most_thirty_two_deep() {
    let deep = format!("{}1{}", "(".repeat(40), ")".repeat(40));
    assert!(expression_error(&deep).ends_with("expression nesting limit exceeded"));
    let shallow = format!("{}1{}", "(".repeat(10), ")".repeat(10));
    assert_eq!(expression(&shallow), "1");
}

#[test]
fn statements_of_each_kind() {
    let mut p = parser("let x: Int32 = 1\nvar y = 2\nx = y\nreturn x\n");
    match p.statement().unwrap() {
        Stmt::Bind { name, mutable, annotation, value, .. } => {
            assert_eq!(name.text, "x");
            assert!(!mutable);
            assert_eq!(annotation, Some(Ty::Int));
            assert_eq!(show(&value.unwrap()), "1");
        }
        other => panic!("unexpected {:?}", other),
    }
    p.lines();
    assert!(matches!(p.statement().unwrap(), Stmt::Bind { mutable: true, .. }));
    p.lines();
    match p.statement().unwrap() {
        Stmt::Assign(a, b) => assert_eq!((show(&a), show(&b)), ("x".to_string(), "y".to_string())),
        other => panic!("unexpected {:?}", other),
    }
    p.lines();
    assert!(matches!(p.statement().unwrap(), Stmt::Return(_, Some(_))));
}

#[test]
fn blocks_hold_control_flow() {
    let mut p = parser("{\n if a { b() } else { c() }\n while x { break }\n loop { continue }\n}");
    let stmts = p.block().unwrap();
    assert_eq!(stmts.len(), 3);
    assert!(matches!(&stmts[0], Stmt::If(_, yes, no) if yes.len() == 1 && no.len() == 1));
    assert!(matches!(&stmts[1], Stmt::While(_, body) if matches!(body[0], Stmt::Break(_))));
    assert!(matches!(&stmts[2], Stmt::Loop(_, body) if matches!(body[0], Stmt::Continue(_))));
    assert_eq!(p.current().text, "");
}

#[test]
fn a_statement_needs_an_end() {
    let f = parser("x = 1 y").statement().unwrap_err();
    assert!(f.message.starts_with("source 1:7:"));
}

#[test]
fn a_match_with_block_arms_ends_its_own_statement() {
    let mut p = parser("{ x match { A => { f() } } g() }");
    let stmts = p.block().unwrap();
    assert_eq!(stmts.len(), 2);
}
