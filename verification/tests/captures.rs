use neoclr::captures::{captured, free};
use neoclr::frontend::Ty;
use neoclr::lexer::Token;
use neoclr::parser::{Field, Pattern};
use neoclr::tree::{Arm, ArmBody, Expr, ExprKind, Function, Stmt};

fn tok(text: &str, line: usize, column: usize) -> Token {
    Token { text: text.to_string(), line, column }
}

fn expr(kind: ExprKind) -> Expr {
    Expr { at: tok("", 0, 0), kind, depth: 1 }
}

fn name(text: &str) -> Expr {
    expr(ExprKind::Name(text.to_string()))
}

fn plus(a: Expr, b: Expr) -> Expr {
    expr(ExprKind::Binary("+".to_string(), Box::new(a), Box::new(b)))
}

fn lambda(parameters: Vec<Token>, body: ArmBody) -> Expr {
    expr(ExprKind::Lambda(parameters.into_iter().map(|t| (t, None)).collect(), Box::new(body)))
}

fn bind(name: Token, value: Expr) -> Stmt {
    Stmt::Bind { name, mutable: false, annotation: None, extent: None, value: Some(value) }
}

fn function(parameters: Vec<Token>, body: Vec<Stmt>) -> Function {
    Function {
        name: tok("f", 1, 6),
        generic_parameters: vec![],
        is_static: true,
        base_initializer: None,
        explicit_interface: None,
        is_virtual: false,
        is_override: false,
        is_abstract: false,
        receiver_readonly: false,
        parameters: parameters
            .into_iter()
            .map(|name| Field { name, ty: Ty::Int, output: false, readonly: false })
            .collect(),
        returns: Ty::Void,
        body,
    }
}

fn sorted<T: Ord>(mut v: Vec<T>) -> Vec<T> {
    v.sort();
    v
}

#[test]
fn lambdas_capture_outer_bindings_by_declaration() {
    let body = vec![
        bind(tok("y", 2, 5), expr(ExprKind::Int(1))),
        bind(
            tok("g", 3, 5),
            lambda(
                vec![tok("z", 3, 10)],
                ArmBody::Expression(plus(plus(plus(name("x"), name("y")), name("z")), plus(name("w"), name("this")))),
            ),
        ),
        Stmt::Expression(plus(name("x"), name("y"))),
    ];
    let f = function(vec![tok("x", 1, 8)], body);
    assert_eq!(sorted(captured(&f)), vec![(1, 6), (1, 8), (2, 5)]);
}

#[test]
fn shadowing_and_loop_variables_pick_the_innermost_binding() {
    let inner = lambda(
        vec![],
        ArmBody::Block(vec![
            bind(tok("x", 5, 9), name("x")),
            Stmt::Expression(name("x")),
            Stmt::For(
                tok("i", 6, 9),
                expr(ExprKind::Int(0)),
                name("i"),
                false,
                vec![Stmt::Expression(name("i"))],
            ),
        ]),
    );
    let f = function(
        vec![tok("x", 1, 8)],
        vec![
            Stmt::For(tok("i", 2, 9), expr(ExprKind::Int(0)), expr(ExprKind::Int(3)), true, vec![bind(tok("h", 3, 9), inner)]),
        ],
    );
    // The inner `let x = x` reads the parameter; its own `x` and the inner loop's `i` stay
    // inside the lambda, while the inner loop's end reads the outer loop's `i`.
    assert_eq!(sorted(captured(&f)), vec![(1, 8), (2, 9)]);
}

#[test]
fn match_payloads_bind_inside_their_arm() {
    let arms = vec![
        Arm {
            pattern: Pattern::Case(tok("Some", 2, 3), Some(Some(tok("v", 2, 8)))),
            body: ArmBody::Expression(plus(name("v"), name("k"))),
        },
        Arm { pattern: Pattern::Wildcard(tok("_", 3, 3)), body: ArmBody::Expression(name("v")) },
    ];
    let body = ArmBody::Expression(expr(ExprKind::Match(Box::new(name("o")), arms)));
    let names = free(&vec![(tok("o", 1, 2), None)], &body);
    assert_eq!(sorted(names), vec!["k".to_string(), "v".to_string()]);
}

#[test]
fn free_names_are_listed_once() {
    let call = expr(ExprKind::Call(
        Box::new(name("print")),
        vec![name("a"), name("b"), lambda(vec![tok("c", 1, 20)], ArmBody::Expression(name("c"))), name("b")],
    ));
    let names = free(&vec![(tok("a", 1, 2), Some(Ty::Int))], &ArmBody::Expression(call));
    assert_eq!(sorted(names), vec!["b".to_string(), "print".to_string()]);
    assert!(free(&vec![], &ArmBody::Block(vec![])).is_empty());
}
