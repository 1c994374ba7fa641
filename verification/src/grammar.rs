//! The front end's expressions and statements: the mathematical values of
//! their syntax trees, and the grammar that reads them from tokens.
use crate::frontend::{il, Ty, TyView};
use crate::lexer::{positioned, token_view, Token};
use crate::metadata::valid_slot_name;
use crate::numbers::{all_digits, digits_value, parse_unsigned};
use crate::parser::{
    advance, error_at, pattern_view, skip_lines, skip_newlines, spec_end_statement, spec_expect,
    spec_name, spec_ty, PatternView, TokenView,
};
use crate::tree::{Arm, ArmBody, Expr, ExprKind, Stmt};
use vstd::prelude::*;

verus! {

pub ghost enum ExprKindView {
    Lambda(Seq<(TokenView, Option<TyView>)>, Box<ArmBodyView>),
    Int(i32),
    String(Seq<char>),
    Bool(bool),
    Name(Seq<char>),
    Field(Box<ExprView>, TokenView),
    Call(Box<ExprView>, Seq<ExprView>),
    Unary(Seq<char>, Box<ExprView>),
    Binary(Seq<char>, Box<ExprView>, Box<ExprView>),
    Match(Box<ExprView>, Seq<ArmView>),
    TypeOf(TyView),
    Default(TyView),
    Generic(Box<ExprView>, Seq<TyView>),
    Out(Box<ExprView>),
    InterfaceCast(Box<ExprView>, TyView),
    ArrayLiteral(Seq<ExprView>),
    NewArray(TyView, Box<ExprView>, Seq<ExprView>),
    Index(Box<ExprView>, Box<ExprView>),
}

/// The mathematical value of an expression.
pub ghost struct ExprView {
    pub at: TokenView,
    pub kind: ExprKindView,
    pub depth: int,
}

pub ghost struct ArmView {
    pub pattern: PatternView,
    pub body: ArmBodyView,
}

pub ghost enum ArmBodyView {
    Expression(ExprView),
    Block(Seq<StmtView>),
}

pub ghost enum StmtView {
    Bind {
        name: TokenView,
        mutable: bool,
        annotation: Option<TyView>,
        extent: Option<i32>,
        value: Option<ExprView>,
    },
    Assign(ExprView, ExprView),
    Return(TokenView, Option<ExprView>),
    Expression(ExprView),
    If(ExprView, Seq<StmtView>, Seq<StmtView>),
    While(ExprView, Seq<StmtView>),
    Loop(TokenView, Seq<StmtView>),
    For(TokenView, ExprView, ExprView, bool, Seq<StmtView>),
    Break(TokenView),
    Continue(TokenView),
}

pub open spec fn params_view(ps: Seq<(Token, Option<Ty>)>) -> Seq<(TokenView, Option<TyView>)> {
    Seq::new(
        ps.len(),
        |i: int|
            (
                token_view(ps[i].0),
                match ps[i].1 {
                    Some(t) => Some(t@),
                    None => None,
                },
            ),
    )
}

pub open spec fn tys_view(v: Seq<Ty>) -> Seq<TyView> {
    Seq::new(v.len(), |i: int| v[i]@)
}

pub open spec fn expr_view(e: Expr) -> ExprView
    decreases e, 0int,
{
    ExprView { at: token_view(e.at), kind: kind_view(e.kind), depth: e.depth as int }
}

pub open spec fn kind_view(k: ExprKind) -> ExprKindView
    decreases k, 0int,
{
    match k {
        ExprKind::Lambda(ps, body) => ExprKindView::Lambda(params_view(ps@), Box::new(body_view(*body))),
        ExprKind::Int(n) => ExprKindView::Int(n),
        ExprKind::String(s) => ExprKindView::String(s@),
        ExprKind::Bool(b) => ExprKindView::Bool(b),
        ExprKind::Name(n) => ExprKindView::Name(n@),
        ExprKind::Field(e, t) => ExprKindView::Field(Box::new(expr_view(*e)), token_view(t)),
        ExprKind::Call(e, args) => ExprKindView::Call(
            Box::new(expr_view(*e)),
            exprs_view(args@),
        ),
        ExprKind::Unary(op, e) => ExprKindView::Unary(op@, Box::new(expr_view(*e))),
        ExprKind::Binary(op, a, b) => ExprKindView::Binary(
            op@,
            Box::new(expr_view(*a)),
            Box::new(expr_view(*b)),
        ),
        ExprKind::Match(e, arms) => ExprKindView::Match(
            Box::new(expr_view(*e)),
            arms_view(arms@),
        ),
        ExprKind::TypeOf(t) => ExprKindView::TypeOf(t@),
        ExprKind::Default(t) => ExprKindView::Default(t@),
        ExprKind::Generic(e, tys) => ExprKindView::Generic(Box::new(expr_view(*e)), tys_view(tys@)),
        ExprKind::Out(e) => ExprKindView::Out(Box::new(expr_view(*e))),
        ExprKind::InterfaceCast(e, t) => ExprKindView::InterfaceCast(Box::new(expr_view(*e)), t@),
        ExprKind::ArrayLiteral(items) => ExprKindView::ArrayLiteral(
            exprs_view(items@),
        ),
        ExprKind::NewArray(t, n, items) => ExprKindView::NewArray(
            t@,
            Box::new(expr_view(*n)),
            exprs_view(items@),
        ),
        ExprKind::Index(a, b) => ExprKindView::Index(Box::new(expr_view(*a)), Box::new(expr_view(*b))),
    }
}

/// The views of a list of expressions.
pub open spec fn exprs_view(v: Seq<Expr>) -> Seq<ExprView>
    decreases v, 0int,
{
    Seq::new(
        v.len(),
        |i: int|
            if 0 <= i < v.len() {
                expr_view(v[i])
            } else {
                arbitrary()
            },
    )
}

pub open spec fn arms_view(v: Seq<Arm>) -> Seq<ArmView>
    decreases v, 0int,
{
    Seq::new(
        v.len(),
        |i: int|
            if 0 <= i < v.len() {
                ArmView { pattern: pattern_view(v[i].pattern), body: body_view(v[i].body) }
            } else {
                arbitrary()
            },
    )
}

pub open spec fn body_view(b: ArmBody) -> ArmBodyView
    decreases b, 0int,
{
    match b {
        ArmBody::Expression(e) => ArmBodyView::Expression(expr_view(e)),
        ArmBody::Block(s) => ArmBodyView::Block(stmts_view(s@)),
    }
}

pub open spec fn stmts_view(v: Seq<Stmt>) -> Seq<StmtView>
    decreases v, 0int,
{
    Seq::new(
        v.len(),
        |i: int|
            if 0 <= i < v.len() {
                stmt_view(v[i])
            } else {
                arbitrary()
            },
    )
}

pub open spec fn option_view(o: Option<Expr>) -> Option<ExprView>
    decreases o, 0int,
{
    match o {
        Some(e) => Some(expr_view(e)),
        None => None,
    }
}

pub open spec fn stmt_view(s: Stmt) -> StmtView
    decreases s, 0int,
{
    match s {
        Stmt::Bind { name, mutable, annotation, extent, value } => StmtView::Bind {
            name: token_view(name),
            mutable,
            annotation: match annotation {
                Some(t) => Some(t@),
                None => None,
            },
            extent,
            value: option_view(value),
        },
        Stmt::Assign(a, b) => StmtView::Assign(expr_view(a), expr_view(b)),
        Stmt::Return(t, v) => StmtView::Return(token_view(t), option_view(v)),
        Stmt::Expression(e) => StmtView::Expression(expr_view(e)),
        Stmt::If(c, yes, no) => StmtView::If(
            expr_view(c),
            stmts_view(yes@),
            stmts_view(no@),
        ),
        Stmt::While(c, body) => StmtView::While(expr_view(c), stmts_view(body@)),
        Stmt::Loop(t, body) => StmtView::Loop(token_view(t), stmts_view(body@)),
        Stmt::For(t, a, b, inclusive, body) => StmtView::For(
            token_view(t),
            expr_view(a),
            expr_view(b),
            inclusive,
            stmts_view(body@),
        ),
        Stmt::Break(t) => StmtView::Break(token_view(t)),
        Stmt::Continue(t) => StmtView::Continue(token_view(t)),
    }
}

impl View for Expr {
    type V = ExprView;

    open spec fn view(&self) -> ExprView {
        expr_view(*self)
    }
}


/// An expression node, refused when nested deeper than 128.
pub open spec fn node(at: TokenView, kind: ExprKindView, depth: int) -> Result<ExprView, Seq<char>> {
    if depth > 128 {
        Err(positioned(at.1, at.2, "expression nesting limit exceeded"@))
    } else {
        Ok(ExprView { at, kind, depth })
    }
}

pub open spec fn larger(a: int, b: int) -> int {
    if a >= b {
        a
    } else {
        b
    }
}

/// The greatest depth among expressions, zero for none.
pub open spec fn deepest(es: Seq<ExprView>) -> int
    decreases es.len(),
{
    if es.len() == 0 {
        0
    } else {
        larger(deepest(es.drop_last()), es.last().depth)
    }
}

/// Whether a text starts with an ASCII digit.
pub open spec fn starts_with_digit(s: Seq<char>) -> bool {
    s.len() > 0 && '0' <= s[0] <= '9'
}

/// How `i32::from_str` reads a text.
pub open spec fn parse_i32(s: Seq<char>) -> Option<i32> {
    if s.len() > 0 && s[0] == '-' {
        let digits = s.drop_first();
        if digits.len() > 0 && all_digits(digits) && digits_value(digits) <= 0x8000_0000 {
            Some((-(digits_value(digits) as int)) as i32)
        } else {
            None
        }
    } else {
        match parse_unsigned(s, 0x8000_0000) {
            Some(v) => Some(v as i32),
            None => None,
        }
    }
}

/// The value of a JSON string literal, as `serde_json` reads it into a
/// `String`.
pub uninterp spec fn json_string(text: Seq<char>) -> Option<Seq<char>>;

/// Reads a JSON string literal with `serde_json::from_str`; the contract
/// only names the outcome.
#[verifier::external_body]
pub(crate) fn decode_string(text: &str) -> (r: Option<String>)
    ensures
        match r {
            Some(s) => json_string(text@) == Some(s@),
            None => json_string(text@) is None,
        },
{
    serde_json::from_str::<String>(text).ok()
}

/// The binding power of a binary operator.
pub open spec fn binding_power(t: Seq<char>) -> Option<u8> {
    if t == "||"@ {
        Some(1)
    } else if t == "&&"@ {
        Some(2)
    } else if t == "=="@ || t == "!="@ {
        Some(3)
    } else if t == "<"@ || t == ">"@ || t == "<="@ || t == ">="@ {
        Some(4)
    } else if t == "+"@ || t == "-"@ {
        Some(10)
    } else if t == "*"@ || t == "/"@ {
        Some(20)
    } else {
        None
    }
}

/// The operator table: `||` binds loosest (1), then `&&` (2), the
/// equalities `==` and `!=` (3), the comparisons `<`, `>`, `<=` and `>=` (4),
/// the additive `+` and `-` (10), and the multiplicative `*` and `/` (20),
/// so that division and multiplication bind tighter than addition and
/// subtraction; any other token is no binary operator.
pub proof fn law_binding_powers(t: Seq<char>)
    ensures
        binding_power(seq!['|', '|']) == Some(1u8),
        binding_power(seq!['&', '&']) == Some(2u8),
        binding_power(seq!['=', '=']) == Some(3u8),
        binding_power(seq!['!', '=']) == Some(3u8),
        binding_power(seq!['<']) == Some(4u8),
        binding_power(seq!['>']) == Some(4u8),
        binding_power(seq!['<', '=']) == Some(4u8),
        binding_power(seq!['>', '=']) == Some(4u8),
        binding_power(seq!['+']) == Some(10u8),
        binding_power(seq!['-']) == Some(10u8),
        binding_power(seq!['*']) == Some(20u8),
        binding_power(seq!['/']) == Some(20u8),
        binding_power(seq!['/']) == binding_power(seq!['*']),
        binding_power(seq!['+']) == binding_power(seq!['-']),
        binding_power(seq!['*'])->Some_0 > binding_power(seq!['+'])->Some_0,
        binding_power(t) is Some ==> t == seq!['|', '|'] || t == seq!['&', '&'] || t == seq!['=', '=']
            || t == seq!['!', '='] || t == seq!['<'] || t == seq!['>'] || t == seq!['<', '=']
            || t == seq!['>', '='] || t == seq!['+'] || t == seq!['-'] || t == seq!['*'] || t
            == seq!['/'],
{
    reveal_strlit("||");
    reveal_strlit("&&");
    reveal_strlit("==");
    reveal_strlit("!=");
    reveal_strlit("<");
    reveal_strlit(">");
    reveal_strlit("<=");
    reveal_strlit(">=");
    reveal_strlit("+");
    reveal_strlit("-");
    reveal_strlit("*");
    reveal_strlit("/");
    assert("||"@ =~= seq!['|', '|']);
    assert("&&"@ =~= seq!['&', '&']);
    assert("=="@ =~= seq!['=', '=']);
    assert("!="@ =~= seq!['!', '=']);
    assert("<"@ =~= seq!['<']);
    assert(">"@ =~= seq!['>']);
    assert("<="@ =~= seq!['<', '=']);
    assert(">="@ =~= seq!['>', '=']);
    assert("+"@ =~= seq!['+']);
    assert("-"@ =~= seq!['-']);
    assert("*"@ =~= seq!['*']);
    assert("/"@ =~= seq!['/']);
    assert(seq!['>'] != seq!['<']) by { assert(seq!['>'][0] != seq!['<'][0]); }
    assert(seq!['+'] != seq!['<']) by { assert(seq!['+'][0] != seq!['<'][0]); }
    assert(seq!['+'] != seq!['>']) by { assert(seq!['+'][0] != seq!['>'][0]); }
    assert(seq!['-'] != seq!['<']) by { assert(seq!['-'][0] != seq!['<'][0]); }
    assert(seq!['-'] != seq!['>']) by { assert(seq!['-'][0] != seq!['>'][0]); }
    assert(seq!['-'] != seq!['+']) by { assert(seq!['-'][0] != seq!['+'][0]); }
    assert(seq!['*'] != seq!['<']) by { assert(seq!['*'][0] != seq!['<'][0]); }
    assert(seq!['*'] != seq!['>']) by { assert(seq!['*'][0] != seq!['>'][0]); }
    assert(seq!['*'] != seq!['+']) by { assert(seq!['*'][0] != seq!['+'][0]); }
    assert(seq!['*'] != seq!['-']) by { assert(seq!['*'][0] != seq!['-'][0]); }
    assert(seq!['/'] != seq!['<']) by { assert(seq!['/'][0] != seq!['<'][0]); }
    assert(seq!['/'] != seq!['>']) by { assert(seq!['/'][0] != seq!['>'][0]); }
    assert(seq!['/'] != seq!['+']) by { assert(seq!['/'][0] != seq!['+'][0]); }
    assert(seq!['/'] != seq!['-']) by { assert(seq!['/'][0] != seq!['-'][0]); }
    assert(seq!['/'] != seq!['*']) by { assert(seq!['/'][0] != seq!['*'][0]); }
}

/// The tokens that may follow explicit generic arguments.
pub open spec fn follows_generic(t: Seq<char>) -> bool {
    t == "("@ || t == ")"@ || t == ","@ || t == ";"@ || t == "\n"@ || t == "}"@ || t == "]"@ || t.len()
        == 0
}

/// Further comma-separated lambda parameters from `pos`, after `acc`.
pub open spec fn lambda_params(
    toks: Seq<TokenView>,
    pos: int,
    d: int,
    acc: Seq<(TokenView, Option<TyView>)>,
) -> Option<(Seq<(TokenView, Option<TyView>)>, int)>
    decreases toks.len() - pos,
{
    if pos < 0 || pos >= toks.len() {
        None
    } else {
        match spec_name(toks, pos) {
            Err(_) => None,
            Ok(p1) => if exists|i: int| 0 <= i < acc.len() && (#[trigger] acc[i]).0.0 == toks[pos].0 {
                None
            } else {
                let annotated: Option<(Option<TyView>, int)> = if toks[p1].0 == ":"@ {
                    match spec_ty(toks, advance(toks, p1), d) {
                        Err(_) => None,
                        Ok((t, p2)) => Some((Some(t), p2)),
                    }
                } else {
                    Some((None, p1))
                };
                match annotated {
                    None => None,
                    Some((ty, p2)) => {
                        let params = acc.push((toks[pos], ty));
                        if params.len() > 1024 {
                            None
                        } else {
                            let p3 = skip_newlines(toks, p2);
                            if toks[p3].0 != ","@ {
                                Some((params, p3))
                            } else {
                                let p4 = skip_newlines(toks, advance(toks, p3));
                                if p4 <= pos || p4 >= toks.len() {
                                    None
                                } else {
                                    lambda_params(toks, p4, d, params)
                                }
                            }
                        }
                    },
                }
            },
        }
    }
}

/// A lambda's parameters and `=>` at `pos`, if that is what follows.
#[verifier::opaque]
pub open spec fn lambda_head(toks: Seq<TokenView>, pos: int, d: int) -> Option<
    (Seq<(TokenView, Option<TyView>)>, int),
> {
    if toks[pos].0 == "("@ {
        let p1 = skip_newlines(toks, advance(toks, pos));
        let list = if toks[p1].0 == ")"@ {
            Some((Seq::empty(), p1))
        } else {
            lambda_params(toks, p1, d, Seq::empty())
        };
        match list {
            None => None,
            Some((ps, p2)) => match spec_expect(toks, p2, ")"@) {
                Err(_) => None,
                Ok(p3) => match spec_expect(toks, p3, "=>"@) {
                    Err(_) => None,
                    Ok(p4) => Some((ps, p4)),
                },
            },
        }
    } else {
        match spec_name(toks, pos) {
            Err(_) => None,
            Ok(p1) => match spec_expect(toks, p1, "=>"@) {
                Err(_) => None,
                Ok(p2) => Some((seq![(toks[pos], None)], p2)),
            },
        }
    }
}

/// Further comma-separated type arguments from `pos`, after `acc`.
pub open spec fn generic_rest(toks: Seq<TokenView>, pos: int, d: int, acc: Seq<TyView>) -> Option<
    (Seq<TyView>, int),
>
    decreases toks.len() - pos,
{
    if 0 <= pos < toks.len() && toks[pos].0 == ","@ {
        match spec_ty(toks, advance(toks, pos), d) {
            Err(_) => None,
            Ok((t, q)) => if q <= pos || q >= toks.len() {
                None
            } else {
                generic_rest(toks, q, d, acc.push(t))
            },
        }
    } else {
        Some((acc, pos))
    }
}

/// Explicit generic arguments at `pos` (on `<`), if they read as such.
#[verifier::opaque]
pub open spec fn generic_args(toks: Seq<TokenView>, pos: int, d: int) -> Option<(Seq<TyView>, int)> {
    match spec_ty(toks, advance(toks, pos), d) {
        Err(_) => None,
        Ok((t, p1)) => match generic_rest(toks, p1, d, seq![t]) {
            None => None,
            Some((tys, p2)) => match spec_expect(toks, p2, ">"@) {
                Err(_) => None,
                Ok(p3) => if follows_generic(toks[p3].0) {
                    Some((tys, p3))
                } else {
                    None
                },
            },
        },
    }
}

/// A match arm's pattern at `pos`.
pub open spec fn g_pattern(toks: Seq<TokenView>, pos: int) -> Result<(PatternView, int), Seq<char>> {
    if toks[pos].0 == "_"@ {
        Ok((PatternView::Wildcard(toks[pos]), advance(toks, pos)))
    } else {
        match spec_name(toks, pos) {
            Err(m) => Err(m),
            Ok(p1) => if toks[p1].0 == "("@ {
                let p2 = advance(toks, p1);
                let binding: Result<(Option<TokenView>, int), Seq<char>> = if toks[p2].0 == "_"@ {
                    Ok((None, advance(toks, p2)))
                } else {
                    match spec_expect(toks, p2, "let"@) {
                        Err(m) => Err(m),
                        Ok(p3) => match spec_name(toks, p3) {
                            Err(m) => Err(m),
                            Ok(p4) => Ok((Some(toks[p3]), p4)),
                        },
                    }
                };
                match binding {
                    Err(m) => Err(m),
                    Ok((b, p5)) => match spec_expect(toks, p5, ")"@) {
                        Err(m) => Err(m),
                        Ok(p6) => Ok((PatternView::Case(toks[pos], Some(b)), p6)),
                    },
                }
            } else {
                Ok((PatternView::Case(toks[pos], None), p1))
            },
        }
    }
}

/// Whether a statement is a match expression with a block arm, which needs
/// no statement end.
pub open spec fn ends_in_block_match(s: StmtView) -> bool {
    s matches StmtView::Expression(e) && e.kind matches ExprKindView::Match(_, arms) && exists|i: int|
        0 <= i < arms.len() && (#[trigger] arms[i]).body is Block
}

/// An expression at `pos` binding at least as tightly as `min`, inside `d`
/// enclosing expressions and statements.
pub open spec fn g_expression(toks: Seq<TokenView>, pos: int, d: int, min: u8) -> Result<
    (ExprView, int),
    Seq<char>,
>
    decreases 32 - d, 0int, toks.len() - pos,
{
    if pos < 0 || pos >= toks.len() {
        Err(Seq::empty())
    } else if d >= 32 {
        Err(error_at(toks, pos, "expression nesting limit exceeded"@))
    } else {
        g_inner(toks, pos, d + 1, min)
    }
}

/// An expression once its depth is counted: a lambda, or an operand and
/// what follows it.
#[verifier::opaque]
pub open spec fn g_inner(toks: Seq<TokenView>, pos: int, d: int, min: u8) -> Result<
    (ExprView, int),
    Seq<char>,
>
    decreases 32 - d, 9int, toks.len() - pos,
{
    if pos < 0 || pos >= toks.len() {
        Err(Seq::empty())
    } else {
        match lambda_head(toks, pos, d) {
            Some((params, p)) => g_lambda(toks, toks[pos], p, d, params),
            None => g_primary(toks, pos, d, min),
        }
    }
}

/// A lambda whose first token is `at` and whose parameters are `params`,
/// its body at `p` after line breaks.
#[verifier::opaque]
pub open spec fn g_lambda(
    toks: Seq<TokenView>,
    at: TokenView,
    p: int,
    d: int,
    params: Seq<(TokenView, Option<TyView>)>,
) -> Result<(ExprView, int), Seq<char>>
    decreases 32 - d, 3int, toks.len() - p,
{
    let q = skip_newlines(toks, p);
    if toks[q].0 == "{"@ {
        match g_block(toks, q, d) {
            Err(m) => Err(m),
            Ok((b, r)) => match node(
                at,
                ExprKindView::Lambda(params, Box::new(ArmBodyView::Block(b))),
                1,
            ) {
                Err(m) => Err(m),
                Ok(e) => Ok((e, r)),
            },
        }
    } else {
        match g_expression(toks, q, d, 0) {
            Err(m) => Err(m),
            Ok((v, r)) => match node(
                at,
                ExprKindView::Lambda(params, Box::new(ArmBodyView::Expression(v))),
                v.depth + 1,
            ) {
                Err(m) => Err(m),
                Ok(e) => Ok((e, r)),
            },
        }
    }
}

/// A node with an operand parsed from `pos` binding at least as tightly as
/// 30: `out` or a unary operator `op`.
pub open spec fn g_prefix(toks: Seq<TokenView>, at: TokenView, pos: int, d: int, op: Seq<char>, out: bool) -> Result<
    (ExprView, int),
    Seq<char>,
>
    decreases 32 - d, 1int, toks.len() - pos,
{
    match g_expression(toks, pos, d, 30) {
        Err(m) => Err(m),
        Ok((v, p)) => match node(
            at,
            if out {
                ExprKindView::Out(Box::new(v))
            } else {
                ExprKindView::Unary(op, Box::new(v))
            },
            v.depth + 1,
        ) {
            Err(m) => Err(m),
            Ok(e) => Ok((e, p)),
        },
    }
}

/// `new` followed by a type at `pos`: an array creation, or an operand.
#[verifier::opaque]
pub open spec fn g_new(toks: Seq<TokenView>, at: TokenView, pos: int, d: int) -> Result<
    (ExprView, int),
    Seq<char>,
>
    decreases 32 - d, 2int, toks.len() - pos,
{
    match spec_ty(toks, pos, d) {
        Err(m) => Err(m),
        Ok((t, p1)) => if toks[p1].0 == "["@ {
            match g_expression(toks, advance(toks, p1), d, 0) {
                Err(m) => Err(m),
                Ok((length, p2)) => match spec_expect(toks, p2, "]"@) {
                    Err(m) => Err(m),
                    Ok(p3) => {
                        let elements: Result<(Seq<ExprView>, int), Seq<char>> = if toks[p3].0
                            == "{"@ {
                            match g_new_elements(
                                toks,
                                skip_newlines(toks, advance(toks, p3)),
                                d,
                                Seq::empty(),
                            ) {
                                Err(m) => Err(m),
                                Ok((items, p4)) => match spec_expect(toks, p4, "}"@) {
                                    Err(m) => Err(m),
                                    Ok(p5) => Ok((items, p5)),
                                },
                            }
                        } else {
                            Ok((Seq::empty(), p3))
                        };
                        match elements {
                            Err(m) => Err(m),
                            Ok((items, p6)) => match node(
                                at,
                                ExprKindView::NewArray(t, Box::new(length), items),
                                larger(deepest(items), length.depth) + 1,
                            ) {
                                Err(m) => Err(m),
                                Ok(e) => Ok((e, p6)),
                            },
                        }
                    },
                },
            }
        } else {
            g_prefix(toks, at, pos, d, "new"@, false)
        },
    }
}

/// An array literal whose `[` is `at`, its elements from `p`.
#[verifier::opaque]
pub open spec fn g_array_literal(toks: Seq<TokenView>, at: TokenView, p: int, d: int) -> Result<
    (ExprView, int),
    Seq<char>,
>
    decreases 32 - d, 2int, toks.len() - p,
{
    match g_expression(toks, skip_newlines(toks, p), d, 0) {
        Err(m) => Err(m),
        Ok((first, p1)) => match g_list(toks, skip_newlines(toks, p1), d, seq![first]) {
            Err(m) => Err(m),
            Ok((items, p2)) => match spec_expect(toks, p2, "]"@) {
                Err(m) => Err(m),
                Ok(p3) => match node(at, ExprKindView::ArrayLiteral(items), deepest(items) + 1) {
                    Err(m) => Err(m),
                    Ok(e) => Ok((e, p3)),
                },
            },
        },
    }
}

/// A parenthesised expression from `p`.
pub open spec fn g_paren(toks: Seq<TokenView>, p: int, d: int) -> Result<(ExprView, int), Seq<char>>
    decreases 32 - d, 2int, toks.len() - p,
{
    match g_expression(toks, skip_newlines(toks, p), d, 0) {
        Err(m) => Err(m),
        Ok((v, p1)) => match spec_expect(toks, skip_newlines(toks, p1), ")"@) {
            Err(m) => Err(m),
            Ok(p2) => Ok((v, p2)),
        },
    }
}

/// `typeof` or `default` (`at`) with its parenthesised type from `p`.
#[verifier::opaque]
pub open spec fn g_type_operand(toks: Seq<TokenView>, at: TokenView, p: int, d: int) -> Result<
    (ExprView, int),
    Seq<char>,
> {
    match spec_expect(toks, p, "("@) {
        Err(m) => Err(m),
        Ok(p1) => match spec_ty(toks, skip_newlines(toks, p1), d) {
            Err(m) => Err(m),
            Ok((t, p2)) => match spec_expect(toks, skip_newlines(toks, p2), ")"@) {
                Err(m) => Err(m),
                Ok(p3) => match node(
                    at,
                    if at.0 == "default"@ {
                        ExprKindView::Default(t)
                    } else {
                        ExprKindView::TypeOf(t)
                    },
                    1,
                ) {
                    Err(m) => Err(m),
                    Ok(e) => Ok((e, p3)),
                },
            },
        },
    }
}

/// A negative integer literal: `-` (`at`) and the digits at `p`.
pub open spec fn g_negative(toks: Seq<TokenView>, at: TokenView, p: int) -> Result<(ExprView, int), Seq<char>> {
    let literal = toks[p];
    match parse_unsigned(literal.0, 0x8000_0001) {
        None => Err(positioned(literal.1, literal.2, "integer literal is outside Int32 range"@)),
        Some(v) => match node(at, ExprKindView::Int((-(v as int)) as i32), 1) {
            Err(m) => Err(m),
            Ok(e) => Ok((e, advance(toks, p))),
        },
    }
}

/// A literal or a name at `pos`; a closed generic type followed by `.`
/// reads as the name of a static call path.
#[verifier::opaque]
pub open spec fn g_simple_operand(toks: Seq<TokenView>, pos: int, d: int) -> Result<(ExprView, int), Seq<char>> {
    let at = toks[pos];
    let p = advance(toks, pos);
    if at.0.len() > 0 && at.0[0] == '"' {
        match json_string(at.0) {
            None => Err(positioned(at.1, at.2, "invalid string escape"@)),
            Some(text) => match node(at, ExprKindView::String(text), 1) {
                Err(m) => Err(m),
                Ok(e) => Ok((e, p)),
            },
        }
    } else if starts_with_digit(at.0) {
        match parse_unsigned(at.0, 0x8000_0000) {
            None => Err(positioned(at.1, at.2, "integer literal is outside Int32 range"@)),
            Some(v) => match node(at, ExprKindView::Int(v as i32), 1) {
                Err(m) => Err(m),
                Ok(e) => Ok((e, p)),
            },
        }
    } else if at.0 == "true"@ || at.0 == "false"@ {
        match node(at, ExprKindView::Bool(at.0 == "true"@), 1) {
            Err(m) => Err(m),
            Ok(e) => Ok((e, p)),
        }
    } else if valid_slot_name(at.0) {
        match spec_ty(toks, pos, d) {
            Ok((t, q)) if il(t).contains('<') && toks[q].0 == "."@ => match node(
                at,
                ExprKindView::Name(il(t)),
                1,
            ) {
                Err(m) => Err(m),
                Ok(e) => Ok((e, q)),
            },
            _ => match node(at, ExprKindView::Name(at.0), 1) {
                Err(m) => Err(m),
                Ok(e) => Ok((e, p)),
            },
        }
    } else {
        Err(positioned(at.1, at.2, "expected expression"@))
    }
}

/// The operand at `pos`, before what follows it.
#[verifier::opaque]
pub open spec fn g_operand(toks: Seq<TokenView>, pos: int, d: int) -> Result<(ExprView, int), Seq<char>>
    decreases 32 - d, 4int, toks.len() - pos,
{
    let at = toks[pos];
    let p = advance(toks, pos);
    if at.0 == "["@ {
        g_array_literal(toks, at, p, d)
    } else if at.0 == "new"@ {
        g_new(toks, at, p, d)
    } else if at.0 == "out"@ {
        g_prefix(toks, at, p, d, Seq::empty(), true)
    } else if at.0 == "typeof"@ || at.0 == "default"@ {
        g_type_operand(toks, at, p, d)
    } else if at.0 == "-"@ && starts_with_digit(toks[p].0) {
        g_negative(toks, at, p)
    } else if at.0 == "&"@ || at.0 == "-"@ || at.0 == "!"@ {
        g_prefix(toks, at, p, d, at.0, false)
    } else if at.0 == "("@ {
        g_paren(toks, p, d)
    } else {
        g_simple_operand(toks, pos, d)
    }
}

/// An operand at `pos` and what follows it.
#[verifier::opaque]
pub open spec fn g_primary(toks: Seq<TokenView>, pos: int, d: int, min: u8) -> Result<
    (ExprView, int),
    Seq<char>,
>
    decreases 32 - d, 8int, toks.len() - pos,
{
    match g_operand(toks, pos, d) {
        Err(m) => Err(m),
        Ok((left, q)) => g_postfix(toks, q, d, min, left),
    }
}

/// Further comma-separated array elements from `pos`, after `acc`.
pub open spec fn g_list(toks: Seq<TokenView>, pos: int, d: int, acc: Seq<ExprView>) -> Result<
    (Seq<ExprView>, int),
    Seq<char>,
>
    decreases 32 - d, 1int, toks.len() - pos,
{
    if 0 <= pos < toks.len() && toks[pos].0 == ","@ {
        match g_expression(toks, skip_newlines(toks, advance(toks, pos)), d, 0) {
            Err(m) => Err(m),
            Ok((e, p1)) => {
                let p2 = skip_newlines(toks, p1);
                if p2 <= pos || p2 >= toks.len() {
                    Err(Seq::empty())
                } else {
                    g_list(toks, p2, d, acc.push(e))
                }
            },
        }
    } else {
        Ok((acc, pos))
    }
}

/// Comma-separated call arguments from `pos`, after `acc`.
pub open spec fn g_call_args(toks: Seq<TokenView>, pos: int, d: int, acc: Seq<ExprView>) -> Result<
    (Seq<ExprView>, int),
    Seq<char>,
>
    decreases 32 - d, 1int, toks.len() - pos,
{
    match g_expression(toks, pos, d, 0) {
        Err(m) => Err(m),
        Ok((e, p1)) => {
            let p2 = skip_newlines(toks, p1);
            let args = acc.push(e);
            if toks[p2].0 != ","@ {
                Ok((args, p2))
            } else {
                let p3 = skip_newlines(toks, advance(toks, p2));
                if p3 <= pos || p3 >= toks.len() {
                    Err(Seq::empty())
                } else {
                    g_call_args(toks, p3, d, args)
                }
            }
        },
    }
}

/// The elements of an array creation's initializer from `pos`, after `acc`.
pub open spec fn g_new_elements(toks: Seq<TokenView>, pos: int, d: int, acc: Seq<ExprView>) -> Result<
    (Seq<ExprView>, int),
    Seq<char>,
>
    decreases 32 - d, 1int, toks.len() - pos,
{
    if toks[pos].0 == "}"@ {
        Ok((acc, pos))
    } else {
        match g_expression(toks, pos, d, 0) {
            Err(m) => Err(m),
            Ok((e, p1)) => {
                let p2 = skip_newlines(toks, p1);
                let items = acc.push(e);
                if toks[p2].0 != ","@ {
                    Ok((items, p2))
                } else {
                    let p3 = skip_newlines(toks, advance(toks, p2));
                    if p3 <= pos || p3 >= toks.len() {
                        Err(Seq::empty())
                    } else {
                        g_new_elements(toks, p3, d, items)
                    }
                }
            },
        }
    }
}

/// One match arm's body at `p3` (after `=>` and line breaks), with the
/// match's depth so far.
pub open spec fn g_arm_body(toks: Seq<TokenView>, p3: int, d: int, depth: int) -> Result<
    (ArmBodyView, int, int),
    Seq<char>,
>
    decreases 32 - d, 3int, toks.len() - p3,
{
    if toks[p3].0 == "{"@ {
        match g_block(toks, p3, d) {
            Err(m) => Err(m),
            Ok((b, p4)) => Ok((ArmBodyView::Block(b), depth, p4)),
        }
    } else {
        match g_expression(toks, p3, d, 0) {
            Err(m) => Err(m),
            Ok((v, p4)) => Ok((ArmBodyView::Expression(v), larger(depth, v.depth + 1), p4)),
        }
    }
}

/// What separates a match arm from the next, at `p4`: nothing before the
/// closing brace, else a comma or a line break.
pub open spec fn arm_separator(toks: Seq<TokenView>, p4: int) -> Result<int, Seq<char>> {
    if toks[p4].0 == "}"@ {
        Ok(p4)
    } else if toks[p4].0 == ","@ {
        Ok(advance(toks, p4))
    } else {
        spec_expect(toks, p4, "\n"@)
    }
}

/// Match arms from `pos` until a closing brace or the end, after `acc`;
/// `depth` is the match's depth so far. Gives the arms, the depth and the
/// position.
#[verifier::opaque]
pub open spec fn g_arms(toks: Seq<TokenView>, pos: int, d: int, acc: Seq<ArmView>, depth: int) -> Result<
    (Seq<ArmView>, int, int),
    Seq<char>,
>
    decreases 32 - d, 4int, toks.len() - pos,
{
    if pos < 0 || pos >= toks.len() {
        Err(Seq::empty())
    } else if toks[pos].0 == "}"@ || toks[pos].0.len() == 0 {
        Ok((acc, depth, pos))
    } else {
        match g_pattern(toks, pos) {
            Err(m) => Err(m),
            Ok((pattern, p1)) => match spec_expect(toks, p1, "=>"@) {
                Err(m) => Err(m),
                Ok(p2) => match g_arm_body(toks, skip_newlines(toks, p2), d, depth) {
                    Err(m) => Err(m),
                    Ok((b, depth2, p4)) => match arm_separator(toks, p4) {
                        Err(m) => Err(m),
                        Ok(p5) => {
                            let p6 = skip_lines(toks, p5);
                            if p6 <= pos || p6 >= toks.len() {
                                Err(Seq::empty())
                            } else {
                                g_arms(toks, p6, d, acc.push(ArmView { pattern, body: b }), depth2)
                            }
                        },
                    },
                },
            },
        }
    }
}

/// `as` at `pos` and the interface type after it.
#[verifier::opaque]
pub open spec fn g_cast_step(toks: Seq<TokenView>, pos: int, d: int, left: ExprView) -> Result<
    (ExprView, int),
    Seq<char>,
> {
    match spec_ty(toks, advance(toks, pos), d) {
        Err(m) => Err(m),
        Ok((ty, q)) => match node(
            left.at,
            ExprKindView::InterfaceCast(Box::new(left), ty),
            left.depth + 1,
        ) {
            Err(m) => Err(m),
            Ok(e) => Ok((e, q)),
        },
    }
}

/// `match` at `pos` and its braced arms.
#[verifier::opaque]
pub open spec fn g_match_step(toks: Seq<TokenView>, pos: int, d: int, left: ExprView) -> Result<
    (ExprView, int),
    Seq<char>,
>
    decreases 32 - d, 5int, toks.len() - pos,
{
    match spec_expect(toks, skip_newlines(toks, advance(toks, pos)), "{"@) {
        Err(m) => Err(m),
        Ok(p1) => match g_arms(toks, skip_lines(toks, p1), d, Seq::empty(), left.depth + 1) {
            Err(m) => Err(m),
            Ok((arms, depth, p2)) => match spec_expect(toks, p2, "}"@) {
                Err(m) => Err(m),
                Ok(p3) => match node(left.at, ExprKindView::Match(Box::new(left), arms), depth) {
                    Err(m) => Err(m),
                    Ok(e) => Ok((e, p3)),
                },
            },
        },
    }
}

/// `[` at `pos`, an index and `]`.
#[verifier::opaque]
pub open spec fn g_index_step(toks: Seq<TokenView>, pos: int, d: int, left: ExprView) -> Result<
    (ExprView, int),
    Seq<char>,
>
    decreases 32 - d, 1int, toks.len() - pos,
{
    match g_expression(toks, advance(toks, pos), d, 0) {
        Err(m) => Err(m),
        Ok((index, p1)) => match spec_expect(toks, p1, "]"@) {
            Err(m) => Err(m),
            Ok(p2) => match node(
                left.at,
                ExprKindView::Index(Box::new(left), Box::new(index)),
                larger(left.depth, index.depth) + 1,
            ) {
                Err(m) => Err(m),
                Ok(e) => Ok((e, p2)),
            },
        },
    }
}

/// `.` at `pos` and a field name.
#[verifier::opaque]
pub open spec fn g_field_step(toks: Seq<TokenView>, pos: int, left: ExprView) -> Result<
    (ExprView, int),
    Seq<char>,
> {
    let p1 = advance(toks, pos);
    match spec_name(toks, p1) {
        Err(m) => Err(m),
        Ok(p2) => match node(left.at, ExprKindView::Field(Box::new(left), toks[p1]), left.depth + 1) {
            Err(m) => Err(m),
            Ok(e) => Ok((e, p2)),
        },
    }
}

/// `(` at `pos`, call arguments and `)`.
#[verifier::opaque]
pub open spec fn g_call_step(toks: Seq<TokenView>, pos: int, d: int, left: ExprView) -> Result<
    (ExprView, int),
    Seq<char>,
>
    decreases 32 - d, 2int, toks.len() - pos,
{
    let p1 = skip_newlines(toks, advance(toks, pos));
    let args = if toks[p1].0 == ")"@ {
        Ok((Seq::empty(), p1))
    } else {
        g_call_args(toks, p1, d, Seq::empty())
    };
    match args {
        Err(m) => Err(m),
        Ok((a, p2)) => match spec_expect(toks, p2, ")"@) {
            Err(m) => Err(m),
            Ok(p3) => match node(
                left.at,
                ExprKindView::Call(Box::new(left), a),
                larger(deepest(a), left.depth) + 1,
            ) {
                Err(m) => Err(m),
                Ok(e) => Ok((e, p3)),
            },
        },
    }
}

/// A binary operator of binding power `b` at `pos` and its right operand.
#[verifier::opaque]
pub open spec fn g_binary_step(toks: Seq<TokenView>, pos: int, d: int, b: u8, left: ExprView) -> Result<
    (ExprView, int),
    Seq<char>,
>
    decreases 32 - d, 1int, toks.len() - pos,
{
    match g_expression(toks, advance(toks, pos), d, (b + 1) as u8) {
        Err(m) => Err(m),
        Ok((right, p1)) => match node(
            toks[pos],
            ExprKindView::Binary(toks[pos].0, Box::new(left), Box::new(right)),
            larger(left.depth, right.depth) + 1,
        ) {
            Err(m) => Err(m),
            Ok(e) => Ok((e, p1)),
        },
    }
}

pub open spec fn some_step(r: Result<(ExprView, int), Seq<char>>) -> Result<Option<(ExprView, int)>, Seq<char>> {
    match r {
        Err(m) => Err(m),
        Ok(x) => Ok(Some(x)),
    }
}

/// One step after an operand `left` at `pos`: what it extends `left` to,
/// or nothing when nothing binding as tightly as `min` follows.
#[verifier::opaque]
pub open spec fn g_step(toks: Seq<TokenView>, pos: int, d: int, min: u8, left: ExprView) -> Result<
    Option<(ExprView, int)>,
    Seq<char>,
>
    decreases 32 - d, 6int, toks.len() - pos,
{
    let t = toks[pos].0;
    let generic = if t == "<"@ {
        generic_args(toks, pos, d)
    } else {
        None
    };
    match generic {
        Some((tys, q)) => some_step(
            match node(left.at, ExprKindView::Generic(Box::new(left), tys), left.depth + 1) {
                Err(m) => Err(m),
                Ok(e) => Ok((e, q)),
            },
        ),
        None => if t == "as"@ && min <= 7 {
            some_step(g_cast_step(toks, pos, d, left))
        } else if t == "match"@ && min == 0 {
            some_step(g_match_step(toks, pos, d, left))
        } else if t == "["@ {
            some_step(g_index_step(toks, pos, d, left))
        } else if t == "."@ {
            some_step(g_field_step(toks, pos, left))
        } else if t == "("@ {
            some_step(g_call_step(toks, pos, d, left))
        } else {
            match binding_power(t) {
                None => Ok(None),
                Some(b) => if b < min {
                    Ok(None)
                } else {
                    some_step(g_binary_step(toks, pos, d, b, left))
                },
            }
        },
    }
}

/// What follows an operand `left` at `pos`: generic arguments, casts,
/// matches, indexing, fields, calls and binary operators binding at least
/// as tightly as `min`.
#[verifier::opaque]
pub open spec fn g_postfix(toks: Seq<TokenView>, pos: int, d: int, min: u8, left: ExprView) -> Result<
    (ExprView, int),
    Seq<char>,
>
    decreases 32 - d, 7int, toks.len() - pos,
{
    if pos < 0 || pos >= toks.len() {
        Err(Seq::empty())
    } else {
        match g_step(toks, pos, d, min, left) {
            Err(m) => Err(m),
            Ok(None) => Ok((left, pos)),
            Ok(Some((e, q))) => if q <= pos || q >= toks.len() {
                Err(Seq::empty())
            } else {
                g_postfix(toks, q, d, min, e)
            },
        }
    }
}

/// A brace-enclosed block at `pos`, line breaks before it allowed.
pub open spec fn g_block(toks: Seq<TokenView>, pos: int, d: int) -> Result<(Seq<StmtView>, int), Seq<char>>
    decreases 32 - d, 2int, toks.len() - pos,
{
    match spec_expect(toks, skip_newlines(toks, pos), "{"@) {
        Err(m) => Err(m),
        Ok(p1) => match g_block_items(toks, skip_lines(toks, p1), d, Seq::empty()) {
            Err(m) => Err(m),
            Ok((stmts, p2)) => match spec_expect(toks, p2, "}"@) {
                Err(m) => Err(m),
                Ok(p3) => Ok((stmts, p3)),
            },
        },
    }
}

/// Statements from `pos` until a closing brace or the end, after `acc`.
pub open spec fn g_block_items(toks: Seq<TokenView>, pos: int, d: int, acc: Seq<StmtView>) -> Result<
    (Seq<StmtView>, int),
    Seq<char>,
>
    decreases 32 - d, 1int, toks.len() - pos,
{
    if pos < 0 || pos >= toks.len() {
        Err(Seq::empty())
    } else if toks[pos].0 == "}"@ || toks[pos].0.len() == 0 {
        Ok((acc, pos))
    } else {
        match g_statement(toks, pos, d) {
            Err(m) => Err(m),
            Ok((s, p1)) => {
                let p2 = skip_lines(toks, p1);
                if p2 <= pos || p2 >= toks.len() {
                    Err(Seq::empty())
                } else {
                    g_block_items(toks, p2, d, acc.push(s))
                }
            },
        }
    }
}

/// A statement at `pos` inside `d` enclosing expressions and statements.
pub open spec fn g_statement(toks: Seq<TokenView>, pos: int, d: int) -> Result<(StmtView, int), Seq<char>>
    decreases 32 - d, 0int, toks.len() - pos,
{
    if pos < 0 || pos >= toks.len() {
        Err(Seq::empty())
    } else if d >= 32 {
        Err(error_at(toks, pos, "statement nesting limit exceeded"@))
    } else {
        g_statement_inner(toks, pos, d + 1)
    }
}

/// The optional array extent after an annotation, at `p2`.
pub open spec fn extent_of(toks: Seq<TokenView>, p2: int, annotated: bool) -> Result<(Option<i32>, int), Seq<char>> {
    if annotated && toks[p2].0 == "["@ {
        let at = advance(toks, p2);
        match parse_i32(toks[at].0) {
            None => Err(
                positioned(toks[at].1, toks[at].2, "array extent must be a nonnegative Int32 literal"@),
            ),
            Some(n) => match spec_expect(toks, advance(toks, at), "]"@) {
                Err(m) => Err(m),
                Ok(p3) => Ok((Some(n), p3)),
            },
        }
    } else {
        Ok((None, p2))
    }
}

/// A declaration with `let` or `var` at `pos`.
#[verifier::opaque]
pub open spec fn g_binding(toks: Seq<TokenView>, pos: int, d: int) -> Result<(StmtView, int), Seq<char>>
    decreases 32 - d, 1int, toks.len() - pos,
{
    let mutable = toks[pos].0 == "var"@;
    let p = advance(toks, pos);
    let name = toks[p];
    match spec_name(toks, p) {
        Err(m) => Err(m),
        Ok(p1) => {
            let annotated: Result<(Option<TyView>, int), Seq<char>> = if toks[p1].0 == ":"@ {
                match spec_ty(toks, advance(toks, p1), d) {
                    Err(m) => Err(m),
                    Ok((t, p2)) => Ok((Some(t), p2)),
                }
            } else {
                Ok((None, p1))
            };
            match annotated {
                Err(m) => Err(m),
                Ok((annotation, p2)) => match extent_of(toks, p2, annotation is Some) {
                    Err(m) => Err(m),
                    Ok((extent, p3)) => {
                        let annotation = if extent is Some {
                            Some(TyView::Array(Box::new(annotation->0)))
                        } else {
                            annotation
                        };
                        let valued: Result<(Option<ExprView>, int), Seq<char>> = if toks[p3].0
                            == "="@ {
                            match g_expression(toks, advance(toks, p3), d, 0) {
                                Err(m) => Err(m),
                                Ok((v, p4)) => Ok((Some(v), p4)),
                            }
                        } else if !mutable || annotation is None {
                            Err(
                                positioned(
                                    name.1,
                                    name.2,
                                    "uninitialized declaration requires var and an explicit type"@,
                                ),
                            )
                        } else {
                            Ok((None, p3))
                        };
                        match valued {
                            Err(m) => Err(m),
                            Ok((value, p4)) => if extent is Some && value is None {
                                Err(positioned(name.1, name.2, "fixed-extent local requires an initializer"@))
                            } else {
                                Ok((StmtView::Bind { name, mutable, annotation, extent, value }, p4))
                            },
                        }
                    },
                },
            }
        },
    }
}

/// `if` at `pos`: the condition, the block, and an optional `else` with a
/// block or a further `if`.
#[verifier::opaque]
pub open spec fn g_if(toks: Seq<TokenView>, pos: int, d: int) -> Result<(StmtView, int), Seq<char>>
    decreases 32 - d, 3int, toks.len() - pos,
{
    match g_expression(toks, advance(toks, pos), d, 0) {
        Err(m) => Err(m),
        Ok((c, p1)) => match g_block(toks, p1, d) {
            Err(m) => Err(m),
            Ok((yes, p2)) => {
                let p3 = skip_newlines(toks, p2);
                if toks[p3].0 == "else"@ {
                    let p4 = advance(toks, p3);
                    if toks[p4].0 == "if"@ {
                        match g_statement(toks, p4, d) {
                            Err(m) => Err(m),
                            Ok((s, p5)) => Ok((StmtView::If(c, yes, seq![s]), p5)),
                        }
                    } else {
                        match g_block(toks, p4, d) {
                            Err(m) => Err(m),
                            Ok((no, p5)) => Ok((StmtView::If(c, yes, no), p5)),
                        }
                    }
                } else {
                    Ok((StmtView::If(c, yes, Seq::empty()), p2))
                }
            },
        },
    }
}

/// `while` at `pos`, the condition and the block.
pub open spec fn g_while(toks: Seq<TokenView>, pos: int, d: int) -> Result<(StmtView, int), Seq<char>>
    decreases 32 - d, 3int, toks.len() - pos,
{
    match g_expression(toks, advance(toks, pos), d, 0) {
        Err(m) => Err(m),
        Ok((c, p1)) => match g_block(toks, p1, d) {
            Err(m) => Err(m),
            Ok((body, p2)) => Ok((StmtView::While(c, body), p2)),
        },
    }
}

/// `loop` at `pos` and the block.
pub open spec fn g_loop(toks: Seq<TokenView>, pos: int, d: int) -> Result<(StmtView, int), Seq<char>>
    decreases 32 - d, 3int, toks.len() - pos,
{
    match g_block(toks, advance(toks, pos), d) {
        Err(m) => Err(m),
        Ok((body, p1)) => Ok((StmtView::Loop(toks[pos], body), p1)),
    }
}

/// `for` at `pos`: the variable, `in`, the range with `..` (inclusive) or
/// `..<`, and the block.
#[verifier::opaque]
pub open spec fn g_for(toks: Seq<TokenView>, pos: int, d: int) -> Result<(StmtView, int), Seq<char>>
    decreases 32 - d, 3int, toks.len() - pos,
{
    let p = advance(toks, pos);
    match spec_name(toks, p) {
        Err(m) => Err(m),
        Ok(p1) => match spec_expect(toks, p1, "in"@) {
            Err(m) => Err(m),
            Ok(p2) => match g_expression(toks, p2, d, 0) {
                Err(m) => Err(m),
                Ok((start, p3)) => {
                    let range: Result<(bool, int), Seq<char>> = if toks[p3].0 == ".."@ {
                        Ok((true, advance(toks, p3)))
                    } else {
                        match spec_expect(toks, p3, "..<"@) {
                            Err(m) => Err(m),
                            Ok(p4) => Ok((false, p4)),
                        }
                    };
                    match range {
                        Err(m) => Err(m),
                        Ok((inclusive, p4)) => match g_expression(toks, p4, d, 0) {
                            Err(m) => Err(m),
                            Ok((end, p5)) => match g_block(toks, p5, d) {
                                Err(m) => Err(m),
                                Ok((body, p6)) => Ok((StmtView::For(toks[p], start, end, inclusive, body), p6)),
                            },
                        },
                    }
                },
            },
        },
    }
}

/// A declaration, a `return`, an assignment or an expression at `pos`,
/// before its end.
#[verifier::opaque]
pub open spec fn g_simple_statement(toks: Seq<TokenView>, pos: int, d: int) -> Result<
    (StmtView, int),
    Seq<char>,
>
    decreases 32 - d, 2int, toks.len() - pos,
{
    let t = toks[pos].0;
    let p = advance(toks, pos);
    if t == "let"@ || t == "var"@ {
        g_binding(toks, pos, d)
    } else if t == "return"@ {
        let n = toks[p].0;
        if n == "\n"@ || n == ";"@ || n == "}"@ || n.len() == 0 {
            Ok((StmtView::Return(toks[pos], None), p))
        } else {
            match g_expression(toks, p, d, 0) {
                Err(m) => Err(m),
                Ok((v, p1)) => Ok((StmtView::Return(toks[pos], Some(v)), p1)),
            }
        }
    } else {
        match g_expression(toks, pos, d, 0) {
            Err(m) => Err(m),
            Ok((l, p1)) => if toks[p1].0 == "="@ {
                match g_expression(toks, advance(toks, p1), d, 0) {
                    Err(m) => Err(m),
                    Ok((r, p2)) => Ok((StmtView::Assign(l, r), p2)),
                }
            } else {
                Ok((StmtView::Expression(l), p1))
            },
        }
    }
}

/// A statement once its depth is counted.
#[verifier::opaque]
pub open spec fn g_statement_inner(toks: Seq<TokenView>, pos: int, d: int) -> Result<
    (StmtView, int),
    Seq<char>,
>
    decreases 32 - d, 4int, toks.len() - pos,
{
    if pos < 0 || pos >= toks.len() {
        Err(Seq::empty())
    } else {
        let t = toks[pos].0;
        if t == "if"@ {
            g_if(toks, pos, d)
        } else if t == "while"@ {
            g_while(toks, pos, d)
        } else if t == "loop"@ {
            g_loop(toks, pos, d)
        } else if t == "for"@ {
            g_for(toks, pos, d)
        } else if t == "break"@ || t == "continue"@ {
            match spec_end_statement(toks, advance(toks, pos)) {
                Err(m) => Err(m),
                Ok(p1) => Ok(
                    (
                        if t == "break"@ {
                            StmtView::Break(toks[pos])
                        } else {
                            StmtView::Continue(toks[pos])
                        },
                        p1,
                    ),
                ),
            }
        } else {
            match g_simple_statement(toks, pos, d) {
                Err(m) => Err(m),
                Ok((s, p1)) => if ends_in_block_match(s) {
                    Ok((s, p1))
                } else {
                    match spec_end_statement(toks, p1) {
                        Err(m) => Err(m),
                        Ok(p2) => Ok((s, p2)),
                    }
                },
            }
        }
    }
}

} // verus!
