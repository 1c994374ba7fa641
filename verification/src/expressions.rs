//! Parsing expressions, blocks and statements (see the grammar module).
use crate::fault::Fault;
use crate::frontend::{Ty, TyView};
use crate::grammar::{
    arm_separator, arms_view, binding_power, body_view, decode_string, deepest, ends_in_block_match,
    expr_view, exprs_view, extent_of, g_arm_body, g_array_literal, g_arms, g_binary_step, g_binding,
    g_block, g_block_items, g_call_args, g_call_step, g_cast_step, g_expression, g_field_step, g_for,
    g_if, g_index_step, g_inner, g_lambda, g_list, g_loop, g_match_step, g_negative, g_new,
    g_new_elements, g_operand, g_paren, g_pattern, g_postfix, g_prefix, g_primary,
    g_simple_operand, g_simple_statement, g_statement, g_statement_inner, g_step, g_type_operand,
    g_while, generic_args, generic_rest, json_string, kind_view, lambda_head, lambda_params, larger,
    node, params_view, parse_i32, some_step, starts_with_digit, stmt_view, stmts_view, tys_view,
    ArmBodyView, ArmView, ExprKindView, ExprView, StmtView,
};
use crate::depth_facts::{
    lemma_expression_unfold, lemma_simple_statement_binding, lemma_statement_unfold,
};
use crate::grammar_facts::{
    lemma_generic_args, lemma_lambda_head, lemma_operand_cases, lemma_postfix_unfold,
};
use crate::step_facts::lemma_step_cases;
use crate::unfold_facts::{
    lemma_inner_unfold, lemma_match_step_unfold, lemma_statement_inner_cases,
};
use crate::lexer::{positioned, positioned_fault, token_view, Token};
use crate::metadata::is_valid_slot_name;
use crate::parser::{
    advance, copy_token, error_fault, lemma_advance, lemma_skip_lines, lemma_skip_newlines, lemma_ty, pattern_view,
    skip_lines,
    skip_newlines, spec_end_statement, spec_expect, spec_name, spec_ty, Parser, Pattern,
    PatternView, TokenView,
};
use crate::numbers::{all_digits, is_digit, parse_unsigned, parse_unsigned_at, unsigned_digits};
use crate::text::{chars_of, str_eq};
use crate::tree::{Arm, ArmBody, Expr, ExprKind, Stmt};
use vstd::prelude::*;
use vstd::string::StringExecFns;

verus! {

/// The parser after a step: same tokens and depth, cursor on a token.
pub open spec fn kept(after: Parser, before: Parser) -> bool {
    after.wf() && after.tokens == before.tokens && after.depth == before.depth
}

/// Every expression nests at most 128 deep.
pub open spec fn shallow(v: Seq<Expr>) -> bool {
    forall|i: int| 0 <= i < v.len() ==> (#[trigger] v[i]).depth <= 128
}

/// An expression parse as the grammar gives it, ending at `at`.
pub open spec fn expr_result(r: Result<Expr, Fault>, s: Result<(ExprView, int), Seq<char>>, at: int) -> bool {
    match s {
        Ok((v, p)) => r matches Ok(x) && x@ == v && x.depth <= 128 && at == p,
        Err(m) => r matches Err(f) && f.message@ == m,
    }
}

pub open spec fn exprs_result(
    r: Result<Vec<Expr>, Fault>,
    s: Result<(Seq<ExprView>, int), Seq<char>>,
    at: int,
) -> bool {
    match s {
        Ok((vs, p)) => r matches Ok(v) && exprs_view(v@) == vs && shallow(v@) && at == p,
        Err(m) => r matches Err(f) && f.message@ == m,
    }
}

pub open spec fn stmt_result(r: Result<Stmt, Fault>, s: Result<(StmtView, int), Seq<char>>, at: int) -> bool {
    match s {
        Ok((v, p)) => r matches Ok(x) && stmt_view(x) == v && at == p,
        Err(m) => r matches Err(f) && f.message@ == m,
    }
}

pub open spec fn stmts_result(
    r: Result<Vec<Stmt>, Fault>,
    s: Result<(Seq<StmtView>, int), Seq<char>>,
    at: int,
) -> bool {
    match s {
        Ok((vs, p)) => r matches Ok(v) && stmts_view(v@) == vs && at == p,
        Err(m) => r matches Err(f) && f.message@ == m,
    }
}

/// The greatest depth among expressions (see `deepest`).
fn deepest_of(v: &Vec<Expr>) -> (m: usize)
    requires
        shallow(v@),
    ensures
        m as int == deepest(exprs_view(v@)),
        m <= 128,
{
    let mut m: usize = 0;
    let mut i: usize = 0;
    while i < v.len()
        invariant
            i <= v@.len(),
            shallow(v@),
            m <= 128,
            m as int == deepest(exprs_view(v@).take(i as int)),
        decreases v.len() - i,
    {
        proof {
            assert(exprs_view(v@).take(i + 1).drop_last() =~= exprs_view(v@).take(i as int));
        }
        if v[i].depth > m {
            m = v[i].depth;
        }
        i += 1;
    }
    proof {
        assert(exprs_view(v@).take(i as int) =~= exprs_view(v@));
    }
    m
}

/// Whether one of the lambda parameters has the given name.
fn has_parameter(params: &Vec<(Token, Option<Ty>)>, name: &Token) -> (b: bool)
    ensures
        b == exists|i: int|
            0 <= i < params@.len() && (#[trigger] params_view(params@)[i]).0.0 == name.text@,
{
    let ghost acc = params_view(params@);
    let mut i: usize = 0;
    while i < params.len()
        invariant
            i <= params@.len(),
            acc == params_view(params@),
            forall|k: int| 0 <= k < i ==> (#[trigger] acc[k]).0.0 != name.text@,
        decreases params.len() - i,
    {
        if str_eq(params[i].0.text.as_str(), name.text.as_str()) {
            assert(acc[i as int].0.0 == name.text@);
            return true;
        }
        i += 1;
    }
    false
}

impl Parser {
    /// An expression node, refused when nested deeper than 128 (see `node`).
    fn node(&self, at: Token, kind: ExprKind, depth: usize) -> (r: Result<Expr, Fault>)
        ensures
            match node(token_view(at), kind_view(kind), depth as int) {
                Ok(v) => r matches Ok(x) && x@ == v && x.depth <= 128,
                Err(m) => r matches Err(f) && f.message@ == m,
            },
    {
        if depth > 128 {
            return Err(positioned_fault(at.line, at.column, "expression nesting limit exceeded"));
        }
        Ok(Expr { at, kind, depth })
    }

    /// Further lambda parameters (see `lambda_params`); the cursor is left
    /// anywhere when they do not read as such.
    fn lambda_params(&mut self) -> (r: Option<Vec<(Token, Option<Ty>)>>)
        requires
            old(self).wf(),
        ensures
            kept(*final(self), *old(self)),
            match lambda_params(old(self).toks(), old(self).pos(), old(self).depth as int, Seq::empty()) {
                Some((ps, p)) => r matches Some(v) && params_view(v@) == ps && final(self).pos() == p,
                None => r is None,
            },
    {
        let ghost toks = self.toks();
        let ghost d = self.depth as int;
        let ghost start = self.pos();
        let mut params: Vec<(Token, Option<Ty>)> = Vec::new();
        proof {
            assert(params_view(params@) =~= Seq::<(TokenView, Option<TyView>)>::empty());
        }
        loop
            invariant
                kept(*self, *old(self)),
                toks == old(self).toks(),
                d == old(self).depth as int,
                start == old(self).pos(),
                lambda_params(toks, start, d, Seq::empty()) == lambda_params(
                    toks,
                    self.pos(),
                    d,
                    params_view(params@),
                ),
            decreases toks.len() - self.pos(),
        {
            let ghost here = self.pos();
            let ghost acc = params_view(params@);
            let name = match self.name() {
                Ok(t) => t,
                Err(_) => return None,
            };
            if has_parameter(&params, &name) {
                return None;
            }
            let ghost p1 = self.pos();
            proof {
                reveal_strlit(":");
                reveal_strlit(",");
                lemma_advance(toks, here);
                lemma_advance(toks, p1);
                lemma_ty(toks, advance(toks, p1), d);
            }
            let ty = if self.eat(":") {
                match self.ty() {
                    Ok(t) => Some(t),
                    Err(_) => return None,
                }
            } else {
                None
            };
            params.push((name, ty));
            proof {
                assert(params_view(params@) =~= acc.push((toks[here], match ty {
                    Some(t) => Some(t@),
                    None => None,
                })));
            }
            if params.len() > 1024 {
                return None;
            }
            proof {
                lemma_skip_newlines(toks, self.pos());
            }
            self.newlines();
            let ghost p3 = self.pos();
            proof {
                lemma_advance(toks, p3);
            }
            if !self.eat(",") {
                return Some(params);
            }
            proof {
                lemma_skip_newlines(toks, self.pos());
            }
            self.newlines();
        }
    }

    /// The parameters and `=>` of a lambda, if they follow; the cursor is
    /// left anywhere when they do not.
    fn lambda_attempt(&mut self) -> (r: Option<Vec<(Token, Option<Ty>)>>)
        requires
            old(self).wf(),
        ensures
            kept(*final(self), *old(self)),
            match lambda_head(old(self).toks(), old(self).pos(), old(self).depth as int) {
                Some((ps, p)) => r matches Some(v) && params_view(v@) == ps && final(self).pos() == p,
                None => r is None,
            },
    {
        proof {
            reveal(lambda_head);
        }
        let ghost toks = self.toks();
        let ghost pos = self.pos();
        proof {
            reveal_strlit("(");
            reveal_strlit(")");
            reveal_strlit("=>");
            lemma_advance(toks, pos);
        }
        let mut params: Vec<(Token, Option<Ty>)> = Vec::new();
        if self.eat("(") {
            proof {
                lemma_skip_newlines(toks, self.pos());
            }
            self.newlines();
            if !self.at(")") {
                params = match self.lambda_params() {
                    Some(v) => v,
                    None => return None,
                };
            } else {
                proof {
                    assert(params_view(params@) =~= Seq::<(TokenView, Option<TyView>)>::empty());
                }
            }
            if self.expect(")").is_err() {
                return None;
            }
        } else {
            let name = match self.name() {
                Ok(t) => t,
                Err(_) => return None,
            };
            params.push((name, None));
            proof {
                assert(params_view(params@) =~= seq![(toks[pos], None::<TyView>)]);
            }
        }
        if self.expect("=>").is_err() {
            return None;
        }
        Some(params)
    }

    /// The parameters and `=>` of a lambda, if they follow (see
    /// `lambda_head`); otherwise the cursor stays.
    fn lambda_head(&mut self) -> (r: Option<Vec<(Token, Option<Ty>)>>)
        requires
            old(self).wf(),
        ensures
            kept(*final(self), *old(self)),
            match lambda_head(old(self).toks(), old(self).pos(), old(self).depth as int) {
                Some((ps, p)) => r matches Some(v) && params_view(v@) == ps && final(self).pos() == p,
                None => r is None && final(self).pos() == old(self).pos(),
            },
            r is Some ==> final(self).pos() > old(self).pos(),
    {
        proof {
            lemma_lambda_head(self.toks(), self.pos(), self.depth as int);
        }
        let saved = self.position;
        let r = self.lambda_attempt();
        if r.is_none() {
            self.position = saved;
        }
        r
    }

    /// Further type arguments (see `generic_rest`); the cursor is left
    /// anywhere when they do not read as such.
    fn generic_rest(&mut self, first: Ty) -> (r: Option<Vec<Ty>>)
        requires
            old(self).wf(),
        ensures
            kept(*final(self), *old(self)),
            match generic_rest(old(self).toks(), old(self).pos(), old(self).depth as int, seq![first@]) {
                Some((tys, p)) => r matches Some(v) && tys_view(v@) == tys && final(self).pos() == p,
                None => r is None,
            },
    {
        let ghost toks = self.toks();
        let ghost d = self.depth as int;
        let ghost start = self.pos();
        let ghost first_view = first@;
        let mut tys: Vec<Ty> = Vec::new();
        tys.push(first);
        proof {
            assert(tys_view(tys@) =~= seq![first_view]);
            reveal_strlit(",");
        }
        loop
            invariant
                kept(*self, *old(self)),
                toks == old(self).toks(),
                d == old(self).depth as int,
                start == old(self).pos(),
                first_view == first@,
                generic_rest(toks, start, d, seq![first_view]) == generic_rest(
                    toks,
                    self.pos(),
                    d,
                    tys_view(tys@),
                ),
            decreases toks.len() - self.pos(),
        {
            let ghost here = self.pos();
            let ghost acc = tys_view(tys@);
            proof {
                reveal_strlit(",");
                lemma_advance(toks, here);
            }
            if !self.eat(",") {
                return Some(tys);
            }
            let t = match self.ty() {
                Ok(t) => t,
                Err(_) => return None,
            };
            proof {
                lemma_ty(toks, advance(toks, here), d);
            }
            tys.push(t);
            proof {
                assert(tys_view(tys@) =~= acc.push(t@));
            }
        }
    }

    /// Explicit generic arguments on `<`, if they read as such (see
    /// `generic_args`); otherwise the cursor stays.
    fn generic_arguments(&mut self) -> (r: Option<Vec<Ty>>)
        requires
            old(self).wf(),
        ensures
            kept(*final(self), *old(self)),
            match generic_args(old(self).toks(), old(self).pos(), old(self).depth as int) {
                Some((tys, p)) => r matches Some(v) && tys_view(v@) == tys && final(self).pos() == p,
                None => r is None && final(self).pos() == old(self).pos(),
            },
            r is Some ==> final(self).pos() > old(self).pos(),
    {
        proof {
            reveal(generic_args);
            lemma_generic_args(self.toks(), self.pos(), self.depth as int);
        }
        let saved = self.position;
        let ghost toks = self.toks();
        self.take();
        let first = match self.ty() {
            Ok(t) => t,
            Err(_) => {
                self.position = saved;
                return None;
            },
        };
        let tys = match self.generic_rest(first) {
            Some(v) => v,
            None => {
                self.position = saved;
                return None;
            },
        };
        if self.expect(">").is_err() {
            self.position = saved;
            return None;
        }
        let ghost p = self.pos();
        proof {
            assert(toks[p].0 == self.tokens@[p].text@);
        }
        let follows = self.at("(") || self.at(")") || self.at(",") || self.at(";") || self.at("\n")
            || self.at("}") || self.at("]") || self.current().text.as_str().is_empty();
        if !follows {
            self.position = saved;
            return None;
        }
        Some(tys)
    }

    /// A match arm's pattern (see `g_pattern`).
    fn pattern(&mut self) -> (r: Result<Pattern, Fault>)
        requires
            old(self).wf(),
        ensures
            kept(*final(self), *old(self)),
            match g_pattern(old(self).toks(), old(self).pos()) {
                Ok((v, p)) => r matches Ok(x) && pattern_view(x) == v && final(self).pos() == p,
                Err(m) => r matches Err(f) && f.message@ == m,
            },
            r is Ok ==> final(self).pos() > old(self).pos(),
    {
        proof {
            reveal_strlit("_");
            reveal_strlit("(");
            reveal_strlit(")");
            reveal_strlit("let");
            lemma_advance(self.toks(), self.pos());
        }
        if self.at("_") {
            return Ok(Pattern::Wildcard(self.take()));
        }
        let name = match self.name() {
            Ok(t) => t,
            Err(f) => return Err(f),
        };
        if self.eat("(") {
            let binding = if self.eat("_") {
                None
            } else {
                if let Err(f) = self.expect("let") {
                    return Err(f);
                }
                match self.name() {
                    Ok(t) => Some(t),
                    Err(f) => return Err(f),
                }
            };
            if let Err(f) = self.expect(")") {
                return Err(f);
            }
            Ok(Pattern::Case(name, Some(binding)))
        } else {
            Ok(Pattern::Case(name, None))
        }
    }
}
fn starts_with_digit_text(s: &str) -> (b: bool)
    ensures
        b == starts_with_digit(s@),
{
    let chars = chars_of(s);
    chars.len() > 0 && '0' <= chars[0] && chars[0] <= '9'
}

fn starts_with_quote(s: &str) -> (b: bool)
    ensures
        b == (s@.len() > 0 && s@[0] == '"'),
{
    let chars = chars_of(s);
    chars.len() > 0 && chars[0] == '"'
}

fn contains_char(s: &String, c: char) -> (b: bool)
    ensures
        b == s@.contains(c),
{
    let chars = chars_of(s.as_str());
    let mut i: usize = 0;
    while i < chars.len()
        invariant
            i <= chars@.len(),
            chars@ == s@,
            forall|k: int| 0 <= k < i ==> chars@[k] != c,
        decreases chars.len() - i,
    {
        if chars[i] == c {
            assert(s@[i as int] == c);
            return true;
        }
        i += 1;
    }
    false
}

/// Reads an unsigned literal below `bound`.
pub(crate) fn unsigned_below(s: &str, bound: u128) -> (r: Option<u64>)
    requires
        0 < bound <= 0x1_0000_0000_0000_0000,
    ensures
        match r {
            Some(v) => parse_unsigned(s@, bound as nat) == Some(v as nat),
            None => parse_unsigned(s@, bound as nat) is None,
        },
{
    let chars = chars_of(s);
    let r = parse_unsigned_at(&chars, 0, chars.len(), bound);
    assert(chars@.subrange(0, chars@.len() as int) =~= s@);
    r
}

/// Reads an `i32` as `i32::from_str` does (see `parse_i32`).
pub(crate) fn parse_i32_text(s: &str) -> (r: Option<i32>)
    ensures
        r == parse_i32(s@),
{
    let chars = chars_of(s);
    if chars.len() > 0 && chars[0] == '-' {
        if chars.len() >= 2 && chars[1] == '+' {
            proof {
                let digits = s@.drop_first();
                assert(digits[0] == '+');
                assert(!all_digits(digits));
            }
            return None;
        }
        let r = parse_unsigned_at(&chars, 1, chars.len(), 0x8000_0001);
        proof {
            let digits = s@.drop_first();
            assert(chars@.subrange(1, chars@.len() as int) =~= digits);
            if digits.len() > 0 {
                assert(digits[0] != '+');
            }
            assert(unsigned_digits(digits) =~= digits);
        }
        match r {
            Some(v) => Some((-(v as i64)) as i32),
            None => None,
        }
    } else {
        let r = parse_unsigned_at(&chars, 0, chars.len(), 0x8000_0000);
        assert(chars@.subrange(0, chars@.len() as int) =~= s@);
        match r {
            Some(v) => Some(v as i32),
            None => None,
        }
    }
}

fn binding_power_text(t: &str) -> (r: Option<u8>)
    ensures
        r == binding_power(t@),
{
    if str_eq(t, "||") {
        Some(1)
    } else if str_eq(t, "&&") {
        Some(2)
    } else if str_eq(t, "==") || str_eq(t, "!=") {
        Some(3)
    } else if str_eq(t, "<") || str_eq(t, ">") || str_eq(t, "<=") || str_eq(t, ">=") {
        Some(4)
    } else if str_eq(t, "+") || str_eq(t, "-") {
        Some(10)
    } else if str_eq(t, "*") || str_eq(t, "/") {
        Some(20)
    } else {
        None
    }
}

/// Whether a statement is a match expression with a block arm (see
/// `ends_in_block_match`).
fn ends_with_block_match(s: &Stmt) -> (b: bool)
    ensures
        b == ends_in_block_match(stmt_view(*s)),
{
    match s {
        Stmt::Expression(e) => match &e.kind {
            ExprKind::Match(value, arms) => {
                let ghost views = arms_view(arms@);
                assert(stmt_view(*s) == StmtView::Expression(expr_view(*e)));
                assert(expr_view(*e).kind == kind_view(e.kind));
                assert(kind_view(e.kind) == ExprKindView::Match(Box::new(expr_view(**value)), views));
                assert(views.len() == arms@.len());
                let mut i: usize = 0;
                while i < arms.len()
                    invariant
                        i <= arms@.len(),
                        views == arms_view(arms@),
                        views.len() == arms@.len(),
                        stmt_view(*s) == StmtView::Expression(expr_view(*e)),
                        expr_view(*e).kind == ExprKindView::Match(Box::new(expr_view(**value)), views),
                        forall|k: int| 0 <= k < i ==> !((#[trigger] views[k]).body is Block),
                    decreases arms.len() - i,
                {
                    assert(views[i as int].body == body_view(arms@[i as int].body));
                    if let ArmBody::Block(b) = &arms[i].body {
                        assert(body_view(arms@[i as int].body) == ArmBodyView::Block(stmts_view(b@)));
                        assert(views[i as int].body is Block);
                        return true;
                    }
                    assert(!(body_view(arms@[i as int].body) is Block));
                    i += 1;
                }
                false
            },
            _ => false,
        },
        _ => false,
    }
}

impl Parser {
    /// Parses an expression binding at least as tightly as `minimum` (see
    /// `g_expression`).
    pub fn expression(&mut self, minimum: u8) -> (r: Result<Expr, Fault>)
        requires
            old(self).wf(),
        ensures
            kept(*final(self), *old(self)),
            expr_result(
                r,
                g_expression(old(self).toks(), old(self).pos(), old(self).depth as int, minimum),
                final(self).pos(),
            ),
            r is Ok ==> final(self).pos() > old(self).pos(),
        decreases 32 - old(self).depth, 0int, old(self).tokens@.len() - old(self).position,
    {
        if self.depth >= 32 {
            return Err(error_fault(&self.tokens, self.position, "expression nesting limit exceeded"));
        }
        let ghost toks = self.toks();
        let ghost pos = self.pos();
        let ghost d = self.depth as int;
        proof {
            lemma_expression_unfold(toks, pos, d, minimum);
        }
        self.depth += 1;
        let result = self.expression_inner(minimum);
        self.depth -= 1;
        result
    }

    /// A lambda, or an operand and what follows it (see `g_inner`).
    fn expression_inner(&mut self, minimum: u8) -> (r: Result<Expr, Fault>)
        requires
            old(self).wf(),
            old(self).depth <= 32,
        ensures
            kept(*final(self), *old(self)),
            expr_result(
                r,
                g_inner(old(self).toks(), old(self).pos(), old(self).depth as int, minimum),
                final(self).pos(),
            ),
            r is Ok ==> final(self).pos() > old(self).pos(),
        decreases 32 - old(self).depth, 9int, old(self).tokens@.len() - old(self).position,
    {
        proof {
            lemma_inner_unfold(self.toks(), self.pos(), self.depth as int, minimum);
        }
        let lambda_at = copy_token(self.current());
        match self.lambda_head() {
            Some(params) => self.lambda(lambda_at, params),
            None => {
                let left = match self.operand() {
                    Ok(e) => e,
                    Err(f) => return Err(f),
                };
                self.postfix(minimum, left)
            },
        }
    }

    /// A lambda's body after its parameters (see `g_lambda`); `at` is its
    /// first token.
    fn lambda(&mut self, at: Token, params: Vec<(Token, Option<Ty>)>) -> (r: Result<Expr, Fault>)
        requires
            old(self).wf(),
        ensures
            kept(*final(self), *old(self)),
            expr_result(
                r,
                g_lambda(
                    old(self).toks(),
                    token_view(at),
                    old(self).pos(),
                    old(self).depth as int,
                    params_view(params@),
                ),
                final(self).pos(),
            ),
            r is Ok ==> final(self).pos() > old(self).pos(),
        decreases 32 - old(self).depth, 3int, old(self).tokens@.len() - old(self).position,
    {
        proof {
            reveal_with_fuel(g_lambda, 1);
        }
        proof {
            lemma_skip_newlines(self.toks(), self.pos());
            reveal_strlit("{");
        }
        self.newlines();
        if self.at("{") {
            let body = match self.block() {
                Ok(b) => b,
                Err(f) => return Err(f),
            };
            self.node(at, ExprKind::Lambda(params, Box::new(ArmBody::Block(body))), 1)
        } else {
            let value = match self.expression(0) {
                Ok(v) => v,
                Err(f) => return Err(f),
            };
            let depth = value.depth + 1;
            self.node(at, ExprKind::Lambda(params, Box::new(ArmBody::Expression(value))), depth)
        }
    }

    /// A node with an operand binding at least as tightly as 30 (see
    /// `g_prefix`).
    fn prefix(&mut self, at: Token, op: String, out: bool) -> (r: Result<Expr, Fault>)
        requires
            old(self).wf(),
        ensures
            kept(*final(self), *old(self)),
            expr_result(
                r,
                g_prefix(old(self).toks(), token_view(at), old(self).pos(), old(self).depth as int, op@, out),
                final(self).pos(),
            ),
            r is Ok ==> final(self).pos() > old(self).pos(),
        decreases 32 - old(self).depth, 1int, old(self).tokens@.len() - old(self).position,
    {
        let value = match self.expression(30) {
            Ok(v) => v,
            Err(f) => return Err(f),
        };
        let depth = value.depth + 1;
        if out {
            self.node(at, ExprKind::Out(Box::new(value)), depth)
        } else {
            self.node(at, ExprKind::Unary(op, Box::new(value)), depth)
        }
    }

    /// Further comma-separated array elements after `items` (see `g_list`).
    fn array_elements(&mut self, initial: Vec<Expr>) -> (r: Result<Vec<Expr>, Fault>)
        requires
            old(self).wf(),
            shallow(initial@),
        ensures
            kept(*final(self), *old(self)),
            exprs_result(
                r,
                g_list(old(self).toks(), old(self).pos(), old(self).depth as int, exprs_view(initial@)),
                final(self).pos(),
            ),
            r is Ok ==> final(self).pos() >= old(self).pos(),
        decreases 32 - old(self).depth, 1int, old(self).tokens@.len() - old(self).position,
    {
        let ghost toks = self.toks();
        let ghost d = self.depth as int;
        let ghost start = self.pos();
        let ghost first = exprs_view(initial@);
        let mut items = initial;
        loop
            invariant
                kept(*self, *old(self)),
                toks == old(self).toks(),
                d == old(self).depth as int,
                start == old(self).pos(),
                first == exprs_view(initial@),
                self.pos() >= start,
                shallow(items@),
                g_list(toks, start, d, first) == g_list(toks, self.pos(), d, exprs_view(items@)),
            decreases toks.len() - self.pos(),
        {
            let ghost here = self.pos();
            let ghost acc = exprs_view(items@);
            proof {
                reveal_strlit(",");
            }
            if !self.eat(",") {
                return Ok(items);
            }
            proof {
                lemma_skip_newlines(toks, self.pos());
            }
            self.newlines();
            let e = match self.expression(0) {
                Ok(e) => e,
                Err(f) => return Err(f),
            };
            proof {
                lemma_skip_newlines(toks, self.pos());
            }
            self.newlines();
            let ghost ev = e@;
            items.push(e);
            proof {
                assert(exprs_view(items@) =~= acc.push(ev));
            }
        }
    }

    /// Comma-separated call arguments (see `g_call_args`).
    pub(crate) fn call_arguments(&mut self) -> (r: Result<Vec<Expr>, Fault>)
        requires
            old(self).wf(),
        ensures
            kept(*final(self), *old(self)),
            exprs_result(
                r,
                g_call_args(old(self).toks(), old(self).pos(), old(self).depth as int, Seq::empty()),
                final(self).pos(),
            ),
            r is Ok ==> final(self).pos() >= old(self).pos(),
        decreases 32 - old(self).depth, 1int, old(self).tokens@.len() - old(self).position,
    {
        let ghost toks = self.toks();
        let ghost d = self.depth as int;
        let ghost start = self.pos();
        let mut args: Vec<Expr> = Vec::new();
        proof {
            assert(exprs_view(args@) =~= Seq::<ExprView>::empty());
        }
        loop
            invariant
                kept(*self, *old(self)),
                toks == old(self).toks(),
                d == old(self).depth as int,
                start == old(self).pos(),
                self.pos() >= start,
                shallow(args@),
                g_call_args(toks, start, d, Seq::empty()) == g_call_args(
                    toks,
                    self.pos(),
                    d,
                    exprs_view(args@),
                ),
            decreases toks.len() - self.pos(),
        {
            let ghost here = self.pos();
            let ghost acc = exprs_view(args@);
            let e = match self.expression(0) {
                Ok(e) => e,
                Err(f) => return Err(f),
            };
            proof {
                lemma_skip_newlines(toks, self.pos());
            }
            self.newlines();
            let ghost ev = e@;
            args.push(e);
            proof {
                assert(exprs_view(args@) =~= acc.push(ev));
                reveal_strlit(",");
            }
            if !self.eat(",") {
                return Ok(args);
            }
            proof {
                lemma_skip_newlines(toks, self.pos());
            }
            self.newlines();
        }
    }

    /// The elements of an array creation's initializer (see
    /// `g_new_elements`).
    fn initializer_elements(&mut self) -> (r: Result<Vec<Expr>, Fault>)
        requires
            old(self).wf(),
        ensures
            kept(*final(self), *old(self)),
            exprs_result(
                r,
                g_new_elements(old(self).toks(), old(self).pos(), old(self).depth as int, Seq::empty()),
                final(self).pos(),
            ),
            r is Ok ==> final(self).pos() >= old(self).pos(),
        decreases 32 - old(self).depth, 1int, old(self).tokens@.len() - old(self).position,
    {
        let ghost toks = self.toks();
        let ghost d = self.depth as int;
        let ghost start = self.pos();
        let mut items: Vec<Expr> = Vec::new();
        proof {
            assert(exprs_view(items@) =~= Seq::<ExprView>::empty());
        }
        loop
            invariant
                kept(*self, *old(self)),
                toks == old(self).toks(),
                d == old(self).depth as int,
                start == old(self).pos(),
                self.pos() >= start,
                shallow(items@),
                g_new_elements(toks, start, d, Seq::empty()) == g_new_elements(
                    toks,
                    self.pos(),
                    d,
                    exprs_view(items@),
                ),
            decreases toks.len() - self.pos(),
        {
            let ghost acc = exprs_view(items@);
            proof {
                reveal_strlit("}");
                reveal_strlit(",");
            }
            if self.at("}") {
                return Ok(items);
            }
            let e = match self.expression(0) {
                Ok(e) => e,
                Err(f) => return Err(f),
            };
            proof {
                lemma_skip_newlines(toks, self.pos());
            }
            self.newlines();
            let ghost ev = e@;
            items.push(e);
            proof {
                assert(exprs_view(items@) =~= acc.push(ev));
            }
            if !self.eat(",") {
                return Ok(items);
            }
            proof {
                lemma_skip_newlines(toks, self.pos());
            }
            self.newlines();
        }
    }

    /// `new` and a type: an array creation, or an operand (see `g_new`).
    fn new_expression(&mut self, at: Token) -> (r: Result<Expr, Fault>)
        requires
            old(self).wf(),
        ensures
            kept(*final(self), *old(self)),
            expr_result(
                r,
                g_new(old(self).toks(), token_view(at), old(self).pos(), old(self).depth as int),
                final(self).pos(),
            ),
            r is Ok ==> final(self).pos() > old(self).pos(),
        decreases 32 - old(self).depth, 2int, old(self).tokens@.len() - old(self).position,
    {
        proof {
            reveal_with_fuel(g_new, 1);
        }
        let ghost toks = self.toks();
        proof {
            reveal_with_fuel(g_new, 1);
        }
        let saved = self.position;
        let ty = match self.ty() {
            Ok(t) => t,
            Err(f) => return Err(f),
        };
        proof {
            reveal_strlit("[");
            reveal_strlit("]");
            reveal_strlit("{");
            reveal_strlit("}");
            lemma_advance(toks, self.pos());
        }
        if self.eat("[") {
            let length = match self.expression(0) {
                Ok(e) => e,
                Err(f) => return Err(f),
            };
            if let Err(f) = self.expect("]") {
                return Err(f);
            }
            let mut elements: Vec<Expr> = Vec::new();
            proof {
                assert(exprs_view(elements@) =~= Seq::<ExprView>::empty());
                lemma_advance(toks, self.pos());
            }
            if self.eat("{") {
                proof {
                    lemma_skip_newlines(toks, self.pos());
                }
                self.newlines();
                elements = match self.initializer_elements() {
                    Ok(v) => v,
                    Err(f) => return Err(f),
                };
                if let Err(f) = self.expect("}") {
                    return Err(f);
                }
            }
            let deepest_element = deepest_of(&elements);
            let depth = if deepest_element >= length.depth {
                deepest_element
            } else {
                length.depth
            } + 1;
            self.node(at, ExprKind::NewArray(ty, Box::new(length), elements), depth)
        } else {
            self.position = saved;
            self.prefix(at, String::from_str("new"), false)
        }
    }
}

impl Parser {
    /// An array literal after its `[` (`at`) (see `g_array_literal`).
    fn array_literal(&mut self, at: Token) -> (r: Result<Expr, Fault>)
        requires
            old(self).wf(),
        ensures
            kept(*final(self), *old(self)),
            expr_result(
                r,
                g_array_literal(old(self).toks(), token_view(at), old(self).pos(), old(self).depth as int),
                final(self).pos(),
            ),
            r is Ok ==> final(self).pos() > old(self).pos(),
        decreases 32 - old(self).depth, 2int, old(self).tokens@.len() - old(self).position,
    {
        proof {
            reveal_with_fuel(g_array_literal, 1);
        }
        let ghost toks = self.toks();
        proof {
            lemma_skip_newlines(toks, self.pos());
            reveal_strlit("]");
        }
        self.newlines();
        let first = match self.expression(0) {
            Ok(e) => e,
            Err(f) => return Err(f),
        };
        proof {
            lemma_skip_newlines(toks, self.pos());
        }
        self.newlines();
        let ghost fv = first@;
        let mut initial: Vec<Expr> = Vec::new();
        initial.push(first);
        proof {
            assert(exprs_view(initial@) =~= seq![fv]);
        }
        let items = match self.array_elements(initial) {
            Ok(v) => v,
            Err(f) => return Err(f),
        };
        if let Err(f) = self.expect("]") {
            return Err(f);
        }
        let depth = deepest_of(&items) + 1;
        self.node(at, ExprKind::ArrayLiteral(items), depth)
    }

    /// A parenthesised expression after its `(` (see `g_paren`).
    fn paren(&mut self) -> (r: Result<Expr, Fault>)
        requires
            old(self).wf(),
        ensures
            kept(*final(self), *old(self)),
            expr_result(r, g_paren(old(self).toks(), old(self).pos(), old(self).depth as int), final(self).pos()),
            r is Ok ==> final(self).pos() > old(self).pos(),
        decreases 32 - old(self).depth, 2int, old(self).tokens@.len() - old(self).position,
    {
        let ghost toks = self.toks();
        proof {
            lemma_skip_newlines(toks, self.pos());
            reveal_strlit(")");
        }
        self.newlines();
        let value = match self.expression(0) {
            Ok(e) => e,
            Err(f) => return Err(f),
        };
        proof {
            lemma_skip_newlines(toks, self.pos());
        }
        self.newlines();
        if let Err(f) = self.expect(")") {
            return Err(f);
        }
        Ok(value)
    }

    /// `typeof` or `default` (`at`) with its type (see `g_type_operand`).
    fn type_operand(&mut self, at: Token) -> (r: Result<Expr, Fault>)
        requires
            old(self).wf(),
        ensures
            kept(*final(self), *old(self)),
            expr_result(
                r,
                g_type_operand(old(self).toks(), token_view(at), old(self).pos(), old(self).depth as int),
                final(self).pos(),
            ),
            r is Ok ==> final(self).pos() > old(self).pos(),
    {
        proof {
            reveal(g_type_operand);
        }
        let ghost toks = self.toks();
        proof {
            reveal_strlit("(");
            reveal_strlit(")");
            reveal_strlit("default");
        }
        let is_default = str_eq(at.text.as_str(), "default");
        if let Err(f) = self.expect("(") {
            return Err(f);
        }
        proof {
            lemma_skip_newlines(toks, self.pos());
        }
        self.newlines();
        let t = match self.ty() {
            Ok(t) => t,
            Err(f) => return Err(f),
        };
        proof {
            lemma_skip_newlines(toks, self.pos());
        }
        self.newlines();
        if let Err(f) = self.expect(")") {
            return Err(f);
        }
        let kind = if is_default {
            ExprKind::Default(t)
        } else {
            ExprKind::TypeOf(t)
        };
        self.node(at, kind, 1)
    }

    /// A negative integer literal after its `-` (`at`) (see `g_negative`).
    fn negative(&mut self, at: Token) -> (r: Result<Expr, Fault>)
        requires
            old(self).wf(),
            starts_with_digit(old(self).toks()[old(self).pos()].0),
        ensures
            kept(*final(self), *old(self)),
            expr_result(r, g_negative(old(self).toks(), token_view(at), old(self).pos()), final(self).pos()),
            r is Ok ==> final(self).pos() > old(self).pos(),
    {
        let literal = self.take();
        match unsigned_below(literal.text.as_str(), 0x8000_0001) {
            None => Err(positioned_fault(literal.line, literal.column, "integer literal is outside Int32 range")),
            Some(v) => self.node(at, ExprKind::Int((-(v as i64)) as i32), 1),
        }
    }

    /// A literal or a name (see `g_simple_operand`); the cursor is just
    /// after `at`, which stood at `start`.
    fn simple_operand(&mut self, at: Token, start: usize) -> (r: Result<Expr, Fault>)
        requires
            old(self).wf(),
            start < old(self).tokens@.len(),
            old(self).tokens@[start as int] == at,
            old(self).pos() == advance(old(self).toks(), start as int),
        ensures
            kept(*final(self), *old(self)),
            expr_result(r, g_simple_operand(old(self).toks(), start as int, old(self).depth as int), final(self).pos()),
            r is Ok ==> final(self).pos() > start,
    {
        proof {
            reveal(g_simple_operand);
        }
        let ghost toks = self.toks();
        proof {
            lemma_advance(toks, start as int);
            reveal_strlit("true");
            reveal_strlit("false");
            reveal_strlit(".");
            assert(token_view(at) == toks[start as int]);
        }
        let text = at.text.as_str();
        if starts_with_quote(text) {
            return match decode_string(text) {
                None => Err(positioned_fault(at.line, at.column, "invalid string escape")),
                Some(value) => self.node(at, ExprKind::String(value), 1),
            };
        }
        if starts_with_digit_text(text) {
            return match unsigned_below(text, 0x8000_0000) {
                None => Err(positioned_fault(at.line, at.column, "integer literal is outside Int32 range")),
                Some(v) => self.node(at, ExprKind::Int(v as i32), 1),
            };
        }
        if str_eq(text, "true") || str_eq(text, "false") {
            let value = str_eq(text, "true");
            return self.node(at, ExprKind::Bool(value), 1);
        }
        let chars = chars_of(text);
        if is_valid_slot_name(&chars) {
            let saved = self.position;
            self.position = start;
            match self.ty() {
                Ok(t) => {
                    let spelled = t.il();
                    if contains_char(&spelled, '<') && self.at(".") {
                        return self.node(at, ExprKind::Name(spelled), 1);
                    }
                },
                Err(_) => {},
            }
            self.position = saved;
            let name = at.text.clone();
            return self.node(at, ExprKind::Name(name), 1);
        }
        Err(positioned_fault(at.line, at.column, "expected expression"))
    }

    /// An operand (see `g_operand`).
    fn operand(&mut self) -> (r: Result<Expr, Fault>)
        requires
            old(self).wf(),
        ensures
            kept(*final(self), *old(self)),
            expr_result(r, g_operand(old(self).toks(), old(self).pos(), old(self).depth as int), final(self).pos()),
            r is Ok ==> final(self).pos() > old(self).pos(),
        decreases 32 - old(self).depth, 4int, old(self).tokens@.len() - old(self).position,
    {
        proof {
            reveal_with_fuel(g_operand, 1);
        }
        let ghost toks = self.toks();
        let ghost pos = self.pos();
        let start = self.position;
        let at = self.take();
        proof {
            lemma_advance(toks, pos);
            reveal_strlit("[");
            reveal_strlit("new");
            reveal_strlit("out");
            reveal_strlit("typeof");
            reveal_strlit("default");
            reveal_strlit("(");
            reveal_strlit("-");
            reveal_strlit("&");
            reveal_strlit("!");
            assert(token_view(at) == toks[pos]);
            assert(toks[self.pos()].0 == self.tokens@[self.pos() as int].text@);
        }
        let ghost d = self.depth as int;
        let ghost p = self.pos();
        let ghost goal = g_operand(toks, pos, d);
        proof {
            lemma_operand_cases(toks, pos, d);
        }
        let text = at.text.as_str();
        if str_eq(text, "[") {
            assert(goal == g_array_literal(toks, toks[pos], p, d));
            self.array_literal(at)
        } else if str_eq(text, "new") {
            assert(goal == g_new(toks, toks[pos], p, d));
            self.new_expression(at)
        } else if str_eq(text, "out") {
            assert(goal == g_prefix(toks, toks[pos], p, d, Seq::empty(), true));
            self.prefix(at, String::new(), true)
        } else if str_eq(text, "typeof") || str_eq(text, "default") {
            assert(goal == g_type_operand(toks, toks[pos], p, d));
            self.type_operand(at)
        } else if str_eq(text, "-") && starts_with_digit_text(self.current().text.as_str()) {
            assert(goal == g_negative(toks, toks[pos], p));
            self.negative(at)
        } else if str_eq(text, "&") || str_eq(text, "-") || str_eq(text, "!") {
            assert(goal == g_prefix(toks, toks[pos], p, d, toks[pos].0, false));
            let op = at.text.clone();
            self.prefix(at, op, false)
        } else if str_eq(text, "(") {
            assert(goal == g_paren(toks, p, d));
            self.paren()
        } else {
            assert(goal == g_simple_operand(toks, pos, d));
            self.simple_operand(at, start)
        }
    }
}

impl Parser {
    /// `as` and an interface type after `left` (see `g_cast_step`).
    fn cast_step(&mut self, left: Expr) -> (r: Result<Expr, Fault>)
        requires
            old(self).wf(),
            left.depth <= 128,
        ensures
            kept(*final(self), *old(self)),
            expr_result(r, g_cast_step(old(self).toks(), old(self).pos(), old(self).depth as int, left@), final(self).pos()),
            r is Ok ==> final(self).pos() > old(self).pos(),
    {
        proof {
            reveal(g_cast_step);
        }
        let ghost pos = self.pos();
        proof {
            lemma_advance(self.toks(), pos);
        }
        self.take();
        let target = match self.ty() {
            Ok(t) => t,
            Err(f) => return Err(f),
        };
        let at = copy_token(&left.at);
        let depth = left.depth + 1;
        self.node(at, ExprKind::InterfaceCast(Box::new(left), target), depth)
    }

    /// `match` and its arms after `left` (see `g_match_step`).
    #[verifier::rlimit(40)]
    fn match_step(&mut self, left: Expr) -> (r: Result<Expr, Fault>)
        requires
            old(self).wf(),
            left.depth <= 128,
        ensures
            kept(*final(self), *old(self)),
            expr_result(r, g_match_step(old(self).toks(), old(self).pos(), old(self).depth as int, left@), final(self).pos()),
            r is Ok ==> final(self).pos() > old(self).pos(),
        decreases 32 - old(self).depth, 5int, old(self).tokens@.len() - old(self).position,
    {
        let ghost toks = self.toks();
        proof {
            lemma_match_step_unfold(toks, self.pos(), self.depth as int, left@);
            lemma_advance(toks, self.pos());
            reveal_strlit("{");
            reveal_strlit("}");
        }
        self.take();
        proof {
            lemma_skip_newlines(toks, self.pos());
        }
        self.newlines();
        if let Err(f) = self.expect("{") {
            return Err(f);
        }
        proof {
            lemma_skip_lines(toks, self.pos());
        }
        self.lines();
        let (arms, depth) = match self.arms(left.depth + 1) {
            Ok(x) => x,
            Err(f) => return Err(f),
        };
        if let Err(f) = self.expect("}") {
            return Err(f);
        }
        let at = copy_token(&left.at);
        self.node(at, ExprKind::Match(Box::new(left), arms), depth)
    }

    /// `[`, an index and `]` after `left` (see `g_index_step`).
    fn index_step(&mut self, left: Expr) -> (r: Result<Expr, Fault>)
        requires
            old(self).wf(),
            left.depth <= 128,
        ensures
            kept(*final(self), *old(self)),
            expr_result(r, g_index_step(old(self).toks(), old(self).pos(), old(self).depth as int, left@), final(self).pos()),
            r is Ok ==> final(self).pos() > old(self).pos(),
        decreases 32 - old(self).depth, 1int, old(self).tokens@.len() - old(self).position,
    {
        proof {
            reveal_with_fuel(g_index_step, 1);
        }
        proof {
            lemma_advance(self.toks(), self.pos());
            reveal_strlit("]");
        }
        self.take();
        let index = match self.expression(0) {
            Ok(e) => e,
            Err(f) => return Err(f),
        };
        if let Err(f) = self.expect("]") {
            return Err(f);
        }
        let depth = if left.depth >= index.depth {
            left.depth
        } else {
            index.depth
        } + 1;
        let at = copy_token(&left.at);
        self.node(at, ExprKind::Index(Box::new(left), Box::new(index)), depth)
    }

    /// `.` and a field name after `left` (see `g_field_step`).
    fn field_step(&mut self, left: Expr) -> (r: Result<Expr, Fault>)
        requires
            old(self).wf(),
            left.depth <= 128,
        ensures
            kept(*final(self), *old(self)),
            expr_result(r, g_field_step(old(self).toks(), old(self).pos(), left@), final(self).pos()),
            r is Ok ==> final(self).pos() > old(self).pos(),
    {
        proof {
            reveal(g_field_step);
        }
        proof {
            lemma_advance(self.toks(), self.pos());
        }
        self.take();
        let field = match self.name() {
            Ok(t) => t,
            Err(f) => return Err(f),
        };
        let at = copy_token(&left.at);
        let depth = left.depth + 1;
        self.node(at, ExprKind::Field(Box::new(left), field), depth)
    }

    /// `(`, call arguments and `)` after `left` (see `g_call_step`).
    fn call_step(&mut self, left: Expr) -> (r: Result<Expr, Fault>)
        requires
            old(self).wf(),
            left.depth <= 128,
        ensures
            kept(*final(self), *old(self)),
            expr_result(r, g_call_step(old(self).toks(), old(self).pos(), old(self).depth as int, left@), final(self).pos()),
            r is Ok ==> final(self).pos() > old(self).pos(),
        decreases 32 - old(self).depth, 2int, old(self).tokens@.len() - old(self).position,
    {
        proof {
            reveal_with_fuel(g_call_step, 1);
        }
        let ghost toks = self.toks();
        proof {
            lemma_advance(toks, self.pos());
            reveal_strlit(")");
        }
        self.take();
        proof {
            lemma_skip_newlines(toks, self.pos());
        }
        self.newlines();
        let args = if self.at(")") {
            let none: Vec<Expr> = Vec::new();
            proof {
                assert(exprs_view(none@) =~= Seq::<ExprView>::empty());
            }
            none
        } else {
            match self.call_arguments() {
                Ok(v) => v,
                Err(f) => return Err(f),
            }
        };
        if let Err(f) = self.expect(")") {
            return Err(f);
        }
        let deepest_argument = deepest_of(&args);
        let depth = if deepest_argument >= left.depth {
            deepest_argument
        } else {
            left.depth
        } + 1;
        let at = copy_token(&left.at);
        self.node(at, ExprKind::Call(Box::new(left), args), depth)
    }

    /// A binary operator of binding power `b` and its right operand after
    /// `left` (see `g_binary_step`).
    fn binary_step(&mut self, b: u8, left: Expr) -> (r: Result<Expr, Fault>)
        requires
            old(self).wf(),
            left.depth <= 128,
            b <= 20,
        ensures
            kept(*final(self), *old(self)),
            expr_result(r, g_binary_step(old(self).toks(), old(self).pos(), old(self).depth as int, b, left@), final(self).pos()),
            r is Ok ==> final(self).pos() > old(self).pos(),
        decreases 32 - old(self).depth, 1int, old(self).tokens@.len() - old(self).position,
    {
        proof {
            reveal_with_fuel(g_binary_step, 1);
        }
        proof {
            lemma_advance(self.toks(), self.pos());
        }
        let op = self.take();
        let right = match self.expression(b + 1) {
            Ok(e) => e,
            Err(f) => return Err(f),
        };
        let depth = if left.depth >= right.depth {
            left.depth
        } else {
            right.depth
        } + 1;
        let operator = op.text.clone();
        self.node(op, ExprKind::Binary(operator, Box::new(left), Box::new(right)), depth)
    }

    /// One step after an operand (see `g_step`): the extended operand and
    /// `true`, or the operand back and `false` with the cursor unmoved.
    #[verifier::rlimit(40)]
    fn step(&mut self, minimum: u8, left: Expr) -> (r: Result<(Expr, bool), Fault>)
        requires
            old(self).wf(),
            left.depth <= 128,
        ensures
            kept(*final(self), *old(self)),
            match g_step(old(self).toks(), old(self).pos(), old(self).depth as int, minimum, left@) {
                Err(m) => r matches Err(f) && f.message@ == m,
                Ok(None) => r matches Ok((x, false)) && x == left && final(self).pos() == old(self).pos(),
                Ok(Some((e, q))) => r matches Ok((x, true)) && x@ == e && x.depth <= 128 && final(self).pos() == q
                    && q > old(self).pos(),
            },
        decreases 32 - old(self).depth, 6int, old(self).tokens@.len() - old(self).position,
    {
        let ghost toks = self.toks();
        let ghost pos = self.pos();
        let ghost d = self.depth as int;
        let ghost lv = left@;
        proof {
            lemma_step_cases(toks, pos, d, minimum, lv);
            lemma_advance(toks, pos);
            assert(toks[pos].0 == self.tokens@[pos].text@);
        }
        if self.at("<") {
            proof {
                lemma_generic_args(toks, pos, d);
            }
            if let Some(tys) = self.generic_arguments() {
                let at = copy_token(&left.at);
                let depth = left.depth + 1;
                return match self.node(at, ExprKind::Generic(Box::new(left), tys), depth) {
                    Ok(e) => Ok((e, true)),
                    Err(f) => Err(f),
                };
            }
        }
        if self.at("as") && minimum <= 7 {
            return match self.cast_step(left) {
                Ok(e) => Ok((e, true)),
                Err(f) => Err(f),
            };
        }
        if self.at("match") && minimum == 0 {
            return match self.match_step(left) {
                Ok(e) => Ok((e, true)),
                Err(f) => Err(f),
            };
        }
        if self.at("[") {
            return match self.index_step(left) {
                Ok(e) => Ok((e, true)),
                Err(f) => Err(f),
            };
        }
        if self.at(".") {
            return match self.field_step(left) {
                Ok(e) => Ok((e, true)),
                Err(f) => Err(f),
            };
        }
        if self.at("(") {
            return match self.call_step(left) {
                Ok(e) => Ok((e, true)),
                Err(f) => Err(f),
            };
        }
        match binding_power_text(self.current().text.as_str()) {
            None => Ok((left, false)),
            Some(b) => {
                if b < minimum {
                    return Ok((left, false));
                }
                match self.binary_step(b, left) {
                    Ok(e) => Ok((e, true)),
                    Err(f) => Err(f),
                }
            },
        }
    }

    /// What follows an operand (see `g_postfix`).
    fn postfix(&mut self, minimum: u8, operand: Expr) -> (r: Result<Expr, Fault>)
        requires
            old(self).wf(),
            operand.depth <= 128,
        ensures
            kept(*final(self), *old(self)),
            expr_result(
                r,
                g_postfix(old(self).toks(), old(self).pos(), old(self).depth as int, minimum, operand@),
                final(self).pos(),
            ),
            r is Ok ==> final(self).pos() >= old(self).pos(),
        decreases 32 - old(self).depth, 7int, old(self).tokens@.len() - old(self).position,
    {
        let ghost toks = self.toks();
        let ghost d = self.depth as int;
        let ghost start = self.pos();
        let mut left = operand;
        loop
            invariant
                kept(*self, *old(self)),
                toks == old(self).toks(),
                d == old(self).depth as int,
                start == old(self).pos(),
                self.pos() >= start,
                left.depth <= 128,
                g_postfix(toks, start, d, minimum, operand@) == g_postfix(toks, self.pos(), d, minimum, left@),
            decreases toks.len() - self.pos(),
        {
            let ghost here = self.pos();
            let ghost lv = left@;
            proof {
                lemma_postfix_unfold(toks, here, d, minimum, lv);
            }
            let (next, moved) = match self.step(minimum, left) {
                Ok(x) => x,
                Err(f) => {
                    assert(g_step(toks, here, d, minimum, lv) is Err);
                    return Err(f);
                },
            };
            if !moved {
                assert(g_step(toks, here, d, minimum, lv) == Ok::<Option<(ExprView, int)>, Seq<char>>(None));
                return Ok(next);
            }
            assert(g_postfix(toks, here, d, minimum, lv) == g_postfix(toks, self.pos(), d, minimum, next@));
            left = next;
        }
    }

    /// A match arm's body (see `g_arm_body`): the body, and the match's
    /// depth so far raised by an expression body.
    fn arm_body(&mut self, depth: usize) -> (r: Result<(ArmBody, usize), Fault>)
        requires
            old(self).wf(),
            depth <= 129,
        ensures
            kept(*final(self), *old(self)),
            match g_arm_body(old(self).toks(), old(self).pos(), old(self).depth as int, depth as int) {
                Ok((b, dd, p)) => r matches Ok((x, y)) && body_view(x) == b && y as int == dd && y <= 129
                    && final(self).pos() == p,
                Err(m) => r matches Err(f) && f.message@ == m,
            },
            r is Ok ==> final(self).pos() > old(self).pos(),
        decreases 32 - old(self).depth, 3int, old(self).tokens@.len() - old(self).position,
    {
        proof {
            reveal_strlit("{");
        }
        if self.at("{") {
            match self.block() {
                Ok(b) => Ok((ArmBody::Block(b), depth)),
                Err(f) => Err(f),
            }
        } else {
            let value = match self.expression(0) {
                Ok(e) => e,
                Err(f) => return Err(f),
            };
            let raised = if depth >= value.depth + 1 {
                depth
            } else {
                value.depth + 1
            };
            Ok((ArmBody::Expression(value), raised))
        }
    }

    /// What separates a match arm from the next (see `arm_separator`).
    fn arm_separator(&mut self) -> (r: Result<(), Fault>)
        requires
            old(self).wf(),
        ensures
            kept(*final(self), *old(self)),
            match arm_separator(old(self).toks(), old(self).pos()) {
                Ok(p) => r is Ok && final(self).pos() == p,
                Err(m) => r matches Err(f) && f.message@ == m,
            },
            r is Ok ==> final(self).pos() >= old(self).pos(),
    {
        proof {
            reveal_strlit("}");
            reveal_strlit(",");
            reveal_strlit("\n");
        }
        if self.at("}") || self.eat(",") {
            return Ok(());
        }
        match self.expect("\n") {
            Ok(_) => Ok(()),
            Err(f) => Err(f),
        }
    }

    /// Match arms (see `g_arms`), the match's depth so far being `initial`.
    fn arms(&mut self, initial: usize) -> (r: Result<(Vec<Arm>, usize), Fault>)
        requires
            old(self).wf(),
            initial <= 129,
        ensures
            kept(*final(self), *old(self)),
            match g_arms(old(self).toks(), old(self).pos(), old(self).depth as int, Seq::empty(), initial as int) {
                Ok((arms, dd, p)) => r matches Ok((v, x)) && arms_view(v@) == arms && x as int == dd
                    && x <= 129 && final(self).pos() == p,
                Err(m) => r matches Err(f) && f.message@ == m,
            },
            r is Ok ==> final(self).pos() >= old(self).pos(),
        decreases 32 - old(self).depth, 4int, old(self).tokens@.len() - old(self).position,
    {
        let ghost toks = self.toks();
        let ghost d = self.depth as int;
        let ghost start = self.pos();
        let mut arms: Vec<Arm> = Vec::new();
        let mut depth = initial;
        proof {
            assert(arms_view(arms@) =~= Seq::<ArmView>::empty());
        }
        loop
            invariant
                kept(*self, *old(self)),
                toks == old(self).toks(),
                d == old(self).depth as int,
                start == old(self).pos(),
                self.pos() >= start,
                depth <= 129,
                g_arms(toks, start, d, Seq::empty(), initial as int) == g_arms(
                    toks,
                    self.pos(),
                    d,
                    arms_view(arms@),
                    depth as int,
                ),
            decreases toks.len() - self.pos(),
        {
            let ghost here = self.pos();
            let ghost acc = arms_view(arms@);
            proof {
                reveal_with_fuel(g_arms, 1);
                reveal_strlit("}");
                reveal_strlit("=>");
                assert(toks[here].0 == self.tokens@[here].text@);
            }
            if self.at("}") || self.current().text.as_str().is_empty() {
                return Ok((arms, depth));
            }
            let pattern = match self.pattern() {
                Ok(p) => p,
                Err(f) => return Err(f),
            };
            if let Err(f) = self.expect("=>") {
                return Err(f);
            }
            proof {
                lemma_skip_newlines(toks, self.pos());
            }
            self.newlines();
            let (body, raised) = match self.arm_body(depth) {
                Ok(x) => x,
                Err(f) => return Err(f),
            };
            depth = raised;
            let ghost pv = pattern_view(pattern);
            let ghost bv = body_view(body);
            arms.push(Arm { pattern, body });
            proof {
                assert(arms_view(arms@) =~= acc.push(ArmView { pattern: pv, body: bv }));
            }
            if let Err(f) = self.arm_separator() {
                return Err(f);
            }
            proof {
                lemma_skip_lines(toks, self.pos());
            }
            self.lines();
        }
    }
}

impl Parser {
    /// Parses a brace-enclosed block (see `g_block`).
    pub fn block(&mut self) -> (r: Result<Vec<Stmt>, Fault>)
        requires
            old(self).wf(),
        ensures
            kept(*final(self), *old(self)),
            stmts_result(r, g_block(old(self).toks(), old(self).pos(), old(self).depth as int), final(self).pos()),
            r is Ok ==> final(self).pos() > old(self).pos(),
        decreases 32 - old(self).depth, 2int, old(self).tokens@.len() - old(self).position,
    {
        let ghost toks = self.toks();
        proof {
            lemma_skip_newlines(toks, self.pos());
            reveal_strlit("{");
            reveal_strlit("}");
        }
        self.newlines();
        if let Err(f) = self.expect("{") {
            return Err(f);
        }
        proof {
            lemma_skip_lines(toks, self.pos());
        }
        self.lines();
        let statements = match self.block_items() {
            Ok(v) => v,
            Err(f) => return Err(f),
        };
        if let Err(f) = self.expect("}") {
            return Err(f);
        }
        Ok(statements)
    }

    /// Statements until a closing brace or the end (see `g_block_items`).
    fn block_items(&mut self) -> (r: Result<Vec<Stmt>, Fault>)
        requires
            old(self).wf(),
        ensures
            kept(*final(self), *old(self)),
            stmts_result(
                r,
                g_block_items(old(self).toks(), old(self).pos(), old(self).depth as int, Seq::empty()),
                final(self).pos(),
            ),
            r is Ok ==> final(self).pos() >= old(self).pos(),
        decreases 32 - old(self).depth, 1int, old(self).tokens@.len() - old(self).position,
    {
        let ghost toks = self.toks();
        let ghost d = self.depth as int;
        let ghost start = self.pos();
        let mut statements: Vec<Stmt> = Vec::new();
        proof {
            assert(stmts_view(statements@) =~= Seq::<StmtView>::empty());
        }
        loop
            invariant
                kept(*self, *old(self)),
                toks == old(self).toks(),
                d == old(self).depth as int,
                start == old(self).pos(),
                self.pos() >= start,
                g_block_items(toks, start, d, Seq::empty()) == g_block_items(
                    toks,
                    self.pos(),
                    d,
                    stmts_view(statements@),
                ),
            decreases toks.len() - self.pos(),
        {
            let ghost here = self.pos();
            let ghost acc = stmts_view(statements@);
            proof {
                reveal_strlit("}");
                assert(toks[here].0 == self.tokens@[here].text@);
            }
            if self.at("}") || self.current().text.as_str().is_empty() {
                return Ok(statements);
            }
            let s = match self.statement() {
                Ok(s) => s,
                Err(f) => return Err(f),
            };
            proof {
                lemma_skip_lines(toks, self.pos());
            }
            self.lines();
            let ghost sv = stmt_view(s);
            statements.push(s);
            proof {
                assert(stmts_view(statements@) =~= acc.push(sv));
            }
        }
    }

    /// Parses a statement (see `g_statement`).
    pub fn statement(&mut self) -> (r: Result<Stmt, Fault>)
        requires
            old(self).wf(),
        ensures
            kept(*final(self), *old(self)),
            stmt_result(r, g_statement(old(self).toks(), old(self).pos(), old(self).depth as int), final(self).pos()),
            r is Ok ==> final(self).pos() > old(self).pos(),
        decreases 32 - old(self).depth, 0int, old(self).tokens@.len() - old(self).position,
    {
        if self.depth >= 32 {
            return Err(error_fault(&self.tokens, self.position, "statement nesting limit exceeded"));
        }
        proof {
            lemma_statement_unfold(self.toks(), self.pos(), self.depth as int);
        }
        self.depth += 1;
        let result = self.statement_inner();
        self.depth -= 1;
        result
    }

    /// The optional array extent after an annotation (see `extent_of`).
    fn extent(&mut self, annotated: bool) -> (r: Result<Option<i32>, Fault>)
        requires
            old(self).wf(),
        ensures
            kept(*final(self), *old(self)),
            match extent_of(old(self).toks(), old(self).pos(), annotated) {
                Ok((n, p)) => r == Ok::<Option<i32>, Fault>(n) && final(self).pos() == p,
                Err(m) => r matches Err(f) && f.message@ == m,
            },
            r is Ok ==> final(self).pos() >= old(self).pos(),
    {
        proof {
            reveal_strlit("[");
            reveal_strlit("]");
        }
        if !(annotated && self.eat("[")) {
            return Ok(None);
        }
        let at = self.take();
        match parse_i32_text(at.text.as_str()) {
            None => Err(positioned_fault(at.line, at.column, "array extent must be a nonnegative Int32 literal")),
            Some(n) => match self.expect("]") {
                Ok(_) => Ok(Some(n)),
                Err(f) => Err(f),
            },
        }
    }

    /// A declaration with `let` or `var` (see `g_binding`).
    fn binding(&mut self) -> (r: Result<Stmt, Fault>)
        requires
            old(self).wf(),
        ensures
            kept(*final(self), *old(self)),
            stmt_result(r, g_binding(old(self).toks(), old(self).pos(), old(self).depth as int), final(self).pos()),
            r is Ok ==> final(self).pos() > old(self).pos(),
        decreases 32 - old(self).depth, 1int, old(self).tokens@.len() - old(self).position,
    {
        proof {
            reveal_with_fuel(g_binding, 1);
        }
        let ghost toks = self.toks();
        let ghost pos = self.pos();
        proof {
            reveal_strlit("var");
            reveal_strlit(":");
            reveal_strlit("=");
            lemma_advance(toks, pos);
        }
        let keyword = self.take();
        let mutable = str_eq(keyword.text.as_str(), "var");
        let name = match self.name() {
            Ok(t) => t,
            Err(f) => return Err(f),
        };
        let annotation = if self.eat(":") {
            match self.ty() {
                Ok(t) => Some(t),
                Err(f) => return Err(f),
            }
        } else {
            None
        };
        let extent = match self.extent(annotation.is_some()) {
            Ok(n) => n,
            Err(f) => return Err(f),
        };
        let annotation = match annotation {
            Some(t) => if extent.is_some() {
                Some(Ty::Array(Box::new(t)))
            } else {
                Some(t)
            },
            None => None,
        };
        let value = if self.eat("=") {
            match self.expression(0) {
                Ok(e) => Some(e),
                Err(f) => return Err(f),
            }
        } else {
            if !mutable || annotation.is_none() {
                return Err(
                    positioned_fault(
                        name.line,
                        name.column,
                        "uninitialized declaration requires var and an explicit type",
                    ),
                );
            }
            None
        };
        if extent.is_some() && value.is_none() {
            return Err(positioned_fault(name.line, name.column, "fixed-extent local requires an initializer"));
        }
        Ok(Stmt::Bind { name, mutable, annotation, extent, value })
    }

    /// `if` (see `g_if`).
    fn if_statement(&mut self) -> (r: Result<Stmt, Fault>)
        requires
            old(self).wf(),
            old(self).toks()[old(self).pos()].0 == "if"@,
        ensures
            kept(*final(self), *old(self)),
            stmt_result(r, g_if(old(self).toks(), old(self).pos(), old(self).depth as int), final(self).pos()),
            r is Ok ==> final(self).pos() > old(self).pos(),
        decreases 32 - old(self).depth, 3int, old(self).tokens@.len() - old(self).position,
    {
        proof {
            reveal_with_fuel(g_if, 1);
        }
        let ghost toks = self.toks();
        proof {
            reveal_strlit("if");
            reveal_strlit("else");
            lemma_advance(toks, self.pos());
        }
        self.take();
        let condition = match self.expression(0) {
            Ok(e) => e,
            Err(f) => return Err(f),
        };
        let yes = match self.block() {
            Ok(b) => b,
            Err(f) => return Err(f),
        };
        let saved = self.position;
        proof {
            lemma_skip_newlines(toks, self.pos());
        }
        self.newlines();
        proof {
            lemma_advance(toks, self.pos());
        }
        let no = if self.eat("else") {
            proof {
                assert(toks[self.pos()].0 == self.tokens@[self.pos() as int].text@);
            }
            if self.at("if") {
                let s = match self.statement() {
                    Ok(s) => s,
                    Err(f) => return Err(f),
                };
                let ghost sv = stmt_view(s);
                let mut v: Vec<Stmt> = Vec::new();
                v.push(s);
                proof {
                    assert(stmts_view(v@) =~= seq![sv]);
                }
                v
            } else {
                match self.block() {
                    Ok(b) => b,
                    Err(f) => return Err(f),
                }
            }
        } else {
            self.position = saved;
            let none: Vec<Stmt> = Vec::new();
            proof {
                assert(stmts_view(none@) =~= Seq::<StmtView>::empty());
            }
            none
        };
        Ok(Stmt::If(condition, yes, no))
    }

    /// `while` (see `g_while`).
    fn while_statement(&mut self) -> (r: Result<Stmt, Fault>)
        requires
            old(self).wf(),
        ensures
            kept(*final(self), *old(self)),
            stmt_result(r, g_while(old(self).toks(), old(self).pos(), old(self).depth as int), final(self).pos()),
            r is Ok ==> final(self).pos() > old(self).pos(),
        decreases 32 - old(self).depth, 3int, old(self).tokens@.len() - old(self).position,
    {
        proof {
            lemma_advance(self.toks(), self.pos());
        }
        self.take();
        let condition = match self.expression(0) {
            Ok(e) => e,
            Err(f) => return Err(f),
        };
        match self.block() {
            Ok(body) => Ok(Stmt::While(condition, body)),
            Err(f) => Err(f),
        }
    }

    /// `loop` (see `g_loop`).
    fn loop_statement(&mut self) -> (r: Result<Stmt, Fault>)
        requires
            old(self).wf(),
        ensures
            kept(*final(self), *old(self)),
            stmt_result(r, g_loop(old(self).toks(), old(self).pos(), old(self).depth as int), final(self).pos()),
            r is Ok ==> final(self).pos() > old(self).pos(),
        decreases 32 - old(self).depth, 3int, old(self).tokens@.len() - old(self).position,
    {
        proof {
            lemma_advance(self.toks(), self.pos());
        }
        let at = self.take();
        match self.block() {
            Ok(body) => Ok(Stmt::Loop(at, body)),
            Err(f) => Err(f),
        }
    }

    /// `for` (see `g_for`).
    fn for_statement(&mut self) -> (r: Result<Stmt, Fault>)
        requires
            old(self).wf(),
        ensures
            kept(*final(self), *old(self)),
            stmt_result(r, g_for(old(self).toks(), old(self).pos(), old(self).depth as int), final(self).pos()),
            r is Ok ==> final(self).pos() > old(self).pos(),
        decreases 32 - old(self).depth, 3int, old(self).tokens@.len() - old(self).position,
    {
        proof {
            reveal_with_fuel(g_for, 1);
        }
        proof {
            lemma_advance(self.toks(), self.pos());
            reveal_strlit("in");
            reveal_strlit("..");
            reveal_strlit("..<");
        }
        self.take();
        let name = match self.name() {
            Ok(t) => t,
            Err(f) => return Err(f),
        };
        if let Err(f) = self.expect("in") {
            return Err(f);
        }
        let start = match self.expression(0) {
            Ok(e) => e,
            Err(f) => return Err(f),
        };
        let inclusive = if self.eat("..") {
            true
        } else {
            if let Err(f) = self.expect("..<") {
                return Err(f);
            }
            false
        };
        let end = match self.expression(0) {
            Ok(e) => e,
            Err(f) => return Err(f),
        };
        match self.block() {
            Ok(body) => Ok(Stmt::For(name, start, end, inclusive, body)),
            Err(f) => Err(f),
        }
    }

    /// A declaration, `return`, assignment or expression before its end
    /// (see `g_simple_statement`).
    #[verifier::rlimit(40)]
    fn simple_statement(&mut self) -> (r: Result<Stmt, Fault>)
        requires
            old(self).wf(),
        ensures
            kept(*final(self), *old(self)),
            stmt_result(r, g_simple_statement(old(self).toks(), old(self).pos(), old(self).depth as int), final(self).pos()),
            r is Ok ==> final(self).pos() > old(self).pos(),
        decreases 32 - old(self).depth, 2int, old(self).tokens@.len() - old(self).position,
    {
        proof {
            reveal_with_fuel(g_simple_statement, 1);
        }
        let ghost toks = self.toks();
        let ghost pos = self.pos();
        proof {
            lemma_advance(toks, pos);
            reveal_strlit("let");
            reveal_strlit("var");
            reveal_strlit("return");
            reveal_strlit("\n");
            reveal_strlit(";");
            reveal_strlit("}");
            reveal_strlit("=");
            assert(toks[pos].0 == self.tokens@[pos].text@);
        }
        if self.at("let") || self.at("var") {
            proof {
                lemma_simple_statement_binding(toks, pos, self.depth as int);
            }
            return self.binding();
        }
        if self.at("return") {
            let at = self.take();
            proof {
                assert(toks[self.pos()].0 == self.tokens@[self.pos() as int].text@);
            }
            if self.at("\n") || self.at(";") || self.at("}") || self.current().text.as_str().is_empty() {
                return Ok(Stmt::Return(at, None));
            }
            return match self.expression(0) {
                Ok(e) => Ok(Stmt::Return(at, Some(e))),
                Err(f) => Err(f),
            };
        }
        let left = match self.expression(0) {
            Ok(e) => e,
            Err(f) => return Err(f),
        };
        proof {
            lemma_advance(toks, self.pos());
        }
        if self.eat("=") {
            match self.expression(0) {
                Ok(right) => Ok(Stmt::Assign(left, right)),
                Err(f) => Err(f),
            }
        } else {
            Ok(Stmt::Expression(left))
        }
    }

    /// A statement once its depth is counted (see `g_statement_inner`).
    fn statement_inner(&mut self) -> (r: Result<Stmt, Fault>)
        requires
            old(self).wf(),
            old(self).depth <= 32,
        ensures
            kept(*final(self), *old(self)),
            stmt_result(
                r,
                g_statement_inner(old(self).toks(), old(self).pos(), old(self).depth as int),
                final(self).pos(),
            ),
            r is Ok ==> final(self).pos() > old(self).pos(),
        decreases 32 - old(self).depth, 4int, old(self).tokens@.len() - old(self).position,
    {
        let ghost toks = self.toks();
        let ghost pos = self.pos();
        proof {
            lemma_statement_inner_cases(toks, pos, self.depth as int);
            lemma_advance(toks, pos);
            reveal_strlit("if");
            reveal_strlit("while");
            reveal_strlit("loop");
            reveal_strlit("for");
            reveal_strlit("break");
            reveal_strlit("continue");
            assert(toks[pos].0 == self.tokens@[pos].text@);
        }
        if self.at("if") {
            return self.if_statement();
        }
        if self.at("while") {
            return self.while_statement();
        }
        if self.at("loop") {
            return self.loop_statement();
        }
        if self.at("for") {
            return self.for_statement();
        }
        if self.at("break") || self.at("continue") {
            let at = self.take();
            let is_break = str_eq(at.text.as_str(), "break");
            if let Err(f) = self.end_statement() {
                return Err(f);
            }
            return Ok(
                if is_break {
                    Stmt::Break(at)
                } else {
                    Stmt::Continue(at)
                },
            );
        }
        let statement = match self.simple_statement() {
            Ok(s) => s,
            Err(f) => return Err(f),
        };
        if !ends_with_block_match(&statement) {
            if let Err(f) = self.end_statement() {
                return Err(f);
            }
        }
        Ok(statement)
    }
}

} // verus!
