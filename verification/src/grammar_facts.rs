//! Facts about the expression grammar that the parser's proofs use: where
//! each rule ends, and single unfoldings of the rules the parser follows
//! step by step.
use crate::frontend::TyView;
use crate::grammar::{
    g_array_literal, g_new, g_operand, g_postfix, g_step, generic_args, generic_rest, lambda_head,
    lambda_params, ExprView,
};
use crate::parser::{
    advance, lemma_advance, lemma_skip_newlines, lemma_ty, skip_newlines, spec_name, spec_ty,
    terminated, TokenView,
};
use vstd::prelude::*;

verus! {

/// Further type arguments never end before they start.
pub proof fn lemma_generic_rest(toks: Seq<TokenView>, pos: int, d: int, acc: Seq<TyView>)
    requires
        terminated(toks),
        0 <= pos < toks.len(),
    ensures
        generic_rest(toks, pos, d, acc) matches Some((_, p)) ==> pos <= p < toks.len(),
    decreases toks.len() - pos,
{
    if toks[pos].0 == ","@ {
        if let Ok((t, q)) = spec_ty(toks, advance(toks, pos), d) {
            if !(q <= pos || q >= toks.len()) {
                lemma_generic_rest(toks, q, d, acc.push(t));
            }
        }
    }
}

/// Explicit generic arguments end after the token they start on.
pub proof fn lemma_generic_args(toks: Seq<TokenView>, pos: int, d: int)
    requires
        terminated(toks),
        0 <= pos < toks.len(),
    ensures
        generic_args(toks, pos, d) matches Some((_, p)) ==> pos < p < toks.len(),
{
    reveal(generic_args);
    lemma_advance(toks, pos);
    lemma_ty(toks, advance(toks, pos), d);
    if let Ok((t, p1)) = spec_ty(toks, advance(toks, pos), d) {
        lemma_generic_rest(toks, p1, d, seq![t]);
        if let Some((_, p2)) = generic_rest(toks, p1, d, seq![t]) {
            if 0 <= p2 < toks.len() {
                lemma_advance(toks, p2);
            }
        }
    }
}

/// Lambda parameters never end before they start, nor past the end.
pub proof fn lemma_lambda_params(
    toks: Seq<TokenView>,
    pos: int,
    d: int,
    acc: Seq<(TokenView, Option<TyView>)>,
)
    requires
        terminated(toks),
    ensures
        lambda_params(toks, pos, d, acc) matches Some((_, p)) ==> pos <= p < toks.len(),
    decreases toks.len() - pos,
{
    reveal_strlit(":");
    reveal_strlit(",");
    if 0 <= pos < toks.len() {
        lemma_advance(toks, pos);
        if let Ok(p1) = spec_name(toks, pos) {
            lemma_advance(toks, p1);
            lemma_ty(toks, advance(toks, p1), d);
            let annotated: Option<(Option<TyView>, int)> = if toks[p1].0 == ":"@ {
                match spec_ty(toks, advance(toks, p1), d) {
                    Err(_) => None,
                    Ok((t, p2)) => Some((Some(t), p2)),
                }
            } else {
                Some((None, p1))
            };
            if let Some((ty, p2)) = annotated {
                lemma_skip_newlines(toks, p2);
                let p3 = skip_newlines(toks, p2);
                lemma_advance(toks, p3);
                let p4 = skip_newlines(toks, advance(toks, p3));
                if !(p4 <= pos || p4 >= toks.len()) {
                    lemma_lambda_params(toks, p4, d, acc.push((toks[pos], ty)));
                }
            }
        }
    }
}

/// A lambda's head ends after the token it starts on.
pub proof fn lemma_lambda_head(toks: Seq<TokenView>, pos: int, d: int)
    requires
        terminated(toks),
        0 <= pos < toks.len(),
    ensures
        lambda_head(toks, pos, d) matches Some((_, p)) ==> pos < p < toks.len(),
{
    reveal(lambda_head);
    reveal_strlit("(");
    reveal_strlit(")");
    reveal_strlit("=>");
    lemma_advance(toks, pos);
    if toks[pos].0 == "("@ {
        lemma_skip_newlines(toks, advance(toks, pos));
        let p1 = skip_newlines(toks, advance(toks, pos));
        lemma_lambda_params(toks, p1, d, Seq::empty());
        let list = if toks[p1].0 == ")"@ {
            Some((Seq::<(TokenView, Option<TyView>)>::empty(), p1))
        } else {
            lambda_params(toks, p1, d, Seq::empty())
        };
        if let Some((_, p2)) = list {
            lemma_advance(toks, p2);
            if toks[p2].0 == ")"@ {
                lemma_advance(toks, advance(toks, p2));
            }
        }
    } else if let Ok(p1) = spec_name(toks, pos) {
        lemma_advance(toks, p1);
    }
}

/// The operand rule on its first two cases.
pub proof fn lemma_operand_cases(toks: Seq<TokenView>, pos: int, d: int)
    requires
        0 <= pos < toks.len(),
    ensures
        toks[pos].0 == "["@ ==> g_operand(toks, pos, d) == g_array_literal(
            toks,
            toks[pos],
            advance(toks, pos),
            d,
        ),
        toks[pos].0 == "new"@ ==> g_operand(toks, pos, d) == g_new(
            toks,
            toks[pos],
            advance(toks, pos),
            d,
        ),
{
    reveal_with_fuel(g_operand, 1);
    reveal_strlit("[");
    reveal_strlit("new");
}

/// One unfolding of the postfix rule at a position on a token.
pub proof fn lemma_postfix_unfold(toks: Seq<TokenView>, pos: int, d: int, min: u8, left: ExprView)
    requires
        0 <= pos < toks.len(),
    ensures
        g_postfix(toks, pos, d, min, left) == (match g_step(toks, pos, d, min, left) {
            Err(m) => Err(m),
            Ok(None) => Ok((left, pos)),
            Ok(Some((e, q))) => if q <= pos || q >= toks.len() {
                Err(Seq::empty())
            } else {
                g_postfix(toks, q, d, min, e)
            },
        }),
{
    reveal_with_fuel(g_postfix, 1);
}

} // verus!
