//! Single unfoldings of the expression and statement rules that the
//! parser's proofs rely on.
use crate::grammar::{
    ends_in_block_match, g_arms, g_binding, g_for, g_if, g_inner, g_lambda, g_loop, g_match_step,
    g_operand, g_postfix, g_primary, g_simple_statement, g_statement_inner, g_while, lambda_head,
    node, ExprKindView, ExprView, StmtView,
};
use crate::parser::{
    advance, skip_lines, skip_newlines, spec_end_statement, spec_expect, TokenView,
};
use vstd::prelude::*;

verus! {

/// One unfolding of the expression rule once its depth is counted.
pub proof fn lemma_inner_unfold(toks: Seq<TokenView>, pos: int, d: int, min: u8)
    requires
        0 <= pos < toks.len(),
    ensures
        g_inner(toks, pos, d, min) == (match lambda_head(toks, pos, d) {
            Some((params, p)) => g_lambda(toks, toks[pos], p, d, params),
            None => match g_operand(toks, pos, d) {
                Err(m) => Err(m),
                Ok((left, q)) => g_postfix(toks, q, d, min, left),
            },
        }),
{
    reveal_with_fuel(g_inner, 1);
    reveal_with_fuel(g_primary, 1);
}

/// The statement rule on the keywords that open compound statements.
pub proof fn lemma_statement_inner_cases(toks: Seq<TokenView>, pos: int, d: int)
    requires
        0 <= pos < toks.len(),
    ensures
        toks[pos].0 == "if"@ ==> g_statement_inner(toks, pos, d) == g_if(toks, pos, d),
        toks[pos].0 == "while"@ ==> g_statement_inner(toks, pos, d) == g_while(toks, pos, d),
        toks[pos].0 == "loop"@ ==> g_statement_inner(toks, pos, d) == g_loop(toks, pos, d),
        toks[pos].0 == "for"@ ==> g_statement_inner(toks, pos, d) == g_for(toks, pos, d),
        toks[pos].0 == "break"@ || toks[pos].0 == "continue"@ ==> g_statement_inner(toks, pos, d)
            == (match spec_end_statement(toks, advance(toks, pos)) {
            Err(m) => Err(m),
            Ok(p1) => Ok(
                (
                    if toks[pos].0 == "break"@ {
                        StmtView::Break(toks[pos])
                    } else {
                        StmtView::Continue(toks[pos])
                    },
                    p1,
                ),
            ),
        }),
        !(toks[pos].0 == "if"@ || toks[pos].0 == "while"@ || toks[pos].0 == "loop"@ || toks[pos].0
            == "for"@ || toks[pos].0 == "break"@ || toks[pos].0 == "continue"@) ==> g_statement_inner(
            toks,
            pos,
            d,
        ) == (match g_simple_statement(toks, pos, d) {
            Err(m) => Err(m),
            Ok((s, p1)) => if ends_in_block_match(s) {
                Ok((s, p1))
            } else {
                match spec_end_statement(toks, p1) {
                    Err(m) => Err(m),
                    Ok(p2) => Ok((s, p2)),
                }
            },
        }),
{
    reveal_with_fuel(g_statement_inner, 1);
    reveal_strlit("if");
    reveal_strlit("while");
    reveal_strlit("loop");
    reveal_strlit("for");
    reveal_strlit("break");
    reveal_strlit("continue");
    let t = toks[pos].0;
    if t == "break"@ || t == "continue"@ {
        assert(t != "if"@ && t != "while"@ && t != "loop"@ && t != "for"@) by {
            if t == "break"@ {
                assert(t[0] == 'b');
            } else {
                assert(t[0] == 'c');
            }
        }
    }
}

/// One unfolding of the match rule after an operand.
pub proof fn lemma_match_step_unfold(toks: Seq<TokenView>, pos: int, d: int, left: ExprView)
    ensures
        g_match_step(toks, pos, d, left) == (match spec_expect(
            toks,
            skip_newlines(toks, advance(toks, pos)),
            "{"@,
        ) {
            Err(m) => Err(m),
            Ok(p1) => match g_arms(toks, skip_lines(toks, p1), d, Seq::empty(), left.depth + 1) {
                Err(m) => Err(m),
                Ok((arms, depth, p2)) => match spec_expect(toks, p2, "}"@) {
                    Err(m) => Err(m),
                    Ok(p3) => match node(left.at, ExprKindView::Match(Box::new(left), arms), depth) {
                        Err(m) => Err(m),
                        Ok(e) => Ok((e, p3)),
                    },
                },
            },
        }),
{
    reveal_with_fuel(g_match_step, 1);
}

} // verus!
