//! The expression and statement rules below their nesting limits, and the
//! simple-statement rule on a declaration.
use crate::grammar::{
    g_binding, g_expression, g_inner, g_simple_statement, g_statement, g_statement_inner,
};
use crate::parser::TokenView;
use vstd::prelude::*;

verus! {

/// The expression rule once the depth limit is not reached.
pub proof fn lemma_expression_unfold(toks: Seq<TokenView>, pos: int, d: int, min: u8)
    requires
        0 <= pos < toks.len(),
        d < 32,
    ensures
        g_expression(toks, pos, d, min) == g_inner(toks, pos, d + 1, min),
{
}

/// The statement rule once the depth limit is not reached.
pub proof fn lemma_statement_unfold(toks: Seq<TokenView>, pos: int, d: int)
    requires
        0 <= pos < toks.len(),
        d < 32,
    ensures
        g_statement(toks, pos, d) == g_statement_inner(toks, pos, d + 1),
{
}

/// The simple-statement rule on a declaration.
pub proof fn lemma_simple_statement_binding(toks: Seq<TokenView>, pos: int, d: int)
    requires
        0 <= pos < toks.len(),
        toks[pos].0 == "let"@ || toks[pos].0 == "var"@,
    ensures
        g_simple_statement(toks, pos, d) == g_binding(toks, pos, d),
{
    reveal_with_fuel(g_simple_statement, 1);
}

} // verus!
