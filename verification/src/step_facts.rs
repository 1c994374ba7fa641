//! The step rule of the expression grammar, unfolded case by case for the
//! parser's proof of `Parser::step`.
use crate::grammar::{
    binding_power, g_binary_step, g_call_step, g_cast_step, g_field_step, g_index_step,
    g_match_step, g_step, generic_args, node, some_step, ExprKindView, ExprView,
};
use crate::parser::TokenView;
use vstd::prelude::*;

verus! {

/// The step rule, case by case: generic arguments first, then the token
/// after an operand decides.
pub proof fn lemma_step_cases(toks: Seq<TokenView>, pos: int, d: int, min: u8, left: ExprView)
    ensures
        ({
            let t = toks[pos].0;
            let plain = !(t == "<"@) || generic_args(toks, pos, d) is None;
            &&& (t == "<"@ && generic_args(toks, pos, d) is Some) ==> g_step(toks, pos, d, min, left)
                == some_step(
                match node(
                    left.at,
                    ExprKindView::Generic(Box::new(left), generic_args(toks, pos, d).unwrap().0),
                    left.depth + 1,
                ) {
                    Err(m) => Err(m),
                    Ok(e) => Ok((e, generic_args(toks, pos, d).unwrap().1)),
                },
            )
            &&& (plain && t == "as"@ && min <= 7) ==> g_step(toks, pos, d, min, left) == some_step(
                g_cast_step(toks, pos, d, left),
            )
            &&& (plain && !(t == "as"@ && min <= 7) && t == "match"@ && min == 0) ==> g_step(
                toks,
                pos,
                d,
                min,
                left,
            ) == some_step(g_match_step(toks, pos, d, left))
            &&& (plain && !(t == "as"@ && min <= 7) && !(t == "match"@ && min == 0) && t == "["@)
                ==> g_step(toks, pos, d, min, left) == some_step(g_index_step(toks, pos, d, left))
            &&& (plain && !(t == "as"@ && min <= 7) && !(t == "match"@ && min == 0) && t != "["@
                && t == "."@) ==> g_step(toks, pos, d, min, left) == some_step(
                g_field_step(toks, pos, left),
            )
            &&& (plain && !(t == "as"@ && min <= 7) && !(t == "match"@ && min == 0) && t != "["@
                && t != "."@ && t == "("@) ==> g_step(toks, pos, d, min, left) == some_step(
                g_call_step(toks, pos, d, left),
            )
            &&& (plain && !(t == "as"@ && min <= 7) && !(t == "match"@ && min == 0) && t != "["@
                && t != "."@ && t != "("@) ==> g_step(toks, pos, d, min, left) == (match binding_power(
                t,
            ) {
                None => Ok(None),
                Some(b) => if b < min {
                    Ok(None)
                } else {
                    some_step(g_binary_step(toks, pos, d, b, left))
                },
            })
        }),
{
    reveal_with_fuel(g_step, 1);
    reveal_strlit("<");
    reveal_strlit("as");
    reveal_strlit("match");
    reveal_strlit("[");
    reveal_strlit(".");
    reveal_strlit("(");
}

} // verus!
