//! The front end's token cursor and its parsing of names and type
//! annotations.
use crate::fault::Fault;
use crate::frontend::{from_metadata, from_metadata_exec, il, joined, strings_view, Ty, TyView};
use crate::lexer::{
    lemma_lex_from_ends_empty, lex, positioned, positioned_fault, spec_lex, token_view, tokens_view,
    Token,
};
use crate::assembler::names_view;
use crate::constraints::{
    constraints_view, spec_parse_constraints, validate_from, ConstraintKindView, GenericConstraint,
};
use crate::metadata::{is_valid_slot_name, valid_slot_name};
use crate::syntax::{debug_quoted, quoted};
use crate::text::{push_char, push_str, str_eq};
use crate::types::{type_from_name, Type};
use vstd::prelude::*;
use vstd::string::StringExecFns;

verus! {

/// The deepest nesting of a type annotation.
pub const MAX_TYPE_NESTING: usize = 32;

/// A token's text, line and column.
pub type TokenView = (Seq<char>, int, int);

/// The position after taking the token at `pos`: the end token is never
/// passed.
pub open spec fn advance(toks: Seq<TokenView>, pos: int) -> int {
    if toks[pos].0.len() > 0 {
        pos + 1
    } else {
        pos
    }
}

/// A diagnostic at the token at `pos`.
pub open spec fn error_at(toks: Seq<TokenView>, pos: int, message: Seq<char>) -> Seq<char> {
    positioned(toks[pos].1, toks[pos].2, message)
}

/// Expecting `text` at `pos`: the position after it, or the diagnostic.
pub open spec fn spec_expect(toks: Seq<TokenView>, pos: int, text: Seq<char>) -> Result<int, Seq<char>> {
    if toks[pos].0 == text {
        Ok(advance(toks, pos))
    } else {
        Err(
            error_at(
                toks,
                pos,
                "expected "@ + debug_quoted(text) + ", found "@ + debug_quoted(toks[pos].0),
            ),
        )
    }
}

/// The words of the source language that cannot name anything.
pub open spec fn is_keyword(s: Seq<char>) -> bool {
    s == "func"@ || s == "record"@ || s == "let"@ || s == "var"@ || s == "return"@ || s == "new"@
        || s == "true"@ || s == "false"@ || s == "import"@ || s == "if"@ || s == "else"@ || s
        == "while"@ || s == "for"@ || s == "in"@ || s == "loop"@ || s == "break"@ || s
        == "continue"@ || s == "match"@ || s == "typeof"@ || s == "default"@ || s == "class"@
        || s == "delegate"@ || s == "interface"@ || s == "readonly"@ || s == "static"@ || s
        == "as"@ || s == "this"@
}

/// Taking a name at `pos`: the position after it, or the diagnostic.
pub open spec fn spec_name(toks: Seq<TokenView>, pos: int) -> Result<int, Seq<char>> {
    if !valid_slot_name(toks[pos].0) {
        Err(error_at(toks, pos, "expected a name"@))
    } else if is_keyword(toks[pos].0) {
        Err(error_at(toks, pos, "keyword cannot be used as a name"@))
    } else {
        Ok(advance(toks, pos))
    }
}

/// The rest of a dotted name after `acc`, from `pos`.
pub open spec fn dotted_rest(toks: Seq<TokenView>, pos: int, acc: Seq<char>) -> Result<
    (Seq<char>, int),
    Seq<char>,
>
    decreases toks.len() - pos,
{
    if 0 <= pos && pos + 1 < toks.len() && toks[pos].0 == "."@ {
        match spec_name(toks, pos + 1) {
            Err(m) => Err(m),
            Ok(p) => if p <= pos {
                Err(Seq::empty())
            } else {
                dotted_rest(toks, p, acc + "."@ + toks[pos + 1].0)
            },
        }
    } else {
        Ok((acc, pos))
    }
}

/// A dotted name from `pos`.
pub open spec fn dotted_name(toks: Seq<TokenView>, pos: int) -> Result<(Seq<char>, int), Seq<char>> {
    match spec_name(toks, pos) {
        Err(m) => Err(m),
        Ok(p) => dotted_rest(toks, p, toks[pos].0),
    }
}

/// The metadata name a source name stands for.
pub open spec fn alias(name: Seq<char>) -> Seq<char> {
    if name == "Option"@ {
        "System.Option"@
    } else if name == "Result"@ {
        "System.Result"@
    } else if name == "bool"@ {
        "Boolean"@
    } else if name == "unit"@ {
        "Void"@
    } else if name == "byte"@ {
        "Byte"@
    } else {
        name
    }
}

/// Array suffixes `[]` and a final `&` after a type: `count` arrays so far.
pub open spec fn suffixes(toks: Seq<TokenView>, pos: int, depth: int, t: TyView, count: int) -> Result<
    (TyView, int),
    Seq<char>,
>
    decreases toks.len() - pos,
{
    if 0 <= pos && pos + 1 < toks.len() && toks[pos].0 == "["@ && toks[pos + 1].0 == "]"@ {
        if depth + count + 1 > 32 {
            Err(error_at(toks, pos + 2, "type nesting limit exceeded"@))
        } else {
            suffixes(toks, pos + 2, depth, TyView::Array(Box::new(t)), count + 1)
        }
    } else if 0 <= pos < toks.len() && toks[pos].0 == "&"@ {
        Ok((TyView::Ref(Box::new(t)), pos + 1))
    } else {
        Ok((t, pos))
    }
}

/// A type annotation at `pos` with `depth` enclosing annotations.
pub open spec fn spec_ty(toks: Seq<TokenView>, pos: int, depth: int) -> Result<(TyView, int), Seq<char>>
    decreases toks.len() - pos, 1int,
{
    if pos < 0 || pos >= toks.len() {
        Err(Seq::empty())
    } else if depth >= 32 {
        Err(error_at(toks, pos, "type nesting limit exceeded"@))
    } else {
        spec_ty_inner(toks, pos, depth + 1)
    }
}

/// A type annotation once its depth is counted.
pub open spec fn spec_ty_inner(toks: Seq<TokenView>, pos: int, depth: int) -> Result<
    (TyView, int),
    Seq<char>,
>
    decreases toks.len() - pos, 0int,
{
    if pos < 0 || pos >= toks.len() {
        Err(Seq::empty())
    } else if toks[pos].0 == "readonly"@ {
        match spec_ty(toks, pos + 1, depth) {
            Err(m) => Err(m),
            Ok((TyView::Ref(b), p)) => Ok((TyView::ReadOnlyRef(b), p)),
            Ok((_, p)) => Err(error_at(toks, p, "readonly type requires a managed reference"@)),
        }
    } else if toks[pos].0 == "("@ {
        match spec_expect(toks, pos + 1, ")"@) {
            Err(m) => Err(m),
            Ok(p) => suffixes(toks, p, depth, TyView::Void, 0),
        }
    } else {
        match dotted_name(toks, pos) {
            Err(m) => Err(m),
            Ok((raw, p)) => {
                let name = alias(raw);
                if 0 <= p < toks.len() && toks[p].0 == "<"@ && p >= pos {
                    match spec_ty(toks, p + 1, depth) {
                        Err(m) => Err(m),
                        Ok((first, q)) => if q <= pos || q >= toks.len() {
                            Err(Seq::empty())
                        } else {
                            match type_arguments(toks, q, depth, seq![il(first)]) {
                                Err(m) => Err(m),
                                Ok((args, r)) => match spec_expect(toks, r, ">"@) {
                                    Err(m) => Err(m),
                                    Ok(s) => suffixes(
                                        toks,
                                        s,
                                        depth,
                                        TyView::Record(name + "<"@ + joined(args, args.len()) + ">"@),
                                        0,
                                    ),
                                },
                            }
                        },
                    }
                } else {
                    match from_metadata(type_from_name(name)) {
                        Err(m) => Err(m),
                        Ok(t) => suffixes(toks, p, depth, t, 0),
                    }
                }
            },
        }
    }
}

/// Further comma-separated type arguments from `pos`, after the spellings
/// `acc` of those parsed so far.
pub open spec fn type_arguments(toks: Seq<TokenView>, pos: int, depth: int, acc: Seq<Seq<char>>) -> Result<
    (Seq<Seq<char>>, int),
    Seq<char>,
>
    decreases toks.len() - pos, 2int,
{
    if pos < 0 || pos >= toks.len() {
        Err(Seq::empty())
    } else if toks[pos].0 == ","@ {
        match spec_ty(toks, pos + 1, depth) {
            Err(m) => Err(m),
            Ok((t, q)) => if q <= pos || q >= toks.len() {
                Err(Seq::empty())
            } else {
                type_arguments(toks, q, depth, acc.push(il(t)))
            },
        }
    } else {
        Ok((acc, pos))
    }
}


/// A token list that ends with the empty end-of-source token.
pub open spec fn terminated(toks: Seq<TokenView>) -> bool {
    toks.len() > 0 && toks.last().0.len() == 0
}

pub proof fn lemma_advance(toks: Seq<TokenView>, pos: int)
    requires
        terminated(toks),
        0 <= pos < toks.len(),
    ensures
        pos <= advance(toks, pos) < toks.len(),
        toks[pos].0.len() > 0 ==> advance(toks, pos) == pos + 1,
{
}

pub proof fn lemma_dotted_rest(toks: Seq<TokenView>, pos: int, acc: Seq<char>)
    requires
        terminated(toks),
        0 <= pos < toks.len(),
    ensures
        dotted_rest(toks, pos, acc) matches Ok((_, p)) ==> pos <= p < toks.len(),
    decreases toks.len() - pos,
{
    if pos + 1 < toks.len() && toks[pos].0 == "."@ {
        if let Ok(p) = spec_name(toks, pos + 1) {
            lemma_advance(toks, pos + 1);
            if p > pos {
                lemma_dotted_rest(toks, p, acc + "."@ + toks[pos + 1].0);
            }
        }
    }
}

/// A dotted name takes at least its first token and stops within the list.
pub proof fn lemma_dotted_name(toks: Seq<TokenView>, pos: int)
    requires
        terminated(toks),
        0 <= pos < toks.len(),
    ensures
        dotted_name(toks, pos) matches Ok((_, p)) ==> pos < p < toks.len(),
{
    if let Ok(p) = spec_name(toks, pos) {
        lemma_advance(toks, pos);
        assert(p == pos + 1);
        lemma_dotted_rest(toks, pos + 1, toks[pos].0);
    }
}

pub proof fn lemma_suffixes(toks: Seq<TokenView>, pos: int, depth: int, t: TyView, count: int)
    requires
        terminated(toks),
        0 <= pos < toks.len(),
    ensures
        suffixes(toks, pos, depth, t, count) matches Ok((_, p)) ==> pos <= p < toks.len(),
    decreases toks.len() - pos,
{
    reveal_strlit("[");
    reveal_strlit("]");
    reveal_strlit("&");
    if pos + 1 < toks.len() && toks[pos].0 == "["@ && toks[pos + 1].0 == "]"@ {
        if depth + count + 1 <= 32 {
            assert(toks[pos + 1].0.len() > 0);
            assert(pos + 1 != toks.len() - 1);
            lemma_suffixes(toks, pos + 2, depth, TyView::Array(Box::new(t)), count + 1);
        }
    } else if toks[pos].0 == "&"@ {
        assert(toks[pos].0.len() > 0);
        assert(pos != toks.len() - 1);
    }
}

/// A successful parse consumes at least one token and stops within the
/// token list.
pub proof fn lemma_ty(toks: Seq<TokenView>, pos: int, depth: int)
    requires
        terminated(toks),
    ensures
        spec_ty(toks, pos, depth) matches Ok((_, p)) ==> pos < p < toks.len(),
    decreases toks.len() - pos, 1int,
{
    if 0 <= pos < toks.len() && depth < 32 {
        lemma_ty_inner(toks, pos, depth + 1);
    }
}

pub proof fn lemma_ty_inner(toks: Seq<TokenView>, pos: int, depth: int)
    requires
        terminated(toks),
    ensures
        spec_ty_inner(toks, pos, depth) matches Ok((_, p)) ==> pos < p < toks.len(),
    decreases toks.len() - pos, 0int,
{
    reveal_strlit("readonly");
    reveal_strlit("(");
    reveal_strlit(")");
    reveal_strlit("<");
    reveal_strlit(">");
    if 0 <= pos < toks.len() {
        if toks[pos].0 == "readonly"@ {
            assert(toks[pos].0.len() > 0);
            lemma_ty(toks, pos + 1, depth);
        } else if toks[pos].0 == "("@ {
            assert(toks[pos].0.len() > 0);
            assert(pos + 1 < toks.len());
            if let Ok(p) = spec_expect(toks, pos + 1, ")"@) {
                lemma_advance(toks, pos + 1);
                assert(p == pos + 2);
                lemma_suffixes(toks, p, depth, TyView::Void, 0);
            }
        } else {
            lemma_dotted_name(toks, pos);
            if let Ok((raw, p)) = dotted_name(toks, pos) {
                let name = alias(raw);
                if 0 <= p < toks.len() && toks[p].0 == "<"@ && p >= pos {
                    lemma_ty(toks, p + 1, depth);
                    if let Ok((first, q)) = spec_ty(toks, p + 1, depth) {
                        if !(q <= pos || q >= toks.len()) {
                            lemma_type_arguments(toks, q, depth, seq![il(first)]);
                            if let Ok((args, r)) = type_arguments(toks, q, depth, seq![il(first)]) {
                                if let Ok(t) = spec_expect(toks, r, ">"@) {
                                    lemma_advance(toks, r);
                                    lemma_suffixes(
                                        toks,
                                        t,
                                        depth,
                                        TyView::Record(name + "<"@ + joined(args, args.len()) + ">"@),
                                        0,
                                    );
                                }
                            }
                        }
                    }
                } else {
                    if let Ok(t) = from_metadata(type_from_name(name)) {
                        lemma_suffixes(toks, p, depth, t, 0);
                    }
                }
            }
        }
    }
}

pub proof fn lemma_type_arguments(toks: Seq<TokenView>, pos: int, depth: int, acc: Seq<Seq<char>>)
    requires
        terminated(toks),
        0 <= pos < toks.len(),
    ensures
        type_arguments(toks, pos, depth, acc) matches Ok((_, p)) ==> pos <= p < toks.len(),
    decreases toks.len() - pos, 2int,
{
    if toks[pos].0 == ","@ {
        lemma_ty(toks, pos + 1, depth);
        if let Ok((t, q)) = spec_ty(toks, pos + 1, depth) {
            if !(q <= pos || q >= toks.len()) {
                lemma_type_arguments(toks, q, depth, acc.push(il(t)));
            }
        }
    }
}


/// A parse result seen as the type's view and next position, or the message.
pub open spec fn ty_outcome(r: Result<(Ty, usize), Fault>) -> Result<(TyView, int), Seq<char>> {
    match r {
        Ok((t, p)) => Ok((t@, p as int)),
        Err(f) => Err(f.message@),
    }
}

fn is_keyword_text(s: &str) -> (b: bool)
    ensures
        b == is_keyword(s@),
{
    str_eq(s, "func") || str_eq(s, "record") || str_eq(s, "let") || str_eq(s, "var") || str_eq(
        s,
        "return",
    ) || str_eq(s, "new") || str_eq(s, "true") || str_eq(s, "false") || str_eq(s, "import")
        || str_eq(s, "if") || str_eq(s, "else") || str_eq(s, "while") || str_eq(s, "for")
        || str_eq(s, "in") || str_eq(s, "loop") || str_eq(s, "break") || str_eq(s, "continue")
        || str_eq(s, "match") || str_eq(s, "typeof") || str_eq(s, "default") || str_eq(s, "class")
        || str_eq(s, "delegate") || str_eq(s, "interface") || str_eq(s, "readonly") || str_eq(
        s,
        "static",
    ) || str_eq(s, "as") || str_eq(s, "this")
}

fn advance_at(tokens: &Vec<Token>, pos: usize) -> (p: usize)
    requires
        terminated(tokens_view(tokens@)),
        pos < tokens@.len(),
    ensures
        p == advance(tokens_view(tokens@), pos as int),
{
    let _n = tokens.len();
    proof {
        lemma_advance(tokens_view(tokens@), pos as int);
    }
    if !tokens[pos].text.as_str().is_empty() {
        proof {
            assert(tokens_view(tokens@)[pos as int].0 == tokens@[pos as int].text@);
        }
        pos + 1
    } else {
        proof {
            assert(tokens_view(tokens@)[pos as int].0 == tokens@[pos as int].text@);
        }
        pos
    }
}

pub(crate) fn error_fault(tokens: &Vec<Token>, pos: usize, message: &str) -> (f: Fault)
    requires
        pos < tokens@.len(),
    ensures
        f.message@ == error_at(tokens_view(tokens@), pos as int, message@),
{
    positioned_fault(tokens[pos].line, tokens[pos].column, message)
}

fn expect_at(tokens: &Vec<Token>, pos: usize, text: &str) -> (r: Result<usize, Fault>)
    requires
        terminated(tokens_view(tokens@)),
        pos < tokens@.len(),
    ensures
        match spec_expect(tokens_view(tokens@), pos as int, text@) {
            Ok(p) => r matches Ok(q) && q == p,
            Err(m) => r matches Err(f) && f.message@ == m,
        },
{
    if str_eq(tokens[pos].text.as_str(), text) {
        return Ok(advance_at(tokens, pos));
    }
    let mut message = String::from_str("expected ");
    let q = quoted(text);
    push_str(&mut message, q.as_str());
    push_str(&mut message, ", found ");
    let found = quoted(tokens[pos].text.as_str());
    push_str(&mut message, found.as_str());
    Err(error_fault(tokens, pos, message.as_str()))
}

fn name_at(tokens: &Vec<Token>, pos: usize) -> (r: Result<usize, Fault>)
    requires
        terminated(tokens_view(tokens@)),
        pos < tokens@.len(),
    ensures
        match spec_name(tokens_view(tokens@), pos as int) {
            Ok(p) => r matches Ok(q) && q == p,
            Err(m) => r matches Err(f) && f.message@ == m,
        },
{
    let text = &tokens[pos].text;
    let chars = crate::text::chars_of(text.as_str());
    if !is_valid_slot_name(&chars) {
        return Err(error_fault(tokens, pos, "expected a name"));
    }
    if is_keyword_text(text.as_str()) {
        return Err(error_fault(tokens, pos, "keyword cannot be used as a name"));
    }
    Ok(advance_at(tokens, pos))
}

pub(crate) fn dotted_name_at(tokens: &Vec<Token>, pos: usize) -> (r: Result<(String, usize), Fault>)
    requires
        terminated(tokens_view(tokens@)),
        pos < tokens@.len(),
    ensures
        match dotted_name(tokens_view(tokens@), pos as int) {
            Ok((n, p)) => r matches Ok((s, q)) && s@ == n && q == p,
            Err(m) => r matches Err(f) && f.message@ == m,
        },
{
    let ghost toks = tokens_view(tokens@);
    let mut p = match name_at(tokens, pos) {
        Ok(p) => p,
        Err(f) => return Err(f),
    };
    proof {
        lemma_advance(toks, pos as int);
    }
    let mut name = tokens[pos].text.clone();
    let n = tokens.len();
    while p + 1 < n && str_eq(tokens[p].text.as_str(), ".")
        invariant
            terminated(toks),
            toks == tokens_view(tokens@),
            n == tokens@.len(),
            p < n,
            dotted_name(toks, pos as int) == dotted_rest(toks, p as int, name@),
        decreases n - p,
    {
        let q = match name_at(tokens, p + 1) {
            Ok(q) => q,
            Err(f) => return Err(f),
        };
        proof {
            lemma_advance(toks, p + 1);
        }
        let ghost before = name@;
        push_char(&mut name, '.');
        push_str(&mut name, tokens[p + 1].text.as_str());
        proof {
            reveal_strlit(".");
            assert(toks[p + 1].0 == tokens@[p + 1].text@);
            assert(name@ =~= before + "."@ + toks[p + 1].0);
        }
        p = q;
    }
    Ok((name, p))
}


fn suffixes_at(tokens: &Vec<Token>, pos: usize, depth: usize, t: Ty) -> (r: Result<(Ty, usize), Fault>)
    requires
        terminated(tokens_view(tokens@)),
        pos < tokens@.len(),
        depth <= MAX_TYPE_NESTING,
    ensures
        ty_outcome(r) == suffixes(tokens_view(tokens@), pos as int, depth as int, t@, 0),
{
    let ghost toks = tokens_view(tokens@);
    let ghost start = t@;
    let n = tokens.len();
    let mut ty = t;
    let mut p = pos;
    let mut count: usize = 0;
    proof {
        reveal_strlit("[");
        reveal_strlit("]");
        reveal_strlit("&");
    }
    while p + 1 < n && str_eq(tokens[p].text.as_str(), "[") && str_eq(tokens[p + 1].text.as_str(), "]")
        invariant
            toks == tokens_view(tokens@),
            terminated(toks),
            start == t@,
            n == tokens@.len(),
            p < n,
            depth + count <= MAX_TYPE_NESTING,
            suffixes(toks, pos as int, depth as int, start, 0) == suffixes(
                toks,
                p as int,
                depth as int,
                ty@,
                count as int,
            ),
        decreases n - p,
    {
        proof {
            reveal_strlit("[");
            reveal_strlit("]");
            assert(toks[p as int].0 == tokens@[p as int].text@);
            assert(toks[p + 1].0 == tokens@[p + 1].text@);
            assert(toks[p + 1].0.len() > 0);
            assert(p + 1 != n - 1);
        }
        if depth + count + 1 > MAX_TYPE_NESTING {
            return Err(error_fault(tokens, p + 2, "type nesting limit exceeded"));
        }
        ty = Ty::Array(Box::new(ty));
        count += 1;
        p += 2;
    }
    proof {
        assert(toks[p as int].0 == tokens@[p as int].text@);
    }
    if str_eq(tokens[p].text.as_str(), "&") {
        proof {
            assert(toks[p as int].0.len() > 0);
        }
        Ok((Ty::Ref(Box::new(ty)), p + 1))
    } else {
        Ok((ty, p))
    }
}

fn alias_exec(name: String) -> (r: String)
    ensures
        r@ == alias(name@),
{
    if str_eq(name.as_str(), "Option") {
        String::from_str("System.Option")
    } else if str_eq(name.as_str(), "Result") {
        String::from_str("System.Result")
    } else if str_eq(name.as_str(), "bool") {
        String::from_str("Boolean")
    } else if str_eq(name.as_str(), "unit") {
        String::from_str("Void")
    } else if str_eq(name.as_str(), "byte") {
        String::from_str("Byte")
    } else {
        name
    }
}

/// The spellings of type arguments joined by commas.
fn join_arguments(args: &Vec<String>) -> (s: String)
    ensures
        s@ == joined(strings_view(args@), args@.len()),
{
    let ghost v = strings_view(args@);
    let mut s = String::new();
    let mut i: usize = 0;
    while i < args.len()
        invariant
            i <= args@.len(),
            v == strings_view(args@),
            s@ == joined(v, i as nat),
        decreases args.len() - i,
    {
        if i > 0 {
            push_str(&mut s, ",");
        }
        push_str(&mut s, args[i].as_str());
        i += 1;
        proof {
            reveal_strlit(",");
            assert(v[i - 1] == args@[i - 1]@);
            assert(s@ =~= joined(v, i as nat));
        }
    }
    s
}

/// Parses a type annotation at `pos` inside `depth` enclosing annotations.
fn ty_at(tokens: &Vec<Token>, pos: usize, depth: usize) -> (r: Result<(Ty, usize), Fault>)
    requires
        terminated(tokens_view(tokens@)),
        pos < tokens@.len(),
    ensures
        ty_outcome(r) == spec_ty(tokens_view(tokens@), pos as int, depth as int),
    decreases tokens@.len() - pos, 1int,
{
    if depth >= MAX_TYPE_NESTING {
        return Err(error_fault(tokens, pos, "type nesting limit exceeded"));
    }
    ty_inner_at(tokens, pos, depth + 1)
}

fn ty_inner_at(tokens: &Vec<Token>, pos: usize, depth: usize) -> (r: Result<(Ty, usize), Fault>)
    requires
        terminated(tokens_view(tokens@)),
        pos < tokens@.len(),
        depth <= MAX_TYPE_NESTING,
    ensures
        ty_outcome(r) == spec_ty_inner(tokens_view(tokens@), pos as int, depth as int),
    decreases tokens@.len() - pos, 0int,
{
    let ghost toks = tokens_view(tokens@);
    let n = tokens.len();
    proof {
        lemma_advance(toks, pos as int);
        reveal_strlit("readonly");
        reveal_strlit("(");
        reveal_strlit(")");
        reveal_strlit("<");
        reveal_strlit(">");
        reveal_strlit(",");
        assert(toks[pos as int].0 == tokens@[pos as int].text@);
    }
    if str_eq(tokens[pos].text.as_str(), "readonly") {
        proof {
            assert(toks[pos as int].0.len() > 0);
            lemma_ty(toks, pos + 1, depth as int);
        }
        return match ty_at(tokens, pos + 1, depth) {
            Err(f) => Err(f),
            Ok((Ty::Ref(b), p)) => Ok((Ty::ReadOnlyRef(b), p)),
            Ok((_, p)) => Err(
                error_fault(tokens, p, "readonly type requires a managed reference"),
            ),
        };
    }
    if str_eq(tokens[pos].text.as_str(), "(") {
        proof {
            assert(toks[pos as int].0.len() > 0);
            lemma_advance(toks, pos + 1);
        }
        let p = match expect_at(tokens, pos + 1, ")") {
            Ok(p) => p,
            Err(f) => return Err(f),
        };
        return suffixes_at(tokens, p, depth, Ty::Void);
    }
    proof {
        lemma_dotted_name(toks, pos as int);
    }
    let (raw, p) = match dotted_name_at(tokens, pos) {
        Ok(x) => x,
        Err(f) => return Err(f),
    };
    let name = alias_exec(raw);
    proof {
        assert(toks[p as int].0 == tokens@[p as int].text@);
    }
    if str_eq(tokens[p].text.as_str(), "<") {
        proof {
            lemma_ty(toks, p + 1, depth as int);
        }
        let (first, q0) = match ty_at(tokens, p + 1, depth) {
            Ok(x) => x,
            Err(f) => return Err(f),
        };
        let mut args: Vec<String> = Vec::new();
        args.push(first.il());
        let mut q = q0;
        proof {
            assert(strings_view(args@) =~= seq![il(first@)]);
        }
        while str_eq(tokens[q].text.as_str(), ",")
            invariant
                toks == tokens_view(tokens@),
                terminated(toks),
                n == tokens@.len(),
                pos < q < n,
                depth <= MAX_TYPE_NESTING,
                forall|m: Seq<char>|
                    type_arguments(toks, q0 as int, depth as int, seq![il(first@)]) == Err::<
                        (Seq<Seq<char>>, int),
                        Seq<char>,
                    >(m) ==> spec_ty_inner(toks, pos as int, depth as int) == Err::<
                        (TyView, int),
                        Seq<char>,
                    >(m),
                type_arguments(toks, q0 as int, depth as int, seq![il(first@)]) == type_arguments(
                    toks,
                    q as int,
                    depth as int,
                    strings_view(args@),
                ),
            decreases n - q,
        {
            proof {
                reveal_strlit(",");
                assert(toks[q as int].0 == tokens@[q as int].text@);
                assert(toks[q as int].0.len() > 0);
                lemma_ty(toks, q + 1, depth as int);
            }
            let (t, q2) = match ty_at(tokens, q + 1, depth) {
                Ok(x) => x,
                Err(f) => return Err(f),
            };
            let ghost before = strings_view(args@);
            args.push(t.il());
            proof {
                assert(strings_view(args@) =~= before.push(il(t@)));
            }
            q = q2;
        }
        proof {
            assert(toks[q as int].0 == tokens@[q as int].text@);
            lemma_advance(toks, q as int);
        }
        let r = match expect_at(tokens, q, ">") {
            Ok(r) => r,
            Err(f) => return Err(f),
        };
        let mut record = name;
        push_str(&mut record, "<");
        let list = join_arguments(&args);
        push_str(&mut record, list.as_str());
        push_str(&mut record, ">");
        return suffixes_at(tokens, r, depth, Ty::Record(record));
    }
    let ty = match from_metadata_exec(&Type::from_name(name.as_str())) {
        Ok(t) => t,
        Err(f) => return Err(f),
    };
    suffixes_at(tokens, p, depth, ty)
}


/// Skipping line breaks from `pos`.
pub open spec fn skip_newlines(toks: Seq<TokenView>, pos: int) -> int
    decreases toks.len() - pos,
{
    if 0 <= pos && pos + 1 < toks.len() && toks[pos].0 == "\n"@ {
        skip_newlines(toks, pos + 1)
    } else {
        pos
    }
}

/// Skipping line breaks and semicolons from `pos`.
pub open spec fn skip_lines(toks: Seq<TokenView>, pos: int) -> int
    decreases toks.len() - pos,
{
    if 0 <= pos && pos + 1 < toks.len() && (toks[pos].0 == "\n"@ || toks[pos].0 == ";"@) {
        skip_lines(toks, pos + 1)
    } else {
        pos
    }
}

/// A copy of a token.
pub fn copy_token(t: &Token) -> (r: Token)
    ensures
        r == *t,
{
    Token { text: t.text.clone(), line: t.line, column: t.column }
}

/// The front end's cursor over the tokens of a source, with the number of
/// type annotations it is inside.
pub struct Parser {
    pub tokens: Vec<Token>,
    pub position: usize,
    pub depth: usize,
}

impl Parser {
    /// The views of the tokens.
    pub open spec fn toks(&self) -> Seq<TokenView> {
        tokens_view(self.tokens@)
    }

    /// The tokens end with the end-of-source token and the cursor is on one
    /// of them.
    pub open spec fn wf(&self) -> bool {
        terminated(self.toks()) && self.position < self.tokens@.len()
    }

    /// The cursor's position index.
    pub open spec fn pos(&self) -> int {
        self.position as int
    }

    /// A cursor at the first token of `source`, or why the lexer refused it.
    pub fn new(source: &str) -> (r: Result<Parser, Fault>)
        ensures
            match spec_lex(source) {
                Ok(ts) => r matches Ok(p) && p.wf() && p.toks() == ts && p.position == 0
                    && p.depth == 0,
                Err(m) => r matches Err(f) && f.message@ == m,
            },
    {
        proof {
            lemma_lex_from_ends_empty(source@, 0, 1, 1);
        }
        match lex(source) {
            Ok(tokens) => Ok(Parser { tokens, position: 0, depth: 0 }),
            Err(f) => Err(f),
        }
    }

    /// The token under the cursor.
    pub fn current(&self) -> (t: &Token)
        requires
            self.wf(),
        ensures
            *t == self.tokens@[self.pos()],
    {
        &self.tokens[self.position]
    }

    /// Whether the token under the cursor reads `text`.
    pub fn at(&self, text: &str) -> (b: bool)
        requires
            self.wf(),
        ensures
            b == (self.toks()[self.pos()].0 == text@),
    {
        str_eq(self.tokens[self.position].text.as_str(), text)
    }

    /// Takes the token under the cursor; the end token stays.
    pub fn take(&mut self) -> (t: Token)
        requires
            old(self).wf(),
        ensures
            final(self).wf(),
            final(self).tokens == old(self).tokens,
            final(self).depth == old(self).depth,
            final(self).pos() == advance(old(self).toks(), old(self).pos()),
            final(self).pos() >= old(self).pos(),
            old(self).toks()[old(self).pos()].0.len() > 0 ==> final(self).pos() == old(self).pos() + 1,
            t == old(self).tokens@[old(self).pos()],
    {
        let t = copy_token(&self.tokens[self.position]);
        proof {
            lemma_advance(self.toks(), self.pos());
        }
        self.position = advance_at(&self.tokens, self.position);
        t
    }

    /// Takes the token under the cursor when it reads `text`.
    pub fn eat(&mut self, text: &str) -> (b: bool)
        requires
            old(self).wf(),
        ensures
            final(self).wf(),
            final(self).tokens == old(self).tokens,
            final(self).depth == old(self).depth,
            b == (old(self).toks()[old(self).pos()].0 == text@),
            final(self).pos() >= old(self).pos(),
            b && text@.len() > 0 ==> final(self).pos() == old(self).pos() + 1,
            final(self).pos() == if b {
                advance(old(self).toks(), old(self).pos())
            } else {
                old(self).pos()
            },
    {
        if self.at(text) {
            self.take();
            true
        } else {
            false
        }
    }

    /// Takes the token under the cursor, which must read `text`.
    pub fn expect(&mut self, text: &str) -> (r: Result<Token, Fault>)
        requires
            old(self).wf(),
        ensures
            final(self).wf(),
            final(self).tokens == old(self).tokens,
            final(self).depth == old(self).depth,
            final(self).pos() >= old(self).pos(),
            r is Ok && text@.len() > 0 ==> final(self).pos() == old(self).pos() + 1,
            match spec_expect(old(self).toks(), old(self).pos(), text@) {
                Ok(p) => r == Ok::<Token, Fault>(old(self).tokens@[old(self).pos()])
                    && final(self).pos() == p,
                Err(m) => r matches Err(f) && f.message@ == m && final(self).pos() == old(
                    self,
                ).pos(),
            },
    {
        proof {
            lemma_advance(self.toks(), self.pos());
        }
        match expect_at(&self.tokens, self.position, text) {
            Ok(p) => {
                let t = copy_token(&self.tokens[self.position]);
                self.position = p;
                Ok(t)
            },
            Err(f) => Err(f),
        }
    }

    /// Skips line breaks.
    pub fn newlines(&mut self)
        requires
            old(self).wf(),
        ensures
            final(self).wf(),
            final(self).tokens == old(self).tokens,
            final(self).depth == old(self).depth,
            final(self).pos() == skip_newlines(old(self).toks(), old(self).pos()),
            final(self).pos() >= old(self).pos(),
    {
        let ghost toks = self.toks();
        let ghost start = self.pos();
        proof {
            reveal_strlit("\n");
        }
        while self.eat("\n")
            invariant
                self.wf(),
                self.toks() == toks,
                self.depth == old(self).depth,
                self.tokens == old(self).tokens,
                skip_newlines(toks, start) == skip_newlines(toks, self.pos()),
            decreases self.tokens@.len() - self.position,
        {
            proof {
                reveal_strlit("\n");
                lemma_advance(toks, self.pos() - 1);
            }
        }
        proof {
            reveal_strlit("\n");
            lemma_skip_newlines(toks, start);
        }
    }

    /// Skips line breaks and semicolons.
    pub fn lines(&mut self)
        requires
            old(self).wf(),
        ensures
            final(self).wf(),
            final(self).tokens == old(self).tokens,
            final(self).depth == old(self).depth,
            final(self).pos() == skip_lines(old(self).toks(), old(self).pos()),
            final(self).pos() >= old(self).pos(),
    {
        let ghost toks = self.toks();
        let ghost start = self.pos();
        while self.eat("\n") || self.eat(";")
            invariant
                self.wf(),
                self.toks() == toks,
                self.depth == old(self).depth,
                self.tokens == old(self).tokens,
                skip_lines(toks, start) == skip_lines(toks, self.pos()),
            decreases self.tokens@.len() - self.position,
        {
            proof {
                reveal_strlit("\n");
                reveal_strlit(";");
            }
        }
        proof {
            reveal_strlit("\n");
            reveal_strlit(";");
            lemma_skip_lines(toks, start);
        }
    }

    /// Takes a name: the token is taken whether or not it is one.
    pub fn name(&mut self) -> (r: Result<Token, Fault>)
        requires
            old(self).wf(),
        ensures
            final(self).wf(),
            final(self).tokens == old(self).tokens,
            final(self).depth == old(self).depth,
            final(self).pos() == advance(old(self).toks(), old(self).pos()),
            final(self).pos() >= old(self).pos(),
            r is Ok ==> final(self).pos() == old(self).pos() + 1,
            match spec_name(old(self).toks(), old(self).pos()) {
                Ok(_) => r == Ok::<Token, Fault>(old(self).tokens@[old(self).pos()]),
                Err(m) => r matches Err(f) && f.message@ == m,
            },
    {
        let checked = name_at(&self.tokens, self.position);
        let t = self.take();
        match checked {
            Ok(_) => Ok(t),
            Err(f) => Err(f),
        }
    }

    /// Parses a type annotation at the cursor (see `spec_ty`); a refused
    /// annotation leaves the cursor where it was.
    pub fn ty(&mut self) -> (r: Result<Ty, Fault>)
        requires
            old(self).wf(),
        ensures
            final(self).wf(),
            final(self).tokens == old(self).tokens,
            final(self).depth == old(self).depth,
            final(self).pos() >= old(self).pos(),
            r is Ok ==> final(self).pos() > old(self).pos(),
            match spec_ty(old(self).toks(), old(self).pos(), old(self).depth as int) {
                Ok((t, p)) => r matches Ok(x) && x@ == t && final(self).pos() == p,
                Err(m) => r matches Err(f) && f.message@ == m && final(self).pos() == old(
                    self,
                ).pos(),
            },
    {
        proof {
            lemma_ty(self.toks(), self.pos(), self.depth as int);
        }
        match ty_at(&self.tokens, self.position, self.depth) {
            Ok((t, p)) => {
                self.position = p;
                Ok(t)
            },
            Err(f) => Err(f),
        }
    }
}


pub proof fn lemma_skip_newlines(toks: Seq<TokenView>, pos: int)
    requires
        terminated(toks),
        0 <= pos < toks.len(),
    ensures
        pos <= skip_newlines(toks, pos) < toks.len(),
    decreases toks.len() - pos,
{
    if pos + 1 < toks.len() && toks[pos].0 == "\n"@ {
        lemma_skip_newlines(toks, pos + 1);
    }
}

pub proof fn lemma_skip_lines(toks: Seq<TokenView>, pos: int)
    requires
        terminated(toks),
        0 <= pos < toks.len(),
    ensures
        pos <= skip_lines(toks, pos) < toks.len(),
    decreases toks.len() - pos,
{
    if pos + 1 < toks.len() && (toks[pos].0 == "\n"@ || toks[pos].0 == ";"@) {
        lemma_skip_lines(toks, pos + 1);
    }
}

/// A declared parameter or record field.
#[derive(Debug)]
pub struct Field {
    pub name: Token,
    pub ty: Ty,
    pub output: bool,
    pub readonly: bool,
}

/// A field's name token, type, and whether it is an `out` and a `readonly`
/// parameter.
pub type FieldView = (TokenView, TyView, bool, bool);

pub open spec fn field_view(f: Field) -> FieldView {
    (token_view(f.name), f.ty@, f.output, f.readonly)
}

pub open spec fn fields_view(v: Seq<Field>) -> Seq<FieldView> {
    Seq::new(v.len(), |i: int| field_view(v[i]))
}

/// Whether a type is a managed reference, writable or not.
pub open spec fn is_reference(t: TyView) -> bool {
    t is Ref || t is ReadOnlyRef
}

/// Whether one of `fields` is called `name`.
pub open spec fn has_field_named(fields: Seq<FieldView>, name: Seq<char>) -> bool {
    exists|i: int| 0 <= i < fields.len() && (#[trigger] fields[i]).0.0 == name
}

/// One entry of a parameter or field list at `pos`, after the entries `acc`:
/// the entry and the position after its type.
pub open spec fn field_entry(
    toks: Seq<TokenView>,
    pos: int,
    depth: int,
    parameters: bool,
    acc: Seq<FieldView>,
) -> Result<(FieldView, int), Seq<char>> {
    let readonly = parameters && toks[pos].0 == "readonly"@;
    let p0 = if readonly {
        advance(toks, pos)
    } else {
        pos
    };
    let output = parameters && toks[p0].0 == "out"@;
    let at = if output {
        advance(toks, p0)
    } else {
        p0
    };
    match spec_name(toks, at) {
        Err(m) => Err(m),
        Ok(p1) => if has_field_named(acc, toks[at].0) {
            Err(error_at(toks, at, "duplicate parameter or field"@))
        } else {
            match spec_expect(toks, p1, ":"@) {
                Err(m) => Err(m),
                Ok(p2) => match spec_ty(toks, p2, depth) {
                    Err(m) => Err(m),
                    Ok((t, p3)) => if acc.len() >= 1024 {
                        Err(error_at(toks, at, "parameter/field limit exceeded"@))
                    } else if output && !is_reference(t) {
                        Err(error_at(toks, at, "out parameter requires a managed reference type"@))
                    } else if readonly && (output || !is_reference(t)) {
                        Err(error_at(toks, at, "readonly parameter requires a managed input reference"@))
                    } else {
                        Ok(((toks[at], t, output, readonly), p3))
                    },
                },
            }
        },
    }
}

/// The entries of a parameter or field list from `pos`, after `acc`.
pub open spec fn field_entries(
    toks: Seq<TokenView>,
    pos: int,
    depth: int,
    parameters: bool,
    acc: Seq<FieldView>,
) -> Result<(Seq<FieldView>, int), Seq<char>>
    decreases toks.len() - pos,
{
    match field_entry(toks, pos, depth, parameters, acc) {
        Err(m) => Err(m),
        Ok((f, p3)) => {
            let fields = acc.push(f);
            let p4 = skip_newlines(toks, p3);
            if toks[p4].0 != ","@ {
                Ok((fields, p4))
            } else {
                let p5 = skip_newlines(toks, advance(toks, p4));
                if p5 <= pos || p5 >= toks.len() {
                    Err(Seq::empty())
                } else {
                    field_entries(toks, p5, depth, parameters, fields)
                }
            }
        },
    }
}

/// A parenthesised parameter (`parameters`) or field list at `pos`.
pub open spec fn spec_fields(toks: Seq<TokenView>, pos: int, depth: int, parameters: bool) -> Result<
    (Seq<FieldView>, int),
    Seq<char>,
> {
    match spec_expect(toks, pos, "("@) {
        Err(m) => Err(m),
        Ok(p) => {
            let q = skip_newlines(toks, p);
            let entries = if toks[q].0 == ")"@ {
                Ok((Seq::empty(), q))
            } else {
                field_entries(toks, q, depth, parameters, Seq::empty())
            };
            match entries {
                Err(m) => Err(m),
                Ok((fs, r)) => match spec_expect(toks, r, ")"@) {
                    Err(m) => Err(m),
                    Ok(e) => Ok((fs, e)),
                },
            }
        },
    }
}

pub proof fn lemma_field_entry(
    toks: Seq<TokenView>,
    pos: int,
    depth: int,
    parameters: bool,
    acc: Seq<FieldView>,
)
    requires
        terminated(toks),
        0 <= pos < toks.len(),
    ensures
        field_entry(toks, pos, depth, parameters, acc) matches Ok((_, p)) ==> pos < p < toks.len(),
{
    reveal_strlit("readonly");
    reveal_strlit("out");
    reveal_strlit(":");
    lemma_advance(toks, pos);
    let readonly = parameters && toks[pos].0 == "readonly"@;
    let p0 = if readonly {
        advance(toks, pos)
    } else {
        pos
    };
    lemma_advance(toks, p0);
    let output = parameters && toks[p0].0 == "out"@;
    let at = if output {
        advance(toks, p0)
    } else {
        p0
    };
    lemma_advance(toks, at);
    if let Ok(p1) = spec_name(toks, at) {
        lemma_advance(toks, p1);
        if let Ok(p2) = spec_expect(toks, p1, ":"@) {
            lemma_ty(toks, p2, depth);
        }
    }
}

pub proof fn lemma_field_entries(
    toks: Seq<TokenView>,
    pos: int,
    depth: int,
    parameters: bool,
    acc: Seq<FieldView>,
)
    requires
        terminated(toks),
        0 <= pos < toks.len(),
    ensures
        field_entries(toks, pos, depth, parameters, acc) matches Ok((_, p)) ==> pos < p < toks.len(),
    decreases toks.len() - pos,
{
    lemma_field_entry(toks, pos, depth, parameters, acc);
    if let Ok((f, p3)) = field_entry(toks, pos, depth, parameters, acc) {
        lemma_skip_newlines(toks, p3);
        let p4 = skip_newlines(toks, p3);
        if toks[p4].0 == ","@ {
            let p5 = skip_newlines(toks, advance(toks, p4));
            if !(p5 <= pos || p5 >= toks.len()) {
                lemma_field_entries(toks, p5, depth, parameters, acc.push(f));
            }
        }
    }
}

/// A parameter or field list ends after the token it starts on.
pub proof fn lemma_fields(toks: Seq<TokenView>, pos: int, depth: int, parameters: bool)
    requires
        terminated(toks),
        0 <= pos < toks.len(),
    ensures
        spec_fields(toks, pos, depth, parameters) matches Ok((_, p)) ==> pos < p < toks.len(),
{
    reveal_strlit("(");
    reveal_strlit(")");
    lemma_advance(toks, pos);
    if let Ok(p) = spec_expect(toks, pos, "("@) {
        lemma_skip_newlines(toks, p);
        let q = skip_newlines(toks, p);
        lemma_field_entries(toks, q, depth, parameters, Seq::empty());
        let entries = if toks[q].0 == ")"@ {
            Ok((Seq::<FieldView>::empty(), q))
        } else {
            field_entries(toks, q, depth, parameters, Seq::empty())
        };
        if let Ok((_, r)) = entries {
            lemma_advance(toks, r);
        }
    }
}

impl Parser {
    /// Parses one entry of a parameter or field list after `fields` (see
    /// `field_entry`).
    fn field_entry(&mut self, parameters: bool, fields: &Vec<Field>) -> (r: Result<Field, Fault>)
        requires
            old(self).wf(),
        ensures
            final(self).wf(),
            final(self).tokens == old(self).tokens,
            final(self).depth == old(self).depth,
            match field_entry(
                old(self).toks(),
                old(self).pos(),
                old(self).depth as int,
                parameters,
                fields_view(fields@),
            ) {
                Ok((f, p)) => r matches Ok(x) && field_view(x) == f && final(self).pos() == p,
                Err(m) => r matches Err(e) && e.message@ == m,
            },
    {
        let ghost acc = fields_view(fields@);
        let readonly = parameters && self.eat("readonly");
        let output = parameters && self.eat("out");
        let name = match self.name() {
            Ok(t) => t,
            Err(f) => return Err(f),
        };
        if has_name(fields, &name) {
            return Err(name_fault(&name, "duplicate parameter or field"));
        }
        if let Err(f) = self.expect(":") {
            return Err(f);
        }
        let ty = match self.ty() {
            Ok(t) => t,
            Err(f) => return Err(f),
        };
        if fields.len() >= 1024 {
            return Err(name_fault(&name, "parameter/field limit exceeded"));
        }
        let reference = match ty {
            Ty::Ref(_) | Ty::ReadOnlyRef(_) => true,
            _ => false,
        };
        if output && !reference {
            return Err(name_fault(&name, "out parameter requires a managed reference type"));
        }
        if readonly && (output || !reference) {
            return Err(name_fault(&name, "readonly parameter requires a managed input reference"));
        }
        Ok(Field { name, ty, output, readonly })
    }

    /// Parses the entries of a parameter or field list (see `field_entries`).
    fn field_list(&mut self, parameters: bool) -> (r: Result<Vec<Field>, Fault>)
        requires
            old(self).wf(),
        ensures
            final(self).wf(),
            final(self).tokens == old(self).tokens,
            final(self).depth == old(self).depth,
            match field_entries(
                old(self).toks(),
                old(self).pos(),
                old(self).depth as int,
                parameters,
                Seq::empty(),
            ) {
                Ok((fs, p)) => r matches Ok(v) && fields_view(v@) == fs && final(self).pos() == p,
                Err(m) => r matches Err(f) && f.message@ == m,
            },
    {
        let ghost toks = self.toks();
        let ghost depth = self.depth as int;
        let ghost q = self.pos();
        let mut fields: Vec<Field> = Vec::new();
        proof {
            assert(fields_view(fields@) =~= Seq::<FieldView>::empty());
        }
        loop
            invariant
                self.wf(),
                self.toks() == toks,
                toks == old(self).toks(),
                q == old(self).pos(),
                self.tokens == old(self).tokens,
                self.depth == old(self).depth,
                self.depth as int == depth,
                field_entries(toks, q, depth, parameters, Seq::empty()) == field_entries(
                    toks,
                    self.pos(),
                    depth,
                    parameters,
                    fields_view(fields@),
                ),
            decreases toks.len() - self.pos(),
        {
            let ghost start = self.pos();
            let ghost acc = fields_view(fields@);
            proof {
                lemma_field_entry(toks, start, depth, parameters, acc);
            }
            let field = match self.field_entry(parameters, &fields) {
                Ok(f) => f,
                Err(f) => return Err(f),
            };
            let ghost p3 = self.pos();
            fields.push(field);
            proof {
                assert(fields_view(fields@) =~= acc.push(fields_view(fields@).last()));
                lemma_skip_newlines(toks, p3);
            }
            self.newlines();
            proof {
                reveal_strlit(",");
            }
            if !self.eat(",") {
                return Ok(fields);
            }
            proof {
                lemma_skip_newlines(toks, self.pos());
            }
            self.newlines();
        }
    }

    /// Parses a parenthesised parameter (`parameters`) or field list (see
    /// `spec_fields`).
    pub fn fields(&mut self, parameters: bool) -> (r: Result<Vec<Field>, Fault>)
        requires
            old(self).wf(),
        ensures
            final(self).wf(),
            final(self).tokens == old(self).tokens,
            final(self).depth == old(self).depth,
            match spec_fields(old(self).toks(), old(self).pos(), old(self).depth as int, parameters) {
                Ok((fs, p)) => r matches Ok(v) && fields_view(v@) == fs && final(self).pos() == p,
                Err(m) => r matches Err(f) && f.message@ == m,
            },
    {
        let ghost toks = self.toks();
        if let Err(f) = self.expect("(") {
            return Err(f);
        }
        self.newlines();
        proof {
            reveal_strlit(")");
        }
        let fields = if self.at(")") {
            Vec::new()
        } else {
            match self.field_list(parameters) {
                Ok(v) => v,
                Err(f) => return Err(f),
            }
        };
        match self.expect(")") {
            Ok(_) => Ok(fields),
            Err(f) => Err(f),
        }
    }
}

/// Whether one of `fields` has the name of `name`.
pub(crate) fn has_name(fields: &Vec<Field>, name: &Token) -> (b: bool)
    ensures
        b == has_field_named(fields_view(fields@), name.text@),
{
    let ghost acc = fields_view(fields@);
    let mut i: usize = 0;
    while i < fields.len()
        invariant
            i <= fields@.len(),
            acc == fields_view(fields@),
            forall|k: int| 0 <= k < i ==> acc[k].0.0 != name.text@,
        decreases fields.len() - i,
    {
        if str_eq(fields[i].name.text.as_str(), name.text.as_str()) {
            assert(acc[i as int].0.0 == name.text@);
            return true;
        }
        i += 1;
    }
    false
}

/// A diagnostic at a name token.
pub(crate) fn name_fault(name: &Token, message: &str) -> (f: Fault)
    ensures
        f.message@ == positioned(name.line as int, name.column as int, message@),
{
    positioned_fault(name.line, name.column, message)
}


/// Ending a statement at `pos`: before a closing brace or the end nothing is
/// taken, else a line break or semicolon must follow and all of them are.
pub open spec fn spec_end_statement(toks: Seq<TokenView>, pos: int) -> Result<int, Seq<char>> {
    if toks[pos].0 == "}"@ || toks[pos].0.len() == 0 {
        Ok(pos)
    } else if toks[pos].0 != "\n"@ && toks[pos].0 != ";"@ {
        Err(error_at(toks, pos, "expected newline or semicolon"@))
    } else {
        Ok(skip_lines(toks, pos))
    }
}

/// A pattern of a match arm or a conditional binding.
#[derive(Debug)]
pub enum Pattern {
    Wildcard(Token),
    /// A case name; `None` when it has no payload, `Some(None)` when the
    /// payload is discarded.
    Case(Token, Option<Option<Token>>),
}

pub ghost enum PatternView {
    Wildcard(TokenView),
    Case(TokenView, Option<Option<TokenView>>),
}

pub open spec fn pattern_view(p: Pattern) -> PatternView {
    match p {
        Pattern::Wildcard(t) => PatternView::Wildcard(token_view(t)),
        Pattern::Case(t, payload) => PatternView::Case(
            token_view(t),
            match payload {
                None => None,
                Some(None) => Some(None),
                Some(Some(b)) => Some(Some(token_view(b))),
            },
        ),
    }
}

/// A conditional case binding at `pos`: a case name and optionally a
/// parenthesised binding, `_` discarding the payload.
pub open spec fn spec_conditional_pattern(toks: Seq<TokenView>, pos: int) -> Result<
    (PatternView, int),
    Seq<char>,
> {
    match spec_name(toks, pos) {
        Err(m) => Err(m),
        Ok(p1) => if toks[p1].0 == "("@ {
            let p2 = advance(toks, p1);
            match spec_name(toks, p2) {
                Err(m) => Err(m),
                Ok(p3) => match spec_expect(toks, p3, ")"@) {
                    Err(m) => Err(m),
                    Ok(p4) => Ok(
                        (
                            PatternView::Case(
                                toks[pos],
                                Some(
                                    if toks[p2].0 == "_"@ {
                                        None
                                    } else {
                                        Some(toks[p2])
                                    },
                                ),
                            ),
                            p4,
                        ),
                    ),
                },
            }
        } else {
            Ok((PatternView::Case(toks[pos], None), p1))
        },
    }
}

impl Parser {
    /// Ends a statement (see `spec_end_statement`).
    pub fn end_statement(&mut self) -> (r: Result<(), Fault>)
        requires
            old(self).wf(),
        ensures
            final(self).wf(),
            final(self).tokens == old(self).tokens,
            final(self).depth == old(self).depth,
            final(self).pos() >= old(self).pos(),
            match spec_end_statement(old(self).toks(), old(self).pos()) {
                Ok(p) => r is Ok && final(self).pos() == p,
                Err(m) => r matches Err(f) && f.message@ == m,
            },
    {
        proof {
            assert(self.toks()[self.pos()].0 == self.tokens@[self.pos()].text@);
        }
        if self.at("}") || self.tokens[self.position].text.as_str().is_empty() {
            return Ok(());
        }
        if !self.at("\n") && !self.at(";") {
            return Err(error_fault(&self.tokens, self.position, "expected newline or semicolon"));
        }
        self.lines();
        Ok(())
    }

    /// Parses a conditional case binding (see `spec_conditional_pattern`).
    pub fn conditional_pattern(&mut self) -> (r: Result<Pattern, Fault>)
        requires
            old(self).wf(),
        ensures
            final(self).wf(),
            final(self).tokens == old(self).tokens,
            final(self).depth == old(self).depth,
            match spec_conditional_pattern(old(self).toks(), old(self).pos()) {
                Ok((pat, p)) => r matches Ok(x) && pattern_view(x) == pat && final(self).pos() == p,
                Err(m) => r matches Err(f) && f.message@ == m,
            },
    {
        let case = match self.name() {
            Ok(t) => t,
            Err(f) => return Err(f),
        };
        let binding = if self.eat("(") {
            let binding = match self.name() {
                Ok(t) => t,
                Err(f) => return Err(f),
            };
            if let Err(f) = self.expect(")") {
                return Err(f);
            }
            Some(
                if str_eq(binding.text.as_str(), "_") {
                    None
                } else {
                    Some(binding)
                },
            )
        } else {
            None
        };
        Ok(Pattern::Case(case, binding))
    }
}


/// The text of a constraint clause from `pos`, after `text`: each
/// comma-separated restriction token, a space before each; and the position
/// after the last.
pub open spec fn constraint_words(toks: Seq<TokenView>, pos: int, text: Seq<char>) -> (
    Seq<char>,
    int,
)
    decreases toks.len() - pos,
{
    let t = text + " "@ + toks[pos].0;
    let p = advance(toks, pos);
    let next = advance(toks, p);
    if toks[p].0 == ","@ && pos < next < toks.len() {
        constraint_words(toks, next, t)
    } else {
        (t, p)
    }
}

/// The `where` clauses from `pos` (line breaks before each allowed), after
/// the constraints `acc`, for generic parameters `names`.
pub open spec fn constraint_clauses(
    toks: Seq<TokenView>,
    pos: int,
    names: Seq<Option<Seq<char>>>,
    acc: Seq<(u16, ConstraintKindView)>,
) -> Result<(Seq<(u16, ConstraintKindView)>, int), Seq<char>>
    decreases toks.len() - pos,
{
    let p = skip_newlines(toks, pos);
    if toks[p].0 != "where"@ {
        Ok((acc, pos))
    } else {
        let p1 = advance(toks, p);
        match spec_name(toks, p1) {
            Err(m) => Err(m),
            Ok(p2) => match spec_expect(toks, p2, ":"@) {
                Err(m) => Err(m),
                Ok(p3) => {
                    let (text, p4) = constraint_words(toks, p3, toks[p1].0);
                    match spec_parse_constraints(text, names) {
                        Err(m) => Err(error_at(toks, p1, m)),
                        Ok(cs) => if p4 <= pos || p4 >= toks.len() {
                            Err(Seq::empty())
                        } else {
                            constraint_clauses(toks, p4, names, acc + cs)
                        },
                    }
                },
            },
        }
    }
}

/// The generic constraints declared at `pos` for generic parameters `names`,
/// checked against them.
pub open spec fn spec_constraints(toks: Seq<TokenView>, pos: int, names: Seq<Option<Seq<char>>>) -> Result<
    (Seq<(u16, ConstraintKindView)>, int),
    Seq<char>,
> {
    match constraint_clauses(toks, pos, names, Seq::empty()) {
        Err(m) => Err(m),
        Ok((cs, p)) => match validate_from(cs, names.len(), 0) {
            Err(m) => Err(error_at(toks, p, m)),
            Ok(_) => Ok((cs, p)),
        },
    }
}

/// Generic parameter names as constraint parameter names.
pub open spec fn parameter_names(parameters: Seq<String>) -> Seq<Option<Seq<char>>> {
    Seq::new(parameters.len(), |i: int| Some(parameters[i]@))
}

pub proof fn lemma_constraint_words(toks: Seq<TokenView>, pos: int, text: Seq<char>)
    requires
        terminated(toks),
        0 <= pos < toks.len(),
    ensures
        pos <= constraint_words(toks, pos, text).1 < toks.len(),
    decreases toks.len() - pos,
{
    lemma_advance(toks, pos);
    let p = advance(toks, pos);
    lemma_advance(toks, p);
    let next = advance(toks, p);
    if toks[p].0 == ","@ && pos < next < toks.len() {
        lemma_constraint_words(toks, next, text + " "@ + toks[pos].0);
    }
}

impl Parser {
    /// Takes the restriction tokens of a constraint clause after `text`
    /// (see `constraint_words`).
    fn constraint_text(&mut self, prefix: String) -> (r: String)
        requires
            old(self).wf(),
        ensures
            final(self).wf(),
            final(self).tokens == old(self).tokens,
            final(self).depth == old(self).depth,
            (r@, final(self).pos()) == constraint_words(old(self).toks(), old(self).pos(), prefix@),
    {
        let ghost toks = self.toks();
        let ghost start = self.pos();
        let ghost t0 = prefix@;
        let mut text = prefix;
        loop
            invariant
                self.wf(),
                self.toks() == toks,
                toks == old(self).toks(),
                start == old(self).pos(),
                t0 == prefix@,
                self.tokens == old(self).tokens,
                self.depth == old(self).depth,
                constraint_words(toks, start, t0) == constraint_words(toks, self.pos(), text@),
            decreases toks.len() - self.pos(),
        {
            let ghost here = self.pos();
            let ghost before = text@;
            proof {
                lemma_advance(toks, here);
            }
            push_char(&mut text, ' ');
            let token = self.take();
            push_str(&mut text, token.text.as_str());
            proof {
                reveal_strlit(" ");
                reveal_strlit(",");
                assert(text@ =~= before + " "@ + toks[here].0);
                lemma_advance(toks, self.pos());
            }
            if !self.eat(",") {
                return text;
            }
        }
    }

    /// Parses the `where` clauses of a declaration with generic parameters
    /// `parameters` (see `spec_constraints`); line breaks before a missing
    /// clause are left in place.
    pub fn constraints(&mut self, parameters: &Vec<String>) -> (r: Result<Vec<GenericConstraint>, Fault>)
        requires
            old(self).wf(),
        ensures
            final(self).wf(),
            final(self).tokens == old(self).tokens,
            final(self).depth == old(self).depth,
            match spec_constraints(old(self).toks(), old(self).pos(), parameter_names(parameters@)) {
                Ok((cs, p)) => r matches Ok(v) && constraints_view(v@) == cs && final(self).pos() == p,
                Err(m) => r matches Err(f) && f.message@ == m,
            },
    {
        let ghost toks = self.toks();
        let ghost start = self.pos();
        let mut names: Vec<Option<String>> = Vec::new();
        let mut i: usize = 0;
        while i < parameters.len()
            invariant
                i <= parameters@.len(),
                names_view(names@) =~= parameter_names(parameters@).take(i as int),
            decreases parameters.len() - i,
        {
            let name = parameters[i].clone();
            let ghost before = names@;
            names.push(Some(name));
            proof {
                assert(names@ == before.push(Some(name)));
                assert(names_view(names@) =~= names_view(before).push(Some(parameters@[i as int]@)));
                assert(parameter_names(parameters@).take(i + 1) =~= parameter_names(parameters@).take(
                    i as int,
                ).push(Some(parameters@[i as int]@)));
            }
            i += 1;
        }
        let ghost ns = names_view(names@);
        let mut result: Vec<GenericConstraint> = Vec::new();
        proof {
            assert(ns =~= parameter_names(parameters@));
            assert(constraints_view(result@) =~= Seq::<(u16, ConstraintKindView)>::empty());
        }
        loop
            invariant
                self.wf(),
                self.toks() == toks,
                toks == old(self).toks(),
                start == old(self).pos(),
                self.tokens == old(self).tokens,
                self.depth == old(self).depth,
                ns == names_view(names@),
                ns == parameter_names(parameters@),
                constraint_clauses(toks, start, ns, Seq::empty()) == constraint_clauses(
                    toks,
                    self.pos(),
                    ns,
                    constraints_view(result@),
                ),
            ensures
                self.wf(),
                self.toks() == toks,
                self.tokens == old(self).tokens,
                self.depth == old(self).depth,
                constraint_clauses(toks, start, ns, Seq::empty()) == Ok::<
                    (Seq<(u16, ConstraintKindView)>, int),
                    Seq<char>,
                >((constraints_view(result@), self.pos())),
            decreases toks.len() - self.pos(),
        {
            let ghost here = self.pos();
            let saved = self.position;
            proof {
                lemma_skip_newlines(toks, here);
                reveal_strlit("where");
            }
            self.newlines();
            if !self.eat("where") {
                self.position = saved;
                break;
            }
            let ghost p1 = self.pos();
            let parameter = match self.name() {
                Ok(t) => t,
                Err(f) => return Err(f),
            };
            if let Err(f) = self.expect(":") {
                return Err(f);
            }
            proof {
                lemma_constraint_words(toks, self.pos(), parameter.text@);
                lemma_advance(toks, p1);
            }
            let text = self.constraint_text(parameter.text.clone());
            let mut parsed = match crate::constraints::parse(text.as_str(), &names) {
                Ok(cs) => cs,
                Err(e) => return Err(name_fault(&parameter, e.message.as_str())),
            };
            let ghost before = constraints_view(result@);
            let ghost added = constraints_view(parsed@);
            result.append(&mut parsed);
            proof {
                assert(constraints_view(result@) =~= before + added);
            }
        }
        match crate::constraints::validate(&result, names.len()) {
            Ok(()) => Ok(result),
            Err(e) => Err(error_fault(&self.tokens, self.position, e.message.as_str())),
        }
    }
}

} // verus!
