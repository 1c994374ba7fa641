//! The checks a whole document passes before its declarations are lowered:
//! declaration names are unique and none is reserved, and `Main` exists and
//! takes no parameters.
use crate::declarations::contains_name;
use crate::document::{delegate_view, source_view, DelegateDeclaration, DelegateView, Source, SourceView};
use crate::frontend::il;
use crate::fault::Fault;
use crate::lexer::{positioned, token_view, tokens_view, Token};
use crate::parser::{copy_token, field_view, fields_view, name_fault, FieldView, TokenView};
use crate::syntax::{chars_equal, slice_chars};
use crate::text::{chars_of, push_str, str_eq};
use vstd::prelude::*;

verus! {

/// The names of the declarations: records, functions, interfaces, then
/// delegates, each in document order.
pub open spec fn declared_names(s: SourceView) -> Seq<TokenView> {
    Seq::new(s.records.len(), |i: int| s.records[i].name) + Seq::new(
        s.functions.len(),
        |i: int| s.functions[i].name,
    ) + Seq::new(s.interfaces.len(), |i: int| s.interfaces[i].name) + Seq::new(
        s.delegates.len(),
        |i: int| s.delegates[i].0,
    )
}

/// Names a declaration may not take: those of the compiler's own helpers
/// and the built-in type and library names.
pub open spec fn reserved_name(n: Seq<char>) -> bool {
    ||| n.len() >= 16 && n.subrange(0, 16) == "neoCLR.Compiler."@
    ||| n == "int"@
    ||| n == "Int32"@
    ||| n == "String"@
    ||| n == "string"@
    ||| n == "bool"@
    ||| n == "Boolean"@
    ||| n == "Void"@
    ||| n == "unit"@
    ||| n == "Console"@
    ||| n == "WriteLine"@
    ||| n == "System"@
    ||| n == "Option"@
    ||| n == "Result"@
    ||| n == "Byte"@
    ||| n == "byte"@
    ||| n == "array"@
}

/// Whether the name at `i` is reserved or repeats an earlier one.
pub open spec fn bad_name_at(names: Seq<TokenView>, i: int) -> bool {
    reserved_name(names[i].0) || exists|j: int| 0 <= j < i && #[trigger] names[j].0 == names[i].0
}

/// The first bad name from `i`.
pub open spec fn first_bad_name(names: Seq<TokenView>, i: int) -> Option<int>
    decreases names.len() - i,
{
    if i < 0 || i >= names.len() {
        None
    } else if bad_name_at(names, i) {
        Some(i)
    } else {
        first_bad_name(names, i + 1)
    }
}

/// The first function from `i` called `Main`.
pub open spec fn main_index(s: SourceView, i: int) -> Option<int>
    decreases s.functions.len() - i,
{
    if i < 0 || i >= s.functions.len() {
        None
    } else if s.functions[i].name.0 == "Main"@ {
        Some(i)
    } else {
        main_index(s, i + 1)
    }
}

/// The checks on a document: the index of its `Main`, or why it is refused.
pub open spec fn spec_check_program(s: SourceView) -> Result<int, Seq<char>> {
    let names = declared_names(s);
    match first_bad_name(names, 0) {
        Some(i) => Err(positioned(names[i].1, names[i].2, "duplicate or reserved declaration name"@)),
        None => match main_index(s, 0) {
            None => Err("source requires func Main()"@),
            Some(m) => if s.functions[m].parameters.len() > 0 {
                Err(positioned(s.functions[m].name.1, s.functions[m].name.2, "Main must be parameterless"@))
            } else {
                Ok(m)
            },
        },
    }
}

/// Whether a declaration may not take `name` (see `reserved_name`).
fn is_reserved(name: &str) -> (b: bool)
    ensures
        b == reserved_name(name@),
{
    let chars = chars_of(name);
    if chars.len() >= 16 {
        let head = slice_chars(&chars, 0, 16);
        if chars_equal(&head, "neoCLR.Compiler.") {
            return true;
        }
    }
    str_eq(name, "int") || str_eq(name, "Int32") || str_eq(name, "String") || str_eq(name, "string")
        || str_eq(name, "bool") || str_eq(name, "Boolean") || str_eq(name, "Void") || str_eq(
        name,
        "unit",
    ) || str_eq(name, "Console") || str_eq(name, "WriteLine") || str_eq(name, "System") || str_eq(
        name,
        "Option",
    ) || str_eq(name, "Result") || str_eq(name, "Byte") || str_eq(name, "byte") || str_eq(
        name,
        "array",
    )
}

/// The declaration names in order (see `declared_names`).
fn declaration_names(source: &Source) -> (names: Vec<Token>)
    ensures
        tokens_view(names@) == declared_names(source_view(*source)),
{
    let ghost s = source_view(*source);
    let mut names: Vec<Token> = Vec::new();
    let mut i: usize = 0;
    while i < source.records.len()
        invariant
            i <= source.records@.len(),
            s == source_view(*source),
            tokens_view(names@) =~= Seq::new(i as nat, |k: int| s.records[k].name),
        decreases source.records.len() - i,
    {
        let ghost prev = tokens_view(names@);
        proof {
            assert(s.records[i as int].name == token_view(source.records@[i as int].name));
        }
        names.push(copy_token(&source.records[i].name));
        proof {
            assert(tokens_view(names@) =~= prev.push(s.records[i as int].name));
        }
        i += 1;
    }
    let ghost a = tokens_view(names@);
    let mut i: usize = 0;
    while i < source.functions.len()
        invariant
            i <= source.functions@.len(),
            s == source_view(*source),
            tokens_view(names@) =~= a + Seq::new(i as nat, |k: int| s.functions[k].name),
        decreases source.functions.len() - i,
    {
        let ghost prev = tokens_view(names@);
        proof {
            assert(s.functions[i as int].name == token_view(source.functions@[i as int].name));
        }
        names.push(copy_token(&source.functions[i].name));
        proof {
            assert(tokens_view(names@) =~= prev.push(s.functions[i as int].name));
        }
        i += 1;
    }
    let ghost b = tokens_view(names@);
    let mut i: usize = 0;
    while i < source.interfaces.len()
        invariant
            i <= source.interfaces@.len(),
            s == source_view(*source),
            tokens_view(names@) =~= b + Seq::new(i as nat, |k: int| s.interfaces[k].name),
        decreases source.interfaces.len() - i,
    {
        let ghost prev = tokens_view(names@);
        proof {
            assert(s.interfaces[i as int].name == token_view(source.interfaces@[i as int].name));
        }
        names.push(copy_token(&source.interfaces[i].name));
        proof {
            assert(tokens_view(names@) =~= prev.push(s.interfaces[i as int].name));
        }
        i += 1;
    }
    let ghost c = tokens_view(names@);
    let mut i: usize = 0;
    while i < source.delegates.len()
        invariant
            i <= source.delegates@.len(),
            s == source_view(*source),
            tokens_view(names@) =~= c + Seq::new(i as nat, |k: int| s.delegates[k].0),
        decreases source.delegates.len() - i,
    {
        let ghost prev = tokens_view(names@);
        proof {
            assert(s.delegates[i as int].0 == token_view(source.delegates@[i as int].name));
        }
        names.push(copy_token(&source.delegates[i].name));
        proof {
            assert(tokens_view(names@) =~= prev.push(s.delegates[i as int].0));
        }
        i += 1;
    }
    proof {
        assert(a =~= Seq::new(s.records.len(), |k: int| s.records[k].name));
        assert(b =~= a + Seq::new(s.functions.len(), |k: int| s.functions[k].name));
        assert(c =~= b + Seq::new(s.interfaces.len(), |k: int| s.interfaces[k].name));
    }
    names
}

/// Checks a parsed document before lowering (see `spec_check_program`):
/// gives the index of `Main` among its functions.
pub fn check_program(source: &Source) -> (r: Result<usize, Fault>)
    ensures
        match spec_check_program(source_view(*source)) {
            Ok(m) => r == Ok::<usize, Fault>(m as usize),
            Err(e) => r matches Err(f) && f.message@ == e,
        },
{
    let ghost s = source_view(*source);
    let names = declaration_names(source);
    let ghost nv = tokens_view(names@);
    let mut seen: Vec<String> = Vec::new();
    let mut i: usize = 0;
    while i < names.len()
        invariant
            i <= names@.len(),
            nv == tokens_view(names@),
            nv == declared_names(s),
            s == source_view(*source),
            first_bad_name(nv, 0) == first_bad_name(nv, i as int),
            crate::declarations::strings_view(seen@) =~= Seq::new(i as nat, |k: int| nv[k].0),
        decreases names.len() - i,
    {
        let ghost before = crate::declarations::strings_view(seen@);
        proof {
            assert(nv[i as int] == token_view(names@[i as int]));
            assert(before.contains(nv[i as int].0) <==> exists|j: int| 0 <= j < i && #[trigger] nv[j].0
                == nv[i as int].0) by {
                if before.contains(nv[i as int].0) {
                    let j = choose|j: int| 0 <= j < before.len() && before[j] == nv[i as int].0;
                    assert(nv[j].0 == nv[i as int].0);
                }
                if exists|j: int| 0 <= j < i && #[trigger] nv[j].0 == nv[i as int].0 {
                    let j = choose|j: int| 0 <= j < i && #[trigger] nv[j].0 == nv[i as int].0;
                    assert(before[j] == nv[i as int].0);
                }
            }
        }
        if is_reserved(names[i].text.as_str()) || contains_name(&seen, names[i].text.as_str()) {
            return Err(name_fault(&names[i], "duplicate or reserved declaration name"));
        }
        seen.push(names[i].text.clone());
        proof {
            assert(crate::declarations::strings_view(seen@) =~= before.push(nv[i as int].0));
        }
        i += 1;
    }
    let mut m: usize = 0;
    while m < source.functions.len()
        invariant
            m <= source.functions@.len(),
            s == source_view(*source),
            first_bad_name(declared_names(s), 0) is None,
            main_index(s, 0) == main_index(s, m as int),
        decreases source.functions.len() - m,
    {
        assert(s.functions[m as int] == crate::declarations::function_view(source.functions@[m as int]));
        if str_eq(source.functions[m].name.text.as_str(), "Main") {
            if source.functions[m].parameters.len() > 0 {
                return Err(name_fault(&source.functions[m].name, "Main must be parameterless"));
            }
            return Ok(m);
        }
        m += 1;
    }
    Err(Fault::new("source requires func Main()"))
}

/// The IL spelling of one delegate parameter: its modifiers, type and name.
pub open spec fn parameter_il(p: FieldView) -> Seq<char> {
    (if p.3 {
        "readonly "@
    } else {
        Seq::empty()
    }) + (if p.2 {
        "out "@
    } else {
        Seq::empty()
    }) + il(p.1) + " "@ + p.0.0
}

/// The first `n` parameters' spellings, joined by commas.
pub open spec fn parameters_il(ps: Seq<FieldView>, n: nat) -> Seq<char>
    decreases n,
{
    if n == 0 || n > ps.len() {
        Seq::empty()
    } else if n == 1 {
        parameter_il(ps[0])
    } else {
        parameters_il(ps, (n - 1) as nat) + ","@ + parameter_il(ps[n - 1])
    }
}

/// The IL declaration of a delegate type: its `Invoke` signature.
pub open spec fn delegate_il(d: DelegateView) -> Seq<char> {
    ".delegate "@ + d.0.0 + "\n.method instance Invoke("@ + parameters_il(d.1, d.1.len()) + ") -> "@
        + il(d.2) + "\n.end\n.end\n"@
}

/// Emits the IL declaration of a delegate type (see `delegate_il`).
pub fn emit_delegate(d: &DelegateDeclaration) -> (text: String)
    ensures
        text@ == delegate_il(delegate_view(*d)),
{
    let ghost ps = fields_view(d.parameters@);
    let mut text = String::new();
    push_str(&mut text, ".delegate ");
    push_str(&mut text, d.name.text.as_str());
    push_str(&mut text, "\n.method instance Invoke(");
    let ghost head = text@;
    let mut i: usize = 0;
    while i < d.parameters.len()
        invariant
            i <= d.parameters@.len(),
            ps == fields_view(d.parameters@),
            text@ == head + parameters_il(ps, i as nat),
        decreases d.parameters.len() - i,
    {
        let ghost before = text@;
        if i > 0 {
            push_str(&mut text, ",");
        }
        let p = &d.parameters[i];
        if p.readonly {
            push_str(&mut text, "readonly ");
        }
        if p.output {
            push_str(&mut text, "out ");
        }
        let spelled = p.ty.il();
        push_str(&mut text, spelled.as_str());
        push_str(&mut text, " ");
        push_str(&mut text, p.name.text.as_str());
        proof {
            reveal_strlit(",");
            assert(ps[i as int] == field_view(d.parameters@[i as int]));
            if i == 0 {
                assert(text@ =~= before + parameter_il(ps[0]));
                assert(parameters_il(ps, 0) == Seq::<char>::empty());
            } else {
                assert(text@ =~= before + ","@ + parameter_il(ps[i as int]));
            }
            assert(text@ =~= head + parameters_il(ps, (i + 1) as nat));
        }
        i += 1;
    }
    push_str(&mut text, ") -> ");
    let spelled = d.returns.il();
    push_str(&mut text, spelled.as_str());
    push_str(&mut text, "\n.end\n.end\n");
    proof {
        assert(text@ =~= delegate_il(delegate_view(*d)));
    }
    text
}

} // verus!
