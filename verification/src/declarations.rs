//! Top-level declarations of a source document: functions, the members of
//! records, classes and interfaces, and the document itself.
use crate::expressions::{kept, stmts_result};
use crate::fault::Fault;
use crate::frontend::{Ty, TyView};
use crate::grammar::{
    expr_view, exprs_view, g_block, g_call_args, g_expression, option_view, stmts_view, ExprView,
    StmtView,
};
use crate::lexer::{positioned, token_view, tokens_view, Token};
use crate::parser::{
    advance, dotted_name, dotted_name_at, error_at, lemma_dotted_name, lemma_fields, error_fault, fields_view, lemma_advance,
    copy_token, field_view, has_field_named, has_name, lemma_skip_lines, name_fault, skip_lines, skip_newlines, spec_end_statement,
    spec_expect, spec_fields, spec_name, spec_ty, terminated, Field, FieldView, Parser, TokenView,
};
use crate::text::{push_str, str_eq};
use crate::tree::{Expr, Function, Stmt};
use vstd::prelude::*;

verus! {

/// The mathematical value of a function declaration.
pub ghost struct FunctionView {
    pub name: TokenView,
    pub generic_parameters: Seq<Seq<char>>,
    pub is_static: bool,
    pub base_initializer: Option<Seq<ExprView>>,
    pub explicit_interface: Option<Seq<char>>,
    pub is_virtual: bool,
    pub is_override: bool,
    pub is_abstract: bool,
    pub receiver_readonly: bool,
    pub parameters: Seq<FieldView>,
    pub returns: TyView,
    pub body: Seq<StmtView>,
}

pub open spec fn strings_view(v: Seq<String>) -> Seq<Seq<char>> {
    Seq::new(v.len(), |i: int| v[i]@)
}

pub open spec fn optional_string(o: Option<String>) -> Option<Seq<char>> {
    match o {
        Some(s) => Some(s@),
        None => None,
    }
}

pub open spec fn optional_exprs(o: Option<Vec<Expr>>) -> Option<Seq<ExprView>> {
    match o {
        Some(v) => Some(exprs_view(v@)),
        None => None,
    }
}

pub open spec fn function_view(f: Function) -> FunctionView {
    FunctionView {
        name: token_view(f.name),
        generic_parameters: strings_view(f.generic_parameters@),
        is_static: f.is_static,
        base_initializer: optional_exprs(f.base_initializer),
        explicit_interface: optional_string(f.explicit_interface),
        is_virtual: f.is_virtual,
        is_override: f.is_override,
        is_abstract: f.is_abstract,
        receiver_readonly: f.receiver_readonly,
        parameters: fields_view(f.parameters@),
        returns: f.returns@,
        body: stmts_view(f.body@),
    }
}

/// A function's name at `pos`: its spelling, the interface it explicitly
/// implements, and the position after it. With `allow_explicit`, one dot
/// separates an interface from the member; otherwise dots join the name.
pub open spec fn function_name(toks: Seq<TokenView>, pos: int, allow_explicit: bool) -> Result<
    (Seq<char>, Option<Seq<char>>, int),
    Seq<char>,
> {
    if allow_explicit {
        match spec_name(toks, pos) {
            Err(m) => Err(m),
            Ok(p1) => if toks[p1].0 == "."@ {
                let p2 = advance(toks, p1);
                match spec_name(toks, p2) {
                    Err(m) => Err(m),
                    Ok(p3) => Ok((toks[pos].0 + "."@ + toks[p2].0, Some(toks[pos].0), p3)),
                }
            } else {
                Ok((toks[pos].0, None, p1))
            },
        }
    } else {
        match dotted_name(toks, pos) {
            Err(m) => Err(m),
            Ok((n, p)) => Ok((n, None, p)),
        }
    }
}

/// Generic parameter names from `pos` after `acc`, through the closing `>`;
/// a name given twice is refused.
pub open spec fn generic_parameters(toks: Seq<TokenView>, pos: int, acc: Seq<Seq<char>>) -> Result<
    (Seq<Seq<char>>, int),
    Seq<char>,
>
    decreases toks.len() - pos,
{
    match spec_name(toks, pos) {
        Err(m) => Err(m),
        Ok(p) => if acc.contains(toks[pos].0) {
            Err(error_at(toks, pos, "duplicate generic parameter"@))
        } else if 0 <= p < toks.len() && toks[p].0 == ","@ {
            let q = advance(toks, p);
            if q <= pos {
                Err(Seq::empty())
            } else {
                generic_parameters(toks, q, acc.push(toks[pos].0))
            }
        } else {
            match spec_expect(toks, p, ">"@) {
                Err(m) => Err(m),
                Ok(q) => Ok((acc.push(toks[pos].0), q)),
            }
        }
    }
}

/// The generic parameters at `pos`, if a `<` opens them.
pub open spec fn generic_list(toks: Seq<TokenView>, pos: int) -> Result<(Seq<Seq<char>>, int), Seq<char>> {
    if toks[pos].0 == "<"@ {
        generic_parameters(toks, advance(toks, pos), Seq::empty())
    } else {
        Ok((Seq::empty(), pos))
    }
}

/// Whether the first token from `pos` that is not a line break opens a
/// block.
pub open spec fn has_body(toks: Seq<TokenView>, pos: int) -> bool {
    toks[skip_newlines(toks, pos)].0 == "{"@
}

/// A function's body at `pos`: a block, or, for an abstract member without
/// one, nothing but the end of the statement. Gives the statements, whether
/// the body was left out, and the position after it.
pub open spec fn function_body(toks: Seq<TokenView>, pos: int, d: int, abstract_member: bool) -> Result<
    (Seq<StmtView>, bool, int),
    Seq<char>,
> {
    if abstract_member && !has_body(toks, pos) {
        match spec_end_statement(toks, pos) {
            Err(m) => Err(m),
            Ok(q) => Ok((Seq::empty(), true, q)),
        }
    } else {
        match g_block(toks, pos, d) {
            Err(m) => Err(m),
            Ok((b, q)) => Ok((b, false, q)),
        }
    }
}

/// A function declaration at `pos`.
pub open spec fn g_function(
    toks: Seq<TokenView>,
    pos: int,
    d: int,
    abstract_member: bool,
    allow_explicit: bool,
) -> Result<(FunctionView, int), Seq<char>> {
    match spec_expect(toks, pos, "func"@) {
        Err(m) => Err(m),
        Ok(p0) => match function_name(toks, p0, allow_explicit) {
            Err(m) => Err(m),
            Ok((text, explicit, p1)) => match generic_list(toks, p1) {
                Err(m) => Err(m),
                Ok((gps, p2)) => match spec_fields(toks, p2, d, true) {
                    Err(m) => Err(m),
                    Ok((params, p3)) => match spec_expect(toks, p3, "->"@) {
                        Err(m) => Err(m),
                        Ok(p4) => match spec_ty(toks, p4, d) {
                            Err(m) => Err(m),
                            Ok((ret, p5)) => match function_body(toks, p5, d, abstract_member) {
                                Err(m) => Err(m),
                                Ok((body, bodiless, p6)) => Ok(
                                    (
                                        FunctionView {
                                            name: (text, toks[p0].1, toks[p0].2),
                                            generic_parameters: gps,
                                            is_static: false,
                                            base_initializer: None,
                                            explicit_interface: explicit,
                                            is_virtual: false,
                                            is_override: false,
                                            is_abstract: bodiless,
                                            receiver_readonly: false,
                                            parameters: params,
                                            returns: ret,
                                            body,
                                        },
                                        p6,
                                    ),
                                ),
                            },
                        },
                    },
                },
            },
        },
    }
}

/// The members of a record, class or interface body: fields, field
/// initializers and methods.
#[derive(Debug)]
pub struct Members {
    pub fields: Vec<Field>,
    pub initializers: Vec<(Token, Expr)>,
    pub methods: Vec<Function>,
}

pub ghost struct MembersView {
    pub fields: Seq<FieldView>,
    pub initializers: Seq<(TokenView, ExprView)>,
    pub methods: Seq<FunctionView>,
}

pub open spec fn functions_view(v: Seq<Function>) -> Seq<FunctionView> {
    Seq::new(v.len(), |i: int| function_view(v[i]))
}

pub open spec fn initializers_view(v: Seq<(Token, Expr)>) -> Seq<(TokenView, ExprView)> {
    Seq::new(v.len(), |i: int| (token_view(v[i].0), expr_view(v[i].1)))
}

pub open spec fn members_view(m: Members) -> MembersView {
    MembersView {
        fields: fields_view(m.fields@),
        initializers: initializers_view(m.initializers@),
        methods: functions_view(m.methods@),
    }
}

pub open spec fn no_members() -> MembersView {
    MembersView { fields: Seq::empty(), initializers: Seq::empty(), methods: Seq::empty() }
}

/// Whether one of `methods` is called `name`.
pub open spec fn has_method_named(methods: Seq<FunctionView>, name: Seq<char>) -> bool {
    exists|i: int| 0 <= i < methods.len() && (#[trigger] methods[i]).name.0 == name
}

/// A field member at `pos`, after `var`, beside the fields `fields`: the
/// field, its initializer if any, and the position after its statement.
pub open spec fn g_field_member(toks: Seq<TokenView>, pos: int, d: int, fields: Seq<FieldView>) -> Result<
    (FieldView, Option<ExprView>, int),
    Seq<char>,
> {
    match spec_name(toks, pos) {
        Err(m) => Err(m),
        Ok(p1) => if fields.len() >= 1024 || has_field_named(fields, toks[pos].0) {
            Err(error_at(toks, pos, "duplicate field or field limit exceeded"@))
        } else {
            match spec_expect(toks, p1, ":"@) {
                Err(m) => Err(m),
                Ok(p2) => match spec_ty(toks, p2, d) {
                    Err(m) => Err(m),
                    Ok((t, p3)) => {
                        let value: Result<(Option<ExprView>, int), Seq<char>> = if toks[p3].0 == "="@ {
                            match g_expression(toks, advance(toks, p3), d, 0) {
                                Err(m) => Err(m),
                                Ok((e, p4)) => Ok((Some(e), p4)),
                            }
                        } else {
                            Ok((None, p3))
                        };
                        match value {
                            Err(m) => Err(m),
                            Ok((e, p4)) => match spec_end_statement(toks, p4) {
                                Err(m) => Err(m),
                                Ok(p5) => Ok(((toks[pos], t, false, false), e, p5)),
                            },
                        }
                    },
                },
            }
        },
    }
}

/// The base initializer of a constructor at `pos`, if a `:` opens one.
pub open spec fn g_base_initializer(toks: Seq<TokenView>, pos: int, d: int) -> Result<
    (Option<Seq<ExprView>>, int),
    Seq<char>,
> {
    if toks[pos].0 == ":"@ {
        match spec_expect(toks, advance(toks, pos), "base"@) {
            Err(m) => Err(m),
            Ok(p1) => match spec_expect(toks, p1, "("@) {
                Err(m) => Err(m),
                Ok(p2) => {
                    let p3 = skip_newlines(toks, p2);
                    let args = if toks[p3].0 == ")"@ {
                        Ok((Seq::empty(), p3))
                    } else {
                        g_call_args(toks, p3, d, Seq::empty())
                    };
                    match args {
                        Err(m) => Err(m),
                        Ok((a, p4)) => match spec_expect(toks, p4, ")"@) {
                            Err(m) => Err(m),
                            Ok(p5) => Ok((Some(a), p5)),
                        },
                    }
                },
            },
        }
    } else {
        Ok((None, pos))
    }
}

/// A constructor at `pos`, on `init`, beside the methods `methods`.
pub open spec fn g_constructor(toks: Seq<TokenView>, pos: int, d: int, methods: Seq<FunctionView>) -> Result<
    (FunctionView, int),
    Seq<char>,
> {
    match spec_fields(toks, advance(toks, pos), d, true) {
        Err(m) => Err(m),
        Ok((params, p1)) => match g_base_initializer(toks, p1, d) {
            Err(m) => Err(m),
            Ok((base, p2)) => match g_block(toks, p2, d) {
                Err(m) => Err(m),
                Ok((body, p3)) => if has_method_named(methods, ".ctor"@) {
                    Err(
                        positioned(
                            toks[pos].1,
                            toks[pos].2,
                            "Neo currently supports one explicit initializer per record"@,
                        ),
                    )
                } else {
                    Ok(
                        (
                            FunctionView {
                                name: (".ctor"@, toks[pos].1, toks[pos].2),
                                generic_parameters: Seq::empty(),
                                is_static: false,
                                base_initializer: base,
                                explicit_interface: None,
                                is_virtual: false,
                                is_override: false,
                                is_abstract: false,
                                receiver_readonly: false,
                                parameters: params,
                                returns: TyView::Void,
                                body,
                            },
                            p3,
                        ),
                    )
                },
            },
        },
    }
}

/// Taking `word` at `pos` if it is there: whether it was, and the position
/// after.
pub open spec fn optional_word(toks: Seq<TokenView>, pos: int, word: Seq<char>) -> (bool, int) {
    if toks[pos].0 == word {
        (true, advance(toks, pos))
    } else {
        (false, pos)
    }
}

/// A method at `pos` with its modifiers, beside the methods `methods`.
pub open spec fn g_method(
    toks: Seq<TokenView>,
    pos: int,
    d: int,
    abstract_members: bool,
    methods: Seq<FunctionView>,
) -> Result<(FunctionView, int), Seq<char>> {
    let (is_static, p1) = optional_word(toks, pos, "static"@);
    let (readonly, p2) = optional_word(toks, p1, "readonly"@);
    let (is_abstract, p3) = optional_word(toks, p2, "abstract"@);
    let (is_virtual, p4) = optional_word(toks, p3, "virtual"@);
    let (is_override, p5) = if is_virtual {
        (false, p4)
    } else {
        optional_word(toks, p4, "override"@)
    };
    if abstract_members && (is_virtual || is_override) {
        Err(error_at(toks, p5, "interface virtual modifiers are not supported"@))
    } else {
        match g_function(toks, p5, d, abstract_members || is_abstract, true) {
            Err(m) => Err(m),
            Ok((f, p6)) => if is_abstract && !f.is_abstract {
                Err(positioned(f.name.1, f.name.2, "abstract methods cannot have bodies"@))
            } else if f.explicit_interface is Some && (is_virtual || is_override || (is_abstract
                && !abstract_members)) {
                Err(
                    positioned(
                        f.name.1,
                        f.name.2,
                        "explicit interface bodies cannot be virtual, override or abstract"@,
                    ),
                )
            } else if is_static && (abstract_members || readonly || is_abstract || is_virtual
                || is_override || f.explicit_interface is Some) {
                Err(
                    positioned(
                        f.name.1,
                        f.name.2,
                        "static methods cannot have instance or interface modifiers"@,
                    ),
                )
            } else if !is_static && f.generic_parameters.len() > 0 {
                Err(positioned(f.name.1, f.name.2, "generic methods currently require static"@))
            } else if has_method_named(methods, f.name.0) {
                Err(
                    positioned(
                        f.name.1,
                        f.name.2,
                        "duplicate method; source overload declarations are not supported"@,
                    ),
                )
            } else {
                Ok(
                    (
                        FunctionView {
                            is_static,
                            receiver_readonly: readonly,
                            is_virtual: is_virtual || is_override || is_abstract,
                            is_abstract: is_abstract || (abstract_members && f.is_abstract),
                            is_override,
                            ..f
                        },
                        p6,
                    ),
                )
            },
        }
    }
}

/// One member at `pos` after the members `acc`: the members with it, and
/// the position after it.
pub open spec fn g_member(
    toks: Seq<TokenView>,
    pos: int,
    d: int,
    abstract_members: bool,
    class: bool,
    acc: MembersView,
) -> Result<(MembersView, int), Seq<char>> {
    if class && toks[pos].0 == "var"@ {
        match g_field_member(toks, advance(toks, pos), d, acc.fields) {
            Err(m) => Err(m),
            Ok((f, value, p)) => Ok(
                (
                    MembersView {
                        fields: acc.fields.push(f),
                        initializers: match value {
                            Some(e) => acc.initializers.push((f.0, e)),
                            None => acc.initializers,
                        },
                        methods: acc.methods,
                    },
                    p,
                ),
            ),
        }
    } else if acc.methods.len() >= 1024 {
        Err(error_at(toks, pos, "method limit exceeded"@))
    } else {
        let made = if toks[pos].0 == "init"@ && !abstract_members {
            g_constructor(toks, pos, d, acc.methods)
        } else {
            g_method(toks, pos, d, abstract_members, acc.methods)
        };
        match made {
            Err(m) => Err(m),
            Ok((f, p)) => Ok(
                (
                    MembersView {
                        fields: acc.fields,
                        initializers: acc.initializers,
                        methods: acc.methods.push(f),
                    },
                    skip_lines(toks, p),
                ),
            ),
        }
    }
}

/// Members from `pos` up to the closing brace, after the members `acc`.
pub open spec fn g_members(
    toks: Seq<TokenView>,
    pos: int,
    d: int,
    abstract_members: bool,
    class: bool,
    acc: MembersView,
) -> Result<(MembersView, int), Seq<char>>
    decreases toks.len() - pos,
{
    if pos < 0 || pos >= toks.len() {
        Err(Seq::empty())
    } else if toks[pos].0 == "}"@ {
        Ok((acc, pos))
    } else {
        match g_member(toks, pos, d, abstract_members, class, acc) {
            Err(m) => Err(m),
            Ok((next, p)) => if p <= pos || p >= toks.len() {
                Err(Seq::empty())
            } else {
                g_members(toks, p, d, abstract_members, class, next)
            },
        }
    }
}

/// A brace-enclosed body of members at `pos`.
pub open spec fn g_methods(toks: Seq<TokenView>, pos: int, d: int, abstract_members: bool, class: bool) -> Result<
    (MembersView, int),
    Seq<char>,
> {
    match spec_expect(toks, pos, "{"@) {
        Err(m) => Err(m),
        Ok(p1) => match g_members(toks, skip_lines(toks, p1), d, abstract_members, class, no_members()) {
            Err(m) => Err(m),
            Ok((members, p2)) => match spec_expect(toks, p2, "}"@) {
                Err(m) => Err(m),
                Ok(p3) => Ok((members, p3)),
            },
        },
    }
}

/// Whether `name` is among `names`.
pub(crate) fn contains_name(names: &Vec<String>, name: &str) -> (b: bool)
    ensures
        b == strings_view(names@).contains(name@),
{
    let mut i: usize = 0;
    while i < names.len()
        invariant
            i <= names@.len(),
            forall|k: int| 0 <= k < i ==> names@[k]@ != name@,
        decreases names.len() - i,
    {
        if str_eq(names[i].as_str(), name) {
            assert(strings_view(names@)[i as int] == name@);
            return true;
        }
        i += 1;
    }
    assert forall|k: int| 0 <= k < strings_view(names@).len() implies strings_view(names@)[k] != name@ by {
        assert(strings_view(names@)[k] == names@[k]@);
    }
    false
}

impl Parser {
    /// A function's name (see `function_name`): the token spelled as the
    /// whole name, and the interface it explicitly implements.
    fn function_name(&mut self, allow_explicit: bool) -> (r: Result<(Token, Option<String>), Fault>)
        requires
            old(self).wf(),
        ensures
            kept(*final(self), *old(self)),
            match function_name(old(self).toks(), old(self).pos(), allow_explicit) {
                Ok((n, e, p)) => r matches Ok((t, x)) && token_view(t) == (
                    n,
                    old(self).toks()[old(self).pos()].1,
                    old(self).toks()[old(self).pos()].2,
                ) && optional_string(x) == e && final(self).pos() == p,
                Err(m) => r matches Err(f) && f.message@ == m,
            },
            r is Ok ==> final(self).pos() > old(self).pos(),
    {
        let ghost toks = self.toks();
        let ghost pos = self.pos();
        proof {
            reveal_strlit(".");
            lemma_advance(toks, pos);
        }
        if allow_explicit {
            let first = match self.name() {
                Ok(t) => t,
                Err(f) => return Err(f),
            };
            let ghost p1 = self.pos();
            proof {
                lemma_advance(toks, p1);
            }
            if self.eat(".") {
                let ghost p2 = self.pos();
                let member = match self.name() {
                    Ok(t) => t,
                    Err(f) => return Err(f),
                };
                let interface = first.text.clone();
                let mut text = first.text.clone();
                push_str(&mut text, ".");
                push_str(&mut text, member.text.as_str());
                proof {
                    assert(member.text@ == toks[p2].0);
                }
                Ok((Token { text, line: first.line, column: first.column }, Some(interface)))
            } else {
                Ok((first, None))
            }
        } else {
            let start = self.position;
            proof {
                lemma_dotted_name(toks, pos);
            }
            match dotted_name_at(&self.tokens, start) {
                Ok((text, q)) => {
                    self.position = q;
                    let t = Token { text, line: self.tokens[start].line, column: self.tokens[start].column };
                    Ok((t, None))
                },
                Err(f) => Err(f),
            }
        }
    }
    /// Generic parameter names through the closing `>` (see
    /// `generic_parameters`).
    fn generic_parameter_names(&mut self) -> (r: Result<Vec<String>, Fault>)
        requires
            old(self).wf(),
        ensures
            kept(*final(self), *old(self)),
            match generic_parameters(old(self).toks(), old(self).pos(), Seq::empty()) {
                Ok((v, p)) => r matches Ok(x) && strings_view(x@) == v && final(self).pos() == p,
                Err(m) => r matches Err(f) && f.message@ == m,
            },
            r is Ok ==> final(self).pos() >= old(self).pos(),
    {
        let ghost toks = self.toks();
        let ghost start = self.pos();
        let mut names: Vec<String> = Vec::new();
        proof {
            assert(strings_view(names@) =~= Seq::<Seq<char>>::empty());
        }
        loop
            invariant
                kept(*self, *old(self)),
                toks == old(self).toks(),
                start == old(self).pos(),
                self.pos() >= start,
                generic_parameters(toks, start, Seq::empty()) == generic_parameters(
                    toks,
                    self.pos(),
                    strings_view(names@),
                ),
            decreases toks.len() - self.pos(),
        {
            let here = self.position;
            let ghost acc = strings_view(names@);
            proof {
                lemma_advance(toks, here as int);
                reveal_strlit(",");
                assert(toks[here as int] == token_view(self.tokens@[here as int]));
            }
            let parameter = match self.name() {
                Ok(t) => t,
                Err(f) => return Err(f),
            };
            if contains_name(&names, parameter.text.as_str()) {
                return Err(error_fault(&self.tokens, here, "duplicate generic parameter"));
            }
            names.push(parameter.text);
            proof {
                assert(strings_view(names@) =~= acc.push(toks[here as int].0));
            }
            let ghost p = self.pos();
            proof {
                lemma_advance(toks, p);
            }
            if !self.eat(",") {
                return match self.expect(">") {
                    Ok(_) => Ok(names),
                    Err(f) => Err(f),
                };
            }
        }
    }

    /// The generic parameters, if a `<` opens them (see `generic_list`).
    fn generic_list(&mut self) -> (r: Result<Vec<String>, Fault>)
        requires
            old(self).wf(),
        ensures
            kept(*final(self), *old(self)),
            match generic_list(old(self).toks(), old(self).pos()) {
                Ok((v, p)) => r matches Ok(x) && strings_view(x@) == v && final(self).pos() == p,
                Err(m) => r matches Err(f) && f.message@ == m,
            },
            r is Ok ==> final(self).pos() >= old(self).pos(),
    {
        proof {
            reveal_strlit("<");
        }
        if self.eat("<") {
            self.generic_parameter_names()
        } else {
            let none: Vec<String> = Vec::new();
            proof {
                assert(strings_view(none@) =~= Seq::<Seq<char>>::empty());
            }
            Ok(none)
        }
    }

    /// A function's body, or its absence on an abstract member (see
    /// `function_body`); also whether the body was left out.
    fn function_body(&mut self, abstract_member: bool) -> (r: Result<(Vec<Stmt>, bool), Fault>)
        requires
            old(self).wf(),
        ensures
            kept(*final(self), *old(self)),
            match function_body(old(self).toks(), old(self).pos(), old(self).depth as int, abstract_member) {
                Ok((b, bodiless, p)) => r matches Ok((v, x)) && stmts_view(v@) == b && x == bodiless
                    && final(self).pos() == p,
                Err(m) => r matches Err(f) && f.message@ == m,
            },
            r is Ok ==> final(self).pos() >= old(self).pos(),
    {
        let saved = self.position;
        self.newlines();
        let opens = self.at("{");
        self.position = saved;
        if abstract_member && !opens {
            match self.end_statement() {
                Ok(()) => {
                    let none: Vec<Stmt> = Vec::new();
                    proof {
                        assert(stmts_view(none@) =~= Seq::<StmtView>::empty());
                    }
                    Ok((none, true))
                },
                Err(f) => Err(f),
            }
        } else {
            match self.block() {
                Ok(b) => Ok((b, false)),
                Err(f) => Err(f),
            }
        }
    }

    /// Parses a function declaration (see `g_function`); `abstract_member`
    /// lets it go without a body, and `allow_explicit` lets its name be
    /// qualified by the interface it implements.
    pub fn function(&mut self, abstract_member: bool, allow_explicit: bool) -> (r: Result<Function, Fault>)
        requires
            old(self).wf(),
        ensures
            kept(*final(self), *old(self)),
            match g_function(
                old(self).toks(),
                old(self).pos(),
                old(self).depth as int,
                abstract_member,
                allow_explicit,
            ) {
                Ok((v, p)) => r matches Ok(f) && function_view(f) == v && final(self).pos() == p,
                Err(m) => r matches Err(f) && f.message@ == m,
            },
            r is Ok ==> final(self).pos() > old(self).pos(),
    {
        proof {
            reveal_strlit("func");
        }
        if let Err(f) = self.expect("func") {
            return Err(f);
        }
        let (name, explicit_interface) = match self.function_name(allow_explicit) {
            Ok(x) => x,
            Err(f) => return Err(f),
        };
        let generic_parameters = match self.generic_list() {
            Ok(v) => v,
            Err(f) => return Err(f),
        };
        proof {
            lemma_fields(self.toks(), self.pos(), self.depth as int, true);
        }
        let parameters = match self.fields(true) {
            Ok(v) => v,
            Err(f) => return Err(f),
        };
        if let Err(f) = self.expect("->") {
            return Err(f);
        }
        let result_type = match self.ty() {
            Ok(t) => t,
            Err(f) => return Err(f),
        };
        let (body, bodiless) = match self.function_body(abstract_member) {
            Ok(x) => x,
            Err(f) => return Err(f),
        };
        Ok(
            Function {
                name,
                generic_parameters,
                is_static: false,
                base_initializer: None,
                explicit_interface,
                is_virtual: false,
                is_override: false,
                is_abstract: bodiless,
                receiver_readonly: false,
                parameters,
                returns: result_type,
                body,
            },
        )
    }
}

/// Whether one of `methods` is called `name`.
pub(crate) fn has_method(methods: &Vec<Function>, name: &str) -> (b: bool)
    ensures
        b == has_method_named(functions_view(methods@), name@),
{
    let ghost acc = functions_view(methods@);
    let mut i: usize = 0;
    while i < methods.len()
        invariant
            i <= methods@.len(),
            acc == functions_view(methods@),
            forall|k: int| 0 <= k < i ==> acc[k].name.0 != name@,
        decreases methods.len() - i,
    {
        if str_eq(methods[i].name.text.as_str(), name) {
            assert(acc[i as int].name.0 == name@);
            return true;
        }
        i += 1;
    }
    false
}

impl Parser {
    /// A field member after `var` (see `g_field_member`).
    fn field_member(&mut self, fields: &Vec<Field>) -> (r: Result<(Field, Option<Expr>), Fault>)
        requires
            old(self).wf(),
        ensures
            kept(*final(self), *old(self)),
            match g_field_member(old(self).toks(), old(self).pos(), old(self).depth as int, fields_view(fields@)) {
                Ok((f, e, p)) => r matches Ok((x, y)) && field_view(x) == f && option_view(y) == e
                    && final(self).pos() == p,
                Err(m) => r matches Err(x) && x.message@ == m,
            },
            r is Ok ==> final(self).pos() > old(self).pos(),
    {
        let ghost toks = self.toks();
        let here = self.position;
        proof {
            reveal_strlit("=");
            lemma_advance(toks, here as int);
            assert(toks[here as int] == token_view(self.tokens@[here as int]));
        }
        let name = match self.name() {
            Ok(t) => t,
            Err(f) => return Err(f),
        };
        if fields.len() >= 1024 || has_name(fields, &name) {
            return Err(error_fault(&self.tokens, here, "duplicate field or field limit exceeded"));
        }
        if let Err(f) = self.expect(":") {
            return Err(f);
        }
        let ty = match self.ty() {
            Ok(t) => t,
            Err(f) => return Err(f),
        };
        let ghost p3 = self.pos();
        proof {
            lemma_advance(toks, p3);
        }
        let value = if self.eat("=") {
            match self.expression(0) {
                Ok(e) => Some(e),
                Err(f) => return Err(f),
            }
        } else {
            None
        };
        if let Err(f) = self.end_statement() {
            return Err(f);
        }
        Ok((Field { name, ty, output: false, readonly: false }, value))
    }

    /// A constructor's base initializer, if a `:` opens one (see
    /// `g_base_initializer`).
    fn base_initializer(&mut self) -> (r: Result<Option<Vec<Expr>>, Fault>)
        requires
            old(self).wf(),
        ensures
            kept(*final(self), *old(self)),
            match g_base_initializer(old(self).toks(), old(self).pos(), old(self).depth as int) {
                Ok((b, p)) => r matches Ok(x) && optional_exprs(x) == b && final(self).pos() == p,
                Err(m) => r matches Err(f) && f.message@ == m,
            },
            r is Ok ==> final(self).pos() >= old(self).pos(),
    {
        proof {
            reveal_strlit(":");
            reveal_strlit(")");
        }
        if !self.eat(":") {
            return Ok(None);
        }
        if let Err(f) = self.expect("base") {
            return Err(f);
        }
        if let Err(f) = self.expect("(") {
            return Err(f);
        }
        self.newlines();
        let args = if self.at(")") {
            let none: Vec<Expr> = Vec::new();
            proof {
                assert(exprs_view(none@) =~= Seq::<ExprView>::empty());
            }
            none
        } else {
            match self.call_arguments() {
                Ok(v) => v,
                Err(f) => return Err(f),
            }
        };
        match self.expect(")") {
            Ok(_) => Ok(Some(args)),
            Err(f) => Err(f),
        }
    }

    /// A constructor on `init` (see `g_constructor`).
    fn constructor(&mut self, methods: &Vec<Function>) -> (r: Result<Function, Fault>)
        requires
            old(self).wf(),
        ensures
            kept(*final(self), *old(self)),
            match g_constructor(old(self).toks(), old(self).pos(), old(self).depth as int, functions_view(methods@)) {
                Ok((v, p)) => r matches Ok(f) && function_view(f) == v && final(self).pos() == p,
                Err(m) => r matches Err(f) && f.message@ == m,
            },
            r is Ok ==> final(self).pos() > old(self).pos(),
    {
        let ghost toks = self.toks();
        proof {
            lemma_advance(toks, self.pos());
        }
        let init = self.take();
        proof {
            lemma_fields(toks, self.pos(), self.depth as int, true);
        }
        let parameters = match self.fields(true) {
            Ok(v) => v,
            Err(f) => return Err(f),
        };
        let base_initializer = match self.base_initializer() {
            Ok(b) => b,
            Err(f) => return Err(f),
        };
        let body = match self.block() {
            Ok(b) => b,
            Err(f) => return Err(f),
        };
        if has_method(methods, ".ctor") {
            return Err(name_fault(&init, "Neo currently supports one explicit initializer per record"));
        }
        let mut text = String::new();
        push_str(&mut text, ".ctor");
        let name = Token { text, line: init.line, column: init.column };
        let generic_parameters: Vec<String> = Vec::new();
        proof {
            assert(name.text@ =~= ".ctor"@);
            assert(strings_view(generic_parameters@) =~= Seq::<Seq<char>>::empty());
        }
        Ok(
            Function {
                name,
                generic_parameters,
                is_static: false,
                base_initializer,
                explicit_interface: None,
                is_virtual: false,
                is_override: false,
                is_abstract: false,
                receiver_readonly: false,
                parameters,
                returns: Ty::Void,
                body,
            },
        )
    }

    /// A method with its modifiers (see `g_method`).
    #[verifier::rlimit(60)]
    fn method(&mut self, abstract_members: bool, methods: &Vec<Function>) -> (r: Result<Function, Fault>)
        requires
            old(self).wf(),
        ensures
            kept(*final(self), *old(self)),
            match g_method(
                old(self).toks(),
                old(self).pos(),
                old(self).depth as int,
                abstract_members,
                functions_view(methods@),
            ) {
                Ok((v, p)) => r matches Ok(f) && function_view(f) == v && final(self).pos() == p,
                Err(m) => r matches Err(f) && f.message@ == m,
            },
            r is Ok ==> final(self).pos() > old(self).pos(),
    {
        let ghost toks = self.toks();
        let ghost methods_before = functions_view(methods@);
        let is_static = self.eat("static");
        let ghost p1 = self.pos();
        let receiver_readonly = self.eat("readonly");
        let ghost p2 = self.pos();
        let is_abstract = self.eat("abstract");
        let ghost p3 = self.pos();
        let is_virtual = self.eat("virtual");
        let ghost p4 = self.pos();
        let is_override = !is_virtual && self.eat("override");
        proof {
            assert(optional_word(toks, old(self).pos(), "static"@) == (is_static, p1));
            assert(optional_word(toks, p1, "readonly"@) == (receiver_readonly, p2));
            assert(optional_word(toks, p2, "abstract"@) == (is_abstract, p3));
            assert(optional_word(toks, p3, "virtual"@) == (is_virtual, p4));
        }
        if abstract_members && (is_virtual || is_override) {
            return Err(error_fault(&self.tokens, self.position, "interface virtual modifiers are not supported"));
        }
        let mut method = match self.function(abstract_members || is_abstract, true) {
            Ok(f) => f,
            Err(f) => return Err(f),
        };
        if is_abstract && !method.is_abstract {
            return Err(name_fault(&method.name, "abstract methods cannot have bodies"));
        }
        let explicit = method.explicit_interface.is_some();
        if explicit && (is_virtual || is_override || (is_abstract && !abstract_members)) {
            return Err(name_fault(&method.name, "explicit interface bodies cannot be virtual, override or abstract"));
        }
        if is_static && (abstract_members || receiver_readonly || is_abstract || is_virtual || is_override
            || explicit) {
            return Err(name_fault(&method.name, "static methods cannot have instance or interface modifiers"));
        }
        if !is_static && method.generic_parameters.len() > 0 {
            return Err(name_fault(&method.name, "generic methods currently require static"));
        }
        method.is_static = is_static;
        method.receiver_readonly = receiver_readonly;
        method.is_virtual = is_virtual || is_override || is_abstract;
        method.is_abstract = is_abstract || (abstract_members && method.is_abstract);
        method.is_override = is_override;
        if has_method(methods, method.name.text.as_str()) {
            return Err(name_fault(&method.name, "duplicate method; source overload declarations are not supported"));
        }
        Ok(method)
    }

    /// Members up to the closing brace (see `g_members`).
    fn members(&mut self, abstract_members: bool, class: bool) -> (r: Result<Members, Fault>)
        requires
            old(self).wf(),
        ensures
            kept(*final(self), *old(self)),
            match g_members(old(self).toks(), old(self).pos(), old(self).depth as int, abstract_members, class, no_members()) {
                Ok((v, p)) => r matches Ok(x) && members_view(x) == v && final(self).pos() == p,
                Err(m) => r matches Err(f) && f.message@ == m,
            },
            r is Ok ==> final(self).pos() >= old(self).pos(),
    {
        let ghost toks = self.toks();
        let ghost d = self.depth as int;
        let ghost start = self.pos();
        let mut members = Members { fields: Vec::new(), initializers: Vec::new(), methods: Vec::new() };
        proof {
            assert(fields_view(members.fields@) =~= Seq::<FieldView>::empty());
            assert(initializers_view(members.initializers@) =~= Seq::<(TokenView, ExprView)>::empty());
            assert(functions_view(members.methods@) =~= Seq::<FunctionView>::empty());
        }
        loop
            invariant
                kept(*self, *old(self)),
                toks == old(self).toks(),
                d == old(self).depth as int,
                start == old(self).pos(),
                self.pos() >= start,
                g_members(toks, start, d, abstract_members, class, no_members()) == g_members(
                    toks,
                    self.pos(),
                    d,
                    abstract_members,
                    class,
                    members_view(members),
                ),
            decreases toks.len() - self.pos(),
        {
            let here = self.position;
            let ghost acc = members_view(members);
            proof {
                reveal_strlit("}");
                reveal_strlit("var");
                reveal_strlit("init");
                lemma_advance(toks, here as int);
                assert(toks[here as int] == token_view(self.tokens@[here as int]));
            }
            if self.at("}") {
                return Ok(members);
            }
            if class && self.eat("var") {
                let (field, value) = match self.field_member(&members.fields) {
                    Ok(x) => x,
                    Err(f) => return Err(f),
                };
                let ghost fv = field_view(field);
                match value {
                    Some(v) => {
                        let ghost ev = expr_view(v);
                        members.initializers.push((copy_token(&field.name), v));
                        proof {
                            assert(initializers_view(members.initializers@) =~= acc.initializers.push((fv.0, ev)));
                        }
                    },
                    None => {},
                }
                members.fields.push(field);
                proof {
                    assert(fields_view(members.fields@) =~= acc.fields.push(fv));
                    assert(functions_view(members.methods@) =~= acc.methods);
                }
                continue;
            }
            if members.methods.len() >= 1024 {
                return Err(error_fault(&self.tokens, here, "method limit exceeded"));
            }
            let made = if self.at("init") && !abstract_members {
                self.constructor(&members.methods)
            } else {
                self.method(abstract_members, &members.methods)
            };
            let f = match made {
                Ok(f) => f,
                Err(f) => return Err(f),
            };
            let ghost fv = function_view(f);
            members.methods.push(f);
            proof {
                assert(functions_view(members.methods@) =~= acc.methods.push(fv));
                assert(fields_view(members.fields@) =~= acc.fields);
                assert(initializers_view(members.initializers@) =~= acc.initializers);
                lemma_skip_lines(toks, self.pos());
            }
            self.lines();
        }
    }

    /// Parses a brace-enclosed body of members (see `g_methods`);
    /// `abstract_members` is set for interfaces and `class` for classes.
    pub fn methods(&mut self, abstract_members: bool, class: bool) -> (r: Result<Members, Fault>)
        requires
            old(self).wf(),
        ensures
            kept(*final(self), *old(self)),
            match g_methods(old(self).toks(), old(self).pos(), old(self).depth as int, abstract_members, class) {
                Ok((v, p)) => r matches Ok(x) && members_view(x) == v && final(self).pos() == p,
                Err(m) => r matches Err(f) && f.message@ == m,
            },
            r is Ok ==> final(self).pos() > old(self).pos(),
    {
        proof {
            reveal_strlit("{");
        }
        if let Err(f) = self.expect("{") {
            return Err(f);
        }
        self.lines();
        let members = match self.members(abstract_members, class) {
            Ok(m) => m,
            Err(f) => return Err(f),
        };
        match self.expect("}") {
            Ok(_) => Ok(members),
            Err(f) => Err(f),
        }
    }
}

} // verus!
