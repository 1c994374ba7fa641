//! A whole source document: its declarations in order, and how records
//! inherit from one another.
use crate::declarations::{
    contains_name, function_view, functions_view, g_function, g_methods, has_method,
    initializers_view, members_view, strings_view, FunctionView, Members, MembersView,
};
use crate::expressions::kept;
use crate::fault::Fault;
use crate::frontend::{clone_ty, il, Ty, TyView};
use crate::grammar::{stmts_view, ExprView, StmtView};
use crate::lexer::{positioned, token_view, Token};
use crate::parser::{
    advance, copy_token, error_at, error_fault, field_view, fields_view, has_field_named, has_name,
    lemma_advance, lemma_fields, lemma_skip_lines, lemma_skip_newlines, name_fault, skip_lines,
    skip_newlines, spec_end_statement, spec_expect, spec_fields, spec_name, spec_ty, Field,
    FieldView, Parser, TokenView,
};
use crate::text::{push_str, str_eq};
use crate::tree::{Expr, Function};
use vstd::prelude::*;

verus! {

/// A delegate type declaration.
#[derive(Debug)]
pub struct DelegateDeclaration {
    pub name: Token,
    pub parameters: Vec<Field>,
    pub returns: Ty,
}

/// An interface declaration.
#[derive(Debug)]
pub struct Interface {
    pub name: Token,
    pub bases: Vec<Ty>,
    pub methods: Vec<Function>,
}

/// A record or class declaration; `fields` holds inherited fields first
/// once inheritance is prepared, `inherited_fields` of them.
#[derive(Debug)]
pub struct Record {
    pub name: Token,
    pub is_class: bool,
    pub field_initializers: Vec<(Token, Expr)>,
    pub is_abstract: bool,
    pub base: Option<Ty>,
    pub inherited_fields: usize,
    pub fields: Vec<Field>,
    pub implements: Vec<Ty>,
    pub methods: Vec<Function>,
}

/// The declarations of a source document.
#[derive(Debug)]
pub struct Source {
    pub delegates: Vec<DelegateDeclaration>,
    pub interfaces: Vec<Interface>,
    pub records: Vec<Record>,
    pub functions: Vec<Function>,
    pub console_import: bool,
}

pub type DelegateView = (TokenView, Seq<FieldView>, TyView);

pub ghost struct InterfaceView {
    pub name: TokenView,
    pub bases: Seq<TyView>,
    pub methods: Seq<FunctionView>,
}

pub ghost struct RecordView {
    pub name: TokenView,
    pub is_class: bool,
    pub field_initializers: Seq<(TokenView, ExprView)>,
    pub is_abstract: bool,
    pub base: Option<TyView>,
    pub inherited_fields: int,
    pub fields: Seq<FieldView>,
    pub implements: Seq<TyView>,
    pub methods: Seq<FunctionView>,
}

pub ghost struct SourceView {
    pub delegates: Seq<DelegateView>,
    pub interfaces: Seq<InterfaceView>,
    pub records: Seq<RecordView>,
    pub functions: Seq<FunctionView>,
    pub console_import: bool,
}

pub open spec fn types_view(v: Seq<Ty>) -> Seq<TyView> {
    Seq::new(v.len(), |i: int| v[i]@)
}

pub open spec fn delegate_view(x: DelegateDeclaration) -> DelegateView {
    (token_view(x.name), fields_view(x.parameters@), x.returns@)
}

pub open spec fn interface_view(x: Interface) -> InterfaceView {
    InterfaceView { name: token_view(x.name), bases: types_view(x.bases@), methods: functions_view(x.methods@) }
}

pub open spec fn optional_ty(o: Option<Ty>) -> Option<TyView> {
    match o {
        Some(t) => Some(t@),
        None => None,
    }
}

pub open spec fn record_view(x: Record) -> RecordView {
    RecordView {
        name: token_view(x.name),
        is_class: x.is_class,
        field_initializers: initializers_view(x.field_initializers@),
        is_abstract: x.is_abstract,
        base: optional_ty(x.base),
        inherited_fields: x.inherited_fields as int,
        fields: fields_view(x.fields@),
        implements: types_view(x.implements@),
        methods: functions_view(x.methods@),
    }
}

pub open spec fn source_view(s: Source) -> SourceView {
    SourceView {
        delegates: Seq::new(s.delegates@.len(), |i: int| delegate_view(s.delegates@[i])),
        interfaces: Seq::new(s.interfaces@.len(), |i: int| interface_view(s.interfaces@[i])),
        records: Seq::new(s.records@.len(), |i: int| record_view(s.records@[i])),
        functions: functions_view(s.functions@),
        console_import: s.console_import,
    }
}

pub open spec fn no_declarations() -> SourceView {
    SourceView {
        delegates: Seq::empty(),
        interfaces: Seq::empty(),
        records: Seq::empty(),
        functions: Seq::empty(),
        console_import: false,
    }
}

pub open spec fn declaration_count(s: SourceView) -> int {
    (s.records.len() + s.functions.len() + s.interfaces.len() + s.delegates.len()) as int
}

/// Types separated by commas from `pos`, after `acc`; at most 1024, the
/// excess reported at `at`.
pub open spec fn g_type_list(toks: Seq<TokenView>, pos: int, d: int, acc: Seq<TyView>, at: TokenView) -> Result<
    (Seq<TyView>, int),
    Seq<char>,
>
    decreases toks.len() - pos,
{
    if acc.len() >= 1024 {
        Err(positioned(at.1, at.2, "interface count limit exceeded"@))
    } else {
        match spec_ty(toks, pos, d) {
            Err(m) => Err(m),
            Ok((t, p)) => if 0 <= p < toks.len() && toks[p].0 == ","@ {
                let q = advance(toks, p);
                if q <= pos || q >= toks.len() {
                    Err(Seq::empty())
                } else {
                    g_type_list(toks, q, d, acc.push(t), at)
                }
            } else {
                Ok((acc.push(t), p))
            },
        }
    }
}

/// The types after a `:` at `pos`, if there is one.
pub open spec fn g_type_clause(toks: Seq<TokenView>, pos: int, d: int, at: TokenView) -> Result<
    (Seq<TyView>, int),
    Seq<char>,
> {
    if toks[pos].0 == ":"@ {
        g_type_list(toks, advance(toks, pos), d, Seq::empty(), at)
    } else {
        Ok((Seq::empty(), pos))
    }
}

/// `import System.Console.*` after `import`, at `pos`.
#[verifier::opaque]
pub open spec fn g_import(toks: Seq<TokenView>, pos: int) -> Result<int, Seq<char>> {
    match spec_expect(toks, pos, "System"@) {
        Err(m) => Err(m),
        Ok(p1) => match spec_expect(toks, p1, "."@) {
            Err(m) => Err(m),
            Ok(p2) => match spec_expect(toks, p2, "Console"@) {
                Err(m) => Err(m),
                Ok(p3) => match spec_expect(toks, p3, "."@) {
                    Err(m) => Err(m),
                    Ok(p4) => match spec_expect(toks, p4, "*"@) {
                        Err(m) => Err(m),
                        Ok(p5) => spec_end_statement(toks, p5),
                    },
                },
            },
        },
    }
}

/// A delegate declaration after `delegate`, at `pos`.
#[verifier::opaque]
pub open spec fn g_delegate(toks: Seq<TokenView>, pos: int, d: int) -> Result<(DelegateView, int), Seq<char>> {
    match spec_name(toks, pos) {
        Err(m) => Err(m),
        Ok(p1) => match spec_fields(toks, p1, d, true) {
            Err(m) => Err(m),
            Ok((params, p2)) => match spec_expect(toks, p2, "->"@) {
                Err(m) => Err(m),
                Ok(p3) => match spec_ty(toks, p3, d) {
                    Err(m) => Err(m),
                    Ok((t, p4)) => match spec_end_statement(toks, p4) {
                        Err(m) => Err(m),
                        Ok(p5) => Ok(((toks[pos], params, t), p5)),
                    },
                },
            },
        },
    }
}

/// An interface declaration after `interface`, at `pos`.
#[verifier::opaque]
pub open spec fn g_interface(toks: Seq<TokenView>, pos: int, d: int) -> Result<(InterfaceView, int), Seq<char>> {
    match spec_name(toks, pos) {
        Err(m) => Err(m),
        Ok(p1) => match g_type_clause(toks, skip_newlines(toks, p1), d, toks[pos]) {
            Err(m) => Err(m),
            Ok((bases, p2)) => match g_methods(toks, skip_newlines(toks, p2), d, true, false) {
                Err(m) => Err(m),
                Ok((members, p3)) => Ok(
                    (InterfaceView { name: toks[pos], bases, methods: members.methods }, p3),
                ),
            },
        },
    }
}

/// The constructor given to a class without an explicit one.
pub open spec fn default_constructor(name: TokenView) -> FunctionView {
    FunctionView {
        name: (".ctor"@, name.1, name.2),
        generic_parameters: Seq::empty(),
        is_static: false,
        base_initializer: None,
        explicit_interface: None,
        is_virtual: false,
        is_override: false,
        is_abstract: false,
        receiver_readonly: false,
        parameters: Seq::empty(),
        returns: TyView::Void,
        body: Seq::empty(),
    }
}

/// Whether one of `methods` is a constructor.
pub open spec fn has_constructor(methods: Seq<FunctionView>) -> bool {
    exists|i: int| 0 <= i < methods.len() && (#[trigger] methods[i]).name.0 == ".ctor"@
}

/// The body of a record or class at `pos`: its members, or, for a record
/// without a body, none and the end of its statement.
pub open spec fn g_record_body(toks: Seq<TokenView>, pos: int, d: int, is_class: bool, name: TokenView) -> Result<
    (MembersView, int),
    Seq<char>,
> {
    let q = skip_newlines(toks, pos);
    if toks[q].0 == "{"@ {
        g_methods(toks, q, d, false, is_class)
    } else if is_class {
        Err(positioned(name.1, name.2, "class requires a body"@))
    } else {
        match spec_end_statement(toks, pos) {
            Err(m) => Err(m),
            Ok(p) => Ok(
                (MembersView { fields: Seq::empty(), initializers: Seq::empty(), methods: Seq::empty() }, p),
            ),
        }
    }
}

/// A record or class declaration at `pos`, on `record`, `class` or
/// `abstract`.
#[verifier::opaque]
pub open spec fn g_record(toks: Seq<TokenView>, pos: int, d: int) -> Result<(RecordView, int), Seq<char>> {
    let is_abstract = toks[pos].0 == "abstract"@;
    let p1 = if is_abstract {
        advance(toks, pos)
    } else {
        pos
    };
    let is_class = toks[p1].0 == "class"@;
    let kind: Result<int, Seq<char>> = if is_class {
        Ok(advance(toks, p1))
    } else {
        spec_expect(toks, p1, "record"@)
    };
    match kind {
        Err(m) => Err(m),
        Ok(p2) => match spec_name(toks, p2) {
            Err(m) => Err(m),
            Ok(p3) => {
                let name = toks[p2];
                let own: Result<(Seq<FieldView>, int), Seq<char>> = if is_class {
                    Ok((Seq::empty(), p3))
                } else {
                    spec_fields(toks, p3, d, false)
                };
                match own {
                    Err(m) => Err(m),
                    Ok((fields, p4)) => match g_type_clause(toks, p4, d, name) {
                        Err(m) => Err(m),
                        Ok((implements, p5)) => match g_record_body(toks, p5, d, is_class, name) {
                            Err(m) => Err(m),
                            Ok((members, p6)) => {
                                let all = fields + members.fields;
                                if is_class && !has_constructor(members.methods) && all.len()
                                    != members.initializers.len() {
                                    Err(
                                        positioned(
                                            name.1,
                                            name.2,
                                            "class requires an explicit init or an initializer for every field; use default(T) only for defaultable types"@,
                                        ),
                                    )
                                } else {
                                    let methods = if is_class && !has_constructor(members.methods) {
                                        members.methods.push(default_constructor(name))
                                    } else {
                                        members.methods
                                    };
                                    Ok(
                                        (
                                            RecordView {
                                                name,
                                                is_class,
                                                field_initializers: members.initializers,
                                                is_abstract,
                                                base: None,
                                                inherited_fields: 0,
                                                fields: all,
                                                implements,
                                                methods,
                                            },
                                            p6,
                                        ),
                                    )
                                }
                            },
                        },
                    },
                }
            },
        },
    }
}

/// One declaration at `pos` after the declarations `acc`.
pub open spec fn g_declaration(toks: Seq<TokenView>, pos: int, d: int, acc: SourceView) -> Result<
    (SourceView, int),
    Seq<char>,
> {
    let t = toks[pos].0;
    if t == "import"@ {
        match g_import(toks, advance(toks, pos)) {
            Err(m) => Err(m),
            Ok(p) => Ok((SourceView { console_import: true, ..acc }, p)),
        }
    } else if t == "delegate"@ {
        match g_delegate(toks, advance(toks, pos), d) {
            Err(m) => Err(m),
            Ok((x, p)) => Ok((SourceView { delegates: acc.delegates.push(x), ..acc }, p)),
        }
    } else if t == "interface"@ {
        match g_interface(toks, advance(toks, pos), d) {
            Err(m) => Err(m),
            Ok((x, p)) => Ok((SourceView { interfaces: acc.interfaces.push(x), ..acc }, p)),
        }
    } else if t == "record"@ || t == "class"@ || t == "abstract"@ {
        match g_record(toks, pos, d) {
            Err(m) => Err(m),
            Ok((x, p)) => Ok((SourceView { records: acc.records.push(x), ..acc }, p)),
        }
    } else if t == "func"@ {
        match g_function(toks, pos, d, false, false) {
            Err(m) => Err(m),
            Ok((x, p)) => Ok((SourceView { functions: acc.functions.push(x), ..acc }, p)),
        }
    } else {
        Err(error_at(toks, pos, "expected interface, class, record, func, or import System.Console.*"@))
    }
}

/// Declarations from `pos` to the end of the document, after `acc`.
pub open spec fn g_declarations(toks: Seq<TokenView>, pos: int, d: int, acc: SourceView) -> Result<
    (SourceView, int),
    Seq<char>,
>
    decreases toks.len() - pos,
{
    if pos < 0 || pos >= toks.len() {
        Err(Seq::empty())
    } else if toks[pos].0.len() == 0 {
        Ok((acc, pos))
    } else {
        match g_declaration(toks, pos, d, acc) {
            Err(m) => Err(m),
            Ok((next, p)) => if declaration_count(next) > 1024 {
                Err(error_at(toks, p, "declaration limit exceeded"@))
            } else {
                let q = skip_lines(toks, p);
                if q <= pos || q >= toks.len() {
                    Err(Seq::empty())
                } else {
                    g_declarations(toks, q, d, next)
                }
            },
        }
    }
}

/// The names of the records.
pub open spec fn record_names(records: Seq<RecordView>) -> Seq<Seq<char>> {
    Seq::new(records.len(), |i: int| records[i].name.0)
}

/// Whether a record is named among `implements` after the first entry.
pub open spec fn base_misplaced(names: Seq<Seq<char>>, implements: Seq<TyView>) -> bool {
    exists|k: int| 1 <= k < implements.len() && names.contains(il(#[trigger] implements[k]))
}

/// The first record from `i` whose record base does not come first.
pub open spec fn first_misplaced(records: Seq<RecordView>, names: Seq<Seq<char>>, i: int) -> Option<int>
    decreases records.len() - i,
{
    if i < 0 || i >= records.len() {
        None
    } else if base_misplaced(names, records[i].implements) {
        Some(i)
    } else {
        first_misplaced(records, names, i + 1)
    }
}

/// A record whose first listed type, when it names a record, becomes its
/// base.
pub open spec fn with_base(names: Seq<Seq<char>>, r: RecordView) -> RecordView {
    if r.implements.len() > 0 && names.contains(il(r.implements[0])) {
        RecordView { base: Some(r.implements[0]), implements: r.implements.drop_first(), ..r }
    } else {
        r
    }
}

/// The first record from `i` called `name`, or the number of records.
pub open spec fn index_named(records: Seq<RecordView>, name: Seq<char>, i: int) -> int
    decreases records.len() - i,
{
    if i < 0 || i >= records.len() {
        records.len() as int
    } else if records[i].name.0 == name {
        i
    } else {
        index_named(records, name, i + 1)
    }
}

/// The fields `own[k..]` after `acc`, none of them hiding one before it.
pub open spec fn append_own(acc: Seq<FieldView>, own: Seq<FieldView>, k: int) -> Result<
    Seq<FieldView>,
    Seq<char>,
>
    decreases own.len() - k,
{
    if k < 0 || k >= own.len() {
        Ok(acc)
    } else if has_field_named(acc, own[k].0.0) {
        Err(positioned(own[k].0.1, own[k].0.2, "inherited fields cannot be hidden"@))
    } else {
        append_own(acc.push(own[k]), own, k + 1)
    }
}

/// All fields of the record at `index`, inherited ones first, reached from
/// the records on `path`.
pub open spec fn collect(records: Seq<RecordView>, index: int, path: Seq<int>) -> Result<
    Seq<FieldView>,
    Seq<char>,
>
    decreases 64 - path.len(),
{
    let r = records[index];
    if path.contains(index) || path.len() >= 64 {
        Err(positioned(r.name.1, r.name.2, "cyclic or excessively deep base inheritance"@))
    } else {
        let inherited = match r.base {
            Some(b) => collect(records, index_named(records, il(b), 0), path.push(index)),
            None => Ok(Seq::empty()),
        };
        match inherited {
            Err(m) => Err(m),
            Ok(fs) => append_own(fs, r.fields, 0),
        }
    }
}

/// The collected fields of the records from `i` on, or the first failure.
pub open spec fn collected(records: Seq<RecordView>, i: int) -> Result<Seq<Seq<FieldView>>, Seq<char>>
    decreases records.len() - i,
{
    if i < 0 || i >= records.len() {
        Ok(Seq::empty())
    } else {
        match collect(records, i, Seq::empty()) {
            Err(m) => Err(m),
            Ok(fs) => match collected(records, i + 1) {
                Err(m) => Err(m),
                Ok(rest) => Ok(seq![fs] + rest),
            },
        }
    }
}

/// The records with their bases found.
pub open spec fn based_records(records: Seq<RecordView>) -> Seq<RecordView> {
    Seq::new(records.len(), |i: int| with_base(record_names(records), records[i]))
}

/// The records given the collected fields `fss`, inherited ones first.
pub open spec fn inheriting(records: Seq<RecordView>, fss: Seq<Seq<FieldView>>) -> Seq<RecordView> {
    Seq::new(
        records.len(),
        |i: int|
            RecordView {
                inherited_fields: fss[i].len() - records[i].fields.len(),
                fields: fss[i],
                ..records[i]
            },
    )
}

/// The records with their bases found and their fields inherited.
pub open spec fn prepared(records: Seq<RecordView>) -> Result<Seq<RecordView>, Seq<char>> {
    let names = record_names(records);
    match first_misplaced(records, names, 0) {
        Some(i) => Err(
            positioned(
                records[i].name.1,
                records[i].name.2,
                "a single record base must precede interfaces"@,
            ),
        ),
        None => match collected(based_records(records), 0) {
            Err(m) => Err(m),
            Ok(fss) => Ok(inheriting(based_records(records), fss)),
        },
    }
}

/// A class with a base whose constructors call no base initializer call
/// one without arguments.
pub open spec fn with_base_call(r: RecordView) -> RecordView {
    if r.is_class && r.base is Some {
        RecordView {
            methods: Seq::new(
                r.methods.len(),
                |j: int|
                    if r.methods[j].name.0 == ".ctor"@ && r.methods[j].base_initializer is None {
                        FunctionView { base_initializer: Some(Seq::empty()), ..r.methods[j] }
                    } else {
                        r.methods[j]
                    },
            ),
            ..r
        }
    } else {
        r
    }
}

/// A whole document at `pos`: its declarations, with inheritance prepared.
pub open spec fn g_source(toks: Seq<TokenView>, pos: int, d: int) -> Result<(SourceView, int), Seq<char>> {
    match g_declarations(toks, skip_lines(toks, pos), d, no_declarations()) {
        Err(m) => Err(m),
        Ok((s, p)) => match prepared(s.records) {
            Err(m) => Err(m),
            Ok(rs) => Ok(
                (
                    SourceView {
                        records: Seq::new(rs.len(), |i: int| with_base_call(rs[i])),
                        ..s
                    },
                    p,
                ),
            ),
        },
    }
}

pub open spec fn delegates_view(v: Seq<DelegateDeclaration>) -> Seq<DelegateView> {
    Seq::new(v.len(), |i: int| delegate_view(v[i]))
}

pub open spec fn interfaces_view(v: Seq<Interface>) -> Seq<InterfaceView> {
    Seq::new(v.len(), |i: int| interface_view(v[i]))
}

pub open spec fn records_view(v: Seq<Record>) -> Seq<RecordView> {
    Seq::new(v.len(), |i: int| record_view(v[i]))
}

fn add_delegate(source: &mut Source, x: DelegateDeclaration)
    ensures
        final(source).records@ == old(source).records@,
        source_view(*final(source)) == (SourceView {
            delegates: source_view(*old(source)).delegates.push(delegate_view(x)),
            ..source_view(*old(source))
        }),
{
    let ghost before = source_view(*source);
    let ghost xv = delegate_view(x);
    source.delegates.push(x);
    proof {
        assert(delegates_view(source.delegates@) =~= before.delegates.push(xv));
    }
}

fn add_interface(source: &mut Source, x: Interface)
    ensures
        final(source).records@ == old(source).records@,
        source_view(*final(source)) == (SourceView {
            interfaces: source_view(*old(source)).interfaces.push(interface_view(x)),
            ..source_view(*old(source))
        }),
{
    let ghost before = source_view(*source);
    let ghost xv = interface_view(x);
    source.interfaces.push(x);
    proof {
        assert(interfaces_view(source.interfaces@) =~= before.interfaces.push(xv));
    }
}

fn add_record(source: &mut Source, x: Record)
    ensures
        final(source).records@ == old(source).records@.push(x),
        source_view(*final(source)) == (SourceView {
            records: source_view(*old(source)).records.push(record_view(x)),
            ..source_view(*old(source))
        }),
{
    let ghost before = source_view(*source);
    let ghost xv = record_view(x);
    source.records.push(x);
    proof {
        assert(records_view(source.records@) =~= before.records.push(xv));
    }
}

fn add_function(source: &mut Source, x: Function)
    ensures
        final(source).records@ == old(source).records@,
        source_view(*final(source)) == (SourceView {
            functions: source_view(*old(source)).functions.push(function_view(x)),
            ..source_view(*old(source))
        }),
{
    let ghost before = source_view(*source);
    let ghost xv = function_view(x);
    source.functions.push(x);
    proof {
        assert(functions_view(source.functions@) =~= before.functions.push(xv));
    }
}

impl Parser {
    /// Types separated by commas (see `g_type_list`); too many are
    /// reported at `at`.
    fn type_list(&mut self, at: &Token) -> (r: Result<Vec<Ty>, Fault>)
        requires
            old(self).wf(),
        ensures
            kept(*final(self), *old(self)),
            match g_type_list(old(self).toks(), old(self).pos(), old(self).depth as int, Seq::empty(), token_view(*at)) {
                Ok((v, p)) => r matches Ok(x) && types_view(x@) == v && final(self).pos() == p,
                Err(m) => r matches Err(f) && f.message@ == m,
            },
            r is Ok ==> final(self).pos() > old(self).pos(),
    {
        let ghost toks = self.toks();
        let ghost d = self.depth as int;
        let ghost start = self.pos();
        let ghost atv = token_view(*at);
        let mut tys: Vec<Ty> = Vec::new();
        proof {
            assert(types_view(tys@) =~= Seq::<TyView>::empty());
        }
        loop
            invariant
                kept(*self, *old(self)),
                toks == old(self).toks(),
                d == old(self).depth as int,
                start == old(self).pos(),
                atv == token_view(*at),
                self.pos() >= start,
                g_type_list(toks, start, d, Seq::empty(), atv) == g_type_list(toks, self.pos(), d, types_view(tys@), atv),
            decreases toks.len() - self.pos(),
        {
            let ghost acc = types_view(tys@);
            proof {
                reveal_strlit(",");
            }
            if tys.len() >= 1024 {
                return Err(name_fault(at, "interface count limit exceeded"));
            }
            let t = match self.ty() {
                Ok(t) => t,
                Err(f) => return Err(f),
            };
            let ghost tv = t@;
            tys.push(t);
            proof {
                assert(types_view(tys@) =~= acc.push(tv));
            }
            let ghost p = self.pos();
            proof {
                lemma_advance(toks, p);
            }
            if !self.eat(",") {
                return Ok(tys);
            }
        }
    }

    /// The types after a `:`, if there is one (see `g_type_clause`).
    fn type_clause(&mut self, at: &Token) -> (r: Result<Vec<Ty>, Fault>)
        requires
            old(self).wf(),
        ensures
            kept(*final(self), *old(self)),
            match g_type_clause(old(self).toks(), old(self).pos(), old(self).depth as int, token_view(*at)) {
                Ok((v, p)) => r matches Ok(x) && types_view(x@) == v && final(self).pos() == p,
                Err(m) => r matches Err(f) && f.message@ == m,
            },
            r is Ok ==> final(self).pos() >= old(self).pos(),
    {
        proof {
            reveal_strlit(":");
        }
        if self.eat(":") {
            self.type_list(at)
        } else {
            let none: Vec<Ty> = Vec::new();
            proof {
                assert(types_view(none@) =~= Seq::<TyView>::empty());
            }
            Ok(none)
        }
    }

    /// `System.Console.*` and the end of the statement (see `g_import`).
    fn import_tail(&mut self) -> (r: Result<(), Fault>)
        requires
            old(self).wf(),
        ensures
            kept(*final(self), *old(self)),
            match g_import(old(self).toks(), old(self).pos()) {
                Ok(p) => r is Ok && final(self).pos() == p,
                Err(m) => r matches Err(f) && f.message@ == m,
            },
            final(self).pos() >= old(self).pos(),
    {
        proof {
            reveal(g_import);
        }
        if let Err(f) = self.expect("System") {
            return Err(f);
        }
        if let Err(f) = self.expect(".") {
            return Err(f);
        }
        if let Err(f) = self.expect("Console") {
            return Err(f);
        }
        if let Err(f) = self.expect(".") {
            return Err(f);
        }
        if let Err(f) = self.expect("*") {
            return Err(f);
        }
        self.end_statement()
    }

    /// A delegate declaration after `delegate` (see `g_delegate`).
    fn delegate(&mut self) -> (r: Result<DelegateDeclaration, Fault>)
        requires
            old(self).wf(),
        ensures
            kept(*final(self), *old(self)),
            match g_delegate(old(self).toks(), old(self).pos(), old(self).depth as int) {
                Ok((v, p)) => r matches Ok(x) && delegate_view(x) == v && final(self).pos() == p,
                Err(m) => r matches Err(f) && f.message@ == m,
            },
            r is Ok ==> final(self).pos() >= old(self).pos(),
    {
        proof {
            reveal(g_delegate);
        }
        let ghost toks = self.toks();
        let ghost pos = self.pos();
        proof {
            lemma_advance(toks, pos);
        }
        let name = match self.name() {
            Ok(t) => t,
            Err(f) => return Err(f),
        };
        proof {
            lemma_fields(toks, self.pos(), self.depth as int, true);
        }
        let parameters = match self.fields(true) {
            Ok(v) => v,
            Err(f) => return Err(f),
        };
        if let Err(f) = self.expect("->") {
            return Err(f);
        }
        let result_type = match self.ty() {
            Ok(t) => t,
            Err(f) => return Err(f),
        };
        if let Err(f) = self.end_statement() {
            return Err(f);
        }
        Ok(DelegateDeclaration { name, parameters, returns: result_type })
    }

    /// An interface declaration after `interface` (see `g_interface`).
    fn interface(&mut self) -> (r: Result<Interface, Fault>)
        requires
            old(self).wf(),
        ensures
            kept(*final(self), *old(self)),
            match g_interface(old(self).toks(), old(self).pos(), old(self).depth as int) {
                Ok((v, p)) => r matches Ok(x) && interface_view(x) == v && final(self).pos() == p,
                Err(m) => r matches Err(f) && f.message@ == m,
            },
            r is Ok ==> final(self).pos() > old(self).pos(),
    {
        proof {
            reveal(g_interface);
        }
        let ghost toks = self.toks();
        let name = match self.name() {
            Ok(t) => t,
            Err(f) => return Err(f),
        };
        self.newlines();
        let bases = match self.type_clause(&name) {
            Ok(v) => v,
            Err(f) => return Err(f),
        };
        self.newlines();
        let members = match self.methods(true, false) {
            Ok(m) => m,
            Err(f) => return Err(f),
        };
        Ok(Interface { name, bases, methods: members.methods })
    }

    /// A record or class declaration (see `g_record`).
    #[verifier::rlimit(40)]
    fn record(&mut self) -> (r: Result<Record, Fault>)
        requires
            old(self).wf(),
        ensures
            kept(*final(self), *old(self)),
            match g_record(old(self).toks(), old(self).pos(), old(self).depth as int) {
                Ok((v, p)) => r matches Ok(x) && record_view(x) == v && final(self).pos() == p,
                Err(m) => r matches Err(f) && f.message@ == m,
            },
            r is Ok ==> final(self).pos() > old(self).pos(),
            r matches Ok(x) ==> x.base is None,
    {
        let ghost toks = self.toks();
        proof {
            reveal(g_record);
            reveal_strlit("{");
        }
        let is_abstract = self.eat("abstract");
        let is_class = self.eat("class");
        if !is_class {
            if let Err(f) = self.expect("record") {
                return Err(f);
            }
        }
        let name = match self.name() {
            Ok(t) => t,
            Err(f) => return Err(f),
        };
        proof {
            lemma_fields(toks, self.pos(), self.depth as int, false);
        }
        let mut fields = if is_class {
            let none: Vec<Field> = Vec::new();
            proof {
                assert(fields_view(none@) =~= Seq::<FieldView>::empty());
            }
            none
        } else {
            match self.fields(false) {
                Ok(v) => v,
                Err(f) => return Err(f),
            }
        };
        let implements = match self.type_clause(&name) {
            Ok(v) => v,
            Err(f) => return Err(f),
        };
        let saved = self.position;
        self.newlines();
        let mut members = if self.at("{") {
            match self.methods(false, is_class) {
                Ok(m) => m,
                Err(f) => return Err(f),
            }
        } else {
            if is_class {
                return Err(name_fault(&name, "class requires a body"));
            }
            self.position = saved;
            if let Err(f) = self.end_statement() {
                return Err(f);
            }
            let none = Members { fields: Vec::new(), initializers: Vec::new(), methods: Vec::new() };
            proof {
                assert(fields_view(none.fields@) =~= Seq::<FieldView>::empty());
                assert(initializers_view(none.initializers@) =~= Seq::<(TokenView, ExprView)>::empty());
                assert(functions_view(none.methods@) =~= Seq::<FunctionView>::empty());
            }
            none
        };
        let ghost own = fields_view(fields@);
        let ghost more = fields_view(members.fields@);
        fields.append(&mut members.fields);
        proof {
            assert(fields_view(fields@) =~= own + more);
        }
        if is_class && !has_method(&members.methods, ".ctor") {
            if fields.len() != members.initializers.len() {
                return Err(
                    name_fault(
                        &name,
                        "class requires an explicit init or an initializer for every field; use default(T) only for defaultable types",
                    ),
                );
            }
            let ghost before = functions_view(members.methods@);
            let mut text = String::new();
            push_str(&mut text, ".ctor");
            let ctor_name = Token { text, line: name.line, column: name.column };
            let generic_parameters: Vec<String> = Vec::new();
            let parameters: Vec<Field> = Vec::new();
            let body: Vec<crate::tree::Stmt> = Vec::new();
            proof {
                assert(ctor_name.text@ =~= ".ctor"@);
                assert(strings_view(generic_parameters@) =~= Seq::<Seq<char>>::empty());
                assert(fields_view(parameters@) =~= Seq::<FieldView>::empty());
                assert(stmts_view(body@) =~= Seq::<StmtView>::empty());
            }
            let ctor = Function {
                name: ctor_name,
                generic_parameters,
                is_static: false,
                base_initializer: None,
                explicit_interface: None,
                is_virtual: false,
                is_override: false,
                is_abstract: false,
                receiver_readonly: false,
                parameters,
                returns: Ty::Void,
                body,
            };
            proof {
                assert(function_view(ctor) == default_constructor(token_view(name)));
            }
            members.methods.push(ctor);
            proof {
                assert(functions_view(members.methods@) =~= before.push(default_constructor(token_view(name))));
            }
        }
        Ok(
            Record {
                name,
                is_class,
                field_initializers: members.initializers,
                is_abstract,
                base: None,
                inherited_fields: 0,
                fields,
                implements,
                methods: members.methods,
            },
        )
    }

    /// One declaration (see `g_declaration`), added to `source`.
    #[verifier::rlimit(40)]
    fn declaration(&mut self, source: &mut Source) -> (r: Result<(), Fault>)
        requires
            old(self).wf(),
        ensures
            kept(*final(self), *old(self)),
            match g_declaration(old(self).toks(), old(self).pos(), old(self).depth as int, source_view(*old(source))) {
                Ok((v, p)) => r is Ok && source_view(*final(source)) == v && final(self).pos() == p
                    && p > old(self).pos(),
                Err(m) => r matches Err(f) && f.message@ == m,
            },
            r is Ok && (forall|i: int| 0 <= i < old(source).records@.len() ==> (#[trigger] old(source).records@[i]).base is None)
                ==> (forall|i: int| 0 <= i < final(source).records@.len() ==> (#[trigger] final(source).records@[i]).base is None),
    {
        let ghost toks = self.toks();
        let ghost pos = self.pos();
        let ghost before = source_view(*source);
        proof {
            lemma_advance(toks, pos);
            reveal_strlit("import");
            reveal_strlit("delegate");
            reveal_strlit("interface");
            reveal_strlit("record");
            reveal_strlit("class");
            reveal_strlit("abstract");
            reveal_strlit("func");
        }
        if self.eat("import") {
            if let Err(f) = self.import_tail() {
                return Err(f);
            }
            source.console_import = true;
            proof {
                assert(source_view(*source) =~= SourceView { console_import: true, ..before });
            }
            return Ok(());
        }
        if self.eat("delegate") {
            return match self.delegate() {
                Ok(x) => {
                    add_delegate(source, x);
                    Ok(())
                },
                Err(f) => Err(f),
            };
        }
        if self.eat("interface") {
            return match self.interface() {
                Ok(x) => {
                    add_interface(source, x);
                    Ok(())
                },
                Err(f) => Err(f),
            };
        }
        if self.at("record") || self.at("class") || self.at("abstract") {
            return match self.record() {
                Ok(x) => {
                    add_record(source, x);
                    Ok(())
                },
                Err(f) => Err(f),
            };
        }
        if self.at("func") {
            return match self.function(false, false) {
                Ok(x) => {
                    add_function(source, x);
                    Ok(())
                },
                Err(f) => Err(f),
            };
        }
        Err(
            error_fault(
                &self.tokens,
                self.position,
                "expected interface, class, record, func, or import System.Console.*",
            ),
        )
    }
}

pub open spec fn path_view(v: Seq<usize>) -> Seq<int> {
    Seq::new(v.len(), |i: int| v[i] as int)
}

/// The views of lists of fields.
pub open spec fn field_lists_view(v: Seq<Vec<Field>>) -> Seq<Seq<FieldView>> {
    Seq::new(v.len(), |i: int| fields_view(v[i]@))
}

/// Every base names one of the records.
pub open spec fn bases_known(records: Seq<RecordView>) -> bool {
    forall|i: int|
        0 <= i < records.len() && (#[trigger] records[i]).base is Some ==> record_names(records).contains(
            il(records[i].base->0),
        )
}

/// A result with `acc` put before what it holds.
pub open spec fn after(acc: Seq<Seq<FieldView>>, r: Result<Seq<Seq<FieldView>>, Seq<char>>) -> Result<
    Seq<Seq<FieldView>>,
    Seq<char>,
> {
    match r {
        Err(m) => Err(m),
        Ok(rest) => Ok(acc + rest),
    }
}

proof fn lemma_index_named(records: Seq<RecordView>, name: Seq<char>, i: int)
    requires
        0 <= i,
        exists|j: int| i <= j < records.len() && #[trigger] records[j].name.0 == name,
    ensures
        i <= index_named(records, name, i) < records.len(),
        records[index_named(records, name, i)].name.0 == name,
    decreases records.len() - i,
{
    if records[i].name.0 != name {
        let j = choose|j: int| i <= j < records.len() && #[trigger] records[j].name.0 == name;
        assert(i + 1 <= j);
        lemma_index_named(records, name, i + 1);
    }
}

proof fn lemma_append_own_len(acc: Seq<FieldView>, own: Seq<FieldView>, k: int)
    requires
        0 <= k <= own.len(),
    ensures
        append_own(acc, own, k) matches Ok(v) ==> v.len() == acc.len() + own.len() - k,
    decreases own.len() - k,
{
    if k < own.len() && !has_field_named(acc, own[k].0.0) {
        lemma_append_own_len(acc.push(own[k]), own, k + 1);
    }
}

/// A copy of a field.
fn copy_field(f: &Field) -> (r: Field)
    ensures
        field_view(r) == field_view(*f),
{
    Field { name: copy_token(&f.name), ty: clone_ty(&f.ty), output: f.output, readonly: f.readonly }
}

/// Whether `index` is on `path`.
fn contains_index(path: &Vec<usize>, index: usize) -> (b: bool)
    ensures
        b == path_view(path@).contains(index as int),
{
    let mut i: usize = 0;
    while i < path.len()
        invariant
            i <= path@.len(),
            forall|k: int| 0 <= k < i ==> path@[k] != index,
        decreases path.len() - i,
    {
        if path[i] == index {
            assert(path_view(path@)[i as int] == index as int);
            return true;
        }
        i += 1;
    }
    assert forall|k: int| 0 <= k < path_view(path@).len() implies path_view(path@)[k] != index as int by {
        assert(path_view(path@)[k] == path@[k] as int);
    }
    false
}

/// Whether a record is named among `implements` after the first entry (see
/// `base_misplaced`).
fn misplaced(names: &Vec<String>, implements: &Vec<Ty>) -> (b: bool)
    ensures
        b == base_misplaced(strings_view(names@), types_view(implements@)),
{
    let ghost tys = types_view(implements@);
    let ghost ns = strings_view(names@);
    let mut k: usize = 1;
    while k < implements.len()
        invariant
            1 <= k,
            tys == types_view(implements@),
            ns == strings_view(names@),
            forall|j: int| 1 <= j < k && j < tys.len() ==> !ns.contains(il(#[trigger] tys[j])),
        decreases implements.len() - k,
    {
        let spelled = implements[k].il();
        if contains_name(names, spelled.as_str()) {
            assert(tys[k as int] == implements@[k as int]@);
            return true;
        }
        assert(tys[k as int] == implements@[k as int]@);
        k += 1;
    }
    false
}

/// The first record called `name` (see `index_named`).
fn index_of(records: &Vec<Record>, name: &str) -> (i: usize)
    ensures
        i == index_named(records_view(records@), name@, 0),
{
    let ghost rv = records_view(records@);
    let mut i: usize = 0;
    while i < records.len()
        invariant
            i <= records@.len(),
            rv == records_view(records@),
            index_named(rv, name@, 0) == index_named(rv, name@, i as int),
        decreases records.len() - i,
    {
        assert(rv[i as int].name.0 == records@[i as int].name.text@);
        if str_eq(records[i].name.text.as_str(), name) {
            return i;
        }
        i += 1;
    }
    i
}

/// The fields `own` after `acc`, none hiding one before it (see
/// `append_own`).
fn append_own_fields(acc: Vec<Field>, own: &Vec<Field>) -> (r: Result<Vec<Field>, Fault>)
    ensures
        match append_own(fields_view(acc@), fields_view(own@), 0) {
            Ok(v) => r matches Ok(x) && fields_view(x@) == v,
            Err(m) => r matches Err(f) && f.message@ == m,
        },
{
    let ghost start = fields_view(acc@);
    let ghost ov = fields_view(own@);
    let mut out = acc;
    let mut k: usize = 0;
    while k < own.len()
        invariant
            k <= own@.len(),
            ov == fields_view(own@),
            start == fields_view(acc@),
            append_own(start, ov, 0) == append_own(fields_view(out@), ov, k as int),
        decreases own.len() - k,
    {
        let ghost before = fields_view(out@);
        proof {
            assert(ov[k as int] == field_view(own@[k as int]));
        }
        if has_name(&out, &own[k].name) {
            return Err(name_fault(&own[k].name, "inherited fields cannot be hidden"));
        }
        let f = copy_field(&own[k]);
        out.push(f);
        proof {
            assert(fields_view(out@) =~= before.push(ov[k as int]));
        }
        k += 1;
    }
    Ok(out)
}

/// All fields of the record at `index`, inherited ones first, reached from
/// the records on `path` (see `collect`).
fn collect_fields(records: &Vec<Record>, index: usize, path: &mut Vec<usize>) -> (r: Result<Vec<Field>, Fault>)
    requires
        index < records@.len(),
        bases_known(records_view(records@)),
        old(path)@.len() <= 64,
    ensures
        final(path)@ == old(path)@,
        match collect(records_view(records@), index as int, path_view(old(path)@)) {
            Ok(v) => r matches Ok(x) && fields_view(x@) == v,
            Err(m) => r matches Err(f) && f.message@ == m,
        },
    decreases 64 - old(path)@.len(),
{
    let ghost rv = records_view(records@);
    let ghost before = path@;
    proof {
        assert(rv[index as int] == record_view(records@[index as int]));
    }
    if contains_index(path, index) || path.len() >= 64 {
        return Err(name_fault(&records[index].name, "cyclic or excessively deep base inheritance"));
    }
    let inherited = match &records[index].base {
        Some(b) => {
            let target = b.il();
            proof {
                assert(rv[index as int].base == Some(b@));
                assert(record_names(rv).contains(il(b@)));
                let j = choose|j: int| 0 <= j < record_names(rv).len() && record_names(rv)[j] == il(b@);
                assert(rv[j].name.0 == il(b@));
                lemma_index_named(rv, il(b@), 0);
            }
            let parent = index_of(records, target.as_str());
            path.push(index);
            proof {
                assert(path_view(path@) =~= path_view(before).push(index as int));
            }
            let res = collect_fields(records, parent, path);
            path.pop();
            proof {
                assert(path@ =~= before);
            }
            match res {
                Ok(v) => v,
                Err(f) => return Err(f),
            }
        },
        None => {
            let none: Vec<Field> = Vec::new();
            proof {
                assert(fields_view(none@) =~= Seq::<FieldView>::empty());
            }
            none
        },
    };
    append_own_fields(inherited, &records[index].fields)
}

/// The records with their bases found and their fields inherited (see
/// `prepared`).
pub fn prepare_inheritance(records: Vec<Record>) -> (r: Result<Vec<Record>, Fault>)
    requires
        forall|i: int| 0 <= i < records@.len() ==> (#[trigger] records@[i]).base is None,
    ensures
        match prepared(records_view(records@)) {
            Ok(v) => r matches Ok(x) && records_view(x@) == v,
            Err(m) => r matches Err(f) && f.message@ == m,
        },
{
    let ghost orig = records_view(records@);
    let ghost n = orig.len();
    let mut names: Vec<String> = Vec::new();
    let mut i: usize = 0;
    while i < records.len()
        invariant
            i <= records@.len(),
            orig == records_view(records@),
            strings_view(names@) =~= record_names(orig).subrange(0, i as int),
        decreases records.len() - i,
    {
        let ghost before = strings_view(names@);
        names.push(records[i].name.text.clone());
        proof {
            assert(strings_view(names@) =~= before.push(orig[i as int].name.0));
        }
        i += 1;
    }
    let ghost ns = record_names(orig);
    proof {
        assert(strings_view(names@) =~= ns);
    }
    let mut i: usize = 0;
    while i < records.len()
        invariant
            i <= records@.len(),
            orig == records_view(records@),
            strings_view(names@) == ns,
            ns == record_names(orig),
            first_misplaced(orig, ns, 0) == first_misplaced(orig, ns, i as int),
        decreases records.len() - i,
    {
        assert(orig[i as int].implements == types_view(records@[i as int].implements@));
        if misplaced(&names, &records[i].implements) {
            return Err(name_fault(&records[i].name, "a single record base must precede interfaces"));
        }
        i += 1;
    }
    proof {
        assert forall|k: int| 0 <= k < n implies (#[trigger] orig[k]).base is None by {
            assert(orig[k] == record_view(records@[k]));
        }
    }
    let ghost based_view = based_records(orig);
    let mut input = records;
    let mut based: Vec<Record> = Vec::new();
    while input.len() > 0
        invariant
            based@.len() + input@.len() == n,
            n == orig.len(),
            records_view(based@) =~= based_view.subrange(0, based@.len() as int),
            records_view(input@) =~= orig.subrange(based@.len() as int, n as int),
            strings_view(names@) == ns,
            ns == record_names(orig),
            based_view == based_records(orig),
        decreases input.len(),
    {
        let ghost k = based@.len() as int;
        let ghost done = records_view(based@);
        let ghost iv = records_view(input@);
        let mut r = input.remove(0);
        proof {
            assert(iv[0] == orig[k]);
            assert(record_view(r) == iv[0]);
            assert(records_view(input@) =~= iv.subrange(1, iv.len() as int));
            assert(iv.subrange(1, iv.len() as int) =~= orig.subrange(k + 1, n as int));
        }
        if r.implements.len() > 0 {
            let spelled = r.implements[0].il();
            if contains_name(&names, spelled.as_str()) {
                let ghost tys = types_view(r.implements@);
                let b = r.implements.remove(0);
                r.base = Some(b);
                proof {
                    assert(types_view(r.implements@) =~= tys.drop_first());
                }
            }
        }
        proof {
            assert(record_view(r) == based_view[k]);
        }
        based.push(r);
        proof {
            assert(records_view(based@) =~= done.push(based_view[k]));
        }
    }
    proof {
        assert(records_view(based@) =~= based_view);
        assert(record_names(based_view) =~= ns);
        assert forall|k: int| 0 <= k < based_view.len() && (#[trigger] based_view[k]).base is Some implies record_names(
            based_view,
        ).contains(il(based_view[k].base->0)) by {
            assert(based_view[k] == with_base(ns, orig[k]));
            assert(orig[k].base is None);
        }
    }
    let mut all: Vec<Vec<Field>> = Vec::new();
    let mut i: usize = 0;
    while i < based.len()
        invariant
            i <= based@.len(),
            records_view(based@) == based_view,
            bases_known(based_view),
            collected(based_view, 0) == after(field_lists_view(all@), collected(based_view, i as int)),
            all@.len() == i,
            forall|k: int| 0 <= k < i ==> (#[trigger] all@[k])@.len() >= based_view[k].fields.len(),
            orig == records_view(records@),
            prepared(orig) == (match collected(based_view, 0) {
                Err(m) => Err(m),
                Ok(fss) => Ok(inheriting(based_view, fss)),
            }),
        decreases based.len() - i,
    {
        let ghost acc = field_lists_view(all@);
        let mut path: Vec<usize> = Vec::new();
        proof {
            assert(path_view(path@) =~= Seq::<int>::empty());
        }
        let fs = match collect_fields(&based, i, &mut path) {
            Ok(v) => v,
            Err(f) => return Err(f),
        };
        proof {
            let r = based_view[i as int];
            let inherited = match r.base {
                Some(b) => collect(based_view, index_named(based_view, il(b), 0), Seq::<int>::empty().push(i as int)),
                None => Ok(Seq::<FieldView>::empty()),
            };
            if let Ok(x) = inherited {
                lemma_append_own_len(x, r.fields, 0);
            }
            if let Ok(rest) = collected(based_view, i + 1) {
                assert(acc + (seq![fields_view(fs@)] + rest) =~= acc.push(fields_view(fs@)) + rest);
            }
        }
        all.push(fs);
        proof {
            assert(field_lists_view(all@) =~= acc.push(fields_view(fs@)));
        }
        i += 1;
    }
    let ghost fss = field_lists_view(all@);
    proof {
        assert(fss + Seq::<Seq<FieldView>>::empty() =~= fss);
        assert(collected(based_view, 0) == Ok::<Seq<Seq<FieldView>>, Seq<char>>(fss));
    }
    let ghost target = inheriting(based_view, fss);
    let mut out: Vec<Record> = Vec::new();
    let mut rest = based;
    let mut lists = all;
    while rest.len() > 0
        invariant
            out@.len() + rest@.len() == n,
            lists@.len() == rest@.len(),
            records_view(out@) =~= target.subrange(0, out@.len() as int),
            records_view(rest@) =~= based_view.subrange(out@.len() as int, n as int),
            field_lists_view(lists@) =~= fss.subrange(out@.len() as int, n as int),
            forall|k: int| 0 <= k < n ==> (#[trigger] fss[k]).len() >= based_view[k].fields.len(),
            fss.len() == n,
            based_view.len() == n,
            target == inheriting(based_view, fss),
        decreases rest.len(),
    {
        let ghost k = out@.len() as int;
        let ghost done = records_view(out@);
        let ghost rv = records_view(rest@);
        let ghost lv = field_lists_view(lists@);
        let mut r = rest.remove(0);
        let fs = lists.remove(0);
        proof {
            assert(rv[0] == based_view[k]);
            assert(record_view(r) == rv[0]);
            assert(lv[0] == fss[k]);
            assert(fields_view(fs@) == lv[0]);
            assert(records_view(rest@) =~= rv.subrange(1, rv.len() as int));
            assert(rv.subrange(1, rv.len() as int) =~= based_view.subrange(k + 1, n as int));
            assert(field_lists_view(lists@) =~= lv.subrange(1, lv.len() as int));
            assert(lv.subrange(1, lv.len() as int) =~= fss.subrange(k + 1, n as int));
            assert(fss[k].len() >= based_view[k].fields.len());
        }
        r.inherited_fields = fs.len() - r.fields.len();
        r.fields = fs;
        proof {
            assert(record_view(r) == target[k]);
        }
        out.push(r);
        proof {
            assert(records_view(out@) =~= done.push(target[k]));
        }
    }
    proof {
        assert(records_view(out@) =~= target);
    }
    Ok(out)
}

/// The constructors without a base initializer given one without
/// arguments (see `with_base_call`).
fn constructors_call_base(methods: Vec<Function>) -> (r: Vec<Function>)
    ensures
        functions_view(r@) == Seq::new(
            functions_view(methods@).len(),
            |j: int|
                if functions_view(methods@)[j].name.0 == ".ctor"@ && functions_view(methods@)[j].base_initializer is None {
                    FunctionView { base_initializer: Some(Seq::empty()), ..functions_view(methods@)[j] }
                } else {
                    functions_view(methods@)[j]
                },
        ),
{
    let ghost mv = functions_view(methods@);
    let ghost n = mv.len();
    let ghost target = Seq::new(
        n,
        |j: int|
            if mv[j].name.0 == ".ctor"@ && mv[j].base_initializer is None {
                FunctionView { base_initializer: Some(Seq::empty()), ..mv[j] }
            } else {
                mv[j]
            },
    );
    let mut input = methods;
    let mut out: Vec<Function> = Vec::new();
    while input.len() > 0
        invariant
            out@.len() + input@.len() == n,
            n == mv.len(),
            functions_view(out@) =~= target.subrange(0, out@.len() as int),
            functions_view(input@) =~= mv.subrange(out@.len() as int, n as int),
            target == Seq::new(
                n,
                |j: int|
                    if mv[j].name.0 == ".ctor"@ && mv[j].base_initializer is None {
                        FunctionView { base_initializer: Some(Seq::empty()), ..mv[j] }
                    } else {
                        mv[j]
                    },
            ),
        decreases input.len(),
    {
        let ghost k = out@.len() as int;
        let ghost done = functions_view(out@);
        let ghost iv = functions_view(input@);
        let mut m = input.remove(0);
        proof {
            assert(iv[0] == mv[k]);
            assert(function_view(m) == iv[0]);
            assert(functions_view(input@) =~= iv.subrange(1, iv.len() as int));
            assert(iv.subrange(1, iv.len() as int) =~= mv.subrange(k + 1, n as int));
        }
        if str_eq(m.name.text.as_str(), ".ctor") && m.base_initializer.is_none() {
            let none: Vec<Expr> = Vec::new();
            proof {
                assert(crate::grammar::exprs_view(none@) =~= Seq::<ExprView>::empty());
            }
            m.base_initializer = Some(none);
        }
        proof {
            assert(function_view(m) == target[k]);
        }
        out.push(m);
        proof {
            assert(functions_view(out@) =~= done.push(target[k]));
        }
    }
    proof {
        assert(functions_view(out@) =~= target);
    }
    out
}

/// Each class with a base made to call its base constructor (see
/// `with_base_call`).
fn records_call_base(records: Vec<Record>) -> (r: Vec<Record>)
    ensures
        records_view(r@) == Seq::new(
            records_view(records@).len(),
            |i: int| with_base_call(records_view(records@)[i]),
        ),
{
    let ghost rv = records_view(records@);
    let ghost n = rv.len();
    let ghost target = Seq::new(n, |i: int| with_base_call(rv[i]));
    let mut input = records;
    let mut out: Vec<Record> = Vec::new();
    while input.len() > 0
        invariant
            out@.len() + input@.len() == n,
            n == rv.len(),
            records_view(out@) =~= target.subrange(0, out@.len() as int),
            records_view(input@) =~= rv.subrange(out@.len() as int, n as int),
            target == Seq::new(n, |i: int| with_base_call(rv[i])),
        decreases input.len(),
    {
        let ghost k = out@.len() as int;
        let ghost done = records_view(out@);
        let ghost iv = records_view(input@);
        let mut r = input.remove(0);
        proof {
            assert(iv[0] == rv[k]);
            assert(record_view(r) == iv[0]);
            assert(records_view(input@) =~= iv.subrange(1, iv.len() as int));
            assert(iv.subrange(1, iv.len() as int) =~= rv.subrange(k + 1, n as int));
        }
        if r.is_class && r.base.is_some() {
            let mut methods: Vec<Function> = Vec::new();
            std::mem::swap(&mut methods, &mut r.methods);
            r.methods = constructors_call_base(methods);
        }
        proof {
            assert(record_view(r) == target[k]);
        }
        out.push(r);
        proof {
            assert(records_view(out@) =~= done.push(target[k]));
        }
    }
    proof {
        assert(records_view(out@) =~= target);
    }
    out
}

impl Parser {
    /// The declarations up to the end of the document (see
    /// `g_declarations`), inheritance not yet prepared.
    fn declarations(&mut self) -> (r: Result<Source, Fault>)
        requires
            old(self).wf(),
        ensures
            kept(*final(self), *old(self)),
            match g_declarations(old(self).toks(), old(self).pos(), old(self).depth as int, no_declarations()) {
                Ok((v, p)) => r matches Ok(x) && source_view(x) == v && final(self).pos() == p,
                Err(m) => r matches Err(f) && f.message@ == m,
            },
            r matches Ok(x) ==> forall|i: int| 0 <= i < x.records@.len() ==> (#[trigger] x.records@[i]).base is None,
    {
        let ghost toks = self.toks();
        let ghost d = self.depth as int;
        let ghost start = self.pos();
        let mut source = Source {
            delegates: Vec::new(),
            interfaces: Vec::new(),
            records: Vec::new(),
            functions: Vec::new(),
            console_import: false,
        };
        proof {
            assert(source_view(source).delegates =~= Seq::<DelegateView>::empty());
            assert(source_view(source).interfaces =~= Seq::<InterfaceView>::empty());
            assert(source_view(source).records =~= Seq::<RecordView>::empty());
            assert(source_view(source).functions =~= Seq::<FunctionView>::empty());
            assert(source_view(source) == no_declarations());
        }
        while !self.current().text.as_str().is_empty()
            invariant
                kept(*self, *old(self)),
                toks == old(self).toks(),
                d == old(self).depth as int,
                start == old(self).pos(),
                declaration_count(source_view(source)) <= 1024,
                g_declarations(toks, start, d, no_declarations()) == g_declarations(
                    toks,
                    self.pos(),
                    d,
                    source_view(source),
                ),
                forall|i: int| 0 <= i < source.records@.len() ==> (#[trigger] source.records@[i]).base is None,
            decreases toks.len() - self.pos(),
        {
            let ghost here = self.pos();
            proof {
                assert(toks[here].0 == self.tokens@[here].text@);
            }
            if let Err(f) = self.declaration(&mut source) {
                return Err(f);
            }
            let count = source.records.len() + source.functions.len() + source.interfaces.len()
                + source.delegates.len();
            if count > 1024 {
                return Err(error_fault(&self.tokens, self.position, "declaration limit exceeded"));
            }
            proof {
                lemma_skip_lines(toks, self.pos());
            }
            self.lines();
        }
        proof {
            assert(toks[self.pos()].0 == self.tokens@[self.pos() as int].text@);
        }
        Ok(source)
    }

    /// Parses a whole document (see `g_source`): its declarations in order,
    /// with record inheritance prepared.
    pub fn source(&mut self) -> (r: Result<Source, Fault>)
        requires
            old(self).wf(),
        ensures
            kept(*final(self), *old(self)),
            match g_source(old(self).toks(), old(self).pos(), old(self).depth as int) {
                Ok((v, p)) => r matches Ok(x) && source_view(x) == v && final(self).pos() == p,
                Err(m) => r matches Err(f) && f.message@ == m,
            },
    {
        proof {
            lemma_skip_lines(self.toks(), self.pos());
        }
        self.lines();
        let mut source = match self.declarations() {
            Ok(s) => s,
            Err(f) => return Err(f),
        };
        let ghost declared = source_view(source);
        let mut records: Vec<Record> = Vec::new();
        std::mem::swap(&mut records, &mut source.records);
        let prepared_records = match prepare_inheritance(records) {
            Ok(v) => v,
            Err(f) => return Err(f),
        };
        let ghost pv = records_view(prepared_records@);
        source.records = records_call_base(prepared_records);
        proof {
            assert(source_view(source).records =~= Seq::new(pv.len(), |i: int| with_base_call(pv[i])));
            assert(source_view(source).delegates =~= declared.delegates);
            assert(source_view(source).interfaces =~= declared.interfaces);
            assert(source_view(source).functions =~= declared.functions);
        }
        Ok(source)
    }
}

} // verus!
