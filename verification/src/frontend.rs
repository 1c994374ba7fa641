//! Source-language types of the front end, their IL spellings, and the IL
//! that source unions lower to.
use crate::assembler::{find_last_before, lemma_find_last_before, parse_type, spec_parse_type};
use crate::fault::Fault;
use crate::document::{Record, Source};
use crate::lexer::Token;
use crate::parser::Field;
use crate::syntax::{chars_equal, slice_chars, string_of};
use crate::text::{chars_of, push_char, push_str};
use crate::types::{definition_name_of, lemma_type_views, list_view, Type, TypeView};
use vstd::prelude::*;
use vstd::string::StringExecFns;

verus! {

/// A source-language type.
#[derive(Debug, PartialEq, Eq)]
pub enum Ty {
    Int,
    String,
    Bool,
    Void,
    Record(String),
    Ref(Box<Ty>),
    ReadOnlyRef(Box<Ty>),
    Array(Box<Ty>),
}

/// The mathematical value of a source type.
pub ghost enum TyView {
    Int,
    String,
    Bool,
    Void,
    Record(Seq<char>),
    Ref(Box<TyView>),
    ReadOnlyRef(Box<TyView>),
    Array(Box<TyView>),
}

pub open spec fn ty_view(t: Ty) -> TyView
    decreases t,
{
    match t {
        Ty::Int => TyView::Int,
        Ty::String => TyView::String,
        Ty::Bool => TyView::Bool,
        Ty::Void => TyView::Void,
        Ty::Record(n) => TyView::Record(n@),
        Ty::Ref(b) => TyView::Ref(Box::new(ty_view(*b))),
        Ty::ReadOnlyRef(b) => TyView::ReadOnlyRef(Box::new(ty_view(*b))),
        Ty::Array(b) => TyView::Array(Box::new(ty_view(*b))),
    }
}

impl View for Ty {
    type V = TyView;

    open spec fn view(&self) -> TyView {
        ty_view(*self)
    }
}

/// Whether an IL spelling starts with the `readonly ` marker.
pub open spec fn starts_readonly(n: Seq<char>) -> bool {
    n.len() >= 9 && n.subrange(0, 9) == "readonly "@
}

/// The IL spelling of a source type.
pub open spec fn il(t: TyView) -> Seq<char>
    decreases t,
{
    match t {
        TyView::Int => "Int32"@,
        TyView::String => "String"@,
        TyView::Bool => "Boolean"@,
        TyView::Void => "Void"@,
        TyView::Record(n) => n,
        TyView::Ref(b) => if starts_readonly(il(*b)) {
            "("@ + il(*b) + ")&"@
        } else {
            il(*b) + "&"@
        },
        TyView::ReadOnlyRef(b) => if starts_readonly(il(*b)) {
            "readonly ("@ + il(*b) + ")&"@
        } else {
            "readonly "@ + il(*b) + "&"@
        },
        TyView::Array(b) => il(*b) + "[]"@,
    }
}

/// The spelling of a parameter: read-only references pass as references.
pub open spec fn parameter_il(t: TyView) -> Seq<char> {
    match t {
        TyView::ReadOnlyRef(b) => il(*b) + "&"@,
        _ => il(t),
    }
}

/// A reference restricted to reading; other types are unchanged.
pub open spec fn restricted(t: TyView) -> TyView {
    match t {
        TyView::Ref(b) => TyView::ReadOnlyRef(b),
        _ => t,
    }
}

fn starts_with_readonly(s: &String) -> (b: bool)
    ensures
        b == starts_readonly(s@),
{
    let chars = chars_of(s.as_str());
    if chars.len() < 9 {
        return false;
    }
    let prefix = slice_chars(&chars, 0, 9);
    chars_equal(&prefix, "readonly ")
}

impl Ty {
    /// The IL spelling (see `il`).
    pub fn il(&self) -> (s: String)
        ensures
            s@ == il(self@),
        decreases self,
    {
        match self {
            Ty::Int => String::from_str("Int32"),
            Ty::String => String::from_str("String"),
            Ty::Bool => String::from_str("Boolean"),
            Ty::Void => String::from_str("Void"),
            Ty::Record(n) => n.clone(),
            Ty::Ref(b) => {
                let name = b.il();
                if starts_with_readonly(&name) {
                    let mut s = String::from_str("(");
                    push_str(&mut s, name.as_str());
                    push_str(&mut s, ")&");
                    s
                } else {
                    let mut s = name;
                    push_str(&mut s, "&");
                    s
                }
            },
            Ty::ReadOnlyRef(b) => {
                let name = b.il();
                let mut s = if starts_with_readonly(&name) {
                    String::from_str("readonly (")
                } else {
                    String::from_str("readonly ")
                };
                push_str(&mut s, name.as_str());
                if starts_with_readonly(&name) {
                    push_str(&mut s, ")&");
                } else {
                    push_str(&mut s, "&");
                }
                s
            },
            Ty::Array(b) => {
                let mut s = b.il();
                push_str(&mut s, "[]");
                s
            },
        }
    }

    /// The spelling of a parameter of this type (see `parameter_il`).
    pub fn parameter_il(&self) -> (s: String)
        ensures
            s@ == parameter_il(self@),
    {
        match self {
            Ty::ReadOnlyRef(b) => {
                let mut s = b.il();
                push_str(&mut s, "&");
                s
            },
            _ => self.il(),
        }
    }
}


/// A copy of a source type.
pub fn clone_ty(t: &Ty) -> (r: Ty)
    ensures
        r@ == t@,
    decreases t,
{
    match t {
        Ty::Int => Ty::Int,
        Ty::String => Ty::String,
        Ty::Bool => Ty::Bool,
        Ty::Void => Ty::Void,
        Ty::Record(n) => Ty::Record(n.clone()),
        Ty::Ref(b) => Ty::Ref(Box::new(clone_ty(b))),
        Ty::ReadOnlyRef(b) => Ty::ReadOnlyRef(Box::new(clone_ty(b))),
        Ty::Array(b) => Ty::Array(Box::new(clone_ty(b))),
    }
}

impl Ty {
    /// This type with a reference restricted to reading (see `restricted`).
    pub fn restricted(&self) -> (r: Ty)
        ensures
            r@ == restricted(self@),
    {
        match self {
            Ty::Ref(target) => Ty::ReadOnlyRef(Box::new(clone_ty(target))),
            _ => clone_ty(self),
        }
    }
}

/// The source type of a metadata type, or why it has none.
pub open spec fn from_metadata(t: TypeView) -> Result<TyView, Seq<char>>
    decreases t, 0nat,
{
    match t {
        TypeView::Int32 => Ok(TyView::Int),
        TypeView::Boolean => Ok(TyView::Bool),
        TypeView::String => Ok(TyView::String),
        TypeView::Void => Ok(TyView::Void),
        TypeView::Array(b) => match from_metadata(*b) {
            Ok(e) => Ok(TyView::Array(Box::new(e))),
            Err(m) => Err(m),
        },
        TypeView::ByRef(b) => match from_metadata(*b) {
            Ok(e) => Ok(TyView::Ref(Box::new(e))),
            Err(m) => Err(m),
        },
        TypeView::ReadOnlyByRef(b) => match from_metadata(*b) {
            Ok(e) => Ok(TyView::ReadOnlyRef(Box::new(e))),
            Err(m) => Err(m),
        },
        TypeView::Constructed { definition, arguments } => match arguments_il(
            arguments,
            arguments.len(),
        ) {
            Ok(list) => Ok(TyView::Record(definition + "<"@ + list + ">"@)),
            Err(m) => Err(m),
        },
        _ => match definition_name_of(t) {
            Some(n) => Ok(TyView::Record(n)),
            None => Err("unsupported source type"@),
        },
    }
}

/// The IL spellings of the source types of the first `n` arguments, joined
/// by commas, or the first argument's reason for having none.
pub open spec fn arguments_il(s: Seq<TypeView>, n: nat) -> Result<Seq<char>, Seq<char>>
    decreases s, n,
{
    if n == 0 || n > s.len() {
        Ok(Seq::empty())
    } else {
        match arguments_il(s, (n - 1) as nat) {
            Err(m) => Err(m),
            Ok(prefix) => match from_metadata(s[n - 1]) {
                Err(m) => Err(m),
                Ok(t) => Ok(
                    if n == 1 {
                        il(t)
                    } else {
                        prefix + ","@ + il(t)
                    },
                ),
            },
        }
    }
}

/// A conversion result seen as the source type's view or the message.
pub open spec fn ty_result(r: Result<Ty, Fault>) -> Result<TyView, Seq<char>> {
    match r {
        Ok(t) => Ok(t@),
        Err(f) => Err(f.message@),
    }
}

fn arguments_il_exec(args: &Vec<Type>) -> (r: Result<String, Fault>)
    ensures
        match arguments_il(list_view(args@), args@.len()) {
            Ok(text) => r matches Ok(s) && s@ == text,
            Err(m) => r matches Err(f) && f.message@ == m,
        },
    decreases args@, 1nat,
{
    proof {
        lemma_type_views(args@, args@.len());
    }
    let ghost s = list_view(args@);
    let mut text = String::new();
    let mut i: usize = 0;
    while i < args.len()
        invariant
            i <= args@.len(),
            s == list_view(args@),
            s.len() == args@.len(),
            forall|j: int| 0 <= j < args@.len() ==> #[trigger] s[j] == args@[j]@,
            arguments_il(s, i as nat) == Ok::<Seq<char>, Seq<char>>(text@),
        decreases args.len() - i,
    {
        assert(decreases_to!(args@ => args@[i as int]));
        let converted = from_metadata_exec(&args[i]);
        match converted {
            Err(f) => {
                proof {
                    lemma_arguments_il_error(s, (i + 1) as nat, args@.len());
                }
                return Err(f);
            },
            Ok(t) => {
                if i > 0 {
                    push_char(&mut text, ',');
                }
                let spelled = t.il();
                push_str(&mut text, spelled.as_str());
                proof {
                    reveal_strlit(",");
                    if i > 0 {
                        assert(text@ =~= arguments_il(s, i as nat)->Ok_0 + ","@ + il(t@));
                    } else {
                        assert(text@ =~= il(t@));
                    }
                }
            },
        }
        i += 1;
    }
    Ok(text)
}

/// Once a prefix of the arguments fails, every longer prefix fails alike.
proof fn lemma_arguments_il_error(s: Seq<TypeView>, m: nat, n: nat)
    requires
        1 <= m <= n <= s.len(),
        arguments_il(s, (m - 1) as nat) is Ok,
        from_metadata(s[m - 1]) is Err,
    ensures
        arguments_il(s, n) == Err::<Seq<char>, Seq<char>>(from_metadata(s[m - 1])->Err_0),
    decreases n - m,
{
    if n > m {
        lemma_arguments_il_error(s, m, (n - 1) as nat);
    }
}

/// The source type of a metadata type (see `from_metadata`).
pub fn from_metadata_exec(t: &Type) -> (r: Result<Ty, Fault>)
    ensures
        ty_result(r) == from_metadata(t@),
    decreases t, 0nat,
{
    match t {
        Type::Int32 => Ok(Ty::Int),
        Type::Boolean => Ok(Ty::Bool),
        Type::String => Ok(Ty::String),
        Type::Void => Ok(Ty::Void),
        Type::Array(b) => match from_metadata_exec(b) {
            Ok(e) => Ok(Ty::Array(Box::new(e))),
            Err(f) => Err(f),
        },
        Type::ByRef(b) => match from_metadata_exec(b) {
            Ok(e) => Ok(Ty::Ref(Box::new(e))),
            Err(f) => Err(f),
        },
        Type::ReadOnlyByRef(b) => match from_metadata_exec(b) {
            Ok(e) => Ok(Ty::ReadOnlyRef(Box::new(e))),
            Err(f) => Err(f),
        },
        Type::Constructed { definition, arguments } => {
            proof {
                lemma_type_views(arguments@, arguments@.len());
            }
            match arguments_il_exec(arguments) {
                Ok(list) => {
                    let mut name = definition.clone();
                    push_char(&mut name, '<');
                    push_str(&mut name, list.as_str());
                    push_char(&mut name, '>');
                    proof {
                        reveal_strlit("<");
                        reveal_strlit(">");
                        assert(name@ =~= definition@ + "<"@ + list@ + ">"@);
                    }
                    Ok(Ty::Record(name))
                },
                Err(f) => Err(f),
            }
        },
        _ => match t.definition_name() {
            Some(n) => Ok(Ty::Record(n.clone())),
            None => Err(Fault::new("unsupported source type")),
        },
    }
}



/// A source union: a carrier over variant types, whose cases are declared
/// inline or name existing source types.
#[derive(Debug)]
pub struct Union {
    pub name: Token,
    pub generic_parameters: Vec<String>,
    pub variants: Vec<Ty>,
    pub inline: bool,
}

/// The first `n` texts joined by commas.
pub open spec fn joined(s: Seq<Seq<char>>, n: nat) -> Seq<char>
    decreases n,
{
    if n == 0 || n > s.len() {
        Seq::empty()
    } else if n == 1 {
        s[0]
    } else {
        joined(s, (n - 1) as nat) + ","@ + s[n - 1]
    }
}

/// The views of a list of strings.
pub open spec fn strings_view(v: Seq<String>) -> Seq<Seq<char>> {
    Seq::new(v.len(), |i: int| v[i]@)
}

/// The IL name of a union's carrier type.
pub open spec fn union_owner(u: Union) -> Seq<char> {
    let gp = strings_view(u.generic_parameters@);
    if gp.len() == 0 {
        u.name.text@
    } else {
        u.name.text@ + "<"@ + joined(gp, gp.len()) + ">"@
    }
}

/// The text after the last '.', or all of it.
pub open spec fn last_segment(s: Seq<char>) -> Seq<char> {
    match find_last_before(s, '.', s.len() as int) {
        Some(k) => s.subrange(k + 1, s.len() as int),
        None => s,
    }
}

/// A variant whose IL spelling parses to a named type.
pub open spec fn named_variant(v: TyView) -> bool {
    spec_parse_type(il(v)) matches Ok(t) && definition_name_of(t) is Some
}

/// The case name of a variant: the last segment of its type's name.
pub open spec fn case_name(v: TyView) -> Seq<char> {
    last_segment(definition_name_of(spec_parse_type(il(v))->Ok_0)->Some_0)
}

/// The position of the first record with a name.
pub open spec fn record_index(records: Seq<Record>, name: Seq<char>, from: int) -> Option<int>
    decreases records.len() - from,
{
    if from < 0 || from >= records.len() {
        None
    } else if records[from].name.text@ == name {
        Some(from)
    } else {
        record_index(records, name, from + 1)
    }
}

pub proof fn lemma_record_index(records: Seq<Record>, name: Seq<char>, from: int)
    requires
        0 <= from,
    ensures
        record_index(records, name, from) matches Some(i) ==> from <= i < records.len()
            && records[i].name.text@ == name,
    decreases records.len() - from,
{
    if from < records.len() && records[from].name.text@ != name {
        lemma_record_index(records, name, from + 1);
    }
}

/// The `.field` lines of the first `n` fields.
pub open spec fn field_lines(fields: Seq<Field>, n: nat) -> Seq<char>
    decreases n,
{
    if n == 0 || n > fields.len() {
        Seq::empty()
    } else {
        field_lines(fields, (n - 1) as nat) + ".field "@ + fields[n - 1].name.text@ + " "@ + il(
            fields[n - 1].ty@,
        ) + "\n"@
    }
}

/// The nested type declared for an inline case.
pub open spec fn inline_type(r: Record) -> Seq<char> {
    ".type "@ + last_segment(r.name.text@) + "\n"@ + field_lines(r.fields@, r.fields@.len())
        + ".end\n"@
}

/// The nested types of the first `n` inline cases.
pub open spec fn inline_types(records: Seq<Record>, variants: Seq<Ty>, n: nat) -> Seq<char>
    decreases n,
{
    if n == 0 || n > variants.len() {
        Seq::empty()
    } else {
        inline_types(records, variants, (n - 1) as nat) + inline_type(
            records[record_index(records, il(variants[n - 1]@), 0)->Some_0],
        )
    }
}

/// The constructor, test, property and extractor of one case.
pub open spec fn case_members(owner: Seq<char>, ty: Seq<char>, name: Seq<char>) -> Seq<char> {
    ".method instance .ctor("@ + ty + " value) -> Void\nldarg value\nvalue.pack "@ + ty
        + "\nnewobj "@ + owner + "\nstarg this\nldvoid\nret\n.end\n.method instance get_Is"@
        + name + "Case() -> Boolean\nldarg this\nldfld "@ + owner + "::Stored\nvalue.is "@ + ty
        + "\nret\n.end\n.property instance Is"@ + name + "() -> Boolean\n.get instance "@ + owner
        + "::get_Is"@ + name + "Case()\n.end\n.method instance Get"@ + name + "Case() -> "@ + ty
        + "\nldarg this\nldfld "@ + owner + "::Stored\nvalue.unpack "@ + ty + "\nret\n.end\n"@
}

/// The case members of the first `n` variants.
pub open spec fn case_members_all(owner: Seq<char>, variants: Seq<Ty>, n: nat) -> Seq<char>
    decreases n,
{
    if n == 0 || n > variants.len() {
        Seq::empty()
    } else {
        case_members_all(owner, variants, (n - 1) as nat) + case_members(
            owner,
            il(variants[n - 1]@),
            case_name(variants[n - 1]@),
        )
    }
}

/// The IL type a union lowers to.
pub open spec fn union_il(u: Union, records: Seq<Record>) -> Seq<char> {
    let owner = union_owner(u);
    let variants = u.variants@;
    ".type "@ + owner
        + "\n.custom instance System.Runtime.CompilerServices.UnionAttribute::.ctor()\n.field private Stored System.Value\n"@
        + (if u.inline {
        inline_types(records, variants, variants.len())
    } else {
        Seq::empty()
    }) + case_members_all(owner, variants, variants.len()) + ".end\n"@
}

fn last_segment_exec(s: &String) -> (r: String)
    ensures
        r@ == last_segment(s@),
{
    let chars = chars_of(s.as_str());
    let n = chars.len();
    let mut end = n;
    while end > 0
        invariant
            end <= n == chars@.len(),
            chars@ == s@,
            find_last_before(chars@, '.', n as int) == find_last_before(chars@, '.', end as int),
        decreases end,
    {
        if chars[end - 1] == '.' {
            let tail = slice_chars(&chars, end, n);
            return string_of(&tail);
        }
        end -= 1;
    }
    string_of(&chars)
}

fn find_record(records: &Vec<Record>, name: &String) -> (r: Option<usize>)
    ensures
        match r {
            Some(i) => record_index(records@, name@, 0) == Some(i as int),
            None => record_index(records@, name@, 0) is None,
        },
{
    let mut i: usize = 0;
    while i < records.len()
        invariant
            i <= records@.len(),
            record_index(records@, name@, 0) == record_index(records@, name@, i as int),
        decreases records.len() - i,
    {
        if records[i].name.text == *name {
            return Some(i);
        }
        i += 1;
    }
    None
}

fn push_case_members(il_text: &mut String, owner: &str, ty: &str, name: &str)
    ensures
        final(il_text)@ == old(il_text)@ + case_members(owner@, ty@, name@),
{
    push_str(il_text, ".method instance .ctor(");
    push_str(il_text, ty);
    push_str(il_text, " value) -> Void\nldarg value\nvalue.pack ");
    push_str(il_text, ty);
    push_str(il_text, "\nnewobj ");
    push_str(il_text, owner);
    push_str(il_text, "\nstarg this\nldvoid\nret\n.end\n.method instance get_Is");
    push_str(il_text, name);
    push_str(il_text, "Case() -> Boolean\nldarg this\nldfld ");
    push_str(il_text, owner);
    push_str(il_text, "::Stored\nvalue.is ");
    push_str(il_text, ty);
    push_str(il_text, "\nret\n.end\n.property instance Is");
    push_str(il_text, name);
    push_str(il_text, "() -> Boolean\n.get instance ");
    push_str(il_text, owner);
    push_str(il_text, "::get_Is");
    push_str(il_text, name);
    push_str(il_text, "Case()\n.end\n.method instance Get");
    push_str(il_text, name);
    push_str(il_text, "Case() -> ");
    push_str(il_text, ty);
    push_str(il_text, "\nldarg this\nldfld ");
    push_str(il_text, owner);
    push_str(il_text, "::Stored\nvalue.unpack ");
    push_str(il_text, ty);
    push_str(il_text, "\nret\n.end\n");
    assert(il_text@ =~= old(il_text)@ + case_members(owner@, ty@, name@));
}

impl Union {
    /// The IL name of the carrier type (see `union_owner`).
    pub fn owner(&self) -> (s: String)
        ensures
            s@ == union_owner(*self),
    {
        let ghost gp = strings_view(self.generic_parameters@);
        let mut s = self.name.text.clone();
        if self.generic_parameters.len() == 0 {
            return s;
        }
        push_str(&mut s, "<");
        let ghost head = s@;
        let mut i: usize = 0;
        while i < self.generic_parameters.len()
            invariant
                i <= self.generic_parameters@.len(),
                gp == strings_view(self.generic_parameters@),
                s@ == head + joined(gp, i as nat),
            decreases self.generic_parameters.len() - i,
        {
            if i > 0 {
                push_str(&mut s, ",");
            }
            push_str(&mut s, self.generic_parameters[i].as_str());
            i += 1;
            proof {
                reveal_strlit(",");
                assert(gp[i - 1] == self.generic_parameters@[i - 1]@);
                assert(s@ =~= head + joined(gp, i as nat));
            }
        }
        push_str(&mut s, ">");
        proof {
            assert(s@ =~= union_owner(*self));
        }
        s
    }

    /// Emits the IL of the union's carrier type: its stored value, the
    /// nested types of inline cases, and per case a constructor, a test, a
    /// property and an extractor.
    pub fn emit(&self, source: &Source) -> (text: String)
        requires
            forall|i: int| 0 <= i < self.variants@.len() ==> named_variant(#[trigger] self.variants@[i]@),
            self.inline ==> forall|i: int|
                0 <= i < self.variants@.len() ==> record_index(
                    source.records@,
                    il(#[trigger] self.variants@[i]@),
                    0,
                ) is Some,
        ensures
            text@ == union_il(*self, source.records@),
    {
        let records = &source.records;
        let owner = self.owner();
        let mut text = String::from_str(".type ");
        push_str(&mut text, owner.as_str());
        push_str(
            &mut text,
            "\n.custom instance System.Runtime.CompilerServices.UnionAttribute::.ctor()\n.field private Stored System.Value\n",
        );
        let ghost head = text@;
        let ghost variants = self.variants@;
        if self.inline {
            let mut i: usize = 0;
            while i < self.variants.len()
                invariant
                    i <= variants.len(),
                    variants == self.variants@,
                    self.inline,
                    forall|k: int| 0 <= k < variants.len() ==> record_index(
                        records@,
                        il(#[trigger] variants[k]@),
                        0,
                    ) is Some,
                    text@ == head + inline_types(records@, variants, i as nat),
                decreases variants.len() - i,
            {
                let name = self.variants[i].il();
                proof {
                    lemma_record_index(records@, name@, 0);
                }
                let found = find_record(records, &name);
                let r = match found {
                    Some(r) => r,
                    None => {
                        assert(record_index(records@, il(variants[i as int]@), 0) is Some);
                        return text;
                    },
                };
                let record = &records[r];
                push_str(&mut text, ".type ");
                let case = last_segment_exec(&record.name.text);
                push_str(&mut text, case.as_str());
                push_str(&mut text, "\n");
                let ghost before_fields = text@;
                let mut j: usize = 0;
                while j < record.fields.len()
                    invariant
                        j <= record.fields@.len(),
                        text@ == before_fields + field_lines(record.fields@, j as nat),
                    decreases record.fields.len() - j,
                {
                    let field = &record.fields[j];
                    push_str(&mut text, ".field ");
                    push_str(&mut text, field.name.text.as_str());
                    push_str(&mut text, " ");
                    let spelled = field.ty.il();
                    push_str(&mut text, spelled.as_str());
                    push_str(&mut text, "\n");
                    j += 1;
                    assert(text@ =~= before_fields + field_lines(record.fields@, j as nat));
                }
                push_str(&mut text, ".end\n");
                i += 1;
                assert(text@ =~= head + inline_types(records@, variants, i as nat));
            }
        } else {
            assert(text@ =~= head + Seq::<char>::empty());
        }
        let ghost middle = text@;
        let mut i: usize = 0;
        while i < self.variants.len()
            invariant
                i <= variants.len(),
                variants == self.variants@,
                owner@ == union_owner(*self),
                forall|k: int| 0 <= k < variants.len() ==> named_variant(#[trigger] variants[k]@),
                text@ == middle + case_members_all(owner@, variants, i as nat),
            decreases variants.len() - i,
        {
            let ty = self.variants[i].il();
            assert(named_variant(variants[i as int]@));
            let parsed = parse_type(ty.as_str());
            let name = match parsed {
                Ok(t) => match t.definition_name() {
                    Some(d) => last_segment_exec(d),
                    None => return text,
                },
                Err(_) => return text,
            };
            push_case_members(&mut text, owner.as_str(), ty.as_str(), name.as_str());
            i += 1;
            assert(text@ =~= middle + case_members_all(owner@, variants, i as nat));
        }
        push_str(&mut text, ".end\n");
        proof {
            assert(text@ =~= union_il(*self, records@));
        }
        text
    }
}

} // verus!
