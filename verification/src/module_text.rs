//! The declarations of neoIL module text: modules, types, fields, properties
//! and function headers, each read from one directive line.
use crate::assembler::{
    bind_type_parameters, bind_view, names_view, parse_callable, parse_function_ref, parse_module_reference,
    parse_type, parse_type_declaration, spec_declaration, spec_module_reference,
    spec_parse_function_ref, spec_parse_type, spec_type_declaration, callable_result, commas, piece,
    lemma_commas, option_name_view, out_positions,
};
use crate::fault::Fault;
use crate::metadata::{FunctionRef, FunctionRefView, ModuleReference};
use crate::neoil::{strings_view, Instruction, InstructionView};
use crate::syntax::{
    chars_equal, find_char, find_from, identifier, identifier_error, is_identifier, is_whitespace,
    is_whitespace_char, lemma_find_from, slice_chars, string_of, trim, trim_chars,
};
use crate::text::{chars_of, push_str, str_eq};
use crate::types::{definition_name_of, lemma_type_views, list_view, primitive_named, type_from_name, Type, TypeView};
use vstd::prelude::*;

verus! {

/// Who may see a declaration.
#[derive(Debug, Clone, Copy, PartialEq, Eq, Structural)]
pub enum Visibility {
    Public,
    Internal,
    Private,
}

/// How a type is represented at run time.
#[derive(Debug, Clone, Copy, PartialEq, Eq, Structural)]
pub enum Representation {
    Interface,
    Runtime,
    Record,
}

/// A field of a type.
#[derive(Debug)]
pub struct FieldDef {
    pub visibility: Visibility,
    pub name: String,
    pub ty: Type,
}

pub ghost struct FieldDefView {
    pub visibility: Visibility,
    pub name: Seq<char>,
    pub ty: TypeView,
}

impl View for FieldDef {
    type V = FieldDefView;

    open spec fn view(&self) -> FieldDefView {
        FieldDefView { visibility: self.visibility, name: self.name@, ty: self.ty@ }
    }
}

/// A property of a type and its accessors.
#[derive(Debug)]
pub struct PropertyDef {
    pub name: String,
    pub instance: bool,
    pub parameters: Vec<Type>,
    pub ty: Type,
    pub getter: Option<FunctionRef>,
    pub setter: Option<FunctionRef>,
}

pub ghost struct PropertyDefView {
    pub name: Seq<char>,
    pub instance: bool,
    pub parameters: Seq<TypeView>,
    pub ty: TypeView,
    pub getter: Option<FunctionRefView>,
    pub setter: Option<FunctionRefView>,
}

pub open spec fn option_ref_view(o: Option<FunctionRef>) -> Option<FunctionRefView> {
    match o {
        Some(f) => Some(f@),
        None => None,
    }
}

impl View for PropertyDef {
    type V = PropertyDefView;

    open spec fn view(&self) -> PropertyDefView {
        PropertyDefView {
            name: self.name@,
            instance: self.instance,
            parameters: list_view(self.parameters@),
            ty: self.ty@,
            getter: option_ref_view(self.getter),
            setter: option_ref_view(self.setter),
        }
    }
}

/// The first whitespace position at or after `i`.
pub open spec fn first_whitespace(s: Seq<char>, i: int) -> Option<int>
    decreases s.len() - i,
{
    if i < 0 || i >= s.len() {
        None
    } else if is_whitespace(s[i]) {
        Some(i)
    } else {
        first_whitespace(s, i + 1)
    }
}

pub proof fn lemma_first_whitespace(s: Seq<char>, i: int)
    requires
        0 <= i,
    ensures
        first_whitespace(s, i) matches Some(k) ==> i <= k < s.len(),
    decreases s.len() - i,
{
    if i < s.len() && !is_whitespace(s[i]) {
        lemma_first_whitespace(s, i + 1);
    }
}

/// A text split at its first whitespace, as `split_once(char::is_whitespace)`
/// splits it: the part before and the part after that character.
pub open spec fn split_word(s: Seq<char>) -> Option<(Seq<char>, Seq<char>)> {
    match first_whitespace(s, 0) {
        Some(k) => Some((s.subrange(0, k), s.subrange(k + 1, s.len() as int))),
        None => None,
    }
}

/// The first position of `->` at or after `i`.
pub open spec fn find_arrow(s: Seq<char>, i: int) -> Option<int>
    decreases s.len() - i,
{
    if i < 0 || i + 1 >= s.len() {
        None
    } else if s[i] == '-' && s[i + 1] == '>' {
        Some(i)
    } else {
        find_arrow(s, i + 1)
    }
}

pub proof fn lemma_find_arrow(s: Seq<char>, i: int)
    requires
        0 <= i,
    ensures
        find_arrow(s, i) matches Some(k) ==> i <= k && k + 1 < s.len(),
    decreases s.len() - i,
{
    if i + 1 < s.len() && !(s[i] == '-' && s[i + 1] == '>') {
        lemma_find_arrow(s, i + 1);
    }
}

/// An optional leading `public`, `internal` or `private`; `public` when absent.
pub open spec fn visibility_prefix(s: Seq<char>) -> (Visibility, Seq<char>) {
    match split_word(s) {
        Some((head, tail)) => if head == "public"@ {
            (Visibility::Public, trim(tail))
        } else if head == "internal"@ {
            (Visibility::Internal, trim(tail))
        } else if head == "private"@ {
            (Visibility::Private, trim(tail))
        } else {
            (Visibility::Public, s)
        },
        None => (Visibility::Public, s),
    }
}

/// The views of a list of types after binding their parameter names.
pub open spec fn bind_views_of(types: Seq<TypeView>, generics: Seq<Option<Seq<char>>>) -> Seq<TypeView> {
    Seq::new(types.len(), |i: int| bind_view(types[i], generics))
}

/// A `.field [visibility] Name Type` line, the type's parameter names bound.
pub open spec fn spec_field(rest: Seq<char>, generics: Seq<Option<Seq<char>>>) -> Result<FieldDefView, Seq<char>> {
    match split_word(rest) {
        None => Err("expected .field Name Type"@),
        Some((name, ty)) => {
            let visible = name == "public"@ || name == "internal"@ || name == "private"@;
            let split = if visible {
                match split_word(trim(ty)) {
                    None => None,
                    Some((n, t)) => Some(
                        (
                            if name == "internal"@ {
                                Visibility::Internal
                            } else if name == "private"@ {
                                Visibility::Private
                            } else {
                                Visibility::Public
                            },
                            n,
                            t,
                        ),
                    ),
                }
            } else {
                Some((Visibility::Public, name, ty))
            };
            match split {
                None => Err("expected .field [visibility] Name Type"@),
                Some((visibility, n, t)) => if !is_identifier(n) {
                    Err(identifier_error(n))
                } else {
                    match spec_parse_type(t) {
                        Err(m) => Err(m),
                        Ok(parsed) => Ok(
                            FieldDefView { visibility, name: n, ty: bind_view(parsed, generics) },
                        ),
                    }
                },
            }
        },
    }
}

/// A `.property static|instance Name(T1, ...) -> Type` line, its types bound
/// by the type's parameter names; accessors come later.
pub open spec fn spec_property(rest: Seq<char>, generics: Seq<Option<Seq<char>>>) -> Result<
    PropertyDefView,
    Seq<char>,
> {
    match split_word(rest) {
        None => Err("expected .property static/instance Name(...) -> Type"@),
        Some((kind, signature)) => if kind != "static"@ && kind != "instance"@ {
            Err("expected static or instance property"@)
        } else {
            match find_arrow(signature, 0) {
                None => Err("expected property signature and return type"@),
                Some(a) => match spec_parse_function_ref(trim(signature.subrange(0, a))) {
                    Err(m) => Err(m),
                    Ok(target) => if target.owner is Some || target.instance || target.definition is Some
                        || target.name.contains('.') {
                        Err("property name must be unqualified"@)
                    } else {
                        match spec_parse_type(signature.subrange(a + 2, signature.len() as int)) {
                            Err(m) => Err(m),
                            Ok(ty) => Ok(
                                PropertyDefView {
                                    name: target.name,
                                    instance: kind == "instance"@,
                                    parameters: bind_views_of(target.parameters, generics),
                                    ty: bind_view(ty, generics),
                                    getter: None,
                                    setter: None,
                                },
                            ),
                        }
                    },
                },
            }
        },
    }
}

pub(crate) fn split_word_chars(s: &Vec<char>) -> (r: Option<(Vec<char>, Vec<char>)>)
    ensures
        match split_word(s@) {
            Some((a, b)) => r matches Some((x, y)) && x@ == a && y@ == b,
            None => r is None,
        },
{
    let mut i: usize = 0;
    while i < s.len()
        invariant
            i <= s@.len(),
            first_whitespace(s@, 0) == first_whitespace(s@, i as int),
        decreases s.len() - i,
    {
        if is_whitespace_char(s[i]) {
            return Some((slice_chars(s, 0, i), slice_chars(s, i + 1, s.len())));
        }
        i += 1;
    }
    None
}

fn find_arrow_chars(s: &Vec<char>) -> (r: Option<usize>)
    ensures
        match r {
            Some(i) => find_arrow(s@, 0) == Some(i as int) && i + 1 < s@.len(),
            None => find_arrow(s@, 0) is None,
        },
{
    let mut i: usize = 0;
    while s.len() > 1 && i < s.len() - 1
        invariant
            find_arrow(s@, 0) == find_arrow(s@, i as int),
        decreases s.len() - i,
    {
        if s[i] == '-' && s[i + 1] == '>' {
            return Some(i);
        }
        i += 1;
    }
    None
}

/// Splits off an optional visibility (see `visibility_prefix`).
pub fn parse_visibility(s: &Vec<char>) -> (r: (Visibility, Vec<char>))
    ensures
        r.0 == visibility_prefix(s@).0,
        r.1@ == visibility_prefix(s@).1,
{
    proof {
        reveal_strlit("public");
        reveal_strlit("internal");
        reveal_strlit("private");
    }
    match split_word_chars(s) {
        Some((head, tail)) => {
            if chars_equal(&head, "public") {
                (Visibility::Public, trim_chars(&tail))
            } else if chars_equal(&head, "internal") {
                (Visibility::Internal, trim_chars(&tail))
            } else if chars_equal(&head, "private") {
                (Visibility::Private, trim_chars(&tail))
            } else {
                (Visibility::Public, slice_chars(s, 0, s.len()))
            }
        },
        None => (Visibility::Public, slice_chars(s, 0, s.len())),
    }
}

pub(crate) fn bind_all(types: &Vec<Type>, generics: &Vec<Option<String>>) -> (r: Vec<Type>)
    ensures
        list_view(r@) == bind_views_of(list_view(types@), names_view(generics@)),
{
    let mut r: Vec<Type> = Vec::new();
    let mut i: usize = 0;
    proof {
        lemma_type_views(types@, types@.len());
    }
    while i < types.len()
        invariant
            i <= types@.len(),
            r@.len() == i,
            forall|j: int| 0 <= j < i ==> #[trigger] r@[j]@ == bind_view(types@[j]@, names_view(generics@)),
        decreases types.len() - i,
    {
        r.push(bind_type_parameters(&types[i], generics));
        i += 1;
    }
    proof {
        lemma_type_views(r@, r@.len());
        lemma_type_views(types@, types@.len());
        assert forall|j: int| 0 <= j < r@.len() implies #[trigger] list_view(r@)[j] == bind_views_of(
            list_view(types@),
            names_view(generics@),
        )[j] by {
            assert(list_view(r@)[j] == r@[j]@);
            assert(list_view(types@)[j] == types@[j]@);
        }
        assert(list_view(r@) =~= bind_views_of(list_view(types@), names_view(generics@)));
    }
    r
}

/// Reads a `.field` line (see `spec_field`).
pub fn parse_field(rest: &str, generics: &Vec<Option<String>>) -> (r: Result<FieldDef, Fault>)
    ensures
        match spec_field(rest@, names_view(generics@)) {
            Ok(f) => r matches Ok(x) && x@ == f,
            Err(m) => r matches Err(e) && e.message@ == m,
        },
{
    proof {
        reveal_strlit("public");
        reveal_strlit("internal");
        reveal_strlit("private");
    }
    let chars = chars_of(rest);
    let (name, ty) = match split_word_chars(&chars) {
        Some(parts) => parts,
        None => return Err(Fault::new("expected .field Name Type")),
    };
    let visible = chars_equal(&name, "public") || chars_equal(&name, "internal") || chars_equal(&name, "private");
    let (visibility, n, t) = if visible {
        let trimmed = trim_chars(&ty);
        match split_word_chars(&trimmed) {
            None => return Err(Fault::new("expected .field [visibility] Name Type")),
            Some((n, t)) => {
                let visibility = if chars_equal(&name, "internal") {
                    Visibility::Internal
                } else if chars_equal(&name, "private") {
                    Visibility::Private
                } else {
                    Visibility::Public
                };
                (visibility, n, t)
            },
        }
    } else {
        (Visibility::Public, name, ty)
    };
    if let Err(f) = identifier(&n) {
        return Err(f);
    }
    let type_text = string_of(&t);
    let parsed = match parse_type(type_text.as_str()) {
        Ok(p) => p,
        Err(f) => return Err(f),
    };
    Ok(FieldDef { visibility, name: string_of(&n), ty: bind_type_parameters(&parsed, generics) })
}

/// Reads a `.property` line (see `spec_property`).
pub fn parse_property(rest: &str, generics: &Vec<Option<String>>) -> (r: Result<PropertyDef, Fault>)
    ensures
        match spec_property(rest@, names_view(generics@)) {
            Ok(p) => r matches Ok(x) && x@ == p,
            Err(m) => r matches Err(e) && e.message@ == m,
        },
{
    proof {
        reveal_strlit("static");
        reveal_strlit("instance");
    }
    let chars = chars_of(rest);
    let (kind, signature) = match split_word_chars(&chars) {
        Some(parts) => parts,
        None => return Err(Fault::new("expected .property static/instance Name(...) -> Type")),
    };
    let instance = chars_equal(&kind, "instance");
    if !chars_equal(&kind, "static") && !instance {
        return Err(Fault::new("expected static or instance property"));
    }
    proof {
        lemma_find_arrow(signature@, 0);
    }
    let ghost sig = signature@;
    let a = match find_arrow_chars(&signature) {
        Some(a) => a,
        None => return Err(Fault::new("expected property signature and return type")),
    };
    let head = slice_chars(&signature, 0, a);
    let name_text = trim_chars(&head);
    let name_string = string_of(&name_text);
    assert(split_word(rest@) == Some((kind@, signature@)));
    assert(find_arrow(signature@, 0) == Some(a as int));
    assert(name_string@ == trim(signature@.subrange(0, a as int)));
    let target = match parse_function_ref(name_string.as_str()) {
        Ok(t) => t,
        Err(f) => {
            assert(spec_parse_function_ref(name_string@) == Err::<FunctionRefView, Seq<char>>(f.message@));
            return Err(f);
        },
    };
    let name_chars = chars_of(target.name.as_str());
    proof {
        lemma_find_from(name_chars@, '.', 0);
    }
    let dotted = find_char(&name_chars, '.', 0).is_some();
    proof {
        if dotted {
            let k = find_from(name_chars@, '.', 0)->0;
            assert(target.name@[k] == '.');
        }
    }
    if target.owner.is_some() || target.instance || target.definition.is_some() || dotted {
        return Err(Fault::new("property name must be unqualified"));
    }
    let slen = signature.len();
    assert(a + 2 <= slen);
    let type_text = slice_chars(&signature, a + 2, slen);
    let type_string = string_of(&type_text);
    let ty = match parse_type(type_string.as_str()) {
        Ok(t) => t,
        Err(f) => return Err(f),
    };
    proof {
        lemma_type_views(target.parameters@, target.parameters@.len());
    }
    let parameters = bind_all(&target.parameters, generics);
    Ok(
        PropertyDef {
            name: target.name,
            instance,
            parameters,
            ty: bind_type_parameters(&ty, generics),
            getter: None,
            setter: None,
        },
    )
}

/// A type definition.
#[derive(Debug)]
pub struct TypeDef {
    pub visibility: Visibility,
    pub name: String,
    pub generic_parameters: Vec<Option<String>>,
    pub custom_attributes: Vec<FunctionRef>,
    pub fields: Vec<FieldDef>,
    pub implements: Vec<Type>,
    pub properties: Vec<PropertyDef>,
    pub packing: Option<u32>,
    pub minimum_size: Option<u32>,
    pub representation: Representation,
    /// The name of the type this one is nested in.
    pub declaring_type: Option<String>,
}

pub ghost struct TypeDefView {
    pub visibility: Visibility,
    pub name: Seq<char>,
    pub generic_parameters: Seq<Option<Seq<char>>>,
    pub custom_attributes: Seq<FunctionRefView>,
    pub fields: Seq<FieldDefView>,
    pub implements: Seq<TypeView>,
    pub properties: Seq<PropertyDefView>,
    pub packing: Option<u32>,
    pub minimum_size: Option<u32>,
    pub representation: Representation,
    pub declaring_type: Option<Seq<char>>,
}

pub open spec fn refs_view(v: Seq<FunctionRef>) -> Seq<FunctionRefView> {
    Seq::new(v.len(), |i: int| v[i]@)
}

pub open spec fn option_string_view(o: Option<String>) -> Option<Seq<char>> {
    match o {
        Some(s) => Some(s@),
        None => None,
    }
}

impl View for TypeDef {
    type V = TypeDefView;

    open spec fn view(&self) -> TypeDefView {
        TypeDefView {
            visibility: self.visibility,
            name: self.name@,
            generic_parameters: names_view(self.generic_parameters@),
            custom_attributes: refs_view(self.custom_attributes@),
            fields: Seq::new(self.fields@.len(), |i: int| self.fields@[i]@),
            implements: list_view(self.implements@),
            properties: Seq::new(self.properties@.len(), |i: int| self.properties@[i]@),
            packing: self.packing,
            minimum_size: self.minimum_size,
            representation: self.representation,
            declaring_type: option_string_view(self.declaring_type),
        }
    }
}

/// A native entry point a function is bound to (C calling convention).
#[derive(Debug)]
pub struct NativeImport {
    pub library: String,
    pub entry_point: String,
}

/// A function definition.
#[derive(Debug)]
pub struct FunctionDef {
    pub visibility: Visibility,
    pub custom_attributes: Vec<FunctionRef>,
    pub name: String,
    pub owner: Option<Type>,
    pub instance: bool,
    pub parameters: Vec<Type>,
    pub parameter_names: Vec<Option<String>>,
    pub out_parameters: Vec<usize>,
    pub receiver_byref: bool,
    pub return_type: Type,
    pub locals: Vec<Type>,
    pub local_names: Vec<Option<String>>,
    pub body: Vec<Instruction>,
    pub internal_call: bool,
    pub pinvoke: Option<NativeImport>,
}

pub ghost struct FunctionDefView {
    pub visibility: Visibility,
    pub custom_attributes: Seq<FunctionRefView>,
    pub name: Seq<char>,
    pub owner: Option<TypeView>,
    pub instance: bool,
    pub parameters: Seq<TypeView>,
    pub parameter_names: Seq<Option<Seq<char>>>,
    pub out_parameters: Seq<usize>,
    pub receiver_byref: bool,
    pub return_type: TypeView,
    pub locals: Seq<TypeView>,
    pub local_names: Seq<Option<Seq<char>>>,
    pub body: Seq<InstructionView>,
    pub internal_call: bool,
    pub pinvoke: Option<(Seq<char>, Seq<char>)>,
}

pub open spec fn body_view(v: Seq<Instruction>) -> Seq<InstructionView> {
    Seq::new(v.len(), |i: int| v[i]@)
}

impl View for FunctionDef {
    type V = FunctionDefView;

    open spec fn view(&self) -> FunctionDefView {
        FunctionDefView {
            visibility: self.visibility,
            custom_attributes: refs_view(self.custom_attributes@),
            name: self.name@,
            owner: match self.owner {
                Some(t) => Some(t@),
                None => None,
            },
            instance: self.instance,
            parameters: list_view(self.parameters@),
            parameter_names: names_view(self.parameter_names@),
            out_parameters: self.out_parameters@,
            receiver_byref: self.receiver_byref,
            return_type: self.return_type@,
            locals: list_view(self.locals@),
            local_names: names_view(self.local_names@),
            body: body_view(self.body@),
            internal_call: self.internal_call,
            pinvoke: match self.pinvoke {
                Some(n) => Some((n.library@, n.entry_point@)),
                None => None,
            },
        }
    }
}

/// The type a type definition denotes with its own parameters as arguments.
pub open spec fn open_type(name: Seq<char>, arity: nat) -> TypeView {
    if arity == 0 {
        type_from_name(name)
    } else {
        TypeView::Constructed {
            definition: name,
            arguments: Seq::new(arity, |i: int| TypeView::TypeParameter((i % 0x1_0000) as u16)),
        }
    }
}

/// A `.type` or `.interface` line, opened inside `parent` (if any) with
/// `enclosing` types around that.
pub open spec fn spec_type_header(word: Seq<char>, rest: Seq<char>, parent: Option<TypeDefView>, enclosing: nat) -> Result<
    TypeDefView,
    Seq<char>,
> {
    let (visibility, text) = visibility_prefix(rest);
    match spec_type_declaration(text) {
        Err(m) => Err(m),
        Ok((simple, generics)) => {
            let named = match parent {
                Some(p) => if p.generic_parameters.len() != 0 {
                    Err("nesting under generic types is not supported yet"@)
                } else if simple.contains('.') {
                    Err("nested type declaration requires a simple name"@)
                } else if enclosing >= 31 {
                    Err("type ownership nesting exceeds 32"@)
                } else {
                    Ok((p.name + "."@ + simple, Some(p.name)))
                },
                None => Ok((simple, None)),
            };
            match named {
                Err(m) => Err(m),
                Ok((name, declaring_type)) => Ok(
                    TypeDefView {
                        visibility,
                        name,
                        generic_parameters: generics,
                        custom_attributes: Seq::empty(),
                        fields: Seq::empty(),
                        implements: Seq::empty(),
                        properties: Seq::empty(),
                        packing: None,
                        minimum_size: None,
                        representation: if word == ".interface"@ {
                            Representation::Interface
                        } else if primitive_named(name) is Some {
                            Representation::Runtime
                        } else {
                            Representation::Record
                        },
                        declaring_type,
                    },
                ),
            }
        },
    }
}

/// The head of a function declaration: owner, instance, receiver by
/// reference, and the rest of the declaration.
pub open spec fn function_head(word: Seq<char>, rest: Seq<char>, def: Option<TypeDefView>) -> Result<
    (Option<TypeView>, bool, Seq<char>),
    Seq<char>,
> {
    if word == ".method"@ {
        match def {
            None => Err(".method requires an enclosing .type"@),
            Some(d) => match split_word(rest) {
                None => Err("expected .method static/instance Name(...) -> Type"@),
                Some((kind, signature)) => if kind != "static"@ && kind != "instance"@ {
                    Err("expected static or instance method"@)
                } else {
                    Ok((Some(open_type(d.name, d.generic_parameters.len())), kind == "instance"@, trim(signature)))
                },
            },
        }
    } else {
        Ok((None, false, rest))
    }
}

/// The declared target of a function: from an inline signature, or a bare
/// name with parameters declared later.
pub open spec fn declared_target(name: Seq<char>) -> Result<
    (FunctionRefView, Seq<Option<Seq<char>>>, Seq<usize>),
    Seq<char>,
> {
    if name.contains('(') {
        match spec_declaration(trim(name)) {
            Err(m) => Err(m),
            Ok((target, slots)) => Ok(
                (
                    target,
                    slots.map_values(|x: (Option<Seq<char>>, TypeView, bool)| x.0),
                    out_positions(slots, slots.len()),
                ),
            ),
        }
    } else if !is_identifier(trim(name)) {
        Err(identifier_error(trim(name)))
    } else {
        Ok(
            (
                FunctionRefView {
                    definition: None,
                    name: trim(name),
                    parameters: Seq::empty(),
                    owner: None,
                    instance: false,
                },
                Seq::empty(),
                Seq::empty(),
            ),
        )
    }
}

/// A `.function` or `.method` line inside `def` (if any): the new function
/// and whether its parameters were declared inline.
pub open spec fn spec_function_header(word: Seq<char>, rest: Seq<char>, def: Option<TypeDefView>) -> Result<
    (FunctionDefView, bool),
    Seq<char>,
> {
    let (visibility, text) = visibility_prefix(rest);
    match function_head(word, text, def) {
        Err(m) => Err(m),
        Ok((owner, instance, declaration)) => {
            let byref = declaration.len() >= 6 && declaration.subrange(0, 6) == "byref "@;
            let decl = if byref {
                trim(declaration.subrange(6, declaration.len() as int))
            } else {
                declaration
            };
            match find_arrow(decl, 0) {
                None => Err("expected .function Name -> Type"@),
                Some(a) => {
                    let name = decl.subrange(0, a);
                    match declared_target(name) {
                        Err(m) => Err(m),
                        Ok((target, names, outs)) => if target.owner is Some || target.instance {
                            Err("declaration names must not contain an owner or instance prefix"@)
                        } else if owner is Some && target.name.contains('.') && target.name != ".ctor"@ {
                            Err("method name must be unqualified within its type"@)
                        } else {
                            let full = match owner {
                                Some(t) => match definition_name_of(t) {
                                    Some(d) => Ok(d + "."@ + target.name),
                                    None => Err("invalid method owner"@),
                                },
                                None => Ok(target.name),
                            };
                            match full {
                                Err(m) => Err(m),
                                Ok(full) => match spec_parse_type(decl.subrange(a + 2, decl.len() as int)) {
                                    Err(m) => Err(m),
                                    Ok(ret) => Ok(
                                        (
                                            FunctionDefView {
                                                visibility,
                                                custom_attributes: Seq::empty(),
                                                name: full,
                                                owner,
                                                instance,
                                                parameters: target.parameters,
                                                parameter_names: names,
                                                out_parameters: outs,
                                                receiver_byref: byref,
                                                return_type: ret,
                                                locals: Seq::empty(),
                                                local_names: Seq::empty(),
                                                body: Seq::empty(),
                                                internal_call: false,
                                                pinvoke: None,
                                            },
                                            name.contains('('),
                                        ),
                                    ),
                                },
                            }
                        },
                    }
                },
            }
        },
    }
}

/// Reads a `.type` or `.interface` line (see `spec_type_header`).
pub fn parse_type_header(word: &str, rest: &str, parent: Option<&TypeDef>, enclosing: usize) -> (r: Result<
    TypeDef,
    Fault,
>)
    ensures
        match spec_type_header(
            word@,
            rest@,
            match parent {
                Some(p) => Some(p@),
                None => None,
            },
            enclosing as nat,
        ) {
            Ok(t) => r matches Ok(x) && x@ == t,
            Err(m) => r matches Err(e) && e.message@ == m,
        },
{
    let chars = chars_of(rest);
    let (visibility, text) = parse_visibility(&chars);
    let text_string = string_of(&text);
    let (simple, generics) = match parse_type_declaration(text_string.as_str()) {
        Ok(d) => d,
        Err(f) => return Err(f),
    };
    let (name, declaring_type) = match parent {
        Some(p) => {
            if p.generic_parameters.len() != 0 {
                return Err(Fault::new("nesting under generic types is not supported yet"));
            }
            let simple_chars = chars_of(simple.as_str());
            proof {
                lemma_find_from(simple_chars@, '.', 0);
            }
            if find_char(&simple_chars, '.', 0).is_some() {
                proof {
                    let k = find_from(simple_chars@, '.', 0)->0;
                    assert(simple@[k] == '.');
                }
                return Err(Fault::new("nested type declaration requires a simple name"));
            }
            if enclosing >= 31 {
                return Err(Fault::new("type ownership nesting exceeds 32"));
            }
            let mut full = p.name.clone();
            push_str(&mut full, ".");
            push_str(&mut full, simple.as_str());
            (full, Some(p.name.clone()))
        },
        None => (simple, None),
    };
    proof {
        reveal_strlit(".interface");
    }
    let representation = if str_eq(word, ".interface") {
        Representation::Interface
    } else if Type::from_name(name.as_str()).is_primitive() {
        Representation::Runtime
    } else {
        Representation::Record
    };
    let t = TypeDef {
        visibility,
        name,
        generic_parameters: generics,
        custom_attributes: Vec::new(),
        fields: Vec::new(),
        implements: Vec::new(),
        properties: Vec::new(),
        packing: None,
        minimum_size: None,
        representation,
        declaring_type,
    };
    proof {
        assert(refs_view(t.custom_attributes@) =~= Seq::<FunctionRefView>::empty());
        assert(Seq::new(t.fields@.len(), |i: int| t.fields@[i]@) =~= Seq::<FieldDefView>::empty());
        assert(Seq::new(t.properties@.len(), |i: int| t.properties@[i]@) =~= Seq::<PropertyDefView>::empty());
        lemma_type_views(t.implements@, 0);
        assert(list_view(t.implements@) =~= Seq::<TypeView>::empty());
    }
    Ok(t)
}

fn open_type_exec(name: &String, arity: usize) -> (t: Type)
    ensures
        t@ == open_type(name@, arity as nat),
{
    if arity == 0 {
        return Type::from_name(name.as_str());
    }
    let mut arguments: Vec<Type> = Vec::new();
    let mut i: usize = 0;
    while i < arity
        invariant
            i <= arity,
            arguments@.len() == i,
            forall|j: int| 0 <= j < i ==> #[trigger] arguments@[j]@ == TypeView::TypeParameter((j % 0x1_0000) as u16),
        decreases arity - i,
    {
        arguments.push(Type::TypeParameter((i % 0x1_0000) as u16));
        i += 1;
    }
    proof {
        lemma_type_views(arguments@, arguments@.len());
        assert forall|j: int| 0 <= j < arity implies #[trigger] list_view(arguments@)[j]
            == TypeView::TypeParameter((j % 0x1_0000) as u16) by {
            assert(list_view(arguments@)[j] == arguments@[j]@);
        }
        assert(list_view(arguments@) =~= Seq::new(arity as nat, |j: int| TypeView::TypeParameter((j % 0x1_0000) as u16)));
    }
    Type::Constructed { definition: name.clone(), arguments }
}

/// Reads a `.function` or `.method` line (see `spec_function_header`).
pub fn parse_function_header(word: &str, rest: &str, def: Option<&TypeDef>) -> (r: Result<(FunctionDef, bool), Fault>)
    ensures
        match spec_function_header(
            word@,
            rest@,
            match def {
                Some(d) => Some(d@),
                None => None,
            },
        ) {
            Ok((f, inline)) => r matches Ok((x, i)) && x@ == f && i == inline,
            Err(m) => r matches Err(e) && e.message@ == m,
        },
{
    proof {
        reveal_strlit(".method");
        reveal_strlit("static");
        reveal_strlit("instance");
        reveal_strlit("byref ");
        reveal_strlit(".ctor");
    }
    let chars = chars_of(rest);
    let (visibility, text) = parse_visibility(&chars);
    let (owner, instance, declaration) = if str_eq(word, ".method") {
        let d = match def {
            None => return Err(Fault::new(".method requires an enclosing .type")),
            Some(d) => d,
        };
        let (kind, signature) = match split_word_chars(&text) {
            None => return Err(Fault::new("expected .method static/instance Name(...) -> Type")),
            Some(parts) => parts,
        };
        let inst = chars_equal(&kind, "instance");
        if !chars_equal(&kind, "static") && !inst {
            return Err(Fault::new("expected static or instance method"));
        }
        proof {
            assert(names_view(d.generic_parameters@).len() == d.generic_parameters@.len());
        }
        (Some(open_type_exec(&d.name, d.generic_parameters.len())), inst, trim_chars(&signature))
    } else {
        (None, false, text)
    };
    let dlen = declaration.len();
    let byref = if dlen >= 6 {
        let prefix = slice_chars(&declaration, 0, 6);
        chars_equal(&prefix, "byref ")
    } else {
        false
    };
    let decl = if byref {
        let tail = slice_chars(&declaration, 6, dlen);
        trim_chars(&tail)
    } else {
        declaration
    };
    proof {
        lemma_find_arrow(decl@, 0);
    }
    let a = match find_arrow_chars(&decl) {
        Some(a) => a,
        None => return Err(Fault::new("expected .function Name -> Type")),
    };
    let name = slice_chars(&decl, 0, a);
    proof {
        lemma_find_from(name@, '(', 0);
    }
    let inline = find_char(&name, '(', 0).is_some();
    proof {
        if inline {
            let k = find_from(name@, '(', 0)->0;
            assert(name@[k] == '(');
        }
    }
    let trimmed = trim_chars(&name);
    let (target, names, outs) = if inline {
        let text = string_of(&trimmed);
        match parse_callable(text.as_str(), true) {
            Ok(parsed) => parsed,
            Err(f) => return Err(f),
        }
    } else {
        if let Err(f) = identifier(&trimmed) {
            return Err(f);
        }
        let target = FunctionRef {
            definition: None,
            name: string_of(&trimmed),
            parameters: Vec::new(),
            owner: None,
            instance: false,
        };
        let names: Vec<Option<String>> = Vec::new();
        let outs: Vec<usize> = Vec::new();
        proof {
            lemma_type_views(target.parameters@, 0);
            assert(list_view(target.parameters@) =~= Seq::<TypeView>::empty());
            assert(names_view(names@) =~= Seq::<Option<Seq<char>>>::empty());
        }
        (target, names, outs)
    };
    if target.owner.is_some() || target.instance {
        return Err(Fault::new("declaration names must not contain an owner or instance prefix"));
    }
    let target_chars = chars_of(target.name.as_str());
    proof {
        lemma_find_from(target_chars@, '.', 0);
    }
    let dotted = find_char(&target_chars, '.', 0).is_some();
    proof {
        if dotted {
            let k = find_from(target_chars@, '.', 0)->0;
            assert(target.name@[k] == '.');
        }
    }
    if owner.is_some() && dotted && !str_eq(target.name.as_str(), ".ctor") {
        return Err(Fault::new("method name must be unqualified within its type"));
    }
    let full = match &owner {
        Some(t) => match t.definition_name() {
            Some(d) => {
                let mut full = d.clone();
                push_str(&mut full, ".");
                push_str(&mut full, target.name.as_str());
                full
            },
            None => return Err(Fault::new("invalid method owner")),
        },
        None => target.name.clone(),
    };
    let alen = decl.len();
    assert(a + 2 <= alen);
    let result_text = slice_chars(&decl, a + 2, alen);
    let result_string = string_of(&result_text);
    let return_type = match parse_type(result_string.as_str()) {
        Ok(t) => t,
        Err(f) => return Err(f),
    };
    let f = FunctionDef {
        visibility,
        custom_attributes: Vec::new(),
        name: full,
        owner,
        instance,
        parameters: target.parameters,
        parameter_names: names,
        out_parameters: outs,
        receiver_byref: byref,
        return_type,
        locals: Vec::new(),
        local_names: Vec::new(),
        body: Vec::new(),
        internal_call: false,
        pinvoke: None,
    };
    proof {
        assert(refs_view(f.custom_attributes@) =~= Seq::<FunctionRefView>::empty());
        lemma_type_views(f.locals@, 0);
        assert(list_view(f.locals@) =~= Seq::<TypeView>::empty());
        assert(names_view(f.local_names@) =~= Seq::<Option<Seq<char>>>::empty());
        assert(body_view(f.body@) =~= Seq::<InstructionView>::empty());
    }
    Ok((f, inline))
}

} // verus!
