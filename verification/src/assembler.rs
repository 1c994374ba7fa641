//! The textual forms of the line-oriented assembler: type spellings, call
//! signatures, slots, type declarations and compact instruction spellings.
use crate::fault::Fault;
use crate::numbers::{
    all_digits, decimal, digits_value, parse_unsigned, parse_unsigned_at, push_decimal,
};
use crate::syntax::{
    debug_quoted, is_whitespace, is_whitespace_char, quoted,
    find_char, find_from, identifier_error, identifier_fault, is_identifier, is_identifier_chars,
    lemma_find_from, lemma_trim_len, slice_chars, string_of, trim, trim_chars, chars_equal,
};
use crate::text::chars_of;
use crate::metadata::{
    is_valid_revision, is_valid_slot_name, valid_revision, valid_slot_name, FunctionRef, FunctionRefView, MemberId, MemberIdView,
    ModuleReference,
};
use crate::text::{push_char, push_str, str_eq};
use vstd::string::StringExecFns;
use crate::types::{
    clone_type, definition_name_of, list_view, lemma_type_views, type_from_name, type_views, Type,
    TypeView,
};
use vstd::prelude::*;

verus! {

/// The deepest nesting a type spelling may have.
pub const MAX_TYPE_DEPTH: usize = 32;

/// The net count of '<' over '>' in the first `n` characters.
pub open spec fn nesting(s: Seq<char>, n: int) -> int
    decreases n,
{
    if n <= 0 || n > s.len() {
        0
    } else {
        nesting(s, n - 1) + if s[n - 1] == '<' {
            1int
        } else if s[n - 1] == '>' {
            -1int
        } else {
            0int
        }
    }
}

/// No prefix closes more brackets than it opens, and all are closed.
pub open spec fn balanced(s: Seq<char>) -> bool {
    &&& forall|i: int| 1 <= i <= s.len() ==> #[trigger] nesting(s, i) >= 0
    &&& nesting(s, s.len() as int) == 0
}

/// The positions, among the first `n`, of the commas outside any brackets.
pub open spec fn top_commas(s: Seq<char>, n: nat) -> Seq<int>
    decreases n,
{
    if n == 0 || n > s.len() {
        Seq::empty()
    } else if s[n - 1] == ',' && nesting(s, n - 1) == 0 {
        top_commas(s, (n - 1) as nat).push(n - 1)
    } else {
        top_commas(s, (n - 1) as nat)
    }
}

/// The commas outside any brackets.
pub open spec fn separators(s: Seq<char>) -> Seq<int> {
    top_commas(s, s.len())
}

/// The bounds of the `k`th comma-separated part.
pub open spec fn part_start(c: Seq<int>, k: int) -> int {
    if k == 0 {
        0
    } else {
        c[k - 1] + 1
    }
}

pub open spec fn part_end(c: Seq<int>, len: int, k: int) -> int {
    if k < c.len() {
        c[k]
    } else {
        len
    }
}

/// The `k`th part of a list split at its top-level commas.
pub open spec fn part(s: Seq<char>, k: int) -> Seq<char> {
    s.subrange(part_start(separators(s), k), part_end(separators(s), s.len() as int, k))
}

pub proof fn lemma_top_commas(s: Seq<char>, n: nat)
    requires
        n <= s.len(),
    ensures
        top_commas(s, n).len() <= n,
        forall|k: int|
            0 <= k < top_commas(s, n).len() ==> 0 <= #[trigger] top_commas(s, n)[k] < n,
        forall|k: int, l: int|
            0 <= k < l < top_commas(s, n).len() ==> top_commas(s, n)[k] < top_commas(s, n)[l],
    decreases n,
{
    if n > 0 {
        let m = (n - 1) as nat;
        lemma_top_commas(s, m);
        let prev = top_commas(s, m);
        if s[n - 1] == ',' && nesting(s, n - 1) == 0 {
            assert(top_commas(s, n) == prev.push(n - 1));
        } else {
            assert(top_commas(s, n) == prev);
        }
    }
}

/// Each part lies within the list.
pub proof fn lemma_part_bounds(s: Seq<char>, k: int)
    requires
        0 <= k <= separators(s).len(),
    ensures
        0 <= part_start(separators(s), k) <= part_end(separators(s), s.len() as int, k) <= s.len(),
        part(s, k).len() <= s.len(),
{
    lemma_top_commas(s, s.len());
}

/// The built-in generic forms, which take exactly one argument.
pub open spec fn builtin_generic(name: Seq<char>) -> bool {
    name == "InterfaceRef"@ || name == "Ref"@ || name == "Ptr"@
}

/// What the assembler makes of a type spelling at a nesting depth: the type,
/// or the diagnostic that refuses it.
pub open spec fn parse_type_at(text: Seq<char>, depth: nat) -> Result<TypeView, Seq<char>>
    decreases text.len(), 1nat, 0nat,
{
    if depth > 32 {
        Err("type nesting exceeds 32"@)
    } else {
        let t = trim(text);
        let n = t.len() as int;
        proof {
            lemma_trim_len(text);
        }
        if n > 0 && t[0] == '!' && t[n - 1] != '*' && t[n - 1] != '&' {
            match parse_unsigned(t.drop_first(), 65536) {
                Some(i) => Ok(TypeView::TypeParameter(i as u16)),
                None => Err("expected type parameter index !0"@),
            }
        } else if n > 0 && t[n - 1] == '&' {
            match parse_type_at(t.drop_last(), depth + 1) {
                Ok(e) => Ok(TypeView::ByRef(Box::new(e))),
                Err(m) => Err(m),
            }
        } else if n > 0 && t[n - 1] == '*' {
            match parse_type_at(t.drop_last(), depth + 1) {
                Ok(e) => Ok(TypeView::Ptr(Box::new(e))),
                Err(m) => Err(m),
            }
        } else if n > 0 && t[0] == '[' {
            match find_from(t, ']', 1) {
                None => Err("unclosed module scope"@),
                Some(close) => {
                    proof {
                        lemma_find_from(t, ']', 1);
                    }
                    let module = t.subrange(1, close);
                    if !is_identifier(module) {
                        Err(identifier_error(module))
                    } else {
                        match parse_type_at(t.subrange(close + 1, n), depth + 1) {
                            Err(m) => Err(m),
                            Ok(TypeView::Constructed { definition, arguments }) => Ok(
                                TypeView::Scoped { module, name: definition, arguments },
                            ),
                            Ok(ty) => match definition_name_of(ty) {
                                Some(name) => Ok(
                                    TypeView::Scoped { module, name, arguments: Seq::empty() },
                                ),
                                None => Err("module scope requires a named type definition"@),
                            },
                        }
                    }
                },
            }
        } else {
            match find_from(t, '<', 0) {
                None => if is_identifier(t) {
                    Ok(type_from_name(t))
                } else {
                    Err(identifier_error(t))
                },
                Some(open) => {
                    proof {
                        lemma_find_from(t, '<', 0);
                    }
                    if n - open < 2 || t[n - 1] != '>' {
                        Err("unclosed generic type"@)
                    } else {
                        let inner = t.subrange(open + 1, n - 1);
                        let name = trim(t.subrange(0, open));
                        let count = separators(inner).len() + 1;
                        if !balanced(inner) {
                            Err("unbalanced generic type"@)
                        } else if builtin_generic(name) && count == 1 {
                            proof {
                                lemma_part_bounds(inner, 0);
                            }
                            match parse_type_at(part(inner, 0), depth + 1) {
                                Err(m) => Err(m),
                                Ok(a) => Ok(
                                    if name == "InterfaceRef"@ {
                                        TypeView::InterfaceRef(Box::new(a))
                                    } else if name == "Ref"@ {
                                        TypeView::Ref(Box::new(a))
                                    } else {
                                        TypeView::Ptr(Box::new(a))
                                    },
                                ),
                            }
                        } else if builtin_generic(name) {
                            Err("incorrect built-in generic arity"@)
                        } else if !is_identifier(name) {
                            Err(identifier_error(name))
                        } else {
                            match parse_type_parts(inner, 0, depth + 1) {
                                Err(m) => Err(m),
                                Ok(arguments) => Ok(
                                    TypeView::Constructed { definition: name, arguments },
                                ),
                            }
                        }
                    }
                },
            }
        }
    }
}

/// The types of the parts of a generic argument list from the `k`th on, or the
/// first part's diagnostic that refuses one.
pub open spec fn parse_type_parts(inner: Seq<char>, k: nat, depth: nat) -> Result<
    Seq<TypeView>,
    Seq<char>,
>
    decreases inner.len(), 2nat, separators(inner).len() + 1 - k,
{
    if k > separators(inner).len() {
        Ok(Seq::empty())
    } else {
        proof {
            lemma_part_bounds(inner, k as int);
        }
        match parse_type_at(part(inner, k as int), depth) {
            Err(m) => Err(m),
            Ok(t) => match parse_type_parts(inner, k + 1, depth) {
                Err(m) => Err(m),
                Ok(rest) => Ok(seq![t] + rest),
            },
        }
    }
}

/// The type spelled by a text, or the diagnostic that refuses it.
pub open spec fn spec_parse_type(text: Seq<char>) -> Result<TypeView, Seq<char>> {
    parse_type_at(text, 0)
}

/// A parse result seen as the type's view or the fault's message.
pub open spec fn type_result(r: Result<Type, Fault>) -> Result<TypeView, Seq<char>> {
    match r {
        Ok(t) => Ok(t@),
        Err(f) => Err(f.message@),
    }
}

/// A list of parse results seen the same way.
pub open spec fn types_result(r: Result<Vec<Type>, Fault>) -> Result<Seq<TypeView>, Seq<char>> {
    match r {
        Ok(v) => Ok(list_view(v@)),
        Err(f) => Err(f.message@),
    }
}

/// Parses a type spelling: primitives and names, `!n` type parameters, `&`
/// and `*` suffixes, `[Module]` scopes, and generic instances with the
/// built-in `InterfaceRef<T>`, `Ref<T>` and `Ptr<T>` forms.
pub fn parse_type(text: &str) -> (r: Result<Type, Fault>)
    ensures
        type_result(r) == spec_parse_type(text@),
{
    let chars = chars_of(text);
    parse_type_chars(&chars, 0)
}

/// Scans a generic argument list: its top-level commas, or `None` when its
/// brackets do not balance.
fn scan_arguments(inner: &Vec<char>) -> (r: Option<Vec<usize>>)
    ensures
        balanced(inner@) <==> r is Some,
        r matches Some(c) ==> c@.len() == separators(inner@).len() && forall|k: int|
            0 <= k < c@.len() ==> c@[k] as int == #[trigger] separators(inner@)[k],
{
    let mut commas: Vec<usize> = Vec::new();
    let mut depth: i128 = 0;
    let mut i: usize = 0;
    while i < inner.len()
        invariant
            i <= inner@.len(),
            depth == nesting(inner@, i as int),
            0 <= depth <= i,
            forall|j: int| 1 <= j <= i ==> #[trigger] nesting(inner@, j) >= 0,
            commas@.len() == top_commas(inner@, i as nat).len(),
            forall|k: int|
                0 <= k < commas@.len() ==> commas@[k] as int == #[trigger] top_commas(
                    inner@,
                    i as nat,
                )[k],
        decreases inner.len() - i,
    {
        let c = inner[i];
        if c == ',' && depth == 0 {
            commas.push(i);
        }
        if c == '<' {
            depth = depth + 1;
        } else if c == '>' {
            depth = depth - 1;
        }
        assert(depth == nesting(inner@, i + 1));
        if depth < 0 {
            assert(!balanced(inner@));
            return None;
        }
        i += 1;
    }
    if depth != 0 {
        return None;
    }
    Some(commas)
}

/// Parses the parts of a generic argument list in order.
fn parse_parts_chars(inner: &Vec<char>, commas: &Vec<usize>, depth: usize) -> (r: Result<
    Vec<Type>,
    Fault,
>)
    requires
        depth <= 33,
        commas@.len() == separators(inner@).len(),
        forall|k: int| 0 <= k < commas@.len() ==> commas@[k] as int == #[trigger] separators(inner@)[k],
    ensures
        types_result(r) == parse_type_parts(inner@, 0, depth as nat),
    decreases inner@.len(), 1nat,
{
    let mut arguments: Vec<Type> = Vec::new();
    let mut k: usize = 0;
    proof {
        lemma_top_commas(inner@, inner@.len());
    }
    while k <= commas.len()
        invariant
            k <= commas@.len(),
            depth <= 33,
            commas@.len() == separators(inner@).len(),
            forall|j: int|
                0 <= j < commas@.len() ==> commas@[j] as int == #[trigger] separators(inner@)[j],
            forall|j: int|
                0 <= j < separators(inner@).len() ==> 0 <= #[trigger] separators(inner@)[j]
                    < inner@.len(),
            forall|j: int, l: int|
                0 <= j < l < separators(inner@).len() ==> separators(inner@)[j] < separators(
                    inner@,
                )[l],
            arguments@.len() == k,
            parse_type_parts(inner@, 0, depth as nat) == match parse_type_parts(
                inner@,
                k as nat,
                depth as nat,
            ) {
                Ok(rest) => Ok(list_view(arguments@) + rest),
                Err(m) => Err::<Seq<TypeView>, Seq<char>>(m),
            },
        decreases commas@.len() - k,
    {
        let total = inner.len();
        proof {
            if k > 0 {
                let j = k - 1;
                assert(commas@[j as int] as int == separators(inner@)[j as int]);
                assert(separators(inner@)[j as int] < inner@.len());
            }
        }
        let start = if k == 0 { 0 } else { commas[k - 1] + 1 };
        let end = if k < commas.len() { commas[k] } else { total };
        proof {
            lemma_part_bounds(inner@, k as int);
        }
        let text = slice_chars(inner, start, end);
        assert(text@ == part(inner@, k as int));
        let parsed = parse_type_chars(&text, depth);
        match parsed {
            Err(f) => {
                return Err(f);
            },
            Ok(t) => {
                proof {
                    lemma_type_views(arguments@, arguments@.len());
                    lemma_type_views(arguments@.push(t), arguments@.len() + 1);
                    assert(list_view(arguments@.push(t)) =~= list_view(arguments@).push(t@));
                    match parse_type_parts(inner@, (k + 1) as nat, depth as nat) {
                        Ok(rest) => {
                            assert(list_view(arguments@) + (seq![t@] + rest) =~= list_view(
                                arguments@.push(t),
                            ) + rest);
                        },
                        Err(m) => {},
                    }
                }
                arguments.push(t);
            },
        }
        if k == commas.len() {
            assert(list_view(arguments@) + Seq::<TypeView>::empty() =~= list_view(arguments@));
            return Ok(arguments);
        }
        k += 1;
    }
    assert(list_view(arguments@) + Seq::<TypeView>::empty() =~= list_view(arguments@));
    Ok(arguments)
}

/// Parses the type spelled by `text` at nesting `depth`.
fn parse_type_chars(text: &Vec<char>, depth: usize) -> (r: Result<Type, Fault>)
    requires
        depth <= 33,
    ensures
        type_result(r) == parse_type_at(text@, depth as nat),
    decreases text@.len(), 0nat,
{
    if depth > MAX_TYPE_DEPTH {
        return Err(Fault::new("type nesting exceeds 32"));
    }
    let t = trim_chars(text);
    proof {
        lemma_trim_len(text@);
    }
    let n = t.len();
    if n > 0 && t[0] == '!' && t[n - 1] != '*' && t[n - 1] != '&' {
        assert(t@.subrange(1, n as int) =~= t@.drop_first());
        return match parse_unsigned_at(&t, 1, n, 65536) {
            Some(i) => Ok(Type::TypeParameter(i as u16)),
            None => Err(Fault::new("expected type parameter index !0")),
        };
    }
    if n > 0 && (t[n - 1] == '&' || t[n - 1] == '*') {
        let element = slice_chars(&t, 0, n - 1);
        assert(element@ =~= t@.drop_last());
        let inner = parse_type_chars(&element, depth + 1);
        return match inner {
            Ok(e) => Ok(
                if t[n - 1] == '&' {
                    Type::ByRef(Box::new(e))
                } else {
                    Type::Ptr(Box::new(e))
                },
            ),
            Err(f) => Err(f),
        };
    }
    if n > 0 && t[0] == '[' {
        proof {
            lemma_find_from(t@, ']', 1);
        }
        let close = match find_char(&t, ']', 1) {
            Some(close) => close,
            None => return Err(Fault::new("unclosed module scope")),
        };
        let module = slice_chars(&t, 1, close);
        if !is_identifier_chars(&module) {
            return Err(identifier_fault(&module));
        }
        let rest = slice_chars(&t, close + 1, n);
        let scoped = parse_type_chars(&rest, depth + 1);
        return match scoped {
            Err(f) => Err(f),
            Ok(Type::Constructed { definition, arguments }) => Ok(
                Type::Scoped { module: string_of(&module), name: definition, arguments },
            ),
            Ok(ty) => match ty.definition_name() {
                Some(name) => {
                    let arguments: Vec<Type> = Vec::new();
                    proof {
                        assert(list_view(arguments@) =~= Seq::<TypeView>::empty());
                    }
                    Ok(Type::Scoped { module: string_of(&module), name: name.clone(), arguments })
                },
                None => Err(Fault::new("module scope requires a named type definition")),
            },
        };
    }
    proof {
        lemma_find_from(t@, '<', 0);
    }
    let open = match find_char(&t, '<', 0) {
        Some(open) => open,
        None => {
            if !is_identifier_chars(&t) {
                return Err(identifier_fault(&t));
            }
            let name = string_of(&t);
            return Ok(Type::from_name(name.as_str()));
        },
    };
    if n - open < 2 || t[n - 1] != '>' {
        return Err(Fault::new("unclosed generic type"));
    }
    let inner = slice_chars(&t, open + 1, n - 1);
    let head = slice_chars(&t, 0, open);
    let name = trim_chars(&head);
    let commas = match scan_arguments(&inner) {
        Some(commas) => commas,
        None => return Err(Fault::new("unbalanced generic type")),
    };
    let builtin = chars_equal(&name, "InterfaceRef") || chars_equal(&name, "Ref") || chars_equal(
        &name,
        "Ptr",
    );
    if builtin && commas.len() == 0 {
        proof {
            lemma_part_bounds(inner@, 0);
        }
        let end = inner.len();
        let argument = slice_chars(&inner, 0, end);
        assert(argument@ == part(inner@, 0));
        let parsed = parse_type_chars(&argument, depth + 1);
        return match parsed {
            Err(f) => Err(f),
            Ok(a) => Ok(
                if chars_equal(&name, "InterfaceRef") {
                    Type::InterfaceRef(Box::new(a))
                } else if chars_equal(&name, "Ref") {
                    Type::Ref(Box::new(a))
                } else {
                    Type::Ptr(Box::new(a))
                },
            ),
        };
    }
    if builtin {
        return Err(Fault::new("incorrect built-in generic arity"));
    }
    if !is_identifier_chars(&name) {
        return Err(identifier_fault(&name));
    }
    let parts = parse_parts_chars(&inner, &commas, depth + 1);
    match parts {
        Err(f) => Err(f),
        Ok(arguments) => Ok(Type::Constructed { definition: string_of(&name), arguments }),
    }
}


/// The last position before `end` that holds `c`.
pub open spec fn find_last_before(s: Seq<char>, c: char, end: int) -> Option<int>
    decreases end,
{
    if end <= 0 || end > s.len() {
        None
    } else if s[end - 1] == c {
        Some(end - 1)
    } else {
        find_last_before(s, c, end - 1)
    }
}

pub proof fn lemma_find_last_before(s: Seq<char>, c: char, end: int)
    requires
        end <= s.len(),
    ensures
        match find_last_before(s, c, end) {
            Some(k) => 0 <= k < end && s[k] == c,
            None => true,
        },
    decreases end,
{
    if end > 0 && s[end - 1] != c {
        lemma_find_last_before(s, c, end - 1);
    }
}

/// The first position at or after `from` where "::" begins.
pub open spec fn find_path_separator(s: Seq<char>, from: int) -> Option<int>
    decreases s.len() - from,
{
    if from < 0 || from + 1 >= s.len() {
        None
    } else if s[from] == ':' && s[from + 1] == ':' {
        Some(from)
    } else {
        find_path_separator(s, from + 1)
    }
}

pub proof fn lemma_find_path_separator(s: Seq<char>, from: int)
    requires
        0 <= from,
    ensures
        match find_path_separator(s, from) {
            Some(k) => from <= k && k + 1 < s.len(),
            None => true,
        },
    decreases s.len() - from,
{
    if from + 1 < s.len() && !(s[from] == ':' && s[from + 1] == ':') {
        lemma_find_path_separator(s, from + 1);
    }
}

/// A module reference: `Name`, or `Name#revision` pinned to a revision.
pub open spec fn spec_module_reference(t: Seq<char>) -> Result<
    (Seq<char>, Option<Seq<char>>),
    Seq<char>,
> {
    match find_from(t, '#', 0) {
        Some(h) => {
            let name = t.subrange(0, h);
            let revision = t.subrange(h + 1, t.len() as int);
            if !is_identifier(name) {
                Err(identifier_error(name))
            } else if !valid_revision(revision) {
                Err("invalid module revision"@)
            } else {
                Ok((name, Some(revision)))
            }
        },
        None => if is_identifier(t) {
            Ok((t, None))
        } else {
            Err(identifier_error(t))
        },
    }
}

/// Parses a module reference (see `spec_module_reference`).
pub fn parse_module_reference(t: &Vec<char>) -> (r: Result<ModuleReference, Fault>)
    ensures
        match spec_module_reference(t@) {
            Ok((name, revision)) => r matches Ok(m) && m.spec_name() == name && m.spec_revision()
                == revision,
            Err(msg) => r matches Err(f) && f.message@ == msg,
        },
{
    proof {
        lemma_find_from(t@, '#', 0);
    }
    let n = t.len();
    match find_char(t, '#', 0) {
        Some(h) => {
            let name = slice_chars(t, 0, h);
            let revision = slice_chars(t, h + 1, n);
            if !is_identifier_chars(&name) {
                return Err(identifier_fault(&name));
            }
            if !is_valid_revision(&revision) {
                return Err(Fault::new("invalid module revision"));
            }
            Ok(ModuleReference::Exact { name: string_of(&name), revision: string_of(&revision) })
        },
        None => {
            if !is_identifier_chars(t) {
                return Err(identifier_fault(t));
            }
            Ok(ModuleReference::Name(string_of(t)))
        },
    }
}

/// The first position, if any, where a scan of a parameter list closes more
/// brackets than it has opened.
pub open spec fn first_dip_from(s: Seq<char>, i: int) -> Option<int>
    decreases s.len() - i,
{
    if i < 0 || i >= s.len() {
        None
    } else if nesting(s, i + 1) < 0 {
        Some(i)
    } else {
        first_dip_from(s, i + 1)
    }
}

/// How far a scan of a parameter list gets: to its first dip, else its end.
pub open spec fn scan_limit(s: Seq<char>) -> int {
    match first_dip_from(s, 0) {
        Some(m) => m,
        None => s.len() as int,
    }
}

pub proof fn lemma_first_dip(s: Seq<char>, i: int)
    requires
        0 <= i,
    ensures
        match first_dip_from(s, i) {
            Some(m) => i <= m < s.len() && nesting(s, m + 1) < 0,
            None => forall|j: int| i < j <= s.len() ==> #[trigger] nesting(s, j) >= 0,
        },
    decreases s.len() - i,
{
    if i < s.len() && nesting(s, i + 1) >= 0 {
        lemma_first_dip(s, i + 1);
    }
}

/// The parameter types of a call signature's parameter list from the `k`th
/// on. The list is scanned once: each part is parsed when the scan reaches
/// the comma after it, and a dip or unclosed bracket stops the scan.
pub open spec fn call_parameters(s: Seq<char>, k: nat) -> Result<Seq<TypeView>, Seq<char>>
    decreases separators(s).len() - k,
{
    let c = separators(s);
    if k < c.len() && c[k as int] < scan_limit(s) {
        match spec_parse_type(part(s, k as int)) {
            Err(m) => Err(m),
            Ok(t) => match call_parameters(s, k + 1) {
                Err(m) => Err(m),
                Ok(rest) => Ok(seq![t] + rest),
            },
        }
    } else if first_dip_from(s, 0) is Some || nesting(s, s.len() as int) != 0 {
        Err("unbalanced call parameter type"@)
    } else {
        match spec_parse_type(part(s, k as int)) {
            Err(m) => Err(m),
            Ok(t) => Ok(seq![t]),
        }
    }
}

/// The commas outside brackets among a prefix begin those of a longer one.
pub proof fn lemma_top_commas_prefix(s: Seq<char>, i: nat, n: nat)
    requires
        i <= n <= s.len(),
    ensures
        top_commas(s, i).len() <= top_commas(s, n).len(),
        forall|j: int|
            0 <= j < top_commas(s, i).len() ==> #[trigger] top_commas(s, n)[j] == top_commas(
                s,
                i,
            )[j],
        forall|j: int|
            top_commas(s, i).len() <= j < top_commas(s, n).len() ==> #[trigger] top_commas(
                s,
                n,
            )[j] >= i,
    decreases n - i,
{
    if i < n {
        lemma_top_commas_prefix(s, i, (n - 1) as nat);
        lemma_top_commas(s, (n - 1) as nat);
    }
}

/// The owner and qualified name of a call target's name part.
pub open spec fn spec_call_name(name: Seq<char>) -> Result<(Option<TypeView>, Seq<char>), Seq<char>> {
    match find_path_separator(name, 0) {
        Some(p) => {
            let member = trim(name.subrange(p + 2, name.len() as int));
            if !is_identifier(member) {
                Err(identifier_error(member))
            } else if member.contains('.') && member != ".ctor"@ {
                Err("expected an unqualified member name"@)
            } else {
                match spec_parse_type(name.subrange(0, p)) {
                    Err(m) => Err(m),
                    Ok(owner) => match definition_name_of(owner) {
                        None => Err("invalid method owner"@),
                        Some(d) => Ok((Some(owner), d + "."@ + member)),
                    },
                }
            }
        },
        None => if is_identifier(name) {
            Ok((None, name))
        } else {
            Err(identifier_error(name))
        },
    }
}

/// Whether a name part starts with the `instance ` marker.
pub open spec fn has_instance_marker(head: Seq<char>) -> bool {
    head.len() >= 9 && head.subrange(0, 9) == "instance "@
}

/// A call signature `[instance ][Owner::]Name(T1, ...)` with an optional
/// pinned definition.
pub open spec fn spec_signature(text: Seq<char>, definition: Option<MemberIdView>) -> Result<
    FunctionRefView,
    Seq<char>,
> {
    let t = trim(text);
    match find_from(t, '(', 0) {
        None => Err("call requires an explicit signature: Name(Type, ...) or Name()"@),
        Some(p) => {
            let head = trim(t.subrange(0, p));
            let instance = has_instance_marker(head);
            let name = if instance {
                trim(head.subrange(9, head.len() as int))
            } else {
                head
            };
            match spec_call_name(name) {
                Err(m) => Err(m),
                Ok((owner, full)) => {
                    let rest = t.subrange(p + 1, t.len() as int);
                    if rest.len() == 0 || rest.last() != ')' {
                        Err("unclosed call signature"@)
                    } else {
                        let params = rest.drop_last();
                        let parsed = if trim(params).len() == 0 {
                            Ok(Seq::empty())
                        } else {
                            call_parameters(params, 0)
                        };
                        match parsed {
                            Err(m) => Err(m),
                            Ok(parameters) => Ok(
                                FunctionRefView {
                                    definition,
                                    name: full,
                                    owner,
                                    instance,
                                    parameters,
                                },
                            ),
                        }
                    }
                },
            }
        },
    }
}

/// What the assembler makes of an explicit call target:
/// `signature [@ Module:index]`.
pub open spec fn spec_parse_function_ref(text: Seq<char>) -> Result<FunctionRefView, Seq<char>> {
    match find_last_before(text, '@', text.len() as int) {
        None => spec_signature(text, None),
        Some(at) => {
            let identity = trim(text.subrange(at + 1, text.len() as int));
            match find_from(identity, ':', 0) {
                None => Err("expected @ Module:index"@),
                Some(colon) => match spec_module_reference(trim(identity.subrange(0, colon))) {
                    Err(m) => Err(m),
                    Ok((module, revision)) => match parse_unsigned(
                        trim(identity.subrange(colon + 1, identity.len() as int)),
                        0x1_0000_0000,
                    ) {
                        None => Err("expected unsigned definition index"@),
                        Some(index) => spec_signature(
                            trim(text.subrange(0, at)),
                            Some(MemberIdView { module, revision, index: index as u32 }),
                        ),
                    },
                },
            }
        },
    }
}

/// A call-target parse result seen as the target's view or the fault's message.
pub open spec fn function_ref_result(r: Result<FunctionRef, Fault>) -> Result<
    FunctionRefView,
    Seq<char>,
> {
    match r {
        Ok(f) => Ok(f@),
        Err(f) => Err(f.message@),
    }
}

/// Parses the parameter list of a call signature (see `call_parameters`).
fn parse_call_parameters(s: &Vec<char>) -> (r: Result<Vec<Type>, Fault>)
    ensures
        types_result(r) == call_parameters(s@, 0),
{
    let mut arguments: Vec<Type> = Vec::new();
    let mut depth: i128 = 0;
    let mut start: usize = 0;
    let mut k: usize = 0;
    let mut i: usize = 0;
    proof {
        lemma_top_commas(s@, s@.len());
        lemma_first_dip(s@, 0);
    }
    while i < s.len()
        invariant
            i <= s@.len(),
            depth == nesting(s@, i as int),
            0 <= depth <= i,
            first_dip_from(s@, 0) == first_dip_from(s@, i as int),
            forall|j: int| 1 <= j <= i ==> #[trigger] nesting(s@, j) >= 0,
            k == top_commas(s@, i as nat).len(),
            k <= i,
            start == part_start(separators(s@), k as int),
            start <= i,
            arguments@.len() == k,
            call_parameters(s@, 0) == match call_parameters(s@, k as nat) {
                Ok(rest) => Ok(list_view(arguments@) + rest),
                Err(m) => Err::<Seq<TypeView>, Seq<char>>(m),
            },
        decreases s.len() - i,
    {
        let c = s[i];
        proof {
            lemma_top_commas_prefix(s@, i as nat, (i + 1) as nat);
            lemma_top_commas_prefix(s@, (i + 1) as nat, s@.len());
            lemma_top_commas_prefix(s@, i as nat, s@.len());
            lemma_top_commas(s@, s@.len());
            lemma_first_dip(s@, i as int);
        }
        if c == ',' && depth == 0 {
            proof {
                assert(top_commas(s@, (i + 1) as nat) == top_commas(s@, i as nat).push(i as int));
                assert(separators(s@)[k as int] == top_commas(s@, (i + 1) as nat)[k as int]);
                assert(separators(s@)[k as int] == i);
                assert(nesting(s@, i + 1) == 0);
                assert(scan_limit(s@) > i);
            }
            let text = slice_chars(s, start, i);
            assert(text@ == part(s@, k as int));
            let parsed = parse_type_chars(&text, 0);
            match parsed {
                Err(f) => {
                    return Err(f);
                },
                Ok(t) => {
                    proof {
                        lemma_type_views(arguments@, arguments@.len());
                        lemma_type_views(arguments@.push(t), arguments@.len() + 1);
                        assert(list_view(arguments@.push(t)) =~= list_view(arguments@).push(t@));
                        match call_parameters(s@, (k + 1) as nat) {
                            Ok(rest) => {
                                assert(list_view(arguments@) + (seq![t@] + rest) =~= list_view(
                                    arguments@.push(t),
                                ) + rest);
                            },
                            Err(m) => {},
                        }
                    }
                    arguments.push(t);
                },
            }
            start = i + 1;
            k = k + 1;
        } else {
            assert(top_commas(s@, (i + 1) as nat) == top_commas(s@, i as nat));
        }
        if c == '<' {
            depth = depth + 1;
        } else if c == '>' {
            depth = depth - 1;
        }
        assert(depth == nesting(s@, i + 1));
        if depth < 0 {
            proof {
                assert(first_dip_from(s@, i as int) == Some(i as int));
                assert(scan_limit(s@) == i);
                assert(k == top_commas(s@, (i + 1) as nat).len());
                if k < separators(s@).len() {
                    assert(separators(s@)[k as int] >= i + 1);
                }
            }
            return Err(Fault::new("unbalanced call parameter type"));
        }
        i += 1;
    }
    proof {
        assert(first_dip_from(s@, i as int) is None);
        assert(k == separators(s@).len());
    }
    if depth != 0 {
        return Err(Fault::new("unbalanced call parameter type"));
    }
    let end = s.len();
    let text = slice_chars(s, start, end);
    assert(text@ == part(s@, k as int));
    let parsed = parse_type_chars(&text, 0);
    match parsed {
        Err(f) => Err(f),
        Ok(t) => {
            proof {
                lemma_type_views(arguments@, arguments@.len());
                lemma_type_views(arguments@.push(t), arguments@.len() + 1);
                assert(list_view(arguments@.push(t)) =~= list_view(arguments@) + seq![t@]);
            }
            arguments.push(t);
            Ok(arguments)
        },
    }
}


/// The last position that holds `c`.
fn find_last(v: &Vec<char>, c: char) -> (r: Option<usize>)
    ensures
        match find_last_before(v@, c, v@.len() as int) {
            Some(k) => r == Some(k as usize),
            None => r is None,
        },
{
    let mut end = v.len();
    while end > 0
        invariant
            end <= v@.len(),
            find_last_before(v@, c, v@.len() as int) == find_last_before(v@, c, end as int),
        decreases end,
    {
        if v[end - 1] == c {
            return Some(end - 1);
        }
        end -= 1;
    }
    None
}

/// The first position where "::" begins.
pub(crate) fn find_path_separator_chars(v: &Vec<char>) -> (r: Option<usize>)
    ensures
        match find_path_separator(v@, 0) {
            Some(k) => r == Some(k as usize),
            None => r is None,
        },
{
    let mut i: usize = 0;
    while v.len() > 1 && i < v.len() - 1
        invariant
            find_path_separator(v@, 0) == find_path_separator(v@, i as int),
        decreases v.len() - i,
    {
        if v[i] == ':' && v[i + 1] == ':' {
            return Some(i);
        }
        i += 1;
    }
    None
}

/// The view of an optional type.
pub open spec fn option_type_view(o: Option<Type>) -> Option<TypeView> {
    match o {
        Some(t) => Some(t@),
        None => None,
    }
}

/// The view of an optional member identity.
pub open spec fn option_member_view(o: Option<MemberId>) -> Option<MemberIdView> {
    match o {
        Some(m) => Some(m@),
        None => None,
    }
}

/// Resolves the name part of a call target (see `spec_call_name`).
fn parse_call_name(name: &Vec<char>) -> (r: Result<(Option<Type>, String), Fault>)
    ensures
        match spec_call_name(name@) {
            Ok((owner, full)) => r matches Ok((o, f)) && option_type_view(o) == owner && f@ == full,
            Err(m) => r matches Err(f) && f.message@ == m,
        },
{
    proof {
        lemma_find_path_separator(name@, 0);
    }
    let n = name.len();
    match find_path_separator_chars(name) {
        Some(p) => {
            let tail = slice_chars(name, p + 2, n);
            let member = trim_chars(&tail);
            if !is_identifier_chars(&member) {
                return Err(identifier_fault(&member));
            }
            proof {
                lemma_find_from(member@, '.', 0);
            }
            let dot = find_char(&member, '.', 0);
            if dot.is_some() && !chars_equal(&member, ".ctor") {
                return Err(Fault::new("expected an unqualified member name"));
            }
            proof {
                if dot is None {
                    assert(!member@.contains('.'));
                }
            }
            let owner_text = slice_chars(name, 0, p);
            let owner = match parse_type_chars(&owner_text, 0) {
                Ok(owner) => owner,
                Err(f) => return Err(f),
            };
            let full = match owner.definition_name() {
                Some(d) => {
                    let mut full = d.clone();
                    push_char(&mut full, '.');
                    let member_text = string_of(&member);
                    push_str(&mut full, member_text.as_str());
                    proof {
                        reveal_strlit(".");
                        assert(full@ =~= d@ + "."@ + member@);
                    }
                    full
                },
                None => return Err(Fault::new("invalid method owner")),
            };
            Ok((Some(owner), full))
        },
        None => {
            if !is_identifier_chars(name) {
                return Err(identifier_fault(name));
            }
            Ok((None, string_of(name)))
        },
    }
}

/// Parses a call signature with an already resolved definition (see
/// `spec_signature`).
fn parse_signature(text: &Vec<char>, definition: Option<MemberId>) -> (r: Result<FunctionRef, Fault>)
    ensures
        function_ref_result(r) == spec_signature(text@, option_member_view(definition)),
{
    let t = trim_chars(text);
    proof {
        lemma_find_from(t@, '(', 0);
    }
    let n = t.len();
    let p = match find_char(&t, '(', 0) {
        Some(p) => p,
        None => return Err(
            Fault::new("call requires an explicit signature: Name(Type, ...) or Name()"),
        ),
    };
    let head_text = slice_chars(&t, 0, p);
    let head = trim_chars(&head_text);
    let marker = if head.len() >= 9 {
        let prefix = slice_chars(&head, 0, 9);
        chars_equal(&prefix, "instance ")
    } else {
        false
    };
    let name = if marker {
        let rest = slice_chars(&head, 9, head.len());
        trim_chars(&rest)
    } else {
        head
    };
    let (owner, full) = match parse_call_name(&name) {
        Ok(resolved) => resolved,
        Err(f) => return Err(f),
    };
    if n - p < 2 || t[n - 1] != ')' {
        return Err(Fault::new("unclosed call signature"));
    }
    let params = slice_chars(&t, p + 1, n - 1);
    assert(params@ =~= t@.subrange(p + 1, n as int).drop_last());
    let trimmed = trim_chars(&params);
    let parameters = if trimmed.len() == 0 {
        let empty: Vec<Type> = Vec::new();
        assert(list_view(empty@) =~= Seq::<TypeView>::empty());
        empty
    } else {
        match parse_call_parameters(&params) {
            Ok(parameters) => parameters,
            Err(f) => return Err(f),
        }
    };
    Ok(FunctionRef { definition, name: full, owner, instance: marker, parameters })
}

/// Parses an explicit call target: `[instance ][Owner::]Name(T1, ...)`,
/// optionally followed by `@ Module:index` or `@ Module#revision:index`
/// pinning the definition.
pub fn parse_function_ref(text: &str) -> (r: Result<FunctionRef, Fault>)
    ensures
        function_ref_result(r) == spec_parse_function_ref(text@),
{
    let chars = chars_of(text);
    let len = chars.len();
    proof {
        lemma_find_last_before(chars@, '@', len as int);
    }
    let at = match find_last(&chars, '@') {
        Some(at) => at,
        None => return parse_signature(&chars, None),
    };
    let identity_text = slice_chars(&chars, at + 1, len);
    let identity = trim_chars(&identity_text);
    proof {
        lemma_find_from(identity@, ':', 0);
    }
    let colon = match find_char(&identity, ':', 0) {
        Some(colon) => colon,
        None => return Err(Fault::new("expected @ Module:index")),
    };
    let module_text = slice_chars(&identity, 0, colon);
    let module_name = trim_chars(&module_text);
    let module = match parse_module_reference(&module_name) {
        Ok(module) => module,
        Err(f) => return Err(f),
    };
    let index_text = slice_chars(&identity, colon + 1, identity.len());
    let index_trimmed = trim_chars(&index_text);
    assert(index_trimmed@.subrange(0, index_trimmed@.len() as int) =~= index_trimmed@);
    let index = match parse_unsigned_at(&index_trimmed, 0, index_trimmed.len(), 0x1_0000_0000) {
        Some(index) => index as u32,
        None => return Err(Fault::new("expected unsigned definition index")),
    };
    let signature_text = slice_chars(&chars, 0, at);
    let signature = trim_chars(&signature_text);
    let revision = match module.revision() {
        Some(r) => Some(r.clone()),
        None => None,
    };
    let definition = MemberId { module: module.name().clone(), revision, index };
    parse_signature(&signature, Some(definition))
}

/// One parameter of a declaration signature, `[out ]Type[ name]`: its name,
/// its type and whether it is an `out` parameter.
pub open spec fn declared_slot(p: Seq<char>) -> Result<(Option<Seq<char>>, TypeView, bool), Seq<char>> {
    let t = trim(p);
    let out = t.len() >= 4 && t.subrange(0, 4) == "out "@;
    let text = if out {
        trim(t.subrange(4, t.len() as int))
    } else {
        p
    };
    match spec_parse_slot(text) {
        Err(m) => Err(m),
        Ok((name, ty)) => Ok((name, ty, out)),
    }
}

/// The parameters of a declaration signature's parameter list from the `k`th
/// on, scanned as `call_parameters` scans a call's.
pub open spec fn declared_slots(s: Seq<char>, k: nat) -> Result<
    Seq<(Option<Seq<char>>, TypeView, bool)>,
    Seq<char>,
>
    decreases separators(s).len() - k,
{
    let c = separators(s);
    if k < c.len() && c[k as int] < scan_limit(s) {
        match declared_slot(part(s, k as int)) {
            Err(m) => Err(m),
            Ok(t) => match declared_slots(s, k + 1) {
                Err(m) => Err(m),
                Ok(rest) => Ok(seq![t] + rest),
            },
        }
    } else if first_dip_from(s, 0) is Some || nesting(s, s.len() as int) != 0 {
        Err("unbalanced call parameter type"@)
    } else {
        match declared_slot(part(s, k as int)) {
            Err(m) => Err(m),
            Ok(t) => Ok(seq![t]),
        }
    }
}

/// The positions of the `out` parameters among the first `n`.
pub open spec fn out_positions(slots: Seq<(Option<Seq<char>>, TypeView, bool)>, n: nat) -> Seq<usize>
    decreases n,
{
    if n == 0 || n > slots.len() {
        Seq::empty()
    } else if slots[n - 1].2 {
        out_positions(slots, (n - 1) as nat).push((n - 1) as usize)
    } else {
        out_positions(slots, (n - 1) as nat)
    }
}

/// A declaration signature `[instance ][Owner::]Name([out ]Type[ name], ...)`:
/// the declared target and its parameters.
pub open spec fn spec_declaration(text: Seq<char>) -> Result<
    (FunctionRefView, Seq<(Option<Seq<char>>, TypeView, bool)>),
    Seq<char>,
> {
    let t = trim(text);
    match find_from(t, '(', 0) {
        None => Err("call requires an explicit signature: Name(Type, ...) or Name()"@),
        Some(p) => {
            let head = trim(t.subrange(0, p));
            let instance = has_instance_marker(head);
            let name = if instance {
                trim(head.subrange(9, head.len() as int))
            } else {
                head
            };
            match spec_call_name(name) {
                Err(m) => Err(m),
                Ok((owner, full)) => {
                    let rest = t.subrange(p + 1, t.len() as int);
                    if rest.len() == 0 || rest.last() != ')' {
                        Err("unclosed call signature"@)
                    } else {
                        let params = rest.drop_last();
                        let parsed = if trim(params).len() == 0 {
                            Ok(Seq::empty())
                        } else {
                            declared_slots(params, 0)
                        };
                        match parsed {
                            Err(m) => Err(m),
                            Ok(slots) => Ok(
                                (
                                    FunctionRefView {
                                        definition: None,
                                        name: full,
                                        owner,
                                        instance,
                                        parameters: slots.map_values(
                                            |x: (Option<Seq<char>>, TypeView, bool)| x.1,
                                        ),
                                    },
                                    slots,
                                ),
                            ),
                        }
                    }
                },
            }
        },
    }
}

/// What `parse_callable` promises of a parsed signature: the target, one name
/// per parameter and the positions of the `out` parameters.
pub open spec fn callable_result(
    r: Result<(FunctionRef, Vec<Option<String>>, Vec<usize>), Fault>,
    text: Seq<char>,
    named: bool,
) -> bool {
    if named {
        match spec_declaration(text) {
            Ok((target, slots)) => r matches Ok((f, names, outs)) && f@ == target && names_view(
                names@,
            ) == slots.map_values(|x: (Option<Seq<char>>, TypeView, bool)| x.0) && outs@
                == out_positions(slots, slots.len()),
            Err(m) => r matches Err(f) && f.message@ == m,
        }
    } else {
        match spec_parse_function_ref(text) {
            Ok(target) => r matches Ok((f, names, outs)) && f@ == target && names_view(names@)
                == Seq::new(target.parameters.len(), |i: int| None::<Seq<char>>) && outs@.len() == 0,
            Err(m) => r matches Err(f) && f.message@ == m,
        }
    }
}

fn parse_declared_slot(p: &Vec<char>) -> (r: Result<(Option<String>, Type, bool), Fault>)
    ensures
        match declared_slot(p@) {
            Ok((name, ty, out)) => r matches Ok((n, t, o)) && option_name_view(n) == name && t@
                == ty && o == out,
            Err(m) => r matches Err(f) && f.message@ == m,
        },
{
    let t = trim_chars(p);
    let out = if t.len() >= 4 {
        let prefix = slice_chars(&t, 0, 4);
        chars_equal(&prefix, "out ")
    } else {
        false
    };
    let parsed = if out {
        let rest = slice_chars(&t, 4, t.len());
        let text = trim_chars(&rest);
        parse_slot_chars(&text)
    } else {
        parse_slot_chars(p)
    };
    match parsed {
        Ok((name, ty)) => Ok((name, ty, out)),
        Err(f) => Err(f),
    }
}

/// The parameters parsed so far, seen as the declaration spec sees them.
pub open spec fn slots_agree(
    done: Seq<(Option<Seq<char>>, TypeView, bool)>,
    types: Seq<Type>,
    names: Seq<Option<String>>,
    outs: Seq<usize>,
) -> bool {
    &&& list_view(types) == done.map_values(|x: (Option<Seq<char>>, TypeView, bool)| x.1)
    &&& names_view(names) == done.map_values(|x: (Option<Seq<char>>, TypeView, bool)| x.0)
    &&& outs == out_positions(done, done.len())
}

proof fn lemma_slots_push(
    done: Seq<(Option<Seq<char>>, TypeView, bool)>,
    types: Seq<Type>,
    names: Seq<Option<String>>,
    outs: Seq<usize>,
    name: Option<String>,
    ty: Type,
    out: bool,
)
    requires
        slots_agree(done, types, names, outs),
        done.len() == types.len(),
    ensures
        slots_agree(
            done.push((option_name_view(name), ty@, out)),
            types.push(ty),
            names.push(name),
            if out {
                outs.push(done.len() as usize)
            } else {
                outs
            },
        ),
{
    let next = done.push((option_name_view(name), ty@, out));
    lemma_type_views(types, types.len());
    lemma_type_views(types.push(ty), types.len() + 1);
    assert(list_view(types.push(ty)) =~= list_view(types).push(ty@));
    assert(next.map_values(|x: (Option<Seq<char>>, TypeView, bool)| x.1) =~= done.map_values(
        |x: (Option<Seq<char>>, TypeView, bool)| x.1,
    ).push(ty@));
    assert(names_view(names.push(name)) =~= names_view(names).push(option_name_view(name)));
    assert(next.map_values(|x: (Option<Seq<char>>, TypeView, bool)| x.0) =~= done.map_values(
        |x: (Option<Seq<char>>, TypeView, bool)| x.0,
    ).push(option_name_view(name)));
    assert(next.drop_last() =~= done);
    assert(out_positions(next, next.len()) == if out {
        out_positions(done, done.len()).push(done.len() as usize)
    } else {
        out_positions(done, done.len())
    }) by {
        assert(next.subrange(0, done.len() as int) =~= done);
        lemma_out_positions_prefix(next, done, done.len());
    }
}

proof fn lemma_out_positions_prefix(
    a: Seq<(Option<Seq<char>>, TypeView, bool)>,
    b: Seq<(Option<Seq<char>>, TypeView, bool)>,
    n: nat,
)
    requires
        n <= a.len(),
        n <= b.len(),
        forall|i: int| 0 <= i < n ==> a[i] == b[i],
    ensures
        out_positions(a, n) == out_positions(b, n),
    decreases n,
{
    if n > 0 {
        lemma_out_positions_prefix(a, b, (n - 1) as nat);
    }
}

/// Parses the parameter list of a declaration signature (see `declared_slots`).
fn parse_declared_slots(s: &Vec<char>) -> (r: Result<
    (Vec<Type>, Vec<Option<String>>, Vec<usize>),
    Fault,
>)
    ensures
        match declared_slots(s@, 0) {
            Ok(slots) => r matches Ok((types, names, outs)) && slots_agree(
                slots,
                types@,
                names@,
                outs@,
            ),
            Err(m) => r matches Err(f) && f.message@ == m,
        },
{
    let mut types: Vec<Type> = Vec::new();
    let mut names: Vec<Option<String>> = Vec::new();
    let mut outs: Vec<usize> = Vec::new();
    let ghost mut done: Seq<(Option<Seq<char>>, TypeView, bool)> = Seq::empty();
    let mut depth: i128 = 0;
    let mut start: usize = 0;
    let mut k: usize = 0;
    let mut i: usize = 0;
    proof {
        lemma_top_commas(s@, s@.len());
        lemma_first_dip(s@, 0);
        lemma_type_views(types@, 0);
        assert(list_view(types@) =~= done.map_values(|x: (Option<Seq<char>>, TypeView, bool)| x.1));
        assert(names_view(names@) =~= done.map_values(|x: (Option<Seq<char>>, TypeView, bool)| x.0));
    }
    while i < s.len()
        invariant
            i <= s@.len(),
            depth == nesting(s@, i as int),
            0 <= depth <= i,
            first_dip_from(s@, 0) == first_dip_from(s@, i as int),
            forall|j: int| 1 <= j <= i ==> #[trigger] nesting(s@, j) >= 0,
            k == top_commas(s@, i as nat).len(),
            k <= i,
            start == part_start(separators(s@), k as int),
            start <= i,
            types@.len() == k,
            done.len() == k,
            slots_agree(done, types@, names@, outs@),
            declared_slots(s@, 0) == match declared_slots(s@, k as nat) {
                Ok(rest) => Ok(done + rest),
                Err(m) => Err::<Seq<(Option<Seq<char>>, TypeView, bool)>, Seq<char>>(m),
            },
        decreases s.len() - i,
    {
        let c = s[i];
        proof {
            lemma_top_commas_prefix(s@, i as nat, (i + 1) as nat);
            lemma_top_commas_prefix(s@, (i + 1) as nat, s@.len());
            lemma_top_commas_prefix(s@, i as nat, s@.len());
            lemma_top_commas(s@, s@.len());
            lemma_first_dip(s@, i as int);
        }
        if c == ',' && depth == 0 {
            proof {
                assert(top_commas(s@, (i + 1) as nat) == top_commas(s@, i as nat).push(i as int));
                assert(separators(s@)[k as int] == top_commas(s@, (i + 1) as nat)[k as int]);
                assert(separators(s@)[k as int] == i);
                assert(nesting(s@, i + 1) == 0);
                assert(scan_limit(s@) > i);
            }
            let text = slice_chars(s, start, i);
            assert(text@ == part(s@, k as int));
            match parse_declared_slot(&text) {
                Err(f) => {
                    return Err(f);
                },
                Ok((name, ty, out)) => {
                    let ghost slot = (option_name_view(name), ty@, out);
                    proof {
                        lemma_slots_push(done, types@, names@, outs@, name, ty, out);
                        match declared_slots(s@, (k + 1) as nat) {
                            Ok(rest) => {
                                assert(done + (seq![slot] + rest) =~= done.push(slot) + rest);
                            },
                            Err(m) => {},
                        }
                    }
                    if out {
                        outs.push(k);
                    }
                    types.push(ty);
                    names.push(name);
                    proof {
                        done = done.push(slot);
                    }
                },
            }
            start = i + 1;
            k = k + 1;
        } else {
            assert(top_commas(s@, (i + 1) as nat) == top_commas(s@, i as nat));
        }
        if c == '<' {
            depth = depth + 1;
        } else if c == '>' {
            depth = depth - 1;
        }
        assert(depth == nesting(s@, i + 1));
        if depth < 0 {
            proof {
                assert(first_dip_from(s@, i as int) == Some(i as int));
                assert(scan_limit(s@) == i);
                assert(k == top_commas(s@, (i + 1) as nat).len());
                if k < separators(s@).len() {
                    assert(separators(s@)[k as int] >= i + 1);
                }
            }
            return Err(Fault::new("unbalanced call parameter type"));
        }
        i += 1;
    }
    proof {
        assert(first_dip_from(s@, i as int) is None);
        assert(k == separators(s@).len());
    }
    if depth != 0 {
        return Err(Fault::new("unbalanced call parameter type"));
    }
    let end = s.len();
    let text = slice_chars(s, start, end);
    assert(text@ == part(s@, k as int));
    match parse_declared_slot(&text) {
        Err(f) => Err(f),
        Ok((name, ty, out)) => {
            let ghost slot = (option_name_view(name), ty@, out);
            proof {
                lemma_slots_push(done, types@, names@, outs@, name, ty, out);
                assert(done + seq![slot] =~= done.push(slot));
            }
            if out {
                outs.push(k);
            }
            types.push(ty);
            names.push(name);
            Ok((types, names, outs))
        },
    }
}

fn parse_declaration(text: &Vec<char>) -> (r: Result<(FunctionRef, Vec<Option<String>>, Vec<usize>), Fault>)
    ensures
        callable_result(r, text@, true),
{
    let t = trim_chars(text);
    proof {
        lemma_find_from(t@, '(', 0);
    }
    let n = t.len();
    let p = match find_char(&t, '(', 0) {
        Some(p) => p,
        None => return Err(
            Fault::new("call requires an explicit signature: Name(Type, ...) or Name()"),
        ),
    };
    let head_text = slice_chars(&t, 0, p);
    let head = trim_chars(&head_text);
    let marker = if head.len() >= 9 {
        let prefix = slice_chars(&head, 0, 9);
        chars_equal(&prefix, "instance ")
    } else {
        false
    };
    let name = if marker {
        let rest = slice_chars(&head, 9, head.len());
        trim_chars(&rest)
    } else {
        head
    };
    let (owner, full) = match parse_call_name(&name) {
        Ok(resolved) => resolved,
        Err(f) => return Err(f),
    };
    if n - p < 2 || t[n - 1] != ')' {
        return Err(Fault::new("unclosed call signature"));
    }
    let params = slice_chars(&t, p + 1, n - 1);
    assert(params@ =~= t@.subrange(p + 1, n as int).drop_last());
    let trimmed = trim_chars(&params);
    let (parameters, names, outs) = if trimmed.len() == 0 {
        let types: Vec<Type> = Vec::new();
        let names: Vec<Option<String>> = Vec::new();
        let outs: Vec<usize> = Vec::new();
        let ghost none: Seq<(Option<Seq<char>>, TypeView, bool)> = Seq::empty();
        proof {
            lemma_type_views(types@, 0);
            assert(list_view(types@) =~= none.map_values(|x: (Option<Seq<char>>, TypeView, bool)| x.1));
            assert(names_view(names@) =~= none.map_values(|x: (Option<Seq<char>>, TypeView, bool)| x.0));
        }
        (types, names, outs)
    } else {
        match parse_declared_slots(&params) {
            Ok(parsed) => parsed,
            Err(f) => return Err(f),
        }
    };
    Ok((FunctionRef { definition: None, name: full, owner, instance: marker, parameters }, names, outs))
}

/// Parses a signature. With `named`, it is a declaration's:
/// `[instance ][Owner::]Name([out ]Type[ name], ...)`, giving each
/// parameter's name and the positions of the `out` parameters. Without, it is
/// a call target as `parse_function_ref` reads it, with no names and no `out`
/// parameters.
pub fn parse_callable(text: &str, named: bool) -> (r: Result<(FunctionRef, Vec<Option<String>>, Vec<usize>), Fault>)
    ensures
        callable_result(r, text@, named),
{
    if named {
        let chars = chars_of(text);
        parse_declaration(&chars)
    } else {
        match parse_function_ref(text) {
            Err(f) => Err(f),
            Ok(target) => {
                let mut names: Vec<Option<String>> = Vec::new();
                let mut i: usize = 0;
                while i < target.parameters.len()
                    invariant
                        i <= target.parameters@.len(),
                        names@.len() == i,
                        names_view(names@) == Seq::new(i as nat, |j: int| None::<Seq<char>>),
                    decreases target.parameters.len() - i,
                {
                    let ghost before = names@;
                    names.push(None);
                    i += 1;
                    assert forall|j: int| 0 <= j < i implies #[trigger] names_view(names@)[j]
                        == None::<Seq<char>> by {
                        if j < i - 1 {
                            assert(names@[j] == before[j]);
                            assert(names_view(before)[j] == None::<Seq<char>>);
                        }
                    }
                    assert(names_view(names@) =~= Seq::new(i as nat, |j: int| None::<Seq<char>>));
                }
                proof {
                    lemma_type_views(target.parameters@, target.parameters@.len());
                }
                Ok((target, names, Vec::new()))
            },
        }
    }
}


/// The positions, among the first `n`, of all commas.
pub open spec fn commas(s: Seq<char>, n: nat) -> Seq<int>
    decreases n,
{
    if n == 0 || n > s.len() {
        Seq::empty()
    } else if s[n - 1] == ',' {
        commas(s, (n - 1) as nat).push(n - 1)
    } else {
        commas(s, (n - 1) as nat)
    }
}

/// The `k`th piece of a text split at every comma.
pub open spec fn piece(s: Seq<char>, k: int) -> Seq<char> {
    s.subrange(part_start(commas(s, s.len()), k), part_end(commas(s, s.len()), s.len() as int, k))
}

pub proof fn lemma_commas(s: Seq<char>, n: nat)
    requires
        n <= s.len(),
    ensures
        commas(s, n).len() <= n,
        forall|k: int| 0 <= k < commas(s, n).len() ==> 0 <= #[trigger] commas(s, n)[k] < n,
        forall|k: int, l: int| 0 <= k < l < commas(s, n).len() ==> commas(s, n)[k] < commas(s, n)[l],
    decreases n,
{
    if n > 0 {
        lemma_commas(s, (n - 1) as nat);
        if s[n - 1] == ',' {
            assert(commas(s, n) == commas(s, (n - 1) as nat).push(n - 1));
        } else {
            assert(commas(s, n) == commas(s, (n - 1) as nat));
        }
    }
}

/// How a declared type parameter is spelled: `!k` for the `k`th, unnamed, or
/// a name; `None` for neither.
pub open spec fn declared_parameter(p: Seq<char>, k: nat) -> Option<Option<Seq<char>>> {
    if p == seq!['!'] + decimal(k) {
        Some(None)
    } else if valid_slot_name(p) {
        Some(Some(p))
    } else {
        None
    }
}

/// The declared type parameters from the `k`th piece on.
pub open spec fn declared_parameters(s: Seq<char>, k: nat) -> Result<
    Seq<Option<Seq<char>>>,
    Seq<char>,
>
    decreases commas(s, s.len()).len() + 1 - k,
{
    if k > commas(s, s.len()).len() {
        Ok(Seq::empty())
    } else if k > 65535 {
        Err("too many type parameters"@)
    } else {
        match declared_parameter(trim(piece(s, k as int)), k) {
            None => Err("expected type parameter name or its index"@),
            Some(p) => match declared_parameters(s, k + 1) {
                Err(m) => Err(m),
                Ok(rest) => Ok(seq![p] + rest),
            },
        }
    }
}

/// A type declaration head: `Name` or `Name<P1, ...>`, each parameter a name
/// or its own index `!k`.
pub open spec fn spec_type_declaration(text: Seq<char>) -> Result<
    (Seq<char>, Seq<Option<Seq<char>>>),
    Seq<char>,
> {
    match find_from(text, '<', 0) {
        None => if is_identifier(text) {
            Ok((text, Seq::empty()))
        } else {
            Err(identifier_error(text))
        },
        Some(open) => {
            let name = trim(text.subrange(0, open));
            let rest = text.subrange(open + 1, text.len() as int);
            if !is_identifier(name) {
                Err(identifier_error(name))
            } else if rest.len() == 0 || rest.last() != '>' {
                Err("unclosed type parameters"@)
            } else {
                match declared_parameters(rest.drop_last(), 0) {
                    Err(m) => Err(m),
                    Ok(names) => Ok((name, names)),
                }
            }
        },
    }
}

/// The view of an optional name.
pub open spec fn option_name_view(o: Option<String>) -> Option<Seq<char>> {
    match o {
        Some(s) => Some(s@),
        None => None,
    }
}

/// The views of a list of optional names.
pub open spec fn names_view(names: Seq<Option<String>>) -> Seq<Option<Seq<char>>> {
    Seq::new(names.len(), |i: int| option_name_view(names[i]))
}

/// The spelling `!k`.
fn index_spelling(k: usize) -> (s: Vec<char>)
    ensures
        s@ == seq!['!'] + decimal(k as nat),
{
    let mut text = String::new();
    push_char(&mut text, '!');
    push_decimal(&mut text, k as u64);
    let chars = chars_of(text.as_str());
    assert(chars@ =~= seq!['!'] + decimal(k as nat));
    chars
}

/// Parses a type declaration head (see `spec_type_declaration`).
pub fn parse_type_declaration(text: &str) -> (r: Result<(String, Vec<Option<String>>), Fault>)
    ensures
        match spec_type_declaration(text@) {
            Ok((name, names)) => r matches Ok((n, v)) && n@ == name && names_view(v@) == names,
            Err(m) => r matches Err(f) && f.message@ == m,
        },
{
    let chars = chars_of(text);
    let len = chars.len();
    proof {
        lemma_find_from(chars@, '<', 0);
    }
    let open = match find_char(&chars, '<', 0) {
        Some(open) => open,
        None => {
            if !is_identifier_chars(&chars) {
                return Err(identifier_fault(&chars));
            }
            let empty: Vec<Option<String>> = Vec::new();
            assert(names_view(empty@) =~= Seq::<Option<Seq<char>>>::empty());
            return Ok((string_of(&chars), empty));
        },
    };
    let head = slice_chars(&chars, 0, open);
    let name = trim_chars(&head);
    if !is_identifier_chars(&name) {
        return Err(identifier_fault(&name));
    }
    if len - open < 2 || chars[len - 1] != '>' {
        return Err(Fault::new("unclosed type parameters"));
    }
    let list = slice_chars(&chars, open + 1, len - 1);
    assert(list@ =~= chars@.subrange(open + 1, len as int).drop_last());
    let ghost sep = commas(list@, list@.len());
    let mut positions: Vec<usize> = Vec::new();
    let mut i: usize = 0;
    while i < list.len()
        invariant
            i <= list@.len(),
            positions@.len() == commas(list@, i as nat).len(),
            forall|k: int|
                0 <= k < positions@.len() ==> positions@[k] as int == #[trigger] commas(
                    list@,
                    i as nat,
                )[k],
        decreases list.len() - i,
    {
        if list[i] == ',' {
            positions.push(i);
        }
        i += 1;
    }
    proof {
        lemma_commas(list@, list@.len());
    }
    let total = list.len();
    let mut names: Vec<Option<String>> = Vec::new();
    let mut k: usize = 0;
    assert(spec_type_declaration(text@) == match declared_parameters(list@, 0) {
        Err(m) => Err(m),
        Ok(names) => Ok((name@, names)),
    });
    while k <= positions.len()
        invariant
            spec_type_declaration(text@) == match declared_parameters(list@, 0) {
                Err(m) => Err(m),
                Ok(names) => Ok((name@, names)),
            },
            k <= positions@.len(),
            total == list@.len(),
            sep == commas(list@, list@.len()),
            positions@.len() == sep.len(),
            forall|j: int| 0 <= j < positions@.len() ==> positions@[j] as int == #[trigger] sep[j],
            forall|j: int| 0 <= j < sep.len() ==> 0 <= #[trigger] sep[j] < list@.len(),
            forall|j: int, l: int| 0 <= j < l < sep.len() ==> sep[j] < sep[l],
            names@.len() == k,
            declared_parameters(list@, 0) == match declared_parameters(list@, k as nat) {
                Ok(rest) => Ok(names_view(names@) + rest),
                Err(m) => Err::<Seq<Option<Seq<char>>>, Seq<char>>(m),
            },
        decreases positions@.len() - k,
    {
        if k > 65535 {
            return Err(Fault::new("too many type parameters"));
        }
        proof {
            if k > 0 {
                let j = k - 1;
                assert(positions@[j as int] as int == sep[j as int]);
            }
        }
        let start = if k == 0 { 0 } else { positions[k - 1] + 1 };
        let end = if k < positions.len() { positions[k] } else { total };
        let raw = slice_chars(&list, start, end);
        assert(raw@ == piece(list@, k as int));
        let parameter = trim_chars(&raw);
        let spelled = index_spelling(k);
        let entry = if chars_equal_chars(&parameter, &spelled) {
            None
        } else if is_valid_slot_name(&parameter) {
            Some(string_of(&parameter))
        } else {
            return Err(Fault::new("expected type parameter name or its index"));
        };
        proof {
            assert(names_view(names@.push(entry)) =~= names_view(names@).push(option_name_view(entry)));
            match declared_parameters(list@, (k + 1) as nat) {
                Ok(rest) => {
                    assert(names_view(names@) + (seq![option_name_view(entry)] + rest) =~= names_view(
                        names@,
                    ).push(option_name_view(entry)) + rest);
                },
                Err(m) => {},
            }
        }
        names.push(entry);
        if k == positions.len() {
            assert(names_view(names@) + Seq::<Option<Seq<char>>>::empty() =~= names_view(names@));
            return Ok((string_of(&name), names));
        }
        k += 1;
    }
    Err(Fault::new("too many type parameters"))
}

/// Whether two character lists are equal.
fn chars_equal_chars(a: &Vec<char>, b: &Vec<char>) -> (r: bool)
    ensures
        r == (a@ == b@),
{
    if a.len() != b.len() {
        return false;
    }
    let mut i: usize = 0;
    while i < a.len()
        invariant
            i <= a.len() == b.len(),
            forall|j: int| 0 <= j < i ==> a@[j] == b@[j],
        decreases a.len() - i,
    {
        if a[i] != b[i] {
            return false;
        }
        i += 1;
    }
    assert(a@ =~= b@);
    true
}


/// The first position at or after `from` of a parameter named `n`.
pub open spec fn name_position(names: Seq<Option<Seq<char>>>, n: Seq<char>, from: int) -> Option<int>
    decreases names.len() - from,
{
    if from < 0 || from >= names.len() {
        None
    } else if names[from] == Some(n) {
        Some(from)
    } else {
        name_position(names, n, from + 1)
    }
}

/// A type with each nominal reference to a declared parameter name replaced
/// by that parameter. Arguments, references, interface references and
/// pointers are rebound in turn; arrays and read-only references are kept.
pub open spec fn bind_view(t: TypeView, names: Seq<Option<Seq<char>>>) -> TypeView
    decreases t, 0nat,
{
    match t {
        TypeView::Scoped { module, name, arguments } => TypeView::Scoped {
            module,
            name,
            arguments: bind_views(arguments, names, arguments.len()),
        },
        TypeView::Named(n) => match name_position(names, n, 0) {
            Some(i) => TypeView::TypeParameter((i % 0x1_0000) as u16),
            None => TypeView::Named(n),
        },
        TypeView::Constructed { definition, arguments } => TypeView::Constructed {
            definition,
            arguments: bind_views(arguments, names, arguments.len()),
        },
        TypeView::Ref(b) => TypeView::Ref(Box::new(bind_view(*b, names))),
        TypeView::InterfaceRef(b) => TypeView::InterfaceRef(Box::new(bind_view(*b, names))),
        TypeView::ByRef(b) => TypeView::ByRef(Box::new(bind_view(*b, names))),
        TypeView::Ptr(b) => TypeView::Ptr(Box::new(bind_view(*b, names))),
        other => other,
    }
}

/// The first `n` types of a list, rebound.
pub open spec fn bind_views(s: Seq<TypeView>, names: Seq<Option<Seq<char>>>, n: nat) -> Seq<
    TypeView,
>
    decreases s, n,
{
    if n == 0 || n > s.len() {
        Seq::empty()
    } else {
        bind_views(s, names, (n - 1) as nat).push(bind_view(s[n - 1], names))
    }
}

pub proof fn lemma_bind_views(s: Seq<TypeView>, names: Seq<Option<Seq<char>>>, n: nat)
    requires
        n <= s.len(),
    ensures
        bind_views(s, names, n).len() == n,
        forall|j: int| 0 <= j < n ==> #[trigger] bind_views(s, names, n)[j] == bind_view(s[j], names),
    decreases n,
{
    if n > 0 {
        lemma_bind_views(s, names, (n - 1) as nat);
    }
}

/// The position of the first parameter named `n`.
pub fn find_name(names: &Vec<Option<String>>, n: &String) -> (r: Option<usize>)
    ensures
        match r {
            Some(i) => name_position(names_view(names@), n@, 0) == Some(i as int),
            None => name_position(names_view(names@), n@, 0) is None,
        },
{
    let ghost nv = names_view(names@);
    let mut i: usize = 0;
    while i < names.len()
        invariant
            i <= names@.len(),
            nv == names_view(names@),
            name_position(nv, n@, 0) == name_position(nv, n@, i as int),
        decreases names.len() - i,
    {
        let matched = match &names[i] {
            Some(candidate) => *candidate == *n,
            None => false,
        };
        assert(nv[i as int] == option_name_view(names@[i as int]));
        if matched {
            return Some(i);
        }
        i += 1;
    }
    None
}

fn bind_list(args: &Vec<Type>, names: &Vec<Option<String>>) -> (r: Vec<Type>)
    ensures
        list_view(r@) == bind_views(list_view(args@), names_view(names@), args@.len()),
    decreases args@, 1nat,
{
    let ghost nv = names_view(names@);
    let mut r: Vec<Type> = Vec::new();
    let mut i: usize = 0;
    while i < args.len()
        invariant
            i <= args@.len(),
            nv == names_view(names@),
            r@.len() == i,
            forall|j: int| 0 <= j < i ==> #[trigger] r@[j]@ == bind_view(args@[j]@, nv),
        decreases args.len() - i,
    {
        assert(decreases_to!(args@ => args@[i as int]));
        let t = bind_type_parameters(&args[i], names);
        r.push(t);
        i += 1;
    }
    proof {
        lemma_type_views(r@, r@.len());
        lemma_type_views(args@, args@.len());
        lemma_bind_views(list_view(args@), nv, args@.len());
        assert forall|j: int| 0 <= j < r@.len() implies #[trigger] list_view(r@)[j] == bind_views(
            list_view(args@),
            nv,
            args@.len(),
        )[j] by {
            assert(list_view(r@)[j] == r@[j]@);
            assert(list_view(args@)[j] == args@[j]@);
        }
        assert(list_view(r@) =~= bind_views(list_view(args@), nv, args@.len()));
    }
    r
}

/// Replaces nominal references to declared type parameter names by the
/// parameters themselves (see `bind_view`).
pub fn bind_type_parameters(ty: &Type, names: &Vec<Option<String>>) -> (r: Type)
    ensures
        r@ == bind_view(ty@, names_view(names@)),
    decreases ty, 0nat,
{
    let r = match ty {
        Type::Scoped { module, name, arguments } => {
            let bound = bind_list(arguments, names);
            proof {
                lemma_type_views(arguments@, arguments@.len());
            }
            Type::Scoped { module: module.clone(), name: name.clone(), arguments: bound }
        },
        Type::Named(n) => match find_name(names, n) {
            Some(i) => Type::TypeParameter((i % 0x1_0000) as u16),
            None => Type::Named(n.clone()),
        },
        Type::Constructed { definition, arguments } => {
            let bound = bind_list(arguments, names);
            proof {
                lemma_type_views(arguments@, arguments@.len());
            }
            Type::Constructed { definition: definition.clone(), arguments: bound }
        },
        Type::Ref(t) => Type::Ref(Box::new(bind_type_parameters(t, names))),
        Type::InterfaceRef(t) => Type::InterfaceRef(Box::new(bind_type_parameters(t, names))),
        Type::ByRef(t) => Type::ByRef(Box::new(bind_type_parameters(t, names))),
        Type::Ptr(t) => Type::Ptr(Box::new(bind_type_parameters(t, names))),
        _ => clone_type(ty),
    };
    r
}


/// The last whitespace position before `end`.
pub open spec fn last_whitespace(s: Seq<char>, end: int) -> Option<int>
    decreases end,
{
    if end <= 0 || end > s.len() {
        None
    } else if is_whitespace(s[end - 1]) {
        Some(end - 1)
    } else {
        last_whitespace(s, end - 1)
    }
}

pub proof fn lemma_last_whitespace(s: Seq<char>, end: int)
    requires
        end <= s.len(),
    ensures
        match last_whitespace(s, end) {
            Some(k) => 0 <= k < end,
            None => true,
        },
    decreases end,
{
    if end > 0 && !is_whitespace(s[end - 1]) {
        lemma_last_whitespace(s, end - 1);
    }
}

/// A parameter or local slot: `Type`, or `Type name` split at the last
/// whitespace when the whole text is no type.
pub open spec fn spec_parse_slot(text: Seq<char>) -> Result<(Option<Seq<char>>, TypeView), Seq<char>> {
    let t = trim(text);
    match spec_parse_type(t) {
        Ok(ty) => Ok((None, ty)),
        Err(_) => match last_whitespace(t, t.len() as int) {
            None => Err("expected Type or Type name"@),
            Some(k) => {
                let name = t.subrange(k + 1, t.len() as int);
                if !valid_slot_name(name) {
                    Err("invalid parameter/local name"@)
                } else {
                    match spec_parse_type(t.subrange(0, k)) {
                        Ok(ty) => Ok((Some(name), ty)),
                        Err(m) => Err(m),
                    }
                }
            },
        },
    }
}

/// Parses a parameter or local slot (see `spec_parse_slot`).
pub fn parse_slot(text: &str) -> (r: Result<(Option<String>, Type), Fault>)
    ensures
        match spec_parse_slot(text@) {
            Ok((name, ty)) => r matches Ok((n, t)) && option_name_view(n) == name && t@ == ty,
            Err(m) => r matches Err(f) && f.message@ == m,
        },
{
    let chars = chars_of(text);
    parse_slot_chars(&chars)
}

fn parse_slot_chars(chars: &Vec<char>) -> (r: Result<(Option<String>, Type), Fault>)
    ensures
        match spec_parse_slot(chars@) {
            Ok((name, ty)) => r matches Ok((n, t)) && option_name_view(n) == name && t@ == ty,
            Err(m) => r matches Err(f) && f.message@ == m,
        },
{
    let t = trim_chars(chars);
    if let Ok(ty) = parse_type_chars(&t, 0) {
        return Ok((None, ty));
    }
    let n = t.len();
    let mut end = n;
    while end > 0 && !is_whitespace_char(t[end - 1])
        invariant
            end <= n == t@.len(),
            last_whitespace(t@, n as int) == last_whitespace(t@, end as int),
        decreases end,
    {
        end -= 1;
    }
    if end == 0 {
        return Err(Fault::new("expected Type or Type name"));
    }
    let k = end - 1;
    let name = slice_chars(&t, k + 1, n);
    if !is_valid_slot_name(&name) {
        return Err(Fault::new("invalid parameter/local name"));
    }
    let type_text = slice_chars(&t, 0, k);
    match parse_type_chars(&type_text, 0) {
        Ok(ty) => Ok((Some(string_of(&name)), ty)),
        Err(f) => Err(f),
    }
}

/// The slot names of the function an instruction belongs to.
#[derive(Debug)]
pub struct SlotNames {
    pub instance: bool,
    pub parameter_names: Vec<Option<String>>,
    pub local_names: Vec<Option<String>>,
}

/// Whether an opcode addresses arguments rather than locals.
pub open spec fn is_argument_op(op: Seq<char>) -> bool {
    op == "ldarg"@ || op == "ldarga"@ || op == "starg"@
}

/// The slot index an operand names: a number, `this` for an instance's
/// receiver, or a declared parameter or local name.
/// The slot names of a function, as sequences.
pub ghost struct SlotNamesView {
    pub instance: bool,
    pub parameter_names: Seq<Option<Seq<char>>>,
    pub local_names: Seq<Option<Seq<char>>>,
}

pub open spec fn slot_names_view(f: SlotNames) -> SlotNamesView {
    SlotNamesView {
        instance: f.instance,
        parameter_names: names_view(f.parameter_names@),
        local_names: names_view(f.local_names@),
    }
}

pub open spec fn spec_resolve_slot(function: SlotNamesView, op: Seq<char>, operand: Seq<char>) -> Result<
    int,
    Seq<char>,
> {
    match parse_unsigned(operand, usize::MAX as nat + 1) {
        Some(i) => Ok(i as int),
        None => if is_argument_op(op) && function.instance && operand == "this"@ {
            Ok(0)
        } else if is_argument_op(op) {
            match name_position(function.parameter_names, operand, 0) {
                Some(i) => Ok(i + if function.instance { 1int } else { 0int }),
                None => Err("unknown parameter name "@ + debug_quoted(operand)),
            }
        } else {
            match name_position(function.local_names, operand, 0) {
                Some(i) => Ok(i),
                None => Err("unknown local name "@ + debug_quoted(operand)),
            }
        },
    }
}

pub proof fn lemma_name_position(names: Seq<Option<Seq<char>>>, n: Seq<char>, from: int)
    requires
        0 <= from,
    ensures
        match name_position(names, n, from) {
            Some(i) => from <= i < names.len(),
            None => true,
        },
    decreases names.len() - from,
{
    if from < names.len() && names[from] != Some(n) {
        lemma_name_position(names, n, from + 1);
    }
}

/// Resolves a slot operand (see `spec_resolve_slot`).
pub fn resolve_slot(function: &SlotNames, op: &str, operand: &str) -> (r: Result<usize, Fault>)
    ensures
        match spec_resolve_slot(slot_names_view(*function), op@, operand@) {
            Ok(i) => r matches Ok(x) && x as int == i,
            Err(m) => r matches Err(f) && f.message@ == m,
        },
{
    let chars = chars_of(operand);
    assert(chars@.subrange(0, chars@.len() as int) =~= chars@);
    if let Some(index) = parse_unsigned_at(&chars, 0, chars.len(), usize::MAX as u128 + 1) {
        return Ok(index as usize);
    }
    let argument = str_eq(op, "ldarg") || str_eq(op, "ldarga") || str_eq(op, "starg");
    if argument && function.instance && str_eq(operand, "this") {
        return Ok(0);
    }
    let name = String::from_str(operand);
    let count = function.parameter_names.len();
    if argument {
        proof {
            lemma_name_position(names_view(function.parameter_names@), operand@, 0);
        }
        match find_name(&function.parameter_names, &name) {
            Some(i) => Ok(i + if function.instance { 1 } else { 0 }),
            None => {
                let mut message = String::from_str("unknown parameter name ");
                let q = quoted(operand);
                push_str(&mut message, q.as_str());
                Err(Fault::from_message(message))
            },
        }
    } else {
        proof {
            lemma_name_position(names_view(function.local_names@), operand@, 0);
        }
        match find_name(&function.local_names, &name) {
            Some(i) => Ok(i),
            None => {
                let mut message = String::from_str("unknown local name ");
                let q = quoted(operand);
                push_str(&mut message, q.as_str());
                Err(Fault::from_message(message))
            },
        }
    }
}

/// The canonical instructions compact spellings normalize to.
#[derive(Debug, Clone, Copy, PartialEq, Eq, Structural)]
pub enum CompactInstruction {
    Int(i32),
    Arg(usize),
    StoreArg(usize),
    Load(usize),
    Store(usize),
}

/// How `FromStr` reads an `i8`: an optional sign, then decimal digits whose
/// value fits.
pub open spec fn parse_i8(s: Seq<char>) -> Option<int> {
    if s.len() > 0 && s[0] == '-' {
        let d = s.drop_first();
        if d.len() > 0 && all_digits(d) && digits_value(d) <= 128 {
            Some(-(digits_value(d) as int))
        } else {
            None
        }
    } else {
        match parse_unsigned(s, 128) {
            Some(v) => Some(v as int),
            None => None,
        }
    }
}

/// The value of a `ldc.i4.` suffix.
pub open spec fn compact_constant(suffix: Seq<char>) -> Option<i32> {
    if suffix == "m1"@ {
        Some(-1i32)
    } else if suffix.len() == 1 && '0' <= suffix[0] <= '8' {
        Some((suffix[0] as int - '0' as int) as i32)
    } else {
        None
    }
}

/// The slot opcode family a word belongs to, by its five-letter base
/// followed by '.'.
pub open spec fn slot_base(word: Seq<char>) -> Option<Seq<char>> {
    if word.len() < 6 || word[5] != '.' {
        None
    } else {
        let base = word.subrange(0, 5);
        if base == "ldarg"@ || base == "starg"@ || base == "ldloc"@ || base == "stloc"@ {
            Some(base)
        } else {
            None
        }
    }
}

/// The instruction of a slot family at an index.
pub open spec fn slot_instruction(base: Seq<char>, index: usize) -> CompactInstruction {
    if base == "ldarg"@ {
        CompactInstruction::Arg(index)
    } else if base == "starg"@ {
        CompactInstruction::StoreArg(index)
    } else if base == "ldloc"@ {
        CompactInstruction::Load(index)
    } else {
        CompactInstruction::Store(index)
    }
}

/// What a compact spelling normalizes to: nothing for a word that is no
/// compact spelling, else its canonical instruction or the diagnostic.
pub open spec fn spec_compact_instruction(
    word: Seq<char>,
    operand: Seq<char>,
    function: SlotNamesView,
) -> Result<Option<CompactInstruction>, Seq<char>> {
    if word == "ldc.i4.s"@ {
        match parse_i8(operand) {
            Some(v) => Ok(Some(CompactInstruction::Int(v as i32))),
            None => Err("ldc.i4.s requires a signed 8-bit literal"@),
        }
    } else if word.len() >= 7 && word.subrange(0, 7) == "ldc.i4."@ {
        match compact_constant(word.subrange(7, word.len() as int)) {
            None => Err("invalid compact Int32 opcode"@),
            Some(v) => if operand.len() > 0 {
                Err("compact constant has no operand"@)
            } else {
                Ok(Some(CompactInstruction::Int(v)))
            },
        }
    } else {
        match slot_base(word) {
            None => Ok(None),
            Some(base) => {
                let suffix = word.subrange(6, word.len() as int);
                if suffix == "s"@ {
                    match spec_resolve_slot(function, base, operand) {
                        Err(m) => Err(m),
                        Ok(index) => if index > 255 {
                            Err("short slot index exceeds 255"@)
                        } else {
                            Ok(Some(slot_instruction(base, index as usize)))
                        },
                    }
                } else if base == "starg"@ || !(suffix.len() == 1 && '0' <= suffix[0] <= '3') {
                    Err("invalid compact slot opcode"@)
                } else if operand.len() > 0 {
                    Err("compact slot opcode has no operand"@)
                } else {
                    Ok(Some(slot_instruction(base, (suffix[0] as int - '0' as int) as usize)))
                }
            },
        }
    }
}

/// Reads an `i8` literal (see `parse_i8`).
fn parse_i8_chars(v: &Vec<char>) -> (r: Option<i8>)
    ensures
        match parse_i8(v@) {
            Some(x) => r == Some(x as i8),
            None => r is None,
        },
{
    let n = v.len();
    if n > 0 && v[0] == '-' {
        let ghost d = v@.drop_first();
        assert(v@.subrange(1, n as int) =~= d);
        if n == 1 {
            return None;
        }
        if v[1] == '+' {
            assert(!crate::numbers::is_digit(d[0]));
            return None;
        }
        return match parse_unsigned_at(v, 1, n, 129) {
            Some(x) => Some((0 - (x as i16)) as i8),
            None => None,
        };
    }
    assert(v@.subrange(0, n as int) =~= v@);
    match parse_unsigned_at(v, 0, n, 128) {
        Some(x) => Some(x as i8),
        None => None,
    }
}

/// Normalizes a compact instruction spelling (see `spec_compact_instruction`).
pub fn parse_compact_instruction(word: &str, operand: &str, function: &SlotNames) -> (r: Result<
    Option<CompactInstruction>,
    Fault,
>)
    ensures
        match spec_compact_instruction(word@, operand@, slot_names_view(*function)) {
            Ok(i) => r == Ok::<Option<CompactInstruction>, Fault>(i),
            Err(m) => r matches Err(f) && f.message@ == m,
        },
{
    proof {
        reveal_strlit("ldarg");
        reveal_strlit("starg");
        reveal_strlit("ldloc");
        reveal_strlit("stloc");
        assert("ldarg"@[0] == 'l' && "ldarg"@[2] == 'a');
        assert("starg"@[0] == 's' && "starg"@[2] == 'a');
        assert("ldloc"@[0] == 'l' && "ldloc"@[2] == 'l');
        assert("stloc"@[0] == 's' && "stloc"@[2] == 'l');
    }
    let w = chars_of(word);
    let o = chars_of(operand);
    let n = w.len();
    if chars_equal(&w, "ldc.i4.s") {
        return match parse_i8_chars(&o) {
            Some(v) => Ok(Some(CompactInstruction::Int(v as i32))),
            None => Err(Fault::new("ldc.i4.s requires a signed 8-bit literal")),
        };
    }
    if n >= 7 && chars_equal(&slice_chars(&w, 0, 7), "ldc.i4.") {
        let suffix = slice_chars(&w, 7, n);
        let value: i32 = if chars_equal(&suffix, "m1") {
            -1
        } else if suffix.len() == 1 && '0' <= suffix[0] && suffix[0] <= '8' {
            (suffix[0] as u32 - '0' as u32) as i32
        } else {
            return Err(Fault::new("invalid compact Int32 opcode"));
        };
        if o.len() > 0 {
            return Err(Fault::new("compact constant has no operand"));
        }
        return Ok(Some(CompactInstruction::Int(value)));
    }
    if n < 6 || w[5] != '.' {
        return Ok(None);
    }
    let base = slice_chars(&w, 0, 5);
    let (base_text, kind): (&str, u8) = if chars_equal(&base, "ldarg") {
        ("ldarg", 0)
    } else if chars_equal(&base, "starg") {
        ("starg", 1)
    } else if chars_equal(&base, "ldloc") {
        ("ldloc", 2)
    } else if chars_equal(&base, "stloc") {
        ("stloc", 3)
    } else {
        return Ok(None);
    };
    assert(base_text@ == base@);
    let suffix = slice_chars(&w, 6, n);
    let index: usize = if chars_equal(&suffix, "s") {
        let index = match resolve_slot(function, base_text, operand) {
            Ok(index) => index,
            Err(f) => return Err(f),
        };
        if index > 255 {
            return Err(Fault::new("short slot index exceeds 255"));
        }
        index
    } else {
        if kind == 1 || !(suffix.len() == 1 && '0' <= suffix[0] && suffix[0] <= '3') {
            return Err(Fault::new("invalid compact slot opcode"));
        }
        if o.len() > 0 {
            return Err(Fault::new("compact slot opcode has no operand"));
        }
        (suffix[0] as u32 - '0' as u32) as usize
    };
    Ok(Some(
        if kind == 0 {
            CompactInstruction::Arg(index)
        } else if kind == 1 {
            CompactInstruction::StoreArg(index)
        } else if kind == 2 {
            CompactInstruction::Load(index)
        } else {
            CompactInstruction::Store(index)
        },
    ))
}

} // verus!
