//! Generic contracts: their textual form, their well-formedness within a
//! declaring context, and the structural questions asked of their bounds.
use crate::assembler::{find_name, name_position, names_view, parse_type, spec_parse_type};
use crate::fault::Fault;
use crate::numbers::{parse_unsigned, parse_unsigned_at};
use crate::syntax::{is_whitespace, is_whitespace_char, lemma_trim_len, slice_chars, string_of, trim_start};
use crate::text::{chars_of, str_eq};
use crate::types::{clone_type, lemma_type_views, list_view, types_equal, Type, TypeView};
use vstd::prelude::*;

verus! {

/// What a generic constraint demands of its argument.
#[derive(Debug, PartialEq, Eq)]
pub enum ConstraintKind {
    NotVoid,
    NotReference,
    TypeBound(Type),
}

/// The mathematical value of a constraint kind.
pub ghost enum ConstraintKindView {
    NotVoid,
    NotReference,
    TypeBound(TypeView),
}

/// One restriction on one generic parameter.
#[derive(Debug, PartialEq, Eq)]
pub struct GenericConstraint {
    pub parameter: u16,
    pub kind: ConstraintKind,
}

pub open spec fn kind_view(k: ConstraintKind) -> ConstraintKindView {
    match k {
        ConstraintKind::NotVoid => ConstraintKindView::NotVoid,
        ConstraintKind::NotReference => ConstraintKindView::NotReference,
        ConstraintKind::TypeBound(t) => ConstraintKindView::TypeBound(t@),
    }
}

impl View for GenericConstraint {
    type V = (u16, ConstraintKindView);

    open spec fn view(&self) -> (u16, ConstraintKindView) {
        (self.parameter, kind_view(self.kind))
    }
}

/// The views of a list of constraints.
pub open spec fn constraints_view(cs: Seq<GenericConstraint>) -> Seq<(u16, ConstraintKindView)> {
    Seq::new(cs.len(), |i: int| cs[i]@)
}

/// The first whitespace position at or after `from`, else the length.
pub open spec fn first_whitespace(s: Seq<char>, from: int) -> int
    decreases s.len() - from,
{
    if from < 0 || from >= s.len() {
        s.len() as int
    } else if is_whitespace(s[from]) {
        from
    } else {
        first_whitespace(s, from + 1)
    }
}

pub proof fn lemma_first_whitespace(s: Seq<char>, from: int)
    requires
        0 <= from <= s.len(),
    ensures
        from <= first_whitespace(s, from) <= s.len(),
        forall|j: int| from <= j < first_whitespace(s, from) ==> !is_whitespace(#[trigger] s[j]),
        first_whitespace(s, from) < s.len() ==> is_whitespace(s[first_whitespace(s, from)]),
    decreases s.len() - from,
{
    if from < s.len() && !is_whitespace(s[from]) {
        lemma_first_whitespace(s, from + 1);
    }
}

/// The whitespace-separated words of a text (`str::split_whitespace`).
pub open spec fn words(s: Seq<char>) -> Seq<Seq<char>>
    decreases s.len(),
{
    let t = trim_start(s);
    if t.len() == 0 {
        Seq::empty()
    } else {
        let k = first_whitespace(t, 0);
        proof {
            lemma_trim_len(s);
            lemma_trim_start_first(s);
            lemma_first_whitespace(t, 1);
        }
        seq![t.subrange(0, k)] + words(t.subrange(k, t.len() as int))
    }
}

/// What remains after trimming starts with a non-whitespace character.
pub proof fn lemma_trim_start_first(s: Seq<char>)
    ensures
        trim_start(s).len() > 0 ==> !is_whitespace(trim_start(s)[0]),
    decreases s.len(),
{
    if s.len() > 0 && is_whitespace(s[0]) {
        lemma_trim_start_first(s.drop_first());
    }
}

/// The views of a list of character vectors.
pub open spec fn words_view(v: Seq<Vec<char>>) -> Seq<Seq<char>> {
    Seq::new(v.len(), |i: int| v[i]@)
}

proof fn lemma_trim_start_nonspace(s: Seq<char>)
    requires
        s.len() > 0,
        !is_whitespace(s[0]),
    ensures
        trim_start(s) == s,
{
}

/// Splits a text into its whitespace-separated words.
pub fn split_words(s: &Vec<char>) -> (r: Vec<Vec<char>>)
    ensures
        words_view(r@) == words(s@),
{
    let n = s.len();
    let mut r: Vec<Vec<char>> = Vec::new();
    let mut i: usize = 0;
    assert(s@.subrange(0, n as int) =~= s@);
    while i < n
        invariant
            i <= n == s@.len(),
            words(s@) == words_view(r@) + words(s@.subrange(i as int, n as int)),
        decreases n - i,
    {
        if is_whitespace_char(s[i]) {
            proof {
                let t = s@.subrange(i as int, n as int);
                assert(t.drop_first() =~= s@.subrange(i + 1, n as int));
                assert(trim_start(t) == trim_start(t.drop_first()));
                assert(words(t) == words(t.drop_first()));
            }
            i += 1;
        } else {
            let start = i;
            while i < n && !is_whitespace_char(s[i])
                invariant
                    start <= i <= n == s@.len(),
                    forall|j: int| start <= j < i ==> !is_whitespace(#[trigger] s@[j]),
                decreases n - i,
            {
                i += 1;
            }
            let word = slice_chars(s, start, i);
            proof {
                let t = s@.subrange(start as int, n as int);
                lemma_trim_start_nonspace(t);
                lemma_first_whitespace(t, 0);
                let k = first_whitespace(t, 0);
                if k < i - start {
                    assert(t[k] == s@[start + k]);
                }
                if (i as int) < n {
                    assert(t[i - start] == s@[i as int]);
                    assert(k <= i - start);
                } else {
                    assert(k <= i - start);
                }
                assert(k == i - start);
                assert(t.subrange(0, k) =~= word@);
                assert(t.subrange(k, t.len() as int) =~= s@.subrange(i as int, n as int));
                assert(words_view(r@.push(word)) =~= words_view(r@).push(word@));
                assert(words_view(r@) + words(t) =~= words_view(r@.push(word)) + words(
                    s@.subrange(i as int, n as int),
                ));
            }
            r.push(word);
        }
    }
    proof {
        assert(words(s@.subrange(n as int, n as int)) =~= Seq::<Seq<char>>::empty());
        assert(words_view(r@) + Seq::<Seq<char>>::empty() =~= words_view(r@));
    }
    r
}


/// The generic parameter a constraint names: a declared name, or an index
/// below the number of parameters.
pub open spec fn constraint_parameter(word: Seq<char>, names: Seq<Option<Seq<char>>>) -> Option<u16> {
    match name_position(names, word, 0) {
        Some(i) => Some((i % 0x1_0000) as u16),
        None => match parse_unsigned(word, usize::MAX as nat + 1) {
            Some(i) => if i < names.len() {
                Some((i % 0x1_0000) as u16)
            } else {
                None
            },
            None => None,
        },
    }
}

/// The restriction a word spells.
pub open spec fn restriction(word: Seq<char>) -> Result<ConstraintKindView, Seq<char>> {
    if word == "notvoid"@ {
        Ok(ConstraintKindView::NotVoid)
    } else if word == "notreference"@ {
        Ok(ConstraintKindView::NotReference)
    } else {
        match spec_parse_type(word) {
            Ok(t) => Ok(ConstraintKindView::TypeBound(t)),
            Err(m) => Err(m),
        }
    }
}

/// The constraints spelled by the words from the `k`th on.
pub open spec fn restrictions(ws: Seq<Seq<char>>, k: nat, parameter: u16) -> Result<
    Seq<(u16, ConstraintKindView)>,
    Seq<char>,
>
    decreases ws.len() - k,
{
    if k >= ws.len() {
        Ok(Seq::empty())
    } else {
        match restriction(ws[k as int]) {
            Err(m) => Err(m),
            Ok(kind) => match restrictions(ws, k + 1, parameter) {
                Err(m) => Err(m),
                Ok(rest) => Ok(seq![(parameter, kind)] + rest),
            },
        }
    }
}

/// A constraint line: a parameter followed by its restrictions.
pub open spec fn spec_parse_constraints(text: Seq<char>, names: Seq<Option<Seq<char>>>) -> Result<
    Seq<(u16, ConstraintKindView)>,
    Seq<char>,
> {
    let ws = words(text);
    if ws.len() == 0 {
        Err("constraint requires a parameter"@)
    } else {
        match constraint_parameter(ws[0], names) {
            None => Err("unknown constraint parameter"@),
            Some(p) => match restrictions(ws, 1, p) {
                Err(m) => Err(m),
                Ok(cs) => if cs.len() == 0 {
                    Err("constraint requires a restriction"@)
                } else {
                    Ok(cs)
                },
            },
        }
    }
}

/// Parses a constraint line (see `spec_parse_constraints`).
pub fn parse(text: &str, names: &Vec<Option<String>>) -> (r: Result<Vec<GenericConstraint>, Fault>)
    ensures
        match spec_parse_constraints(text@, names_view(names@)) {
            Ok(cs) => r matches Ok(v) && constraints_view(v@) == cs,
            Err(m) => r matches Err(f) && f.message@ == m,
        },
{
    let chars = chars_of(text);
    let ws = split_words(&chars);
    if ws.len() == 0 {
        return Err(Fault::new("constraint requires a parameter"));
    }
    let first = &ws[0];
    assert(first@ == words(text@)[0]);
    let first_text = string_of(first);
    let ghost nv = names_view(names@);
    let found = find_name(names, &first_text);
    let parameter: u16 = match found {
        Some(i) => (i % 0x1_0000) as u16,
        None => {
            assert(first@.subrange(0, first@.len() as int) =~= first@);
            match parse_unsigned_at(first, 0, first.len(), usize::MAX as u128 + 1) {
                Some(index) => {
                    if (index as usize) < names.len() {
                        ((index as usize) % 0x1_0000) as u16
                    } else {
                        return Err(Fault::new("unknown constraint parameter"));
                    }
                },
                None => return Err(Fault::new("unknown constraint parameter")),
            }
        },
    };
    assert(constraint_parameter(first@, nv) == Some(parameter));
    let mut result: Vec<GenericConstraint> = Vec::new();
    let mut k: usize = 1;
    while k < ws.len()
        invariant
            1 <= k <= ws@.len(),
            words_view(ws@) == words(text@),
            words(text@).len() > 0,
            constraint_parameter(words(text@)[0], names_view(names@)) == Some(parameter),
            result@.len() == k - 1,
            restrictions(words(text@), 1, parameter) == match restrictions(
                words(text@),
                k as nat,
                parameter,
            ) {
                Ok(rest) => Ok(constraints_view(result@) + rest),
                Err(m) => Err::<Seq<(u16, ConstraintKindView)>, Seq<char>>(m),
            },
        decreases ws.len() - k,
    {
        let word = &ws[k];
        assert(word@ == words(text@)[k as int]);
        let word_text = string_of(word);
        let kind = if str_eq(word_text.as_str(), "notvoid") {
            ConstraintKind::NotVoid
        } else if str_eq(word_text.as_str(), "notreference") {
            ConstraintKind::NotReference
        } else {
            match parse_type(word_text.as_str()) {
                Ok(t) => ConstraintKind::TypeBound(t),
                Err(f) => return Err(f),
            }
        };
        let c = GenericConstraint { parameter, kind };
        proof {
            assert(constraints_view(result@.push(c)) =~= constraints_view(result@).push(c@));
            match restrictions(words(text@), (k + 1) as nat, parameter) {
                Ok(rest) => {
                    assert(constraints_view(result@) + (seq![c@] + rest) =~= constraints_view(
                        result@.push(c),
                    ) + rest);
                },
                Err(m) => {},
            }
        }
        result.push(c);
        k += 1;
    }
    assert(constraints_view(result@) + Seq::<(u16, ConstraintKindView)>::empty() =~= constraints_view(
        result@,
    ));
    if result.len() == 0 {
        return Err(Fault::new("constraint requires a restriction"));
    }
    Ok(result)
}

/// The first constraint, from the `i`th on, that names a parameter outside
/// the declaring context or repeats an earlier one decides the outcome.
pub open spec fn validate_from(cs: Seq<(u16, ConstraintKindView)>, arity: nat, i: nat) -> Result<
    (),
    Seq<char>,
>
    decreases cs.len() - i,
{
    if i >= cs.len() {
        Ok(())
    } else if cs[i as int].0 >= arity {
        Err("generic constraint parameter outside declaring context"@)
    } else if cs.take(i as int).contains(cs[i as int]) {
        Err("duplicate generic constraint"@)
    } else {
        validate_from(cs, arity, i + 1)
    }
}

/// Whether two constraints are the same.
pub fn same_constraint(a: &GenericConstraint, b: &GenericConstraint) -> (r: bool)
    ensures
        r == (a@ == b@),
{
    if a.parameter != b.parameter {
        return false;
    }
    match (&a.kind, &b.kind) {
        (ConstraintKind::NotVoid, ConstraintKind::NotVoid) => true,
        (ConstraintKind::NotReference, ConstraintKind::NotReference) => true,
        (ConstraintKind::TypeBound(x), ConstraintKind::TypeBound(y)) => types_equal(x, y),
        _ => false,
    }
}

/// Checks constraints against the number of parameters of their declaring
/// context (see `validate_from`).
pub fn validate(constraints: &Vec<GenericConstraint>, arity: usize) -> (r: Result<(), Fault>)
    ensures
        match validate_from(constraints_view(constraints@), arity as nat, 0) {
            Ok(()) => r is Ok,
            Err(m) => r matches Err(f) && f.message@ == m,
        },
{
    let ghost cs = constraints_view(constraints@);
    let mut i: usize = 0;
    while i < constraints.len()
        invariant
            i <= constraints@.len(),
            cs == constraints_view(constraints@),
            validate_from(cs, arity as nat, 0) == validate_from(cs, arity as nat, i as nat),
        decreases constraints.len() - i,
    {
        assert(cs[i as int] == constraints@[i as int]@);
        if constraints[i].parameter as usize >= arity {
            return Err(Fault::new("generic constraint parameter outside declaring context"));
        }
        let mut j: usize = 0;
        while j < i
            invariant
                j <= i < constraints@.len(),
                cs == constraints_view(constraints@),
                validate_from(cs, arity as nat, 0) == validate_from(cs, arity as nat, i as nat),
                cs[i as int].0 < arity,
                forall|l: int| 0 <= l < j ==> cs[l] != cs[i as int],
            decreases i - j,
        {
            assert(cs[j as int] == constraints@[j as int]@);
            assert(cs[i as int] == constraints@[i as int]@);
            if same_constraint(&constraints[j], &constraints[i]) {
                assert(cs[j as int] == constraints@[j as int]@);
                assert(cs.take(i as int)[j as int] == cs[i as int]);
                assert(cs.take(i as int).contains(cs[i as int]));
                return Err(Fault::new("duplicate generic constraint"));
            }
            j += 1;
        }
        assert(!cs.take(i as int).contains(cs[i as int]));
        i += 1;
    }
    Ok(())
}

/// Whether a type still mentions a generic parameter.
pub open spec fn symbolic(t: TypeView) -> bool
    decreases t, 0nat,
{
    match t {
        TypeView::TypeParameter(_) | TypeView::MethodTypeParameter(_) => true,
        TypeView::Constructed { arguments, .. } => any_symbolic(arguments, arguments.len()),
        TypeView::Scoped { arguments, .. } => any_symbolic(arguments, arguments.len()),
        TypeView::ByRef(b) => symbolic(*b),
        TypeView::ReadOnlyByRef(b) => symbolic(*b),
        TypeView::InterfaceRef(b) => symbolic(*b),
        TypeView::Array(b) => symbolic(*b),
        TypeView::Ptr(b) => symbolic(*b),
        _ => false,
    }
}

/// Whether one of the first `n` types is symbolic.
pub open spec fn any_symbolic(s: Seq<TypeView>, n: nat) -> bool
    decreases s, n,
{
    if n == 0 || n > s.len() {
        false
    } else {
        any_symbolic(s, (n - 1) as nat) || symbolic(s[n - 1])
    }
}

fn list_symbolic(s: &Vec<Type>) -> (r: bool)
    ensures
        r == any_symbolic(list_view(s@), s@.len()),
    decreases s@, 1nat,
{
    proof {
        lemma_type_views(s@, s@.len());
    }
    let mut i: usize = 0;
    while i < s.len()
        invariant
            i <= s@.len(),
            list_view(s@).len() == s@.len(),
            forall|j: int| 0 <= j < s@.len() ==> #[trigger] list_view(s@)[j] == s@[j]@,
            !any_symbolic(list_view(s@), i as nat),
        decreases s.len() - i,
    {
        assert(decreases_to!(s@ => s@[i as int]));
        if is_symbolic(&s[i]) {
            proof {
                lemma_any_symbolic_grows(list_view(s@), (i + 1) as nat, s@.len());
            }
            return true;
        }
        i += 1;
    }
    false
}

proof fn lemma_any_symbolic_grows(s: Seq<TypeView>, m: nat, n: nat)
    requires
        m <= n <= s.len(),
        any_symbolic(s, m),
    ensures
        any_symbolic(s, n),
    decreases n - m,
{
    if m < n {
        lemma_any_symbolic_grows(s, m, (n - 1) as nat);
    }
}

/// Whether a type still mentions a generic parameter (see `symbolic`).
pub fn is_symbolic(t: &Type) -> (r: bool)
    ensures
        r == symbolic(t@),
    decreases t, 0nat,
{
    match t {
        Type::TypeParameter(_) | Type::MethodTypeParameter(_) => true,
        Type::Constructed { arguments, .. } => {
            proof {
                lemma_type_views(arguments@, arguments@.len());
            }
            list_symbolic(arguments)
        },
        Type::Scoped { arguments, .. } => {
            proof {
                lemma_type_views(arguments@, arguments@.len());
            }
            list_symbolic(arguments)
        },
        Type::ByRef(b) => is_symbolic(b),
        Type::ReadOnlyByRef(b) => is_symbolic(b),
        Type::InterfaceRef(b) => is_symbolic(b),
        Type::Array(b) => is_symbolic(b),
        Type::Ptr(b) => is_symbolic(b),
        _ => false,
    }
}

/// The type bounds among the first `n` constraints, in order.
pub open spec fn bounds_of(cs: Seq<(u16, ConstraintKindView)>, n: nat) -> Seq<TypeView>
    decreases n,
{
    if n == 0 || n > cs.len() {
        Seq::empty()
    } else {
        match cs[n - 1].1 {
            ConstraintKindView::TypeBound(t) => bounds_of(cs, (n - 1) as nat).push(t),
            _ => bounds_of(cs, (n - 1) as nat),
        }
    }
}

/// The type bounds of a constraint list, in order.
pub fn bounds(constraints: &Vec<GenericConstraint>) -> (r: Vec<Type>)
    ensures
        list_view(r@) == bounds_of(constraints_view(constraints@), constraints@.len()),
{
    let ghost cs = constraints_view(constraints@);
    let mut r: Vec<Type> = Vec::new();
    let mut i: usize = 0;
    while i < constraints.len()
        invariant
            i <= constraints@.len(),
            cs == constraints_view(constraints@),
            list_view(r@) == bounds_of(cs, i as nat),
        decreases constraints.len() - i,
    {
        if let ConstraintKind::TypeBound(t) = &constraints[i].kind {
            let c = clone_type(t);
            proof {
                lemma_type_views(r@, r@.len());
                lemma_type_views(r@.push(c), r@.len() + 1);
                assert(list_view(r@.push(c)) =~= list_view(r@).push(c@));
            }
            r.push(c);
        }
        i += 1;
    }
    r
}

} // verus!
