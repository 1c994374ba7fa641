//! The metadata type model shared by the assembler, the heap and the runtime policies.
use crate::text::str_eq;
use vstd::prelude::*;
use vstd::string::StringExecFns;

verus! {

/// A metadata type: primitives, nominal and constructed definitions, generic
/// parameters and the built-in reference, pointer and array shapes.
#[derive(Debug, PartialEq, Eq)]
pub enum Type {
    Void,
    Boolean,
    SByte,
    Byte,
    Int16,
    UInt16,
    Char,
    Int32,
    UInt32,
    Int64,
    UInt64,
    IntPtr,
    UIntPtr,
    Single,
    Double,
    String,
    Named(String),
    Constructed { definition: String, arguments: Vec<Type> },
    Scoped { module: String, name: String, arguments: Vec<Type> },
    TypeParameter(u16),
    MethodTypeParameter(u16),
    Array(Box<Type>),
    ByRef(Box<Type>),
    ReadOnlyByRef(Box<Type>),
    Ptr(Box<Type>),
    InterfaceRef(Box<Type>),
    Ref(Box<Type>),
}

/// The primitive type spelled by a metadata name, if it is one.
pub open spec fn primitive_named(name: Seq<char>) -> Option<TypeView> {
    if name == "Void"@ {
        Some(TypeView::Void)
    } else if name == "Boolean"@ {
        Some(TypeView::Boolean)
    } else if name == "SByte"@ {
        Some(TypeView::SByte)
    } else if name == "Byte"@ {
        Some(TypeView::Byte)
    } else if name == "Int16"@ {
        Some(TypeView::Int16)
    } else if name == "UInt16"@ {
        Some(TypeView::UInt16)
    } else if name == "Char"@ {
        Some(TypeView::Char)
    } else if name == "Int32"@ {
        Some(TypeView::Int32)
    } else if name == "UInt32"@ {
        Some(TypeView::UInt32)
    } else if name == "Int64"@ {
        Some(TypeView::Int64)
    } else if name == "UInt64"@ {
        Some(TypeView::UInt64)
    } else if name == "IntPtr"@ {
        Some(TypeView::IntPtr)
    } else if name == "UIntPtr"@ {
        Some(TypeView::UIntPtr)
    } else if name == "Single"@ {
        Some(TypeView::Single)
    } else if name == "Double"@ {
        Some(TypeView::Double)
    } else if name == "String"@ {
        Some(TypeView::String)
    } else {
        None
    }
}

/// The type a metadata name denotes: the primitive it spells, else a nominal reference.
pub open spec fn type_from_name(name: Seq<char>) -> TypeView {
    match primitive_named(name) {
        Some(p) => p,
        None => TypeView::Named(name),
    }
}

/// Whether a type is one of the primitive runtime types.
pub open spec fn spec_is_primitive(ty: TypeView) -> bool {
    match ty {
        TypeView::Void | TypeView::Boolean | TypeView::SByte | TypeView::Byte | TypeView::Int16
        | TypeView::UInt16 | TypeView::Char | TypeView::Int32 | TypeView::UInt32 | TypeView::Int64
        | TypeView::UInt64 | TypeView::IntPtr | TypeView::UIntPtr | TypeView::Single
        | TypeView::Double | TypeView::String => true,
        _ => false,
    }
}

/// The nominal definition name of a named, constructed or scoped type.
pub open spec fn definition_name_of(ty: TypeView) -> Option<Seq<char>> {
    match ty {
        TypeView::Named(name) => Some(name),
        TypeView::Constructed { definition, .. } => Some(definition),
        TypeView::Scoped { name, .. } => Some(name),
        _ => None,
    }
}

impl Type {
    /// The type a metadata name denotes: a primitive or a nominal reference.
    pub fn from_name(name: &str) -> (ty: Type)
        ensures
            ty@ == type_from_name(name@),
    {
        if str_eq(name, "Void") {
            Type::Void
        } else if str_eq(name, "Boolean") {
            Type::Boolean
        } else if str_eq(name, "SByte") {
            Type::SByte
        } else if str_eq(name, "Byte") {
            Type::Byte
        } else if str_eq(name, "Int16") {
            Type::Int16
        } else if str_eq(name, "UInt16") {
            Type::UInt16
        } else if str_eq(name, "Char") {
            Type::Char
        } else if str_eq(name, "Int32") {
            Type::Int32
        } else if str_eq(name, "UInt32") {
            Type::UInt32
        } else if str_eq(name, "Int64") {
            Type::Int64
        } else if str_eq(name, "UInt64") {
            Type::UInt64
        } else if str_eq(name, "IntPtr") {
            Type::IntPtr
        } else if str_eq(name, "UIntPtr") {
            Type::UIntPtr
        } else if str_eq(name, "Single") {
            Type::Single
        } else if str_eq(name, "Double") {
            Type::Double
        } else if str_eq(name, "String") {
            Type::String
        } else {
            Type::Named(String::from_str(name))
        }
    }

    /// Whether this is one of the primitive runtime types.
    pub fn is_primitive(&self) -> (b: bool)
        ensures
            b == spec_is_primitive(self@),
    {
        match self {
            Type::Void | Type::Boolean | Type::SByte | Type::Byte | Type::Int16 | Type::UInt16
            | Type::Char | Type::Int32 | Type::UInt32 | Type::Int64 | Type::UInt64 | Type::IntPtr
            | Type::UIntPtr | Type::Single | Type::Double | Type::String => true,
            _ => false,
        }
    }

    /// The nominal definition name, if the type has one.
    pub fn definition_name(&self) -> (name: Option<&String>)
        ensures
            match name {
                Some(n) => definition_name_of(self@) == Some(n@),
                None => definition_name_of(self@) is None,
            },
    {
        match self {
            Type::Named(name) => Some(name),
            Type::Constructed { definition, .. } => Some(definition),
            Type::Scoped { name, .. } => Some(name),
            _ => None,
        }
    }
}

/// The mathematical value of a type: names as character sequences and
/// argument lists as sequences.
pub ghost enum TypeView {
    Void,
    Boolean,
    SByte,
    Byte,
    Int16,
    UInt16,
    Char,
    Int32,
    UInt32,
    Int64,
    UInt64,
    IntPtr,
    UIntPtr,
    Single,
    Double,
    String,
    Named(Seq<char>),
    Constructed { definition: Seq<char>, arguments: Seq<TypeView> },
    Scoped { module: Seq<char>, name: Seq<char>, arguments: Seq<TypeView> },
    TypeParameter(u16),
    MethodTypeParameter(u16),
    Array(Box<TypeView>),
    ByRef(Box<TypeView>),
    ReadOnlyByRef(Box<TypeView>),
    Ptr(Box<TypeView>),
    InterfaceRef(Box<TypeView>),
    Ref(Box<TypeView>),
}

/// The views of the first `n` types of a list.
pub open spec fn type_views(s: Seq<Type>, n: nat) -> Seq<TypeView>
    decreases s, n,
{
    if n == 0 || n > s.len() {
        Seq::empty()
    } else {
        type_views(s, (n - 1) as nat).push(type_view(s[n - 1]))
    }
}

/// The view of every type in a list.
pub open spec fn list_view(s: Seq<Type>) -> Seq<TypeView> {
    type_views(s, s.len())
}

pub open spec fn type_view(t: Type) -> TypeView
    decreases t, 0nat,
{
    match t {
        Type::Void => TypeView::Void,
        Type::Boolean => TypeView::Boolean,
        Type::SByte => TypeView::SByte,
        Type::Byte => TypeView::Byte,
        Type::Int16 => TypeView::Int16,
        Type::UInt16 => TypeView::UInt16,
        Type::Char => TypeView::Char,
        Type::Int32 => TypeView::Int32,
        Type::UInt32 => TypeView::UInt32,
        Type::Int64 => TypeView::Int64,
        Type::UInt64 => TypeView::UInt64,
        Type::IntPtr => TypeView::IntPtr,
        Type::UIntPtr => TypeView::UIntPtr,
        Type::Single => TypeView::Single,
        Type::Double => TypeView::Double,
        Type::String => TypeView::String,
        Type::Named(name) => TypeView::Named(name@),
        Type::Constructed { definition, arguments } => TypeView::Constructed {
            definition: definition@,
            arguments: type_views(arguments@, arguments@.len()),
        },
        Type::Scoped { module, name, arguments } => TypeView::Scoped {
            module: module@,
            name: name@,
            arguments: type_views(arguments@, arguments@.len()),
        },
        Type::TypeParameter(i) => TypeView::TypeParameter(i),
        Type::MethodTypeParameter(i) => TypeView::MethodTypeParameter(i),
        Type::Array(t) => TypeView::Array(Box::new(type_view(*t))),
        Type::ByRef(t) => TypeView::ByRef(Box::new(type_view(*t))),
        Type::ReadOnlyByRef(t) => TypeView::ReadOnlyByRef(Box::new(type_view(*t))),
        Type::Ptr(t) => TypeView::Ptr(Box::new(type_view(*t))),
        Type::InterfaceRef(t) => TypeView::InterfaceRef(Box::new(type_view(*t))),
        Type::Ref(t) => TypeView::Ref(Box::new(type_view(*t))),
    }
}

impl View for Type {
    type V = TypeView;

    open spec fn view(&self) -> TypeView {
        type_view(*self)
    }
}

/// Each element of a type list views to the matching element of its list view.
pub proof fn lemma_type_views(s: Seq<Type>, n: nat)
    requires
        n <= s.len(),
    ensures
        type_views(s, n).len() == n,
        forall|i: int| 0 <= i < n ==> #[trigger] type_views(s, n)[i] == type_view(s[i]),
    decreases n,
{
    if n > 0 {
        lemma_type_views(s, (n - 1) as nat);
    }
}

/// Two type lists whose elements have equal views have equal list views.
pub proof fn lemma_list_view_ext(a: Seq<Type>, b: Seq<Type>)
    requires
        a.len() == b.len(),
        forall|i: int| 0 <= i < a.len() ==> type_view(#[trigger] a[i]) == type_view(b[i]),
    ensures
        list_view(a) == list_view(b),
{
    lemma_type_views(a, a.len());
    lemma_type_views(b, b.len());
    assert(list_view(a) =~= list_view(b));
}

/// A deep copy of a list of types.
pub fn clone_types(types: &Vec<Type>) -> (r: Vec<Type>)
    ensures
        list_view(r@) == list_view(types@),
        r@.len() == types@.len(),
    decreases types@, 1nat,
{
    let mut r: Vec<Type> = Vec::new();
    let mut i: usize = 0;
    while i < types.len()
        invariant
            i <= types@.len(),
            r@.len() == i,
            forall|j: int| 0 <= j < i ==> type_view(#[trigger] r@[j]) == type_view(types@[j]),
        decreases types@.len() - i,
    {
        let t = clone_type(&types[i]);
        r.push(t);
        i += 1;
    }
    proof {
        lemma_list_view_ext(r@, types@);
    }
    r
}

/// A deep copy of a type.
pub fn clone_type(t: &Type) -> (r: Type)
    ensures
        r@ == t@,
    decreases t, 0nat,
{
    match t {
        Type::Void => Type::Void,
        Type::Boolean => Type::Boolean,
        Type::SByte => Type::SByte,
        Type::Byte => Type::Byte,
        Type::Int16 => Type::Int16,
        Type::UInt16 => Type::UInt16,
        Type::Char => Type::Char,
        Type::Int32 => Type::Int32,
        Type::UInt32 => Type::UInt32,
        Type::Int64 => Type::Int64,
        Type::UInt64 => Type::UInt64,
        Type::IntPtr => Type::IntPtr,
        Type::UIntPtr => Type::UIntPtr,
        Type::Single => Type::Single,
        Type::Double => Type::Double,
        Type::String => Type::String,
        Type::Named(name) => Type::Named(name.clone()),
        Type::Constructed { definition, arguments } => Type::Constructed {
            definition: definition.clone(),
            arguments: clone_types(arguments),
        },
        Type::Scoped { module, name, arguments } => Type::Scoped {
            module: module.clone(),
            name: name.clone(),
            arguments: clone_types(arguments),
        },
        Type::TypeParameter(i) => Type::TypeParameter(*i),
        Type::MethodTypeParameter(i) => Type::MethodTypeParameter(*i),
        Type::Array(t) => Type::Array(Box::new(clone_type(t))),
        Type::ByRef(t) => Type::ByRef(Box::new(clone_type(t))),
        Type::ReadOnlyByRef(t) => Type::ReadOnlyByRef(Box::new(clone_type(t))),
        Type::Ptr(t) => Type::Ptr(Box::new(clone_type(t))),
        Type::InterfaceRef(t) => Type::InterfaceRef(Box::new(clone_type(t))),
        Type::Ref(t) => Type::Ref(Box::new(clone_type(t))),
    }
}

impl Clone for Type {
    fn clone(&self) -> (r: Self)
        ensures
            r@ == self@,
    {
        clone_type(self)
    }
}


/// Whether two type lists have equal views.
pub fn type_lists_equal(a: &Vec<Type>, b: &Vec<Type>) -> (r: bool)
    ensures
        r == (list_view(a@) == list_view(b@)),
    decreases a@, 1nat,
{
    proof {
        lemma_type_views(a@, a@.len());
        lemma_type_views(b@, b@.len());
    }
    if a.len() != b.len() {
        return false;
    }
    let mut i: usize = 0;
    while i < a.len()
        invariant
            i <= a@.len() == b@.len(),
            list_view(a@).len() == a@.len(),
            list_view(b@).len() == b@.len(),
            forall|j: int| 0 <= j < a@.len() ==> #[trigger] list_view(a@)[j] == a@[j]@,
            forall|j: int| 0 <= j < b@.len() ==> #[trigger] list_view(b@)[j] == b@[j]@,
            forall|j: int| 0 <= j < i ==> a@[j]@ == b@[j]@,
        decreases a.len() - i,
    {
        assert(decreases_to!(a@ => a@[i as int]));
        if !types_equal(&a[i], &b[i]) {
            assert(list_view(a@)[i as int] != list_view(b@)[i as int]);
            return false;
        }
        i += 1;
    }
    assert(list_view(a@) =~= list_view(b@));
    true
}

/// Whether two types have equal views: the same shape, names and arguments.
pub fn types_equal(a: &Type, b: &Type) -> (r: bool)
    ensures
        r == (a@ == b@),
    decreases a, 0nat,
{
    match (a, b) {
        (Type::Void, Type::Void) | (Type::Boolean, Type::Boolean) | (Type::SByte, Type::SByte)
        | (Type::Byte, Type::Byte) | (Type::Int16, Type::Int16) | (Type::UInt16, Type::UInt16)
        | (Type::Char, Type::Char) | (Type::Int32, Type::Int32) | (Type::UInt32, Type::UInt32)
        | (Type::Int64, Type::Int64) | (Type::UInt64, Type::UInt64) | (Type::IntPtr, Type::IntPtr)
        | (Type::UIntPtr, Type::UIntPtr) | (Type::Single, Type::Single) | (Type::Double, Type::Double)
        | (Type::String, Type::String) => true,
        (Type::Named(x), Type::Named(y)) => *x == *y,
        (
            Type::Constructed { definition: d1, arguments: a1 },
            Type::Constructed { definition: d2, arguments: a2 },
        ) => *d1 == *d2 && type_lists_equal(a1, a2),
        (
            Type::Scoped { module: m1, name: n1, arguments: a1 },
            Type::Scoped { module: m2, name: n2, arguments: a2 },
        ) => *m1 == *m2 && *n1 == *n2 && type_lists_equal(a1, a2),
        (Type::TypeParameter(x), Type::TypeParameter(y)) => *x == *y,
        (Type::MethodTypeParameter(x), Type::MethodTypeParameter(y)) => *x == *y,
        (Type::Array(x), Type::Array(y)) => types_equal(x, y),
        (Type::ByRef(x), Type::ByRef(y)) => types_equal(x, y),
        (Type::ReadOnlyByRef(x), Type::ReadOnlyByRef(y)) => types_equal(x, y),
        (Type::Ptr(x), Type::Ptr(y)) => types_equal(x, y),
        (Type::InterfaceRef(x), Type::InterfaceRef(y)) => types_equal(x, y),
        (Type::Ref(x), Type::Ref(y)) => types_equal(x, y),
        _ => false,
    }
}

} // verus!
