//! Nominal, single-target managed callables: their identity and the signature
//! compatibility a binding requires.
use crate::fault::Fault;
use crate::metadata::{FunctionRef, FunctionRefView, MemberId, MemberIdView};
use crate::types::{list_view, lemma_type_views, type_lists_equal, types_equal, Type, TypeView};
use crate::value::{Value, ValueView};
use vstd::prelude::*;

verus! {

/// An opaque runtime binding of a delegate type to one target and, for an
/// instance target, its receiver.
#[derive(Debug)]
pub struct Delegate {
    pub ty: Type,
    pub target: FunctionRef,
    pub receiver: Option<Box<Value>>,
}

/// The receiver of a binding, by view.
pub open spec fn receiver_view(r: Option<Box<Value>>) -> Option<ValueView> {
    match r {
        Some(b) => Some((*b)@),
        None => None,
    }
}

/// Two receivers denote the same binding: both absent, or both references to
/// the same storage location of the same heap.
pub open spec fn same_receiver(a: Option<ValueView>, b: Option<ValueView>) -> bool {
    match (a, b) {
        (None, None) => true,
        (
            Some(ValueView::SlotReference { heap: g, allocation: x, path: p }),
            Some(ValueView::SlotReference { heap: h, allocation: y, path: q }),
        ) => g == h && x == y && p == q,
        _ => false,
    }
}

/// Two delegates are equal when their types, targets and receivers are.
pub open spec fn same_delegate(a: Delegate, b: Delegate) -> bool {
    a.ty@ == b.ty@ && a.target@ == b.target@ && same_receiver(
        receiver_view(a.receiver),
        receiver_view(b.receiver),
    )
}

fn optional_strings_equal(a: &Option<String>, b: &Option<String>) -> (r: bool)
    ensures
        r == (match (a, b) {
            (None, None) => true,
            (Some(x), Some(y)) => x@ == y@,
            _ => false,
        }),
{
    match (a, b) {
        (None, None) => true,
        (Some(x), Some(y)) => *x == *y,
        _ => false,
    }
}

fn member_ids_equal(a: &Option<MemberId>, b: &Option<MemberId>) -> (r: bool)
    ensures
        r == (match (a, b) {
            (None, None) => true,
            (Some(x), Some(y)) => x@ == y@,
            _ => false,
        }),
{
    match (a, b) {
        (None, None) => true,
        (Some(x), Some(y)) => x.module == y.module && optional_strings_equal(
            &x.revision,
            &y.revision,
        ) && x.index == y.index,
        _ => false,
    }
}

/// Whether two call targets have equal views.
pub fn function_refs_equal(a: &FunctionRef, b: &FunctionRef) -> (r: bool)
    ensures
        r == (a@ == b@),
{
    let owners = match (&a.owner, &b.owner) {
        (None, None) => true,
        (Some(x), Some(y)) => types_equal(x, y),
        _ => false,
    };
    let r = member_ids_equal(&a.definition, &b.definition) && a.name == b.name && owners
        && a.instance == b.instance && type_lists_equal(&a.parameters, &b.parameters);
    proof {
        if r {
            assert(a@.definition == b@.definition);
            assert(a@ == b@);
        }
    }
    r
}

impl Delegate {
    /// Whether two delegates are the same binding (see `same_delegate`).
    pub fn same(&self, other: &Delegate) -> (r: bool)
        ensures
            r == same_delegate(*self, *other),
    {
        let receivers = match (&self.receiver, &other.receiver) {
            (None, None) => true,
            (Some(x), Some(y)) => match (&**x, &**y) {
                (Value::SlotReference(p), Value::SlotReference(q)) => p.same_location(q),
                _ => false,
            },
            _ => false,
        };
        types_equal(&self.ty, &other.ty) && function_refs_equal(&self.target, &other.target)
            && receivers
    }
}

/// The signature facts a delegate binding compares.
#[derive(Debug)]
pub struct Signature {
    pub parameters: Vec<Type>,
    pub returns: Type,
    pub readonly_parameters: Vec<usize>,
    pub out_parameters: Vec<usize>,
    pub out_when_true: Vec<usize>,
}

/// A parameter type as a binding compares it: read-only references count as
/// references.
pub open spec fn binding_parameter(t: TypeView) -> TypeView {
    match t {
        TypeView::ReadOnlyByRef(b) => TypeView::ByRef(b),
        _ => t,
    }
}

/// Whether parameter `i` is read-only.
pub open spec fn readonly_at(s: Signature, i: int) -> bool {
    s.readonly_parameters@.contains(i as usize) || s.parameters@[i]@ is ReadOnlyByRef
}

/// A target is compatible with a delegate contract: same arity and return
/// type, parameters equal up to read-only references, and the same read-only,
/// out and out-when-true positions.
pub open spec fn compatible_signatures(c: Signature, t: Signature) -> bool {
    &&& c.parameters@.len() == t.parameters@.len()
    &&& c.returns@ == t.returns@
    &&& forall|i: int|
        0 <= i < c.parameters@.len() ==> binding_parameter(#[trigger] c.parameters@[i]@)
            == binding_parameter(t.parameters@[i]@)
    &&& forall|i: int| 0 <= i < c.parameters@.len() ==> #[trigger] flags_agree(c, t, i)
}

/// Parameter `i` is read-only, out and out-when-true alike in both signatures.
pub open spec fn flags_agree(c: Signature, t: Signature, i: int) -> bool {
    &&& readonly_at(c, i) == readonly_at(t, i)
    &&& c.out_parameters@.contains(i as usize) == t.out_parameters@.contains(i as usize)
    &&& c.out_when_true@.contains(i as usize) == t.out_when_true@.contains(i as usize)
}

fn contains_index(v: &Vec<usize>, i: usize) -> (r: bool)
    ensures
        r == v@.contains(i),
{
    let mut j: usize = 0;
    while j < v.len()
        invariant
            j <= v@.len(),
            forall|l: int| 0 <= l < j ==> v@[l] != i,
        decreases v.len() - j,
    {
        if v[j] == i {
            assert(v@[j as int] == i);
            return true;
        }
        j += 1;
    }
    false
}

fn binding_parameters_equal(a: &Type, b: &Type) -> (r: bool)
    ensures
        r == (binding_parameter(a@) == binding_parameter(b@)),
{
    match (a, b) {
        (Type::ReadOnlyByRef(x), Type::ReadOnlyByRef(y)) => types_equal(x, y),
        (Type::ReadOnlyByRef(x), Type::ByRef(y)) => types_equal(x, y),
        (Type::ByRef(x), Type::ReadOnlyByRef(y)) => types_equal(x, y),
        (Type::ReadOnlyByRef(x), _) => false,
        (_, Type::ReadOnlyByRef(y)) => false,
        _ => types_equal(a, b),
    }
}

fn readonly(s: &Signature, i: usize) -> (r: bool)
    requires
        i < s.parameters@.len(),
    ensures
        r == readonly_at(*s, i as int),
{
    contains_index(&s.readonly_parameters, i) || matches!(s.parameters[i], Type::ReadOnlyByRef(_))
}

/// Checks that a target may be bound to a delegate contract.
pub fn compatible(contract: &Signature, target: &Signature) -> (r: Result<(), Fault>)
    ensures
        r is Ok <==> compatible_signatures(*contract, *target),
        r matches Err(f) ==> f.message@ == "delegate signature or reference contract mismatch"@,
{
    let n = contract.parameters.len();
    if n != target.parameters.len() || !types_equal(&contract.returns, &target.returns) {
        return Err(Fault::new("delegate signature or reference contract mismatch"));
    }
    let mut i: usize = 0;
    while i < n
        invariant
            i <= n == contract.parameters@.len() == target.parameters@.len(),
            contract.returns@ == target.returns@,
            forall|j: int|
                0 <= j < i ==> binding_parameter(#[trigger] contract.parameters@[j]@)
                    == binding_parameter(target.parameters@[j]@),
        decreases n - i,
    {
        if !binding_parameters_equal(&contract.parameters[i], &target.parameters[i]) {
            return Err(Fault::new("delegate signature or reference contract mismatch"));
        }
        i += 1;
    }
    let mut i: usize = 0;
    while i < n
        invariant
            i <= n == contract.parameters@.len() == target.parameters@.len(),
            contract.returns@ == target.returns@,
            forall|j: int|
                0 <= j < n ==> binding_parameter(#[trigger] contract.parameters@[j]@)
                    == binding_parameter(target.parameters@[j]@),
            forall|j: int| 0 <= j < i ==> #[trigger] flags_agree(*contract, *target, j),
        decreases n - i,
    {
        if readonly(contract, i) != readonly(target, i) || contains_index(
            &contract.out_parameters,
            i,
        ) != contains_index(&target.out_parameters, i) || contains_index(
            &contract.out_when_true,
            i,
        ) != contains_index(&target.out_when_true, i) {
            assert(!flags_agree(*contract, *target, i as int));
            return Err(Fault::new("delegate signature or reference contract mismatch"));
        }
        assert(flags_agree(*contract, *target, i as int));
        i += 1;
    }
    Ok(())
}

} // verus!
