//! Runtime values and the heap references they carry.
use crate::types::{clone_type, Type, TypeView};
use vstd::prelude::*;

verus! {

/// A reference to storage: the tag of the heap that handed it out, an
/// optional heap allocation and a path of field or element indices inside the
/// allocation's stored value. References without an allocation are
/// frame-backed, and their heap tag means nothing.
#[derive(Debug, PartialEq, Eq)]
pub struct SlotReference {
    pub heap: String,
    pub allocation: Option<usize>,
    pub path: Vec<usize>,
}

/// A runtime value. Floating-point payloads are not modelled here.
#[derive(Debug, PartialEq, Eq)]
pub enum Value {
    Void,
    Boolean(bool),
    SByte(i8),
    Byte(u8),
    Int16(i16),
    UInt16(u16),
    Char(String),
    Int32(i32),
    UInt32(u32),
    Int64(i64),
    UInt64(u64),
    IntPtr(isize),
    UIntPtr(usize),
    String(String),
    Error(String),
    Object { ty: Type, fields: Vec<Value> },
    Array { element: Type, elements: Vec<Value> },
    Erased(Box<Value>),
    SlotReference(SlotReference),
    Uninitialized(Type),
    NullObjectReference(Type),
}

/// The mathematical value of a runtime value.
pub ghost enum ValueView {
    Void,
    Boolean(bool),
    SByte(i8),
    Byte(u8),
    Int16(i16),
    UInt16(u16),
    Char(Seq<char>),
    Int32(i32),
    UInt32(u32),
    Int64(i64),
    UInt64(u64),
    IntPtr(isize),
    UIntPtr(usize),
    String(Seq<char>),
    Error(Seq<char>),
    Object { ty: TypeView, fields: Seq<ValueView> },
    Array { element: TypeView, elements: Seq<ValueView> },
    Erased(Box<ValueView>),
    SlotReference { heap: Seq<char>, allocation: Option<usize>, path: Seq<usize> },
    Uninitialized(TypeView),
    NullObjectReference(TypeView),
}

/// The views of the first `n` values of a list.
pub open spec fn value_views(s: Seq<Value>, n: nat) -> Seq<ValueView>
    decreases s, n,
{
    if n == 0 || n > s.len() {
        Seq::empty()
    } else {
        value_views(s, (n - 1) as nat).push(value_view(s[n - 1]))
    }
}

pub open spec fn value_view(v: Value) -> ValueView
    decreases v, 0nat,
{
    match v {
        Value::Void => ValueView::Void,
        Value::Boolean(b) => ValueView::Boolean(b),
        Value::SByte(n) => ValueView::SByte(n),
        Value::Byte(n) => ValueView::Byte(n),
        Value::Int16(n) => ValueView::Int16(n),
        Value::UInt16(n) => ValueView::UInt16(n),
        Value::Char(s) => ValueView::Char(s@),
        Value::Int32(n) => ValueView::Int32(n),
        Value::UInt32(n) => ValueView::UInt32(n),
        Value::Int64(n) => ValueView::Int64(n),
        Value::UInt64(n) => ValueView::UInt64(n),
        Value::IntPtr(n) => ValueView::IntPtr(n),
        Value::UIntPtr(n) => ValueView::UIntPtr(n),
        Value::String(s) => ValueView::String(s@),
        Value::Error(s) => ValueView::Error(s@),
        Value::Object { ty, fields } => ValueView::Object {
            ty: ty@,
            fields: value_views(fields@, fields@.len()),
        },
        Value::Array { element, elements } => ValueView::Array {
            element: element@,
            elements: value_views(elements@, elements@.len()),
        },
        Value::Erased(b) => ValueView::Erased(Box::new(value_view(*b))),
        Value::SlotReference(r) => ValueView::SlotReference {
            heap: r.heap@,
            allocation: r.allocation,
            path: r.path@,
        },
        Value::Uninitialized(t) => ValueView::Uninitialized(t@),
        Value::NullObjectReference(t) => ValueView::NullObjectReference(t@),
    }
}

impl View for Value {
    type V = ValueView;

    open spec fn view(&self) -> ValueView {
        value_view(*self)
    }
}

/// The view of every value in a list.
pub open spec fn values_view(s: Seq<Value>) -> Seq<ValueView> {
    value_views(s, s.len())
}

pub proof fn lemma_value_views(s: Seq<Value>, n: nat)
    requires
        n <= s.len(),
    ensures
        value_views(s, n).len() == n,
        forall|i: int| 0 <= i < n ==> #[trigger] value_views(s, n)[i] == value_view(s[i]),
    decreases n,
{
    if n > 0 {
        lemma_value_views(s, (n - 1) as nat);
    }
}

/// The heap allocations a value refers to, in traversal order. Heap-backed
/// references and interface views name their owning allocation; aggregates
/// contribute the references of their members.
pub open spec fn value_refs(v: ValueView) -> Seq<usize>
    decreases v, 0nat,
{
    match v {
        ValueView::SlotReference { allocation, .. } => match allocation {
            Some(id) => seq![id],
            None => Seq::empty(),
        },
        ValueView::Object { fields, .. } => refs_list(fields, fields.len()),
        ValueView::Array { elements, .. } => refs_list(elements, elements.len()),
        ValueView::Erased(b) => value_refs(*b),
        _ => Seq::empty(),
    }
}

/// The references of the first `n` values of a list, in order.
pub open spec fn refs_list(s: Seq<ValueView>, n: nat) -> Seq<usize>
    decreases s, n,
{
    if n == 0 || n > s.len() {
        Seq::empty()
    } else {
        refs_list(s, (n - 1) as nat) + value_refs(s[n - 1])
    }
}

impl SlotReference {
    /// The heap allocation this reference belongs to, if it is heap-backed.
    pub fn allocation_id(&self) -> (id: Option<usize>)
        ensures
            id == self.allocation,
    {
        self.allocation
    }

    /// A reference to a whole allocation of the heap tagged `heap`.
    pub fn heap(heap: String, identity: usize) -> (r: SlotReference)
        ensures
            r.heap@ == heap@,
            r.allocation == Some(identity),
            r.path@.len() == 0,
    {
        SlotReference { heap, allocation: Some(identity), path: Vec::new() }
    }

    /// Whether two references denote the same storage location.
    pub fn same_location(&self, other: &SlotReference) -> (b: bool)
        ensures
            b == (self.heap@ == other.heap@ && self.allocation == other.allocation && self.path@
                == other.path@),
    {
        if self.heap != other.heap || self.allocation != other.allocation || self.path.len()
            != other.path.len() {
            return false;
        }
        let mut i: usize = 0;
        while i < self.path.len()
            invariant
                i <= self.path@.len(),
                self.path@.len() == other.path@.len(),
                forall|j: int| 0 <= j < i ==> self.path@[j] == other.path@[j],
            decreases self.path@.len() - i,
        {
            if self.path[i] != other.path[i] {
                return false;
            }
            i += 1;
        }
        assert(self.path@ =~= other.path@);
        true
    }
}

/// A copy of a reference.
pub fn clone_reference(r: &SlotReference) -> (c: SlotReference)
    ensures
        c.heap@ == r.heap@,
        c.allocation == r.allocation,
        c.path@ == r.path@,
{
    let mut path: Vec<usize> = Vec::new();
    let mut i: usize = 0;
    while i < r.path.len()
        invariant
            i <= r.path@.len(),
            path@ == r.path@.subrange(0, i as int),
        decreases r.path@.len() - i,
    {
        path.push(r.path[i]);
        i += 1;
        assert(path@ =~= r.path@.subrange(0, i as int));
    }
    assert(path@ =~= r.path@);
    SlotReference { heap: r.heap.clone(), allocation: r.allocation, path }
}

/// A deep copy of a list of values.
pub fn clone_values(values: &Vec<Value>) -> (r: Vec<Value>)
    ensures
        values_view(r@) == values_view(values@),
        r@.len() == values@.len(),
    decreases values@, 1nat,
{
    let mut r: Vec<Value> = Vec::new();
    let mut i: usize = 0;
    while i < values.len()
        invariant
            i <= values@.len(),
            r@.len() == i,
            forall|j: int| 0 <= j < i ==> value_view(#[trigger] r@[j]) == value_view(values@[j]),
        decreases values@.len() - i,
    {
        let v = clone_value(&values[i]);
        r.push(v);
        i += 1;
    }
    proof {
        lemma_value_views(r@, r@.len());
        lemma_value_views(values@, values@.len());
        assert(values_view(r@) =~= values_view(values@));
    }
    r
}

/// A deep copy of a value.
pub fn clone_value(v: &Value) -> (r: Value)
    ensures
        r@ == v@,
    decreases v, 0nat,
{
    match v {
        Value::Void => Value::Void,
        Value::Boolean(b) => Value::Boolean(*b),
        Value::SByte(n) => Value::SByte(*n),
        Value::Byte(n) => Value::Byte(*n),
        Value::Int16(n) => Value::Int16(*n),
        Value::UInt16(n) => Value::UInt16(*n),
        Value::Char(s) => Value::Char(s.clone()),
        Value::Int32(n) => Value::Int32(*n),
        Value::UInt32(n) => Value::UInt32(*n),
        Value::Int64(n) => Value::Int64(*n),
        Value::UInt64(n) => Value::UInt64(*n),
        Value::IntPtr(n) => Value::IntPtr(*n),
        Value::UIntPtr(n) => Value::UIntPtr(*n),
        Value::String(s) => Value::String(s.clone()),
        Value::Error(s) => Value::Error(s.clone()),
        Value::Object { ty, fields } => Value::Object {
            ty: clone_type(ty),
            fields: clone_values(fields),
        },
        Value::Array { element, elements } => Value::Array {
            element: clone_type(element),
            elements: clone_values(elements),
        },
        Value::Erased(b) => Value::Erased(Box::new(clone_value(b))),
        Value::SlotReference(r) => Value::SlotReference(clone_reference(r)),
        Value::Uninitialized(t) => Value::Uninitialized(clone_type(t)),
        Value::NullObjectReference(t) => Value::NullObjectReference(clone_type(t)),
    }
}

impl Clone for Value {
    fn clone(&self) -> (r: Self)
        ensures
            r@ == self@,
    {
        clone_value(self)
    }
}

/// Collects the heap allocations a value refers to, appending them in
/// traversal order. Frame-backed references contribute nothing.
pub fn trace(value: &Value, references: &mut Vec<usize>)
    ensures
        final(references)@ == old(references)@ + value_refs(value@),
    decreases value, 0nat,
{
    match value {
        Value::SlotReference(r) => {
            if let Some(id) = r.allocation {
                references.push(id);
            }
            assert(references@ =~= old(references)@ + value_refs(value@));
        },
        Value::Object { fields, .. } => {
            proof {
                lemma_value_views(fields@, fields@.len());
            }
            trace_list(fields, references);
        },
        Value::Array { elements, .. } => {
            proof {
                lemma_value_views(elements@, elements@.len());
            }
            trace_list(elements, references);
        },
        Value::Erased(b) => {
            trace(b, references);
        },
        _ => {
            assert(references@ =~= old(references)@ + value_refs(value@));
        },
    }
}

fn trace_list(values: &Vec<Value>, references: &mut Vec<usize>)
    ensures
        final(references)@ == old(references)@ + refs_list(
            values_view(values@),
            values@.len(),
        ),
    decreases values@, 1nat,
{
    let ghost views = values_view(values@);
    proof {
        lemma_value_views(values@, values@.len());
    }
    let mut i: usize = 0;
    while i < values.len()
        invariant
            i <= values@.len(),
            views == values_view(values@),
            views.len() == values@.len(),
            forall|j: int| 0 <= j < values@.len() ==> #[trigger] views[j] == value_view(values@[j]),
            references@ == old(references)@ + refs_list(views, i as nat),
        decreases values@.len() - i,
    {
        let ghost before = references@;
        trace(&values[i], references);
        proof {
            assert(refs_list(views, (i + 1) as nat) == refs_list(views, i as nat) + value_refs(
                views[i as int],
            ));
            assert(references@ =~= old(references)@ + refs_list(views, (i + 1) as nat));
        }
        i += 1;
    }
}

} // verus!
