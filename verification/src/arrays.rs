//! Managed-array payload rules: index conversion and shape-preserving
//! replacement.
use crate::fault::Fault;
use crate::value::{lemma_value_views, value_views, Value, ValueView};
use vstd::prelude::*;

verus! {

/// The element index an index value stands for, or `None` for a negative one;
/// values of other kinds are no index at all (see `index`).
pub open spec fn index_of(v: ValueView) -> Option<Option<usize>> {
    match v {
        ValueView::Int32(n) => Some(if n >= 0 { Some(n as usize) } else { None }),
        ValueView::IntPtr(n) => Some(if n >= 0 { Some(n as usize) } else { None }),
        ValueView::UIntPtr(n) => Some(Some(n)),
        _ => None,
    }
}

/// Converts an index value to an element index: Int32 and native integers are
/// accepted, a negative one is out of range.
pub fn index(value: Value) -> (r: Result<usize, Fault>)
    ensures
        match index_of(value@) {
            Some(Some(i)) => r == Ok::<usize, Fault>(i),
            Some(None) => r matches Err(f) && f.message@ == "array index out of range"@,
            None => r matches Err(f) && f.message@ == "array index requires Int32 or native integer"@,
        },
{
    match value {
        Value::Int32(n) => {
            if n >= 0 {
                Ok(n as usize)
            } else {
                Err(Fault::new("array index out of range"))
            }
        },
        Value::IntPtr(n) => {
            if n >= 0 {
                Ok(n as usize)
            } else {
                Err(Fault::new("array index out of range"))
            }
        },
        Value::UIntPtr(n) => Ok(n),
        _ => Err(Fault::new("array index requires Int32 or native integer")),
    }
}

/// Whether `new` may replace `old` without invalidating a reference path into
/// it: arrays keep their lengths, and the elements and fields they share keep
/// their shapes in turn.
pub open spec fn same_shape(old: ValueView, new: ValueView) -> bool
    decreases old, 0nat,
{
    match (old, new) {
        (ValueView::Array { elements: a, .. }, ValueView::Array { elements: b, .. }) => {
            a.len() == b.len() && pairwise_same_shape(a, b, a.len())
        },
        (ValueView::Object { fields: a, .. }, ValueView::Object { fields: b, .. }) => {
            pairwise_same_shape(a, b, if a.len() <= b.len() { a.len() } else { b.len() })
        },
        _ => true,
    }
}

/// Whether the first `n` values of two lists keep their shapes pairwise.
pub open spec fn pairwise_same_shape(a: Seq<ValueView>, b: Seq<ValueView>, n: nat) -> bool
    decreases a, n,
{
    if n == 0 || n > a.len() || n > b.len() {
        n == 0
    } else {
        pairwise_same_shape(a, b, (n - 1) as nat) && same_shape(a[n - 1], b[n - 1])
    }
}

fn shapes_match(a: &Vec<Value>, b: &Vec<Value>, n: usize) -> (r: bool)
    requires
        n <= a@.len(),
        n <= b@.len(),
    ensures
        r == pairwise_same_shape(value_views(a@, a@.len()), value_views(b@, b@.len()), n as nat),
    decreases a@, 1nat,
{
    proof {
        lemma_value_views(a@, a@.len());
        lemma_value_views(b@, b@.len());
    }
    let mut i: usize = 0;
    while i < n
        invariant
            i <= n <= a.len(),
            n <= b.len(),
            value_views(a@, a@.len()).len() == a@.len(),
            value_views(b@, b@.len()).len() == b@.len(),
            forall|j: int| 0 <= j < a@.len() ==> #[trigger] value_views(a@, a@.len())[j] == a@[j]@,
            forall|j: int| 0 <= j < b@.len() ==> #[trigger] value_views(b@, b@.len())[j] == b@[j]@,
            pairwise_same_shape(value_views(a@, a@.len()), value_views(b@, b@.len()), i as nat),
        decreases n - i,
    {
        assert(decreases_to!(a@ => a@[i as int]));
        if !keeps_shape(&a[i], &b[i]) {
            proof {
                let va = value_views(a@, a@.len());
                let vb = value_views(b@, b@.len());
                if pairwise_same_shape(va, vb, n as nat) {
                    lemma_pairwise_prefix(va, vb, (i + 1) as nat, n as nat);
                }
            }
            return false;
        }
        i += 1;
    }
    true
}

/// A pairwise shape match of a longer prefix implies one of each shorter one.
proof fn lemma_pairwise_prefix(a: Seq<ValueView>, b: Seq<ValueView>, m: nat, n: nat)
    requires
        m <= n <= a.len(),
        n <= b.len(),
        pairwise_same_shape(a, b, n),
    ensures
        pairwise_same_shape(a, b, m),
    decreases n - m,
{
    if m < n {
        lemma_pairwise_prefix(a, b, m, (n - 1) as nat);
    }
}

fn keeps_shape(old: &Value, new: &Value) -> (r: bool)
    ensures
        r == same_shape(old@, new@),
    decreases *old, 0nat,
{
    match (old, new) {
        (Value::Array { elements: a, .. }, Value::Array { elements: b, .. }) => {
            proof {
                lemma_value_views(a@, a@.len());
                lemma_value_views(b@, b@.len());
            }
            if a.len() != b.len() {
                return false;
            }
            shapes_match(a, b, a.len())
        },
        (Value::Object { fields: a, .. }, Value::Object { fields: b, .. }) => {
            proof {
                lemma_value_views(a@, a@.len());
                lemma_value_views(b@, b@.len());
            }
            let n = if a.len() <= b.len() { a.len() } else { b.len() };
            shapes_match(a, b, n)
        },
        _ => true,
    }
}

/// Checks that `new` may replace `old` in place (see `same_shape`).
pub fn check_replacement(old: &Value, new: &Value) -> (r: Result<(), Fault>)
    ensures
        r is Ok <==> same_shape(old@, new@),
        r matches Err(f) ==> f.message@ == "array replacement requires equal lengths"@,
{
    if keeps_shape(old, new) {
        Ok(())
    } else {
        Err(Fault::new("array replacement requires equal lengths"))
    }
}

} // verus!
