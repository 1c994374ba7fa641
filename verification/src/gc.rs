//! Single-threaded, non-moving tracing heap. Object identities are never reused.
use crate::fault::Fault;
use crate::value::{
    clone_value, refs_list, trace, value_refs, value_view, values_view, lemma_value_views,
    SlotReference, Value, ValueView,
};
use std::collections::{BTreeMap, BTreeSet, VecDeque};
use vstd::prelude::*;

verus! {

broadcast use vstd::std_specs::btree::group_btree_axioms;

/// Most recent collections kept in the history.
pub const EVENT_HISTORY: usize = 64;

/// Object-count diagnostics for one execution, including its final collection.
/// These counts exclude inline values and separately tracked native allocations.
#[derive(Debug, Clone, Copy, PartialEq, Eq)]
pub struct GcStatistics {
    pub allocated_objects: usize,
    pub live_objects: usize,
    pub peak_objects: usize,
    pub collections: usize,
    pub reclaimed_objects: usize,
}

#[derive(Debug, Clone, Copy, PartialEq, Eq)]
pub enum CollectionReason {
    AllocationPressure,
    ExecutionCompleted,
}

/// A bounded history entry; roots count incoming edges, not unique allocations.
#[derive(Debug, Clone, Copy, PartialEq, Eq)]
pub struct CollectionEvent {
    pub sequence: usize,
    pub reason: CollectionReason,
    pub roots: usize,
    pub before: usize,
    pub after: usize,
    pub reclaimed: usize,
}

/// The managed heap: live objects by identity. Identities are handed out
/// in increasing order and never reused.
#[derive(Debug)]
pub struct ManagedHeap {
    anchor: Box<u8>,
    tag: String,
    objects: BTreeMap<usize, Value>,
    next_identity: usize,
    collections: usize,
    reclaimed: usize,
    peak_objects: usize,
    events: VecDeque<CollectionEvent>,
}

/// The views of stored values, by identity.
pub open spec fn stored_view(m: Map<usize, Value>) -> Map<usize, ValueView> {
    Map::new(|id: usize| m.contains_key(id), |id: usize| m[id]@)
}

/// A path of allocations starting at a root, each step following a reference
/// held by a live object.
pub open spec fn is_trace(m: Map<usize, ValueView>, roots: Seq<usize>, p: Seq<usize>) -> bool {
    &&& p.len() > 0
    &&& roots.contains(p[0])
    &&& forall|i: int|
        0 <= i < p.len() - 1 ==> m.contains_key(#[trigger] p[i]) && value_refs(m[p[i]]).contains(
            p[i + 1],
        )
}

/// Whether an identity is reachable from the roots through live objects.
pub open spec fn reachable(m: Map<usize, ValueView>, roots: Seq<usize>, id: usize) -> bool {
    exists|p: Seq<usize>| is_trace(m, roots, p) && p.last() == id
}

/// Some reachable identity names no live object: the roots are invalid.
pub open spec fn dangling(m: Map<usize, ValueView>, roots: Seq<usize>) -> bool {
    exists|id: usize| reachable(m, roots, id) && !m.contains_key(id)
}

/// The objects that survive a collection from `roots`.
pub open spec fn survivors(m: Map<usize, ValueView>, roots: Seq<usize>) -> Map<usize, ValueView> {
    m.restrict(Set::new(|id: usize| reachable(m, roots, id)))
}

/// Whether a value refers only to heap allocations, never to frame storage.
pub open spec fn heap_backed(v: ValueView) -> bool
    decreases v, 0nat,
{
    match v {
        ValueView::SlotReference { allocation, .. } => allocation is Some,
        ValueView::Object { fields, .. } => heap_backed_list(fields, fields.len()),
        ValueView::Array { elements, .. } => heap_backed_list(elements, elements.len()),
        ValueView::Erased(b) => heap_backed(*b),
        _ => true,
    }
}

pub open spec fn heap_backed_list(s: Seq<ValueView>, n: nat) -> bool
    decreases s, n,
{
    if n == 0 || n > s.len() {
        true
    } else {
        heap_backed_list(s, (n - 1) as nat) && heap_backed(s[n - 1])
    }
}

/// The value at a field/element path inside a stored value.
pub open spec fn path_value(v: ValueView, path: Seq<usize>) -> Option<ValueView>
    decreases path.len(),
{
    if path.len() == 0 {
        Some(v)
    } else {
        match v {
            ValueView::Object { fields, .. } => if path[0] < fields.len() {
                path_value(fields[path[0] as int], path.drop_first())
            } else {
                None
            },
            ValueView::Array { elements, .. } => if path[0] < elements.len() {
                path_value(elements[path[0] as int], path.drop_first())
            } else {
                None
            },
            _ => None,
        }
    }
}

/// The stored value with the member at `path` replaced by `new`.
pub open spec fn path_update(v: ValueView, path: Seq<usize>, new: ValueView) -> Option<ValueView>
    decreases path.len(),
{
    if path.len() == 0 {
        Some(new)
    } else {
        match v {
            ValueView::Object { ty, fields } => if path[0] < fields.len() {
                match path_update(fields[path[0] as int], path.drop_first(), new) {
                    Some(inner) => Some(
                        ValueView::Object { ty, fields: fields.update(path[0] as int, inner) },
                    ),
                    None => None,
                }
            } else {
                None
            },
            ValueView::Array { element, elements } => if path[0] < elements.len() {
                match path_update(elements[path[0] as int], path.drop_first(), new) {
                    Some(inner) => Some(
                        ValueView::Array {
                            element,
                            elements: elements.update(path[0] as int, inner),
                        },
                    ),
                    None => None,
                }
            } else {
                None
            },
            _ => None,
        }
    }
}

/// Checks that a value refers only to heap allocations.
pub fn ensure_heap_references(value: &Value) -> (r: Result<(), Fault>)
    ensures
        r is Ok <==> heap_backed(value@),
    decreases value, 0nat,
{
    match value {
        Value::SlotReference(r) => {
            if r.allocation.is_none() {
                return Err(Fault::new("heap values cannot retain frame-backed references"));
            }
            Ok(())
        },
        Value::Object { fields, .. } => {
            proof {
                lemma_value_views(fields@, fields@.len());
            }
            ensure_heap_list(fields)
        },
        Value::Array { elements, .. } => {
            proof {
                lemma_value_views(elements@, elements@.len());
            }
            ensure_heap_list(elements)
        },
        Value::Erased(b) => ensure_heap_references(b),
        _ => Ok(()),
    }
}

fn ensure_heap_list(values: &Vec<Value>) -> (r: Result<(), Fault>)
    ensures
        r is Ok <==> heap_backed_list(values_view(values@), values@.len()),
    decreases values@, 1nat,
{
    let ghost views = values_view(values@);
    proof {
        lemma_value_views(values@, values@.len());
        lemma_heap_backed_list_all(views, views.len());
    }
    let mut i: usize = 0;
    while i < values.len()
        invariant
            i <= values@.len(),
            views == values_view(values@),
            views.len() == values@.len(),
            forall|j: int| 0 <= j < values@.len() ==> #[trigger] views[j] == value_view(values@[j]),
            forall|j: int| 0 <= j < i ==> heap_backed(#[trigger] views[j]),
            heap_backed_list(views, views.len()) <==> forall|j: int|
                0 <= j < views.len() ==> heap_backed(#[trigger] views[j]),
        decreases values@.len() - i,
    {
        match ensure_heap_references(&values[i]) {
            Err(e) => {
                assert(!heap_backed(views[i as int]));
                return Err(e);
            },
            Ok(()) => {},
        }
        i += 1;
    }
    Ok(())
}

pub proof fn lemma_heap_backed_list_all(s: Seq<ValueView>, n: nat)
    requires
        n <= s.len(),
    ensures
        heap_backed_list(s, n) <==> forall|j: int| 0 <= j < n ==> heap_backed(#[trigger] s[j]),
    decreases n,
{
    if n > 0 {
        lemma_heap_backed_list_all(s, (n - 1) as nat);
    }
}

/// The value at a path, copied.
fn read_path(root: &Value, path: &Vec<usize>) -> (r: Option<Value>)
    ensures
        match r {
            Some(v) => path_value(root@, path@) == Some(v@),
            None => path_value(root@, path@) is None,
        },
{
    let mut current: &Value = root;
    let mut i: usize = 0;
    assert(path@.skip(0) =~= path@);
    while i < path.len()
        invariant
            i <= path@.len(),
            path_value(root@, path@) == path_value(current@, path@.skip(i as int)),
        decreases path@.len() - i,
    {
        let index = path[i];
        let ghost rest = path@.skip(i as int);
        proof {
            assert(rest.drop_first() =~= path@.skip(i + 1));
            assert(rest[0] == index);
        }
        match current {
            Value::Object { fields, .. } => {
                proof {
                    lemma_value_views(fields@, fields@.len());
                }
                if index >= fields.len() {
                    return None;
                }
                current = &fields[index];
            },
            Value::Array { elements, .. } => {
                proof {
                    lemma_value_views(elements@, elements@.len());
                }
                if index >= elements.len() {
                    return None;
                }
                current = &elements[index];
            },
            _ => {
                return None;
            },
        }
        i += 1;
    }
    proof {
        assert(path@.skip(i as int).len() == 0);
    }
    Some(clone_value(current))
}

/// The value with the member at `path[at..]` replaced.
fn update_path(value: &Value, path: &Vec<usize>, at: usize, new: Value) -> (r: Option<Value>)
    requires
        at <= path@.len(),
    ensures
        match r {
            Some(v) => path_update(value@, path@.skip(at as int), new@) == Some(v@),
            None => path_update(value@, path@.skip(at as int), new@) is None,
        },
    decreases path@.len() - at,
{
    let ghost rest = path@.skip(at as int);
    if at == path.len() {
        return Some(new);
    }
    let index = path[at];
    proof {
        assert(rest.drop_first() =~= path@.skip(at + 1));
        assert(rest[0] == index);
    }
    match value {
        Value::Object { ty, fields } => {
            proof {
                lemma_value_views(fields@, fields@.len());
            }
            if index >= fields.len() {
                return None;
            }
            match update_path(&fields[index], path, at + 1, new) {
                None => None,
                Some(inner) => {
                    let mut updated = crate::value::clone_values(fields);
                    let ghost before = updated@;
                    let ghost inner_view = inner@;
                    proof {
                        lemma_value_views(before, before.len());
                    }
                    updated.set(index, inner);
                    proof {
                        lemma_value_views(updated@, updated@.len());
                        assert forall|j: int| 0 <= j < updated@.len() && j != index implies value_view(
                            #[trigger] updated@[j],
                        ) == values_view(fields@)[j] by {
                            assert(updated@[j] == before[j]);
                            assert(values_view(before)[j] == value_view(before[j]));
                        }
                        assert(values_view(updated@) =~= values_view(fields@).update(
                            index as int,
                            inner_view,
                        ));
                    }
                    Some(Value::Object { ty: crate::types::clone_type(ty), fields: updated })
                },
            }
        },
        Value::Array { element, elements } => {
            proof {
                lemma_value_views(elements@, elements@.len());
            }
            if index >= elements.len() {
                return None;
            }
            match update_path(&elements[index], path, at + 1, new) {
                None => None,
                Some(inner) => {
                    let mut updated = crate::value::clone_values(elements);
                    let ghost before = updated@;
                    let ghost inner_view = inner@;
                    proof {
                        lemma_value_views(before, before.len());
                    }
                    updated.set(index, inner);
                    proof {
                        lemma_value_views(updated@, updated@.len());
                        assert forall|j: int| 0 <= j < updated@.len() && j != index implies value_view(
                            #[trigger] updated@[j],
                        ) == values_view(elements@)[j] by {
                            assert(updated@[j] == before[j]);
                            assert(values_view(before)[j] == value_view(before[j]));
                        }
                        assert(values_view(updated@) =~= values_view(elements@).update(
                            index as int,
                            inner_view,
                        ));
                    }
                    Some(
                        Value::Array {
                            element: crate::types::clone_type(element),
                            elements: updated,
                        },
                    )
                },
            }
        },
        _ => None,
    }
}

/// A trace extended by one reference held by its last object is a trace.
pub proof fn lemma_extend_trace(
    m: Map<usize, ValueView>,
    roots: Seq<usize>,
    p: Seq<usize>,
    z: usize,
)
    requires
        is_trace(m, roots, p),
        m.contains_key(p.last()),
        value_refs(m[p.last()]).contains(z),
    ensures
        is_trace(m, roots, p.push(z)),
        p.push(z).last() == z,
{
    let q = p.push(z);
    assert forall|i: int| 0 <= i < q.len() - 1 implies m.contains_key(#[trigger] q[i])
        && value_refs(m[q[i]]).contains(q[i + 1]) by {
        if i < p.len() - 1 {
            assert(q[i] == p[i] && q[i + 1] == p[i + 1]);
        } else {
            assert(q[i] == p.last() && q[i + 1] == z);
        }
    }
}

/// When a set of identities holds the roots and is closed under the
/// references its live objects hold, it holds every reachable identity.
pub proof fn lemma_closed_marks(m: Map<usize, ValueView>, roots: Seq<usize>, marked: Set<usize>, p: Seq<usize>)
    requires
        is_trace(m, roots, p),
        forall|j: int| 0 <= j < roots.len() ==> marked.contains(#[trigger] roots[j]),
        forall|k: usize, y: usize|
            marked.contains(k) && m.contains_key(k) && #[trigger] value_refs(m[k]).contains(y)
                ==> marked.contains(y),
    ensures
        marked.contains(p.last()),
    decreases p.len(),
{
    if p.len() == 1 {
        let j = choose|j: int| 0 <= j < roots.len() && roots[j] == p[0];
        assert(marked.contains(roots[j]));
    } else {
        let q = p.drop_last();
        assert forall|i: int| 0 <= i < q.len() - 1 implies m.contains_key(#[trigger] q[i])
            && value_refs(m[q[i]]).contains(q[i + 1]) by {
            assert(q[i] == p[i] && q[i + 1] == p[i + 1]);
        }
        lemma_closed_marks(m, roots, marked, q);
        let prev = q.last();
        assert(p[p.len() - 2] == prev);
        assert(m.contains_key(prev));
        assert(value_refs(m[prev]).contains(p.last()));
    }
}

/// Saturating addition.
/// The collection history after `collections` collections: the most recent
/// ones, at most `EVENT_HISTORY`, oldest first, numbered consecutively up to
/// `collections` (the count saturates, and so do the numbers).
pub open spec fn history(events: Seq<CollectionEvent>, collections: usize) -> bool {
    &&& events.len() == (if collections < EVENT_HISTORY {
        collections as int
    } else {
        EVENT_HISTORY as int
    })
    &&& events.len() > 0 ==> events.last().sequence == collections
    &&& forall|a: int, b: int|
        0 <= a && b == a + 1 && b < events.len() ==> #[trigger] events[b].sequence == sat_add(
            #[trigger] events[a].sequence,
            1,
        )
}

pub open spec fn sat_add(a: usize, b: usize) -> usize {
    if a + b > usize::MAX {
        usize::MAX
    } else {
        (a + b) as usize
    }
}

/// The address of the heap's anchor allocation, written out by std's
/// `Pointer` formatting (`{:p}`). Nothing is stated of the text: it depends on
/// where the allocator placed the anchor. While the anchor lives no other live
/// allocation has that address, which is what keeps the tags of live heaps
/// apart; Verus is not told so.
#[verifier::external_body]
fn anchor_tag(anchor: &Box<u8>) -> String {
    format!("{:p}", &**anchor)
}

impl ManagedHeap {
    /// The live objects as an identity-to-value map.
    pub closed spec fn view_map(&self) -> Map<usize, ValueView> {
        stored_view(self.objects@)
    }

    /// The heap's tag, carried by every reference it hands out.
    pub closed spec fn spec_tag(&self) -> Seq<char> {
        self.tag@
    }

    /// Whether `reference` was handed out by this heap and names one of its
    /// live objects.
    pub open spec fn owns(&self, reference: SlotReference) -> bool {
        &&& reference.heap@ == self.spec_tag()
        &&& reference.allocation matches Some(id)
        &&& self.view_map().contains_key(id)
    }

    /// The identity the next allocation receives.
    pub closed spec fn spec_next_identity(&self) -> usize {
        self.next_identity
    }

    pub closed spec fn spec_collections(&self) -> usize {
        self.collections
    }

    pub closed spec fn spec_reclaimed(&self) -> usize {
        self.reclaimed
    }

    pub closed spec fn spec_peak(&self) -> usize {
        self.peak_objects
    }

    /// The collection history, oldest first.
    pub closed spec fn spec_events(&self) -> Seq<CollectionEvent> {
        self.events@
    }

    /// The heap's internal invariant.
    pub closed spec fn wf(&self) -> bool {
        &&& forall|id: usize| #[trigger] self.objects@.contains_key(id) ==> id < self.next_identity
        &&& history(self.events@, self.collections)
        &&& self.objects@.dom().len() <= self.peak_objects
        &&& self.peak_objects <= self.next_identity
        &&& self.objects@.dom().len() + self.reclaimed == self.next_identity
    }

    proof fn lemma_view(&self)
        ensures
            self.view_map().dom() == self.objects@.dom(),
            self.objects@.dom().finite(),
            forall|id: usize| #[trigger]
                self.objects@.contains_key(id) ==> self.view_map()[id] == self.objects@[id]@,
    {
        assert(self.view_map().dom() =~= self.objects@.dom());
        assert(self.objects@.dom().finite());
    }

    /// The history holds the most recent collections, at most
    /// `EVENT_HISTORY` of them, numbered consecutively up to the count of
    /// collections; the peak lies between the live objects and the
    /// allocations.
    pub proof fn lemma_history(&self)
        requires
            self.wf(),
        ensures
            history(self.spec_events(), self.spec_collections()),
            self.spec_events().len() <= EVENT_HISTORY,
            self.view_map().dom().len() <= self.spec_peak() <= self.spec_next_identity(),
    {
        self.lemma_view();
    }

    /// Every allocation so far is either live or reclaimed.
    pub proof fn lemma_statistics(&self)
        requires
            self.wf(),
        ensures
            self.spec_next_identity() == self.view_map().dom().len() + self.spec_reclaimed(),
    {
        self.lemma_view();
    }

    /// Every identity ever handed out is below the next one, so none is reused.
    pub proof fn lemma_identities_below_next(&self)
        requires
            self.wf(),
        ensures
            forall|id: usize| #[trigger]
                self.view_map().contains_key(id) ==> id < self.spec_next_identity(),
            self.view_map().dom().finite(),
            self.view_map().dom().len() <= self.spec_peak(),
    {
        self.lemma_view();
    }

    /// An empty heap. Its tag is the address of an allocation that the heap
    /// owns for as long as it lives, so no other live heap carries the same
    /// tag, and a reference handed out by another heap is refused.
    pub fn new() -> (h: ManagedHeap)
        ensures
            h.is_fresh(),
    {
        let anchor: Box<u8> = Box::new(0u8);
        let tag = anchor_tag(&anchor);
        let h = ManagedHeap {
            anchor,
            tag,
            objects: BTreeMap::new(),
            next_identity: 0,
            collections: 0,
            reclaimed: 0,
            peak_objects: 0,
            events: VecDeque::new(),
        };
        proof {
            h.lemma_view();
            assert(h.objects@.dom() =~= Set::<usize>::empty());
            assert(h.view_map() =~= Map::<usize, ValueView>::empty());
        }
        h
    }

    /// The heap's invariant holds for every heap built by `new`.
    pub open spec fn is_fresh(&self) -> bool {
        &&& self.wf()
        &&& self.view_map() == Map::<usize, ValueView>::empty()
        &&& self.spec_next_identity() == 0
        &&& self.spec_collections() == 0
        &&& self.spec_reclaimed() == 0
        &&& self.spec_peak() == 0
        &&& self.spec_events().len() == 0
    }

    /// The number of live objects.
    pub fn len(&self) -> (n: usize)
        requires
            self.wf(),
        ensures
            n == self.view_map().dom().len(),
    {
        proof {
            self.lemma_view();
        }
        self.objects.len()
    }

    pub fn is_empty(&self) -> (b: bool)
        requires
            self.wf(),
        ensures
            b == (self.view_map().dom().len() == 0),
    {
        proof {
            self.lemma_view();
        }
        self.objects.len() == 0
    }

    pub fn collections(&self) -> (n: usize)
        ensures
            n == self.spec_collections(),
    {
        self.collections
    }

    pub fn reclaimed_objects(&self) -> (n: usize)
        ensures
            n == self.spec_reclaimed(),
    {
        self.reclaimed
    }

    pub fn statistics(&self) -> (s: GcStatistics)
        requires
            self.wf(),
        ensures
            s.allocated_objects == self.spec_next_identity(),
            s.live_objects == self.view_map().dom().len(),
            s.peak_objects == self.spec_peak(),
            s.collections == self.spec_collections(),
            s.reclaimed_objects == self.spec_reclaimed(),
            s.allocated_objects == s.live_objects + s.reclaimed_objects,
            s.live_objects <= s.peak_objects <= s.allocated_objects,
    {
        proof {
            self.lemma_view();
        }
        GcStatistics {
            allocated_objects: self.next_identity,
            live_objects: self.len(),
            peak_objects: self.peak_objects,
            collections: self.collections,
            reclaimed_objects: self.reclaimed,
        }
    }

    /// Most recent 64 collections, in execution order. No guest values are retained.
    pub fn collection_events(&self) -> (events: Vec<CollectionEvent>)
        requires
            self.wf(),
        ensures
            events@ == self.spec_events(),
            events@.len() <= EVENT_HISTORY,
            history(events@, self.spec_collections()),
    {
        let mut result: Vec<CollectionEvent> = Vec::new();
        let mut i: usize = 0;
        while i < self.events.len()
            invariant
                i <= self.events@.len(),
                result@ == self.events@.subrange(0, i as int),
            decreases self.events@.len() - i,
        {
            result.push(self.events[i]);
            i += 1;
            assert(result@ =~= self.events@.subrange(0, i as int));
        }
        assert(result@ =~= self.events@);
        result
    }

    /// Copy a live object's current value for host inspection without exposing
    /// a mutable cell or a borrow spanning execution.
    pub fn get(&self, identity: usize) -> (r: Option<Value>)
        requires
            self.wf(),
        ensures
            match r {
                Some(v) => self.view_map().contains_key(identity) && v@ == self.view_map()[identity],
                None => !self.view_map().contains_key(identity),
            },
    {
        proof {
            self.lemma_view();
        }
        match self.objects.get(&identity) {
            Some(v) => Some(clone_value(v)),
            None => None,
        }
    }

    /// Allocate a new object holding `value`. Fresh identities are never reused:
    /// the new identity is the allocation count so far.
    pub fn allocate(&mut self, value: Value) -> (r: Result<usize, Fault>)
        requires
            old(self).wf(),
        ensures
            final(self).wf(),
            final(self).spec_tag() == old(self).spec_tag(),
            match r {
                Ok(id) => {
                    &&& heap_backed(value@)
                    &&& id == old(self).spec_next_identity()
                    &&& !old(self).view_map().contains_key(id)
                    &&& final(self).view_map() == old(self).view_map().insert(id, value@)
                    &&& final(self).spec_next_identity() == id + 1
                    &&& final(self).spec_peak() as int == if old(self).spec_peak()
                        >= final(self).view_map().dom().len() {
                        old(self).spec_peak() as int
                    } else {
                        final(self).view_map().dom().len() as int
                    }
                    &&& final(self).spec_collections() == old(self).spec_collections()
                    &&& final(self).spec_reclaimed() == old(self).spec_reclaimed()
                    &&& final(self).spec_events() == old(self).spec_events()
                },
                Err(_) => {
                    &&& !heap_backed(value@) || old(self).spec_next_identity() == usize::MAX
                    &&& *final(self) == *old(self)
                },
            },
    {
        ensure_heap_references(&value)?;
        let identity = self.next_identity;
        if identity == usize::MAX {
            return Err(Fault::new("managed heap identity budget exhausted"));
        }
        proof {
            self.lemma_view();
        }
        self.next_identity = identity + 1;
        let ghost value_view = value@;
        self.objects.insert(identity, value);
        proof {
            assert(self.objects@.dom() =~= old(self).objects@.dom().insert(identity));
            self.lemma_view();
        }
        let n = self.objects.len();
        if self.peak_objects < n {
            self.peak_objects = n;
        }
        proof {
            assert(self.view_map() =~= old(self).view_map().insert(identity, value_view));
        }
        Ok(identity)
    }

    /// A reference to a whole live object.
    pub fn address(&self, identity: usize) -> (r: Result<SlotReference, Fault>)
        requires
            self.wf(),
        ensures
            match r {
                Ok(reference) => self.view_map().contains_key(identity) && reference.heap@
                    == self.spec_tag() && reference.allocation == Some(identity)
                    && reference.path@.len() == 0,
                Err(_) => !self.view_map().contains_key(identity),
            },
    {
        proof {
            self.lemma_view();
        }
        if self.objects.contains_key(&identity) {
            Ok(SlotReference::heap(self.tag.clone(), identity))
        } else {
            Err(Fault::new("invalid reference"))
        }
    }

    /// Inspect a heap-backed reference, including an interior field, only within
    /// the execution that owns it. This does not create a guest invocation handle.
    /// A reference handed out by another heap, a frame-backed one,
    /// or one naming no live object does not belong to this heap.
    pub fn read_reference(&self, reference: &SlotReference) -> (r: Result<Value, Fault>)
        requires
            self.wf(),
        ensures
            match r {
                Ok(v) => {
                    &&& self.owns(*reference)
                    &&& path_value(self.view_map()[reference.allocation->0], reference.path@) == Some(
                        v@,
                    )
                },
                Err(f) => if self.owns(*reference) {
                    &&& path_value(self.view_map()[reference.allocation->0], reference.path@) is None
                    &&& f.message@ == "invalid reference path"@
                } else {
                    f.message@ == "reference does not belong to this managed heap"@
                },
            },
    {
        proof {
            self.lemma_view();
        }
        if reference.heap != self.tag {
            return Err(Fault::new("reference does not belong to this managed heap"));
        }
        let id = match reference.allocation {
            Some(id) => id,
            None => {
                return Err(Fault::new("reference does not belong to this managed heap"));
            },
        };
        let stored = match self.objects.get(&id) {
            Some(v) => v,
            None => {
                return Err(Fault::new("reference does not belong to this managed heap"));
            },
        };
        match read_path(stored, &reference.path) {
            Some(v) => Ok(v),
            None => Err(Fault::new("invalid reference path")),
        }
    }

    /// Store `value` through a heap-backed reference, replacing the whole
    /// object or one of its interior members.
    pub fn write_reference(&mut self, reference: &SlotReference, value: Value) -> (r: Result<
        (),
        Fault,
    >)
        requires
            old(self).wf(),
        ensures
            final(self).wf(),
            final(self).spec_tag() == old(self).spec_tag(),
            match r {
                Ok(()) => {
                    &&& reference.heap@ == old(self).spec_tag()
                    &&& reference.allocation matches Some(id)
                    &&& old(self).view_map().contains_key(id)
                    &&& heap_backed(value@)
                    &&& path_update(old(self).view_map()[id], reference.path@, value@) matches Some(
                        updated,
                    )
                    &&& final(self).view_map() == old(self).view_map().insert(id, updated)
                },
                Err(_) => *final(self) == *old(self),
            },
            r is Ok <==> {
                &&& old(self).owns(*reference)
                &&& heap_backed(value@)
                &&& path_update(
                    old(self).view_map()[reference.allocation->0],
                    reference.path@,
                    value@,
                ) is Some
            },
            final(self).spec_next_identity() == old(self).spec_next_identity(),
            final(self).spec_collections() == old(self).spec_collections(),
            final(self).spec_reclaimed() == old(self).spec_reclaimed(),
            final(self).spec_peak() == old(self).spec_peak(),
            final(self).spec_events() == old(self).spec_events(),
    {
        proof {
            self.lemma_view();
        }
        ensure_heap_references(&value)?;
        if reference.heap != self.tag {
            return Err(Fault::new("reference does not belong to this managed heap"));
        }
        let id = match reference.allocation {
            Some(id) => id,
            None => {
                return Err(Fault::new("reference does not belong to this managed heap"));
            },
        };
        let stored = match self.objects.get(&id) {
            Some(v) => v,
            None => {
                return Err(Fault::new("reference does not belong to this managed heap"));
            },
        };
        proof {
            assert(reference.path@.skip(0) =~= reference.path@);
        }
        let updated = match update_path(stored, &reference.path, 0, value) {
            Some(v) => v,
            None => {
                return Err(Fault::new("invalid reference path"));
            },
        };
        let ghost updated_view = updated@;
        self.objects.insert(id, updated);
        proof {
            assert(self.objects@.dom() =~= old(self).objects@.dom());
            self.lemma_view();
            assert(self.view_map() =~= old(self).view_map().insert(id, updated_view));
        }
        Ok(())
    }

    /// Marks every object reachable from the roots, or reports a reachable
    /// identity that names no live object. The marked identities come back
    /// in marking order.
    fn mark(&self, roots: &Vec<usize>) -> (r: Result<Vec<usize>, Fault>)
        requires
            self.wf(),
        ensures
            match r {
                Ok(order) => {
                    &&& !dangling(self.view_map(), roots@)
                    &&& forall|id: usize|
                        #[trigger] order@.contains(id) <==> reachable(self.view_map(), roots@, id)
                },
                Err(_) => dangling(self.view_map(), roots@),
            },
    {
        let ghost m = self.view_map();
        proof {
            self.lemma_view();
        }
        let ghost dom = m.dom();
        let mut marked: BTreeSet<usize> = BTreeSet::new();
        let mut order: Vec<usize> = Vec::new();
        let mut pending: Vec<usize> = Vec::new();
        let mut j: usize = 0;
        while j < roots.len()
            invariant
                j <= roots@.len(),
                pending@ == roots@.subrange(0, j as int),
            decreases roots@.len() - j,
        {
            pending.push(roots[j]);
            j += 1;
            assert(pending@ =~= roots@.subrange(0, j as int));
        }
        assert(pending@ =~= roots@);
        proof {
            assert forall|i: int| 0 <= i < pending@.len() implies reachable(
                m,
                roots@,
                #[trigger] pending@[i],
            ) by {
                let p = seq![pending@[i]];
                assert(roots@[i] == p[0]);
                assert(roots@.contains(p[0]));
                assert(is_trace(m, roots@, p));
                assert(p.last() == pending@[i]);
            }
            assert(marked@ =~= Set::<usize>::empty());
        }
        while pending.len() > 0
            invariant
                self.wf(),
                m == self.view_map(),
                dom == m.dom(),
                dom.finite(),
                marked@.subset_of(dom),
                forall|id: usize| #[trigger] order@.contains(id) <==> marked@.contains(id),
                forall|id: usize| #[trigger] marked@.contains(id) ==> reachable(m, roots@, id),
                forall|i: int| 0 <= i < pending@.len() ==> reachable(m, roots@, #[trigger] pending@[i]),
                forall|i: int|
                    0 <= i < roots@.len() ==> pending@.contains(#[trigger] roots@[i])
                        || marked@.contains(roots@[i]),
                forall|k: usize, y: usize|
                    marked@.contains(k) && #[trigger] value_refs(m[k]).contains(y)
                        ==> pending@.contains(y) || marked@.contains(y),
            decreases dom.len() - marked@.len(), pending@.len(),
        {
            proof {
                vstd::set_lib::lemma_len_subset(marked@, dom);
            }
            let ghost before = pending@;
            let ghost old_marked = marked@;
            let y = pending.pop().unwrap();
            proof {
                assert(before.last() == y);
                assert(pending@ =~= before.drop_last());
                assert(reachable(m, roots@, before[before.len() - 1]));
                assert forall|z: usize| before.contains(z) && z != y implies pending@.contains(z) by {
                    let i = choose|i: int| 0 <= i < before.len() && before[i] == z;
                    assert(i < before.len() - 1);
                    assert(pending@[i] == z);
                }
            }
            let stored = match self.objects.get(&y) {
                Some(v) => v,
                None => {
                    proof {
                        assert(!m.contains_key(y));
                    }
                    return Err(Fault::new("invalid managed heap reference during collection"));
                },
            };
            if !marked.contains(&y) {
                let ghost old_order = order@;
                marked.insert(y);
                order.push(y);
                let ghost popped = pending@;
                trace(stored, &mut pending);
                proof {
                    assert(m[y] == stored@);
                    assert(marked@ == old_marked.insert(y));
                    assert(dom.contains(y));
                    vstd::set_lib::lemma_len_subset(old_marked, dom);
                    assert(marked@.len() == old_marked.len() + 1);
                    vstd::set_lib::lemma_len_subset(marked@, dom);
                    assert(order@ == old_order.push(y));
                    let refs = value_refs(m[y]);
                    assert(pending@ == popped + refs);
                    let p = choose|p: Seq<usize>| is_trace(m, roots@, p) && p.last() == y;
                    assert forall|i: int| 0 <= i < pending@.len() implies reachable(
                        m,
                        roots@,
                        #[trigger] pending@[i],
                    ) by {
                        if i >= popped.len() {
                            let z = pending@[i];
                            assert(refs[i - popped.len()] == z);
                            assert(refs.contains(z));
                            lemma_extend_trace(m, roots@, p, z);
                        } else {
                            assert(pending@[i] == popped[i]);
                            assert(popped[i] == before[i]);
                        }
                    }
                    assert forall|z: usize| popped.contains(z) implies pending@.contains(z) by {
                        let i = choose|i: int| 0 <= i < popped.len() && popped[i] == z;
                        assert(pending@[i] == z);
                    }
                    assert forall|z: usize| refs.contains(z) implies pending@.contains(z) by {
                        let i = choose|i: int| 0 <= i < refs.len() && refs[i] == z;
                        assert(pending@[popped.len() + i] == z);
                    }
                    assert forall|id: usize| #[trigger] order@.contains(id) <==> marked@.contains(id) by {
                        if order@.contains(id) && id != y {
                            let i = choose|i: int| 0 <= i < order@.len() && order@[i] == id;
                            assert(i < old_order.len());
                            assert(old_order[i] == id);
                            assert(old_order.contains(id));
                        }
                        if id == y {
                            assert(order@[order@.len() - 1] == y);
                        }
                        if old_marked.contains(id) {
                            assert(old_order.contains(id));
                            let i = choose|i: int| 0 <= i < old_order.len() && old_order[i] == id;
                            assert(order@[i] == id);
                        }
                    }
                }
            } else {
                proof {
                    assert(marked@ == old_marked);
                }
            }
            proof {
                assert forall|i: int| 0 <= i < roots@.len() implies pending@.contains(
                    #[trigger] roots@[i],
                ) || marked@.contains(roots@[i]) by {
                    let r = roots@[i];
                    if before.contains(r) && r != y {
                    } else if r == y {
                    } else {
                        assert(old_marked.contains(r));
                    }
                }
                assert forall|k: usize, z: usize|
                    marked@.contains(k) && #[trigger] value_refs(m[k]).contains(z) implies pending@.contains(
                    z,
                ) || marked@.contains(z) by {
                    if k == y && !old_marked.contains(k) {
                    } else {
                        assert(old_marked.contains(k));
                        if before.contains(z) && z != y {
                        } else if z == y {
                        } else {
                            assert(old_marked.contains(z));
                        }
                    }
                }
            }
        }
        proof {
            assert forall|j: int| 0 <= j < roots@.len() implies marked@.contains(#[trigger] roots@[j]) by {
                assert(!pending@.contains(roots@[j]));
            }
            assert forall|k: usize, y: usize|
                marked@.contains(k) && m.contains_key(k) && #[trigger] value_refs(m[k]).contains(y)
                    implies marked@.contains(y) by {
                assert(!pending@.contains(y));
            }
            assert forall|id: usize| reachable(m, roots@, id) implies marked@.contains(id) by {
                let p = choose|p: Seq<usize>| is_trace(m, roots@, p) && p.last() == id;
                lemma_closed_marks(m, roots@, marked@, p);
            }
            assert forall|id: usize| reachable(m, roots@, id) implies m.contains_key(id) by {
                assert(marked@.contains(id));
            }
        }
        Ok(order)
    }

    /// Collects every object not reachable from `pending`, the roots. If some
    /// reachable identity names no live object the heap is left untouched and
    /// the collection fails; otherwise exactly the reachable objects survive
    /// and the collection is recorded in the bounded history.
    pub fn collect(&mut self, pending: Vec<usize>, reason: CollectionReason) -> (r: Result<
        (),
        Fault,
    >)
        requires
            old(self).wf(),
        ensures
            final(self).wf(),
            final(self).spec_tag() == old(self).spec_tag(),
            match r {
                Ok(()) => {
                    let before = old(self).view_map().dom().len();
                    let after = final(self).view_map().dom().len();
                    &&& !dangling(old(self).view_map(), pending@)
                    &&& final(self).view_map() == survivors(old(self).view_map(), pending@)
                    &&& after <= before
                    &&& final(self).spec_next_identity() == old(self).spec_next_identity()
                    &&& final(self).spec_peak() == old(self).spec_peak()
                    &&& final(self).spec_collections() == sat_add(old(self).spec_collections(), 1)
                    &&& final(self).spec_reclaimed() == sat_add(
                        old(self).spec_reclaimed(),
                        (before - after) as usize,
                    )
                    &&& final(self).spec_events() == (if old(self).spec_events().len()
                        == EVENT_HISTORY {
                        old(self).spec_events().drop_first()
                    } else {
                        old(self).spec_events()
                    }).push(
                        CollectionEvent {
                            sequence: final(self).spec_collections(),
                            reason,
                            roots: pending@.len() as usize,
                            before: before as usize,
                            after: after as usize,
                            reclaimed: (before - after) as usize,
                        },
                    )
                },
                Err(_) => dangling(old(self).view_map(), pending@) && *final(self) == *old(self),
            },
    {
        let roots = pending.len();
        let order = self.mark(&pending)?;
        let ghost m = self.view_map();
        let ghost stored = self.objects@;
        let ghost live = Set::new(|id: usize| reachable(m, pending@, id));
        proof {
            self.lemma_view();
        }
        let before = self.objects.len();
        let mut kept: BTreeMap<usize, Value> = BTreeMap::new();
        let mut i: usize = 0;
        proof {
            assert(kept@ =~= stored.restrict(Set::<usize>::empty()));
        }
        while i < order.len()
            invariant
                i <= order@.len(),
                forall|id: usize| #[trigger] order@.contains(id) <==> live.contains(id),
                live == Set::new(|id: usize| reachable(m, pending@, id)),
                forall|id: usize| #[trigger] live.contains(id) ==> stored.contains_key(id),
                kept@ == stored.restrict(order@.subrange(0, i as int).to_set()),
                forall|id: usize| #[trigger] self.objects@.contains_key(id) ==> stored.contains_key(id)
                    && self.objects@[id] == stored[id],
                forall|id: usize|
                    #[trigger] stored.contains_key(id) && !order@.subrange(0, i as int).contains(id)
                        ==> self.objects@.contains_key(id),
                m == old(self).view_map(),
                stored == old(self).objects@,
                self.tag@ == old(self).tag@,
                self.next_identity == old(self).next_identity,
                self.collections == old(self).collections,
                self.reclaimed == old(self).reclaimed,
                self.peak_objects == old(self).peak_objects,
                self.events@ == old(self).events@,
            decreases order@.len() - i,
        {
            let id = order[i];
            let ghost done = order@.subrange(0, i as int);
            proof {
                assert(order@.contains(id));
                assert(order@.subrange(0, i + 1) == done.push(id));
            }
            let ghost present = self.objects@.contains_key(id);
            let ghost objs_before = self.objects@;
            match self.objects.remove(&id) {
                Some(v) => {
                    kept.insert(id, v);
                },
                None => {},
            }
            proof {
                let next = order@.subrange(0, i + 1);
                assert(next.to_set() =~= done.to_set().insert(id)) by {
                    assert forall|x: usize| next.to_set().contains(x) <==> done.to_set().insert(id).contains(x) by {
                        if next.contains(x) && x != id {
                            let k = choose|k: int| 0 <= k < next.len() && next[k] == x;
                            assert(k < done.len());
                            assert(done[k] == x);
                        }
                        if done.contains(x) {
                            let k = choose|k: int| 0 <= k < done.len() && done[k] == x;
                            assert(next[k] == x);
                        }
                        if x == id {
                            assert(next[i as int] == id);
                        }
                    }
                }
                assert(self.objects@ == objs_before.remove(id));
                if !present {
                    assert(done.contains(id));
                    assert(done.to_set().contains(id));
                }
                assert(kept@ =~= stored.restrict(next.to_set()));
                assert forall|x: usize|
                    #[trigger] stored.contains_key(x) && !next.contains(x) implies self.objects@.contains_key(x) by {
                    if done.contains(x) {
                        let k = choose|k: int| 0 <= k < done.len() && done[k] == x;
                        assert(next[k] == x);
                    }
                    assert(next[i as int] == id);
                    assert(x != id);
                    assert(objs_before.contains_key(x));
                }
            }
            i += 1;
        }
        proof {
            assert(order@.subrange(0, order@.len() as int) =~= order@);
            assert(order@.to_set() =~= live);
            assert(kept@ =~= stored.restrict(live));
            assert(kept@.dom() =~= live);
            assert(kept@.dom().finite());
            vstd::set_lib::lemma_len_subset(live, stored.dom());
        }
        let after = kept.len();
        self.objects = kept;
        self.reclaimed = self.reclaimed.saturating_add(before - after);
        self.collections = self.collections.saturating_add(1);
        if self.events.len() == EVENT_HISTORY {
            self.events.pop_front();
        }
        self.events.push_back(
            CollectionEvent {
                sequence: self.collections,
                reason,
                roots,
                before,
                after,
                reclaimed: before - after,
            },
        );
        proof {
            self.lemma_view();
            assert(self.view_map() =~= survivors(m, pending@));
        }
        Ok(())
    }
}

impl Default for ManagedHeap {
    fn default() -> (h: ManagedHeap)
        ensures
            h.is_fresh(),
    {
        ManagedHeap::new()
    }
}

} // verus!
