//! What every collection of the managed heap guarantees, stated over the
//! heap's identity-to-value map and proved from the definition of survival.
use crate::gc::{dangling, is_trace, path_update, path_value, reachable, survivors, ManagedHeap};
use crate::value::SlotReference;
use crate::value::{value_refs, ValueView};
use vstd::prelude::*;

verus! {

/// Every element of a trace is reachable: each prefix is a trace itself.
proof fn lemma_trace_prefix(m: Map<usize, ValueView>, roots: Seq<usize>, p: Seq<usize>, i: int)
    requires
        is_trace(m, roots, p),
        0 <= i < p.len(),
    ensures
        is_trace(m, roots, p.take(i + 1)),
        reachable(m, roots, p[i]),
{
    let q = p.take(i + 1);
    assert forall|j: int| 0 <= j < q.len() - 1 implies m.contains_key(#[trigger] q[j])
        && value_refs(m[q[j]]).contains(q[j + 1]) by {
        assert(q[j] == p[j] && q[j + 1] == p[j + 1]);
    }
    assert(q.last() == p[i]);
}

/// Reachability is the same through the surviving objects as through all.
proof fn lemma_reachable_in_survivors(m: Map<usize, ValueView>, roots: Seq<usize>, id: usize)
    ensures
        reachable(survivors(m, roots), roots, id) == reachable(m, roots, id),
{
    let s = survivors(m, roots);
    if reachable(m, roots, id) {
        let p = choose|p: Seq<usize>| is_trace(m, roots, p) && p.last() == id;
        assert forall|i: int| 0 <= i < p.len() - 1 implies s.contains_key(#[trigger] p[i])
            && value_refs(s[p[i]]).contains(p[i + 1]) by {
            lemma_trace_prefix(m, roots, p, i);
        }
        assert(is_trace(s, roots, p));
    }
    if reachable(s, roots, id) {
        let p = choose|p: Seq<usize>| is_trace(s, roots, p) && p.last() == id;
        assert forall|i: int| 0 <= i < p.len() - 1 implies m.contains_key(#[trigger] p[i])
            && value_refs(m[p[i]]).contains(p[i + 1]) by {
            assert(s.contains_key(p[i]));
        }
        assert(is_trace(m, roots, p));
    }
}

/// A collection with no roots reclaims every object.
pub proof fn law_no_roots_reclaims_everything(m: Map<usize, ValueView>)
    ensures
        survivors(m, Seq::empty()) == Map::<usize, ValueView>::empty(),
{
    assert forall|id: usize| !reachable(m, Seq::empty(), id) by {
        if reachable(m, Seq::empty(), id) {
            let p = choose|p: Seq<usize>| is_trace(m, Seq::empty(), p) && p.last() == id;
            assert(Seq::<usize>::empty().contains(p[0]));
        }
    }
    assert(survivors(m, Seq::empty()) =~= Map::<usize, ValueView>::empty());
}

/// Collecting again from the same roots reclaims nothing more: survival is
/// idempotent.
pub proof fn law_collection_is_idempotent(m: Map<usize, ValueView>, roots: Seq<usize>)
    ensures
        survivors(survivors(m, roots), roots) == survivors(m, roots),
        !dangling(m, roots) ==> !dangling(survivors(m, roots), roots),
{
    let s = survivors(m, roots);
    assert forall|id: usize| reachable(s, roots, id) == reachable(m, roots, id) by {
        lemma_reachable_in_survivors(m, roots, id);
    }
    assert(survivors(s, roots) =~= s);
    if dangling(s, roots) {
        let id = choose|id: usize| reachable(s, roots, id) && !s.contains_key(id);
        lemma_reachable_in_survivors(m, roots, id);
        assert(!m.contains_key(id));
    }
}

/// Survivors keep their values, and no object appears that was not live.
pub proof fn law_survivors_are_unchanged_live_objects(m: Map<usize, ValueView>, roots: Seq<usize>)
    ensures
        survivors(m, roots).submap_of(m),
        survivors(m, roots).dom().subset_of(m.dom()),
{
}

/// Every live root survives.
pub proof fn law_live_roots_survive(m: Map<usize, ValueView>, roots: Seq<usize>, root: usize)
    requires
        roots.contains(root),
        m.contains_key(root),
    ensures
        survivors(m, roots).contains_key(root),
        survivors(m, roots)[root] == m[root],
{
    let p = seq![root];
    assert(p[0] == root);
    assert(is_trace(m, roots, p));
    assert(p.last() == root);
    assert(is_trace(m, roots, p) && p.last() == root);
    assert(reachable(m, roots, root));
}

/// Survivors are closed under references: whatever a survivor refers to that
/// is live survives as well.
pub proof fn law_survivors_are_closed(
    m: Map<usize, ValueView>,
    roots: Seq<usize>,
    id: usize,
    target: usize,
)
    requires
        survivors(m, roots).contains_key(id),
        value_refs(m[id]).contains(target),
        m.contains_key(target),
    ensures
        survivors(m, roots).contains_key(target),
{
    let p = choose|p: Seq<usize>| is_trace(m, roots, p) && p.last() == id;
    let q = p.push(target);
    assert forall|i: int| 0 <= i < q.len() - 1 implies m.contains_key(#[trigger] q[i])
        && value_refs(m[q[i]]).contains(q[i + 1]) by {
        if i < p.len() - 1 {
            assert(q[i] == p[i] && q[i + 1] == p[i + 1]);
        } else {
            assert(q[i] == id && q[i + 1] == target);
        }
    }
    assert(q[0] == p[0]);
    assert(is_trace(m, roots, q));
    assert(q.last() == target);
    assert(is_trace(m, roots, q) && q.last() == target);
    assert(reachable(m, roots, target));
}

/// A read through a reference gives back what a write through it stored, and
/// a write fails exactly when the reference's path does not exist.
pub proof fn law_read_after_write(v: ValueView, path: Seq<usize>, new: ValueView)
    ensures
        match path_update(v, path, new) {
            Some(u) => path_value(u, path) == Some(new),
            None => path_value(v, path) is None,
        },
    decreases path.len(),
{
    if path.len() > 0 {
        let rest = path.drop_first();
        match v {
            ValueView::Object { ty, fields } => {
                if path[0] < fields.len() {
                    law_read_after_write(fields[path[0] as int], rest, new);
                }
            },
            ValueView::Array { element, elements } => {
                if path[0] < elements.len() {
                    law_read_after_write(elements[path[0] as int], rest, new);
                }
            },
            _ => {},
        }
    }
}

/// A write leaves every path that does not pass through the written member
/// as it was: members beside the written one keep their values.
pub proof fn law_write_keeps_siblings(
    v: ValueView,
    path: Seq<usize>,
    new: ValueView,
    other: Seq<usize>,
)
    requires
        path.len() > 0,
        other.len() > 0,
        other[0] != path[0],
        path_update(v, path, new) is Some,
    ensures
        path_value(path_update(v, path, new)->0, other) == path_value(v, other),
{
}

/// References stay with their heap: a reference carrying one heap's tag is
/// owned by no heap with another tag, so that heap refuses to read or write
/// through it, whatever identity it names.
pub proof fn law_references_stay_with_their_heap(a: ManagedHeap, b: ManagedHeap, r: SlotReference)
    requires
        r.heap@ == a.spec_tag(),
        a.spec_tag() != b.spec_tag(),
    ensures
        !b.owns(r),
{
}

/// One call on a heap: `allocate` of a value with the given view, or
/// `collect` from the given roots.
pub enum HeapCall {
    Allocate(ValueView),
    Collect(Seq<usize>),
}

/// What the contracts of `allocate` and `collect` say one call does, given
/// whether it succeeded.
pub open spec fn heap_step(before: ManagedHeap, call: HeapCall, ok: bool, after: ManagedHeap) -> bool {
    if !ok {
        after == before
    } else {
        &&& after.wf()
        &&& match call {
            HeapCall::Allocate(v) => {
                let id = before.spec_next_identity();
                &&& !before.view_map().contains_key(id)
                &&& after.view_map() == before.view_map().insert(id, v)
                &&& after.spec_next_identity() == id + 1
                &&& after.spec_peak() as int == if before.spec_peak() >= after.view_map().dom().len() {
                    before.spec_peak() as int
                } else {
                    after.view_map().dom().len() as int
                }
            },
            HeapCall::Collect(roots) => {
                &&& after.view_map() == survivors(before.view_map(), roots)
                &&& after.spec_next_identity() == before.spec_next_identity()
                &&& after.spec_peak() == before.spec_peak()
            },
        }
    }
}

/// `heaps` are the states of one heap across `calls`, `oks` whether each
/// call succeeded.
pub open spec fn is_heap_run(heaps: Seq<ManagedHeap>, calls: Seq<HeapCall>, oks: Seq<bool>) -> bool {
    &&& heaps.len() == calls.len() + 1
    &&& oks.len() == calls.len()
    &&& forall|i: int|
        #![trigger calls[i]]
        0 <= i < calls.len() ==> heap_step(heaps[i], calls[i], oks[i], heaps[i + 1])
}

/// The number of successful allocations among the first `n` calls.
pub open spec fn allocations(calls: Seq<HeapCall>, oks: Seq<bool>, n: nat) -> nat
    decreases n,
{
    if n == 0 || n > calls.len() {
        0
    } else {
        allocations(calls, oks, (n - 1) as nat) + if oks[n - 1] && calls[n - 1] is Allocate {
            1nat
        } else {
            0nat
        }
    }
}

/// The most live objects any of the first `n + 1` states held.
pub open spec fn most_live(heaps: Seq<ManagedHeap>, n: nat) -> nat
    decreases n,
{
    if n == 0 {
        heaps[0].view_map().dom().len()
    } else {
        let before = most_live(heaps, (n - 1) as nat);
        let here = heaps[n as int].view_map().dom().len();
        if before >= here {
            before
        } else {
            here
        }
    }
}

proof fn lemma_heap_run(heaps: Seq<ManagedHeap>, calls: Seq<HeapCall>, oks: Seq<bool>, n: nat)
    requires
        is_heap_run(heaps, calls, oks),
        heaps[0].is_fresh(),
        n <= calls.len(),
    ensures
        heaps[n as int].wf(),
        heaps[n as int].spec_next_identity() == allocations(calls, oks, n),
        heaps[n as int].spec_peak() == most_live(heaps, n),
    decreases n,
{
    if n == 0 {
        heaps[0].lemma_identities_below_next();
        assert(heaps[0].view_map().dom() =~= Set::<usize>::empty());
    } else {
        let k = (n - 1) as int;
        lemma_heap_run(heaps, calls, oks, (n - 1) as nat);
        assert(heap_step(heaps[k], calls[k], oks[k], heaps[k + 1]));
        heaps[k].lemma_identities_below_next();
        heaps[k + 1].lemma_identities_below_next();
        heaps[k + 1].lemma_history();
    }
}

/// The heap's statistics follow its calls: from a fresh heap, over any run of
/// `allocate` and `collect`, the allocated count is the number of successful
/// allocations, the peak is the most live objects the heap ever held, and
/// allocated equals live plus reclaimed with live <= peak <= allocated.
pub proof fn law_statistics_follow_the_calls(heaps: Seq<ManagedHeap>, calls: Seq<HeapCall>, oks: Seq<bool>)
    requires
        is_heap_run(heaps, calls, oks),
        heaps[0].is_fresh(),
    ensures
        forall|n: int|
            #![trigger heaps[n]]
            0 <= n <= calls.len() ==> {
                &&& heaps[n].spec_next_identity() == allocations(calls, oks, n as nat)
                &&& heaps[n].spec_peak() == most_live(heaps, n as nat)
                &&& heaps[n].spec_next_identity() == heaps[n].view_map().dom().len() + heaps[n].spec_reclaimed()
                &&& heaps[n].view_map().dom().len() <= heaps[n].spec_peak() <= heaps[n].spec_next_identity()
            },
{
    assert forall|n: int|
        #![trigger heaps[n]]
        0 <= n <= calls.len() implies {
            &&& heaps[n].spec_next_identity() == allocations(calls, oks, n as nat)
            &&& heaps[n].spec_peak() == most_live(heaps, n as nat)
            &&& heaps[n].spec_next_identity() == heaps[n].view_map().dom().len() + heaps[n].spec_reclaimed()
            &&& heaps[n].view_map().dom().len() <= heaps[n].spec_peak() <= heaps[n].spec_next_identity()
        } by {
        lemma_heap_run(heaps, calls, oks, n as nat);
        heaps[n].lemma_history();
        heaps[n].lemma_statistics();
    }
}

} // verus!
