use neoclr::gc::{CollectionReason, ManagedHeap};
use neoclr::types::Type;
use neoclr::value::{SlotReference, Value};

fn reference_to(heap: &ManagedHeap, id: usize) -> Value {
    Value::SlotReference(heap.address(id).unwrap())
}

fn at(heap: &ManagedHeap, id: usize, path: Vec<usize>) -> SlotReference {
    let whole = heap.address(id).unwrap();
    SlotReference { heap: whole.heap, allocation: Some(id), path }
}

#[test]
fn collecting_without_roots_reclaims_everything() {
    let mut heap = ManagedHeap::default();
    let a = heap.allocate(Value::Int32(1)).unwrap();
    let b = heap.allocate(Value::Erased(Box::new(reference_to(&heap, a)))).unwrap();
    let _ = b;
    heap.collect(vec![], CollectionReason::ExecutionCompleted).unwrap();
    assert!(heap.is_empty());
    let stats = heap.statistics();
    assert_eq!(stats.allocated_objects, 2);
    assert_eq!(stats.reclaimed_objects, 2);
    assert_eq!(stats.live_objects, 0);
    assert_eq!(stats.collections, 1);
}

#[test]
fn collecting_twice_reclaims_nothing_more() {
    let mut heap = ManagedHeap::default();
    let a = heap.allocate(Value::Int32(1)).unwrap();
    let b = heap.allocate(Value::Erased(Box::new(reference_to(&heap, a)))).unwrap();
    let _garbage = heap.allocate(Value::Int32(3)).unwrap();
    heap.collect(vec![b], CollectionReason::AllocationPressure).unwrap();
    assert_eq!(heap.len(), 2);
    heap.collect(vec![b], CollectionReason::AllocationPressure).unwrap();
    assert_eq!(heap.len(), 2);
    let events = heap.collection_events();
    assert_eq!(events.len(), 2);
    assert_eq!((events[0].before, events[0].after, events[0].reclaimed), (3, 2, 1));
    assert_eq!((events[1].before, events[1].after, events[1].reclaimed), (2, 2, 0));
    assert_eq!(events[1].sequence, 2);
    assert_eq!(events[0].roots, 1);
}

#[test]
fn a_read_gives_back_what_a_write_stored() {
    let mut heap = ManagedHeap::default();
    let id = heap
        .allocate(Value::Object { ty: Type::Named("P".into()), fields: vec![Value::Int32(1), Value::Int32(2)] })
        .unwrap();
    let field = at(&heap, id, vec![1]);
    heap.write_reference(&field, Value::Int32(9)).unwrap();
    assert_eq!(heap.read_reference(&field).unwrap(), Value::Int32(9));
    let sibling = at(&heap, id, vec![0]);
    assert_eq!(heap.read_reference(&sibling).unwrap(), Value::Int32(1));
    let missing = at(&heap, id, vec![2]);
    assert!(heap.write_reference(&missing, Value::Int32(0)).is_err());
    assert!(heap.read_reference(&missing).is_err());
}

#[test]
fn frame_references_cannot_be_stored() {
    let mut heap = ManagedHeap::default();
    let frame = Value::SlotReference(SlotReference { heap: String::new(), allocation: None, path: vec![] });
    assert!(heap.allocate(frame).is_err());
    assert!(heap.is_empty());
}

#[test]
fn a_reference_from_another_heap_is_refused() {
    let mut mine = ManagedHeap::new();
    let mut theirs = ManagedHeap::new();
    let id = mine.allocate(Value::Int32(5)).unwrap();
    let same = theirs.allocate(Value::Int32(9)).unwrap();
    assert_eq!(id, same);
    let foreign = theirs.address(same).unwrap();
    let f = mine.read_reference(&foreign).unwrap_err();
    assert_eq!(f.message, "reference does not belong to this managed heap");
    assert!(mine.write_reference(&foreign, Value::Int32(1)).is_err());
    assert_eq!(mine.get(id), Some(Value::Int32(5)));
    let own = mine.address(id).unwrap();
    assert_eq!(mine.read_reference(&own).unwrap(), Value::Int32(5));
}

#[test]
fn default_heaps_refuse_each_others_references() {
    let mut first = ManagedHeap::default();
    let mut second = ManagedHeap::default();
    let a = first.allocate(Value::Int32(1)).unwrap();
    let b = second.allocate(Value::Int32(2)).unwrap();
    assert_eq!(a, b);
    let from_first = first.address(a).unwrap();
    let from_second = second.address(b).unwrap();
    assert_ne!(from_first.heap, from_second.heap);
    assert!(second.read_reference(&from_first).is_err());
    assert!(first.read_reference(&from_second).is_err());
    assert!(second.write_reference(&from_first, Value::Int32(7)).is_err());
    assert_eq!(second.get(b), Some(Value::Int32(2)));
    assert_eq!(first.read_reference(&from_first).unwrap(), Value::Int32(1));
}

#[test]
fn reference_faults_name_their_cause() {
    let mut heap = ManagedHeap::default();
    let id = heap.allocate(Value::Int32(5)).unwrap();
    let deep = at(&heap, id, vec![3]);
    assert_eq!(heap.read_reference(&deep).unwrap_err().message, "invalid reference path");
    let tag = heap.address(id).unwrap().heap;
    let gone = SlotReference { heap: tag, allocation: Some(id + 1), path: vec![] };
    assert_eq!(
        heap.read_reference(&gone).unwrap_err().message,
        "reference does not belong to this managed heap"
    );
}

#[test]
fn the_history_keeps_the_last_sixty_four_collections() {
    let mut heap = ManagedHeap::default();
    for _ in 0..70 {
        heap.collect(vec![], CollectionReason::AllocationPressure).unwrap();
    }
    let events = heap.collection_events();
    assert_eq!(events.len(), 64);
    assert_eq!(events[0].sequence, 7);
    assert_eq!(events[63].sequence, 70);
    assert_eq!(heap.collections(), 70);
    let s = heap.statistics();
    assert!(s.live_objects <= s.peak_objects && s.peak_objects <= s.allocated_objects);
}
