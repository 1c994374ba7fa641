use neoclr::gc::{CollectionReason, ManagedHeap};
use neoclr::value::Value;

#[test]
fn invalid_roots_do_not_partially_sweep_and_identities_are_not_reused() {
    let mut heap = ManagedHeap::default();
    let first = heap.allocate(Value::Int32(7)).unwrap();
    assert!(
        heap.collect(vec![first, 100], CollectionReason::AllocationPressure)
            .is_err()
    );
    assert_eq!(heap.get(first), Some(Value::Int32(7)));
    heap.collect(vec![], CollectionReason::AllocationPressure)
        .unwrap();
    let second = heap.allocate(Value::Int32(42)).unwrap();
    assert_ne!(first, second);
    assert!(heap.get(first).is_none());
}

#[test]
fn cycles_are_traced_once_and_reclaimed_when_unreachable() {
    let mut heap = ManagedHeap::default();
    let first = heap.allocate(Value::Erased(Box::new(Value::Void))).unwrap();
    let second = heap
        .allocate(Value::Erased(Box::new(Value::SlotReference(
            heap.address(first).unwrap(),
        ))))
        .unwrap();
    let target = heap.address(first).unwrap();
    let back = heap.address(second).unwrap();
    heap.write_reference(&target, Value::Erased(Box::new(Value::SlotReference(back))))
        .unwrap();
    heap.collect(vec![first], CollectionReason::AllocationPressure)
        .unwrap();
    assert_eq!(heap.len(), 2);
    let observer = heap.address(first).unwrap();
    heap.collect(vec![], CollectionReason::AllocationPressure)
        .unwrap();
    assert!(heap.read_reference(&observer).is_err());
    assert!(heap.is_empty());
    assert_eq!(heap.reclaimed_objects(), 2);
}
