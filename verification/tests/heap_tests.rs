use quasar::garbage_collector::Heap;

#[test]
fn it_works() {
    let result = 2 + 2;
    assert_eq!(result, 4);
}

#[test]
fn default_heap_is_empty_and_clones() {
    let heap: Heap<u32> = Heap::default();
    let copy = heap.clone();
    let _ = copy;
}

struct NotHashable;

fn hashable<X: std::hash::Hash>() {}

#[test]
fn every_handle_is_hashable() {
    hashable::<quasar::garbage_collector::Handle<NotHashable>>();
    hashable::<quasar::garbage_collector::Handle<u32>>();
}
