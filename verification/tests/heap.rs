use orc::{Orc, OrcError, OrcHeap, MAX_WEIGHT, MAX_WEIGHT_EXP};
use std::cell::Cell;

struct DropTest<'a>(&'a Cell<usize>);

impl<'a> Drop for DropTest<'a> {
    fn drop(&mut self) {
        let v = self.0.get();
        self.0.set(v - 1);
    }
}

#[test]
fn test_drop() {
    let test_size = 1000;
    let values_in_existence = Cell::new(test_size);

    let mut heap = OrcHeap::with_capacity(test_size);

    for _ in 0..test_size {
        let o = heap.allocate(DropTest(&values_in_existence)).unwrap();
        heap.release(o);
    }
    heap.collect();
    assert_eq!(values_in_existence.get(), 0);
}

#[test]
fn test_heap_freed() {
    let test_size = 2;
    let values_in_existence = Cell::new(5);

    let mut heap = OrcHeap::with_capacity(test_size);

    {
        let a = heap.allocate(DropTest(&values_in_existence)).unwrap();
        let b = heap.allocate(DropTest(&values_in_existence)).unwrap();
        heap.release(a);
        heap.release(b);
    }
    // now the heap should be freed and the allocations should be possible
    let _c = heap.allocate(DropTest(&values_in_existence)).unwrap();
    let _d = heap.allocate(DropTest(&values_in_existence)).unwrap();
    assert_eq!(values_in_existence.get(), 3); // a and b are dropped

    // and this must fail
    assert!(heap.allocate(DropTest(&values_in_existence)).is_err())
}

#[test]
fn new_heap_has_sixteen_empty_slots() {
    let heap = OrcHeap::<usize>::new();
    assert_eq!(heap.capacity(), 16);
    for slot in 0..16 {
        assert_eq!(heap.weight_at(slot), 0);
    }
}

#[test]
fn with_capacity_makes_empty_slots() {
    let heap = OrcHeap::<String>::with_capacity(42);
    assert_eq!(heap.capacity(), 42);
    for slot in 0..42 {
        assert_eq!(heap.weight_at(slot), 0);
    }
}

#[test]
fn allocate_claims_first_empty_slot_with_whole_weight() {
    let mut heap = OrcHeap::with_capacity(3);
    let a = heap.allocate("a").unwrap();
    let b = heap.allocate("b").unwrap();
    assert_eq!(a.slot(), 0);
    assert_eq!(b.slot(), 1);
    assert_eq!(a.weight_exp(), MAX_WEIGHT_EXP);
    assert_eq!(a.weight(), MAX_WEIGHT);
    assert_eq!(heap.weight_at(0), MAX_WEIGHT);
    assert_eq!(heap.weight_at(1), MAX_WEIGHT);
    assert_eq!(heap.weight_at(2), 0);
    assert_eq!(*heap.get(&a), "a");
    assert_eq!(*heap.get(&b), "b");

    heap.release(a);
    assert_eq!(heap.weight_at(0), 0);
    let c = heap.allocate("c").unwrap();
    assert_eq!(c.slot(), 0);
    assert_eq!(*heap.get(&c), "c");
    assert_eq!(*heap.get(&b), "b");
}

#[test]
fn capacity_exhaustion() {
    for capacity in [1usize, 2, 7, 16] {
        let mut heap = OrcHeap::with_capacity(capacity);
        let mut handles: Vec<Orc<usize>> = Vec::new();
        for n in 0..capacity {
            let handle = heap.allocate(n).unwrap();
            assert_eq!(handle.slot(), n as u64);
            handles.push(handle);
        }
        match heap.allocate(capacity) {
            Err(e) => assert_eq!(e, OrcError::OutOfSlots),
            Ok(_) => panic!("a full heap took a value"),
        }
        for (n, handle) in handles.iter().enumerate() {
            assert_eq!(*heap.get(handle), n);
            assert_eq!(heap.weight_at(n), MAX_WEIGHT);
        }
    }
}

#[test]
fn reuse_after_free() {
    let mut heap = OrcHeap::with_capacity(2);
    let a = heap.allocate(1u8).unwrap();
    let b = heap.allocate(2u8).unwrap();
    heap.release(b);
    heap.release(a);
    let c = heap.allocate(3u8).unwrap();
    let d = heap.allocate(4u8).unwrap();
    assert_eq!(*heap.get(&c), 3);
    assert_eq!(*heap.get(&d), 4);
    assert_eq!(heap.allocate(5u8).err(), Some(OrcError::OutOfSlots));
}

#[test]
fn split_halves_the_share_and_leaves_the_slot_alone() {
    let mut heap = OrcHeap::with_capacity(1);
    let mut a = heap.allocate(7u32).unwrap();
    let b = a.split().unwrap();
    assert_eq!(a.weight_exp(), 62);
    assert_eq!(b.weight_exp(), 62);
    assert_eq!(a.slot(), b.slot());
    assert_eq!(a.weight() + b.weight(), MAX_WEIGHT);
    assert_eq!(heap.weight_at(0), MAX_WEIGHT);
    assert_eq!(*heap.get(&a), 7);
    assert_eq!(*heap.get(&b), 7);
}

#[test]
fn drop_subtracts_the_share() {
    let mut heap = OrcHeap::with_capacity(1);
    let mut a = heap.allocate(7u32).unwrap();
    let mut b = a.split().unwrap();
    let c = b.split().unwrap();
    heap.release(a);
    assert_eq!(heap.weight_at(0), MAX_WEIGHT / 2);
    heap.release(c);
    assert_eq!(heap.weight_at(0), MAX_WEIGHT / 4);
    assert_eq!(*heap.get(&b), 7);
    heap.release(b);
    assert_eq!(heap.weight_at(0), 0);
}

#[test]
fn conservation_on_a_small_history() {
    let mut heap = OrcHeap::with_capacity(2);
    let mut live: Vec<Orc<char>> = Vec::new();
    let check = |heap: &OrcHeap<char>, live: &Vec<Orc<char>>| {
        for slot in 0..2u64 {
            let mut sum: u64 = 0;
            for handle in live.iter().filter(|h| h.slot() == slot) {
                sum += handle.weight();
            }
            assert_eq!(sum, heap.weight_at(slot as usize));
        }
    };
    check(&heap, &live);
    live.push(heap.allocate('x').unwrap());
    check(&heap, &live);
    live.push(heap.allocate('y').unwrap());
    check(&heap, &live);
    for round in 0..10 {
        let twin = live[round % 2].split().unwrap();
        live.push(twin);
        check(&heap, &live);
    }
    while let Some(handle) = live.pop() {
        let slot = handle.slot() as usize;
        heap.release(handle);
        check(&heap, &live);
        let referenced = live.iter().any(|h| h.slot() as usize == slot);
        assert_eq!(heap.weight_at(slot) == 0, !referenced);
    }
}

#[test]
fn cannot_split_the_smallest_share() {
    let mut heap = OrcHeap::with_capacity(1);
    let mut handle = heap.allocate(()).unwrap();
    let mut others: Vec<Orc<()>> = Vec::new();
    for _ in 0..63 {
        others.push(handle.split().unwrap());
    }
    assert_eq!(handle.weight_exp(), 0);
    assert_eq!(handle.weight(), 1);
    match handle.split() {
        Err(e) => assert_eq!(e, OrcError::CannotSplitFurther),
        Ok(_) => panic!("a single unit was split"),
    }
    assert_eq!(handle.weight_exp(), 0);
    assert_eq!(heap.weight_at(0), MAX_WEIGHT);
}

#[test]
fn split_chain_keeps_the_sum_and_drops_free_once() {
    let freed = Cell::new(1);
    let mut heap = OrcHeap::with_capacity(1);
    let first = heap.allocate(DropTest(&freed)).unwrap();
    let mut chain: Vec<Orc<DropTest>> = vec![first];
    for n in 1..=63u8 {
        let twin = chain.last_mut().unwrap().split().unwrap();
        assert_eq!(twin.weight_exp(), 63 - n);
        chain.push(twin);
        let mut sum: u64 = 0;
        for handle in chain.iter() {
            sum += handle.weight();
        }
        assert_eq!(sum, MAX_WEIGHT);
        assert_eq!(heap.weight_at(0), MAX_WEIGHT);
    }
    assert_eq!(chain.len(), 64);
    // give them back in an order that is neither that of their making nor its reverse
    let mut order: Vec<Orc<DropTest>> = Vec::new();
    while !chain.is_empty() {
        let at = (chain.len() * 7 + 3) % chain.len();
        order.push(chain.swap_remove(at));
    }
    let mut left = MAX_WEIGHT;
    let count = order.len();
    for (n, handle) in order.into_iter().enumerate() {
        assert_eq!(freed.get(), 1);
        left -= handle.weight();
        heap.release(handle);
        assert_eq!(heap.weight_at(0), left);
        assert_eq!(left == 0, n + 1 == count);
    }
    assert_eq!(freed.get(), 0);
}

#[test]
fn value_survives_while_a_handle_is_live() {
    let mut heap = OrcHeap::with_capacity(2);
    let mut keep = heap.allocate(String::from("kept")).unwrap();
    let twin = keep.split().unwrap();
    let other = heap.allocate(String::from("other")).unwrap();
    heap.release(twin);
    assert_eq!(heap.get(&keep).as_str(), "kept");
    heap.release(other);
    assert_eq!(heap.get(&keep).as_str(), "kept");
    heap.collect();
    assert_eq!(heap.get(&keep).as_str(), "kept");
    let again = heap.allocate(String::from("again")).unwrap();
    assert_eq!(again.slot(), 1);
    assert_eq!(heap.get(&keep).as_str(), "kept");
    assert_eq!(heap.get(&again).as_str(), "again");
}

#[test]
fn whole_handle_frees_at_once() {
    let freed = Cell::new(1);
    let mut heap = OrcHeap::with_capacity(1);
    let handle = heap.allocate(DropTest(&freed)).unwrap();
    assert_eq!(freed.get(), 1);
    heap.release(handle);
    assert_eq!(freed.get(), 0);
    assert_eq!(heap.weight_at(0), 0);
}

#[test]
fn collect_leaves_occupied_slots_alone() {
    let freed = Cell::new(3);
    let mut heap = OrcHeap::with_capacity(3);
    let a = heap.allocate(DropTest(&freed)).unwrap();
    let b = heap.allocate(DropTest(&freed)).unwrap();
    heap.release(a);
    assert_eq!(freed.get(), 2);
    heap.collect();
    assert_eq!(freed.get(), 2);
    assert_eq!(heap.weight_at(0), 0);
    assert_eq!(heap.weight_at(1), MAX_WEIGHT);
    assert_eq!(heap.weight_at(2), 0);
    assert!(heap.holds(&b));
}

#[test]
fn holds_tells_live_handles_from_strangers() {
    let mut heap = OrcHeap::with_capacity(2);
    let mut larger = OrcHeap::with_capacity(4);
    let a = heap.allocate(1u8).unwrap();
    for n in 0..3u8 {
        let _ = larger.allocate(n).unwrap();
    }
    let far = larger.allocate(3u8).unwrap();
    assert!(heap.holds(&a));
    assert!(!heap.holds(&far));
    let mut b = heap.allocate(2u8).unwrap();
    let twin = b.split().unwrap();
    heap.release(b);
    assert!(heap.holds(&twin));
    heap.release(twin);
    assert!(heap.holds(&a));
}
