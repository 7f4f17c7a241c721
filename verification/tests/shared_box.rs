use std::cell::Cell;
use std::rc::Rc;

use thin_arc::arc::{Arc, Heap};

#[test]
fn new_handle_counts_one() {
    let mut h: Heap<u64> = Heap::new();
    let a = Arc::new(&mut h, 7);
    assert_eq!(Arc::strong_count(&h, &a), 1);
    assert_eq!(*Arc::deref(&h, &a), 7);
}

#[test]
fn default_handle_holds_the_default_value() {
    let mut h: Heap<u64> = Heap::new();
    let a = Arc::default(&mut h);
    assert_eq!(Arc::strong_count(&h, &a), 1);
    assert_eq!(*Arc::deref(&h, &a), 0);
}

#[test]
fn clone_raises_and_drop_lowers_count() {
    let mut h: Heap<&str> = Heap::new();
    let a = Arc::new(&mut h, "payload");
    let b = Arc::clone(&mut h, &a);
    assert_eq!(Arc::strong_count(&h, &a), 2);
    let c = Arc::clone(&mut h, &b);
    assert_eq!(Arc::strong_count(&h, &a), 3);
    Arc::drop(&mut h, c);
    assert_eq!(Arc::strong_count(&h, &a), 2);
    Arc::drop(&mut h, b);
    assert_eq!(Arc::strong_count(&h, &a), 1);
}

#[test]
fn clone_drop_pairs_idempotent_on_count() {
    let mut h: Heap<u32> = Heap::new();
    let a = Arc::new(&mut h, 5);
    for _ in 0..10 {
        let b = Arc::clone(&mut h, &a);
        Arc::drop(&mut h, b);
        assert_eq!(Arc::strong_count(&h, &a), 1);
    }
}

#[test]
fn get_mut_present_iff_unique() {
    let mut h: Heap<u64> = Heap::new();
    let a = Arc::new(&mut h, 1);
    assert!(Arc::get_mut(&mut h, &a).is_some());
    let b = Arc::clone(&mut h, &a);
    assert!(Arc::get_mut(&mut h, &a).is_none());
    assert!(Arc::get_mut(&mut h, &b).is_none());
    Arc::drop(&mut h, b);
    assert!(Arc::get_mut(&mut h, &a).is_some());
}

#[test]
fn make_mut_copies_when_shared() {
    let mut h: Heap<u64> = Heap::new();
    let a = Arc::new(&mut h, 10);
    let mut b = Arc::clone(&mut h, &a);
    *Arc::make_mut(&mut h, &mut b) = 20;
    assert_eq!(*Arc::deref(&h, &a), 10);
    assert_eq!(*Arc::deref(&h, &b), 20);
    assert_eq!(Arc::strong_count(&h, &a), 1);
    assert_eq!(Arc::strong_count(&h, &b), 1);
    // The copy lives at a distinct address.
    assert_ne!(Arc::into_raw(a), Arc::into_raw(b));
}

#[test]
fn make_mut_reuses_a_unique_allocation() {
    let mut h: Heap<u64> = Heap::new();
    let mut a = Arc::new(&mut h, 10);
    *Arc::make_mut(&mut h, &mut a) = 11;
    assert_eq!(*Arc::deref(&h, &a), 11);
    assert_eq!(Arc::strong_count(&h, &a), 1);
}

#[test]
fn raw_round_trip_is_invisible() {
    let mut h: Heap<u64> = Heap::new();
    let a = Arc::new(&mut h, 7);
    let keeper = Arc::clone(&mut h, &a);
    assert_eq!(Arc::strong_count(&h, &keeper), 2);

    let raw = Arc::into_raw(a);
    // Consuming the handle for its raw address moves no count.
    assert_eq!(Arc::strong_count(&h, &keeper), 2);

    let back = Arc::from_raw(raw);
    assert_eq!(Arc::strong_count(&h, &keeper), 2);
    assert_eq!(*Arc::deref(&h, &back), 7);
    // The rebuilt handle stands for the same allocation.
    assert_eq!(Arc::into_raw(back), raw);
}

#[test]
fn from_slice_copies_three_elements() {
    let mut h: Heap<Vec<u64>> = Heap::new();
    let source: Vec<u64> = vec![1, 2, 3];
    let a = Arc::from_slice(&mut h, &source);
    assert_eq!(Arc::deref(&h, &a).as_slice(), &[1, 2, 3]);
    assert_eq!(Arc::deref(&h, &a).len(), 3);
    // The source is read, not moved.
    assert_eq!(source, vec![1, 2, 3]);
    assert_eq!(Arc::strong_count(&h, &a), 1);
}

/// Payload element whose destruction is counted, to observe that elements
/// moved into an allocation are destroyed exactly once.
struct DropTally {
    hits: Rc<Cell<u32>>,
}

impl Drop for DropTally {
    fn drop(&mut self) {
        self.hits.set(self.hits.get() + 1);
    }
}

#[test]
fn from_vec_moves_contents_without_double_drop() {
    let hits: Rc<Cell<u32>> = Rc::new(Cell::new(0));
    let mut h: Heap<Vec<DropTally>> = Heap::new();
    let source = vec![
        DropTally { hits: Rc::clone(&hits) },
        DropTally { hits: Rc::clone(&hits) },
        DropTally { hits: Rc::clone(&hits) },
    ];
    let a = Arc::from_vec(&mut h, source);
    assert_eq!(Arc::deref(&h, &a).len(), 3);
    // Handing the sequence over destroyed no element.
    assert_eq!(hits.get(), 0);
    Arc::drop(&mut h, a);
    // The final drop destroyed each of the three elements exactly once.
    assert_eq!(hits.get(), 3);
}

#[test]
fn from_box_takes_ownership() {
    let mut h: Heap<String> = Heap::new();
    let a = Arc::from_box(&mut h, Box::new(String::from("boxed")));
    assert_eq!(Arc::deref(&h, &a), "boxed");
    assert_eq!(Arc::strong_count(&h, &a), 1);
}

#[test]
fn cow_scenario_over_forty_two() {
    let mut h: Heap<u64> = Heap::new();
    let a = Arc::new(&mut h, 42);
    let b = Arc::clone(&mut h, &a);
    assert_eq!(Arc::strong_count(&h, &b), 2);
    Arc::drop(&mut h, a);
    assert_eq!(Arc::strong_count(&h, &b), 1);
    let exclusive = Arc::get_mut(&mut h, &b);
    assert!(exclusive.is_some());
    *exclusive.unwrap() = 43;
    assert_eq!(*Arc::deref(&h, &b), 43);
}

#[test]
fn sequence_scenario_one_two_three() {
    let mut h: Heap<Vec<i32>> = Heap::new();
    let source: Vec<i32> = vec![1, 2, 3];
    let a = Arc::from_slice(&mut h, &source);
    let seen = Arc::deref(&h, &a);
    assert_eq!(seen.len(), 3);
    assert_eq!(seen.as_slice(), &[1, 2, 3]);
}

#[test]
fn drop_of_last_handle_frees_the_payload() {
    let hits: Rc<Cell<u32>> = Rc::new(Cell::new(0));
    let mut h: Heap<DropTally> = Heap::new();
    let a = Arc::new(&mut h, DropTally { hits: Rc::clone(&hits) });
    let b = Arc::clone(&mut h, &a);
    Arc::drop(&mut h, a);
    // A holder remains: the payload must survive.
    assert_eq!(hits.get(), 0);
    Arc::drop(&mut h, b);
    // The decrement that reached zero freed it, exactly once.
    assert_eq!(hits.get(), 1);
}
