use classvm::error::VmError;
use classvm::heap::{rewrite_stack, ClassLayout, Heap};
use classvm::stack::Stack;
use classvm::things::Value;

// A small layout table: class 0 has no fields; class 1 is a chain link
// (one reference field, one plain field); class 2 has one plain field.
fn layouts() -> Vec<ClassLayout> {
    vec![
        ClassLayout { is_ref: vec![] },
        ClassLayout {
            is_ref: vec![true, false],
        },
        ClassLayout {
            is_ref: vec![false],
        },
    ]
}

#[test]
fn allocate_returns_zeroed_objects_and_reports_exhaustion() {
    let lts = layouts();
    let mut h = Heap::new(8, 8);
    let a = h.allocate(&lts, 1).unwrap();
    assert!(h.find_object(&lts, a));
    assert_eq!(h.read_class(&lts, a), 1);
    assert_eq!(h.get_field(&lts, a, 0).bits, 0);
    assert_eq!(h.get_field(&lts, a, 1).bits, 0);
    let b = h.allocate(&lts, 2).unwrap();
    assert_ne!(a, b);
    // 3 + 2 slots used of the 8-slot ceiling: a third chunk cannot be
    // committed.
    let c = h.allocate(&lts, 1).unwrap();
    assert!(h.find_object(&lts, c));
    assert_eq!(h.allocate(&lts, 1), Err(VmError::HeapExhausted));
}

#[test]
fn fields_store_and_read_back() {
    let lts = layouts();
    let mut h = Heap::new(64, 16);
    let a = h.allocate(&lts, 1).unwrap();
    let b = h.allocate(&lts, 1).unwrap();
    h.set_field(&lts, a, 1, Value::nint(41));
    h.set_field(&lts, b, 1, Value::nint(42));
    assert_eq!(h.get_field(&lts, a, 1).as_int(), 41);
    assert_eq!(h.get_field(&lts, b, 1).as_int(), 42);
}

#[test]
fn collection_keeps_a_rooted_chain_and_reclaims_garbage() {
    let lts = layouts();
    let mut h = Heap::new(64, 32);
    // A chain of three objects rooted from one handle, with payloads.
    let o1 = h.allocate(&lts, 1).unwrap();
    let o2 = h.allocate(&lts, 1).unwrap();
    let o3 = h.allocate(&lts, 1).unwrap();
    h.set_field(&lts, o1, 0, Value::nobject(o2));
    h.set_field(&lts, o1, 1, Value::nint(100));
    h.set_field(&lts, o2, 0, Value::nobject(o3));
    h.set_field(&lts, o2, 1, Value::nint(200));
    h.set_field(&lts, o3, 1, Value::nint(300));
    // Two unrooted objects interleaved before the chain is collected.
    let g1 = h.allocate(&lts, 2).unwrap();
    let g2 = h.allocate(&lts, 1).unwrap();
    let rm = h.collect(&lts, &vec![o1]);
    // The chain survived; the garbage did not.
    let n1 = rm.lookup(o1).expect("root must survive");
    assert!(rm.lookup(g1).is_none());
    assert!(rm.lookup(g2).is_none());
    // Field-held references still point at valid (relocated) objects
    // with unchanged payloads.
    let n2 = h.get_field(&lts, n1, 0).to_object().unwrap();
    assert!(h.find_object(&lts, n2));
    assert_eq!(rm.lookup(o2), Some(n2));
    let n3 = h.get_field(&lts, n2, 0).to_object().unwrap();
    assert!(h.find_object(&lts, n3));
    assert_eq!(rm.lookup(o3), Some(n3));
    assert_eq!(h.get_field(&lts, n1, 1).as_int(), 100);
    assert_eq!(h.get_field(&lts, n2, 1).as_int(), 200);
    assert_eq!(h.get_field(&lts, n3, 1).as_int(), 300);
    assert_eq!(h.get_field(&lts, n3, 0).bits, 0);
    // Occupancy after compaction reflects exactly the three reachable
    // objects' sizes: three chain links of three slots each.
    let used: usize = h.chunks.iter().map(|c| c.cursor).sum();
    assert_eq!(used, 9);
    // The reclaimed tail is open for a subsequent allocation.
    let fresh = h.allocate(&lts, 1).unwrap();
    assert!(h.find_object(&lts, fresh));
}

#[test]
fn collection_with_no_roots_empties_the_heap() {
    let lts = layouts();
    let mut h = Heap::new(64, 32);
    h.allocate(&lts, 1).unwrap();
    h.allocate(&lts, 2).unwrap();
    let rm = h.collect(&lts, &vec![]);
    assert_eq!(rm.moves.len(), h.chunks.len());
    let used: usize = h.chunks.iter().map(|c| c.cursor).sum();
    assert_eq!(used, 0);
}

#[test]
fn unreferenced_middle_object_is_skipped_and_links_rewritten() {
    let lts = layouts();
    let mut h = Heap::new(64, 32);
    let a = h.allocate(&lts, 1).unwrap();
    let dead = h.allocate(&lts, 2).unwrap();
    let b = h.allocate(&lts, 1).unwrap();
    h.set_field(&lts, a, 0, Value::nobject(b));
    h.set_field(&lts, b, 1, Value::nint(7));
    let rm = h.collect(&lts, &vec![a]);
    assert!(rm.lookup(dead).is_none());
    let na = rm.lookup(a).unwrap();
    let nb = rm.lookup(b).unwrap();
    // The survivor slid down over the dead object.
    assert!(nb.slot < b.slot);
    assert_eq!(h.get_field(&lts, na, 0).to_object(), Some(nb));
    assert_eq!(h.get_field(&lts, nb, 1).as_int(), 7);
}

#[test]
fn stack_slots_are_rewritten_through_the_remap() {
    let lts = layouts();
    let mut h = Heap::new(64, 32);
    // Garbage ahead of the live object forces the compactor to move it.
    let garbage = h.allocate(&lts, 2).unwrap();
    let live = h.allocate(&lts, 1).unwrap();
    let _ = garbage;
    h.set_field(&lts, live, 1, Value::nint(7));
    let mut st = Stack::new(16);
    st.call(2, 2, 0, 0).unwrap();
    st.set(0, Value::nobject(live));
    st.set(1, Value::nint(9));
    st.push(Value::nobject(live));
    let rm = h.collect(&lts, &vec![live]);
    rewrite_stack(&mut st, &rm);
    let nl = rm.lookup(live).unwrap();
    assert!(nl.slot < live.slot);
    assert_eq!(st.get(0).to_object(), Some(nl));
    assert_eq!(st.get(1).as_int(), 9);
    assert_eq!(st.peek().to_object(), Some(nl));
    assert_eq!(h.get_field(&lts, nl, 1).as_int(), 7);
}
