use classvm::error::VmError;
use classvm::stack::Stack;
use classvm::things::Value;

#[test]
fn call_places_a_zeroed_frame_and_ret_discards_it() {
    let mut s = Stack::new(64);
    assert_eq!(s.frame_count(), 0);
    s.call(2, 3, 7, 9).unwrap();
    assert_eq!(s.frame_count(), 1);
    let f = s.current();
    assert_eq!(f.base, 0);
    assert_eq!(f.max_locals, 2);
    assert_eq!(f.max_stack, 3);
    assert_eq!(f.sp, 0);
    assert_eq!(f.pc, 0);
    assert_eq!(f.class, 7);
    assert_eq!(f.method, 9);
    assert_eq!(s.get(0).bits, 0);
    assert_eq!(s.get(1).bits, 0);
    s.ret();
    assert_eq!(s.frame_count(), 0);
}

#[test]
fn operand_stack_is_last_in_first_out() {
    let mut s = Stack::new(64);
    s.call(0, 4, 0, 0).unwrap();
    s.push(Value::nint(1));
    s.push(Value::nint(2));
    s.push(Value::nint(3));
    assert_eq!(s.peek().as_int(), 3);
    assert_eq!(s.peek_n(2).as_int(), 2);
    assert_eq!(s.pop().as_int(), 3);
    assert_eq!(s.pop().as_int(), 2);
    assert_eq!(s.pop().as_int(), 1);
}

#[test]
fn frame_isolation_across_call_and_ret() {
    // The caller's locals and operand stack survive a callee that
    // mutates its own frame freely.
    let mut s = Stack::new(64);
    s.call(2, 2, 0, 0).unwrap();
    s.set(0, Value::nint(11));
    s.set(1, Value::nint(22));
    s.push(Value::nint(33));
    // The callee gets its own slots directly above and scribbles on
    // every one of them.
    s.call(2, 2, 0, 1).unwrap();
    assert_eq!(s.get(0).bits, 0);
    s.set(0, Value::nint(77));
    s.set(1, Value::nint(88));
    s.push(Value::nint(99));
    s.pop();
    s.ret();
    // Depth is back; the caller sees exactly what it left.
    assert_eq!(s.frame_count(), 1);
    assert_eq!(s.get(0).as_int(), 11);
    assert_eq!(s.get(1).as_int(), 22);
    let f = s.current();
    assert_eq!(f.sp, 1);
    assert_eq!(s.peek().as_int(), 33);
}

#[test]
fn overflowing_the_region_is_reported_not_allocated() {
    let mut s = Stack::new(8);
    s.call(2, 2, 0, 0).unwrap();
    assert_eq!(s.call(4, 2, 0, 0), Err(VmError::StackOverflow));
    // The failed call changed nothing.
    assert_eq!(s.frame_count(), 1);
    assert_eq!(s.call(2, 2, 0, 0), Ok(()));
    assert_eq!(s.frame_count(), 2);
}
