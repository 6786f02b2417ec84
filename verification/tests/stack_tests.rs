use steel::stack::Stack;
use steel::values::Value;

#[test]
fn push_pop_round_trip() {
    let mut s: Stack<i64> = Stack::new();
    s.push(1);
    s.push(2);
    assert_eq!(s.pop(), Some(2));
    assert_eq!(s.try_pop(), Some(1));
    assert_eq!(s.pop(), None);
}

#[test]
fn split_off_and_truncate() {
    let mut s: Stack<i64> = Stack::with_capacity(4);
    s.push(1);
    s.push(2);
    s.push(3);
    let top = s.split_off(1);
    assert_eq!(top, vec![2, 3]);
    assert_eq!(s.pop(), Some(1));
    let mut s2: Stack<i64> = Stack::new();
    let mut extra = vec![7, 8, 9];
    s2.append_vec(&mut extra);
    assert!(extra.is_empty());
    s2.truncate(1);
    assert_eq!(s2.pop(), Some(7));
}

#[test]
fn set_idx_and_peek_range() {
    let mut s: Stack<i64> = Stack::new();
    s.push(10);
    s.push(20);
    s.push(30);
    s.set_idx(1, 25);
    let tail = s.peek_range(1);
    assert_eq!(tail, &[25, 30]);
    s.clear();
    assert_eq!(s.pop(), None);
}

#[test]
fn stacks_hold_values() {
    let mut s: Stack<Value> = Stack::new();
    s.push(Value::IntV(5));
    match s.pop() {
        Some(Value::IntV(5)) => {}
        other => panic!("unexpected {:?}", other),
    }
}
