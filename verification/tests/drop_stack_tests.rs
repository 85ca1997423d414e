use dualmap::DropStack;

#[test]
fn test_eviction_order() {
    let mut s: DropStack<u64> = DropStack::new(2);
    s.push_top(1);
    s.push_top(2);
    s.push_top(3);
    assert_eq!(s.len(), 2);
    assert_eq!(*s.get(0), 2);
    assert_eq!(*s.get(1), 3);
    s.push_top(4);
    assert_eq!(s.len(), 2);
    assert_eq!(*s.get(0), 3);
    assert_eq!(*s.get(1), 4);
}

#[test]
fn test_push_below_capacity() {
    let mut s: DropStack<u64> = DropStack::new(3);
    assert!(s.is_empty());
    s.push_top(1);
    s.push_top(2);
    assert_eq!(s.len(), 2);
    assert_eq!(*s.get(0), 1);
    assert_eq!(*s.get(1), 2);
}

#[test]
fn test_zero_capacity_keeps_nothing() {
    let mut s: DropStack<u64> = DropStack::new(0);
    s.push_top(1);
    s.push_top(2);
    assert!(s.is_empty());
    assert_eq!(s.pop_top(), None);
}

#[test]
fn test_pop_both_ends() {
    let mut s: DropStack<u64> = DropStack::new(4);
    s.push_top(1);
    s.push_top(2);
    s.push_top(3);
    assert_eq!(s.pop_bottom(), Some(1));
    assert_eq!(s.pop_top(), Some(3));
    assert_eq!(s.pop_top(), Some(2));
    assert_eq!(s.pop_top(), None);
    assert_eq!(s.pop_bottom(), None);
}
