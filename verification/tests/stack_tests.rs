use trex::utils::stack::TwoStack;

#[test]
fn empty_item() {
    let s: TwoStack<u8> = TwoStack::new();

    assert_eq!(s.len, 0);
}

#[test]
fn one_item() {
    let mut s: TwoStack<i64> = TwoStack::new();
    let a = i64::from(12);
    s.push(a);

    assert_eq!(s.len, 1);
}

#[test]
fn two_items() {
    let mut s: TwoStack<i64> = TwoStack::new();
    let a = i64::from(12);
    let b = i64::from(23);
    s.push(a);
    s.push(b);

    assert_eq!(s.one, Some(23));
    assert_eq!(s.two, Some(12));
    assert_eq!(s.len, 2);
}

#[test]
fn three_items() {
    let mut s: TwoStack<i64> = TwoStack::new();
    let a = i64::from(-12);
    let b = i64::from(34);
    let c = i64::from(123);

    s.push(a);
    s.push(b);
    s.push(c);

    assert_eq!(s.len, 2);
    assert_eq!(s.one, Some(123));
    assert_eq!(s.two, Some(34));
}

#[test]
fn pop_one() {
    let mut s: TwoStack<i64> = TwoStack::new();
    let a = i64::from(23);
    let _b = i64::from(12);
    s.push(a);

    let c = s.pop();
    assert_eq!(c, Some(23));
    assert_eq!(s.len, 0);
}

#[test]
fn pop_after_push_gives_pushed_item() {
    let mut s: TwoStack<i64> = TwoStack::new();
    s.push(1);
    s.push(2);
    s.push(3);
    assert_eq!(s.pop(), Some(3));
    assert_eq!(s.len, 1);
    assert_eq!(s.one, Some(2));
    s.push(9);
    assert_eq!(s.pop(), Some(9));
}

#[test]
fn pop_on_empty_stack() {
    let mut s: TwoStack<u64> = TwoStack::new();
    assert_eq!(s.pop(), None);
    assert_eq!(s.len, 0);
    assert_eq!(s.one, None);
}

#[test]
fn pop_clears_slot_below() {
    // Popping a stack of two moves the lower item up and empties the slot
    // below it; two pops empty the stack, and a third gives nothing.
    let mut s: TwoStack<i64> = TwoStack::new();
    s.push(12);
    s.push(23);
    assert_eq!(s.pop(), Some(23));
    assert_eq!(s.len, 1);
    assert_eq!(s.one, Some(12));
    assert_eq!(s.two, None);
    assert_eq!(s.pop(), Some(12));
    assert_eq!(s.len, 0);
    assert_eq!(s.one, None);
    assert_eq!(s.two, None);
    assert_eq!(s.pop(), None);
    assert_eq!(s.len, 0);
}
