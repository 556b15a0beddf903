use stack_max::StackMax;

#[test]
fn pushes_track_count_and_maximum() {
    let values = [3, 7, 2, 7, 1];
    let mut stack = StackMax::new();
    for (count, value) in values.iter().enumerate() {
        stack.push(*value);
        assert_eq!(count + 1, stack.len());
    }
    assert_eq!(&7, stack.get_max().unwrap());
}

#[test]
fn pop_returns_previous_peek_and_shrinks_by_one() {
    let mut stack = StackMax::new();
    stack.push(6);
    stack.push(13);
    stack.push(2);

    while stack.len() > 0 {
        let before = stack.len();
        let peeked = *stack.peek().unwrap();
        let popped = stack.pop().unwrap();
        assert_eq!(peeked, popped);
        assert_eq!(before - 1, stack.len());
    }
}

#[test]
fn reads_are_idempotent() {
    let mut stack = StackMax::new();
    stack.push(10);
    stack.push(3);

    let first_peek = *stack.peek().unwrap();
    let second_peek = *stack.peek().unwrap();
    assert_eq!(first_peek, second_peek);

    let first_max = *stack.get_max().unwrap();
    let second_max = *stack.get_max().unwrap();
    assert_eq!(first_max, second_max);

    assert_eq!(2, stack.len());
    assert_eq!(&3, stack.peek().unwrap());
    assert_eq!(&10, stack.get_max().unwrap());
}

#[test]
fn empty_stack_reports_absence() {
    let mut stack = StackMax::new();
    assert!(stack.peek().is_none());
    assert!(stack.get_max().is_none());
    assert!(stack.pop().is_none());
    assert_eq!(0, stack.len());
}

#[test]
fn duplicate_maximum_survives_one_pop() {
    let mut stack = StackMax::new();
    stack.push(4);
    stack.push(7);
    stack.push(7);
    assert_eq!(&7, stack.get_max().unwrap());

    assert_eq!(7, stack.pop().unwrap());
    assert_eq!(&7, stack.get_max().unwrap(), "other copy of 7 still present");

    assert_eq!(7, stack.pop().unwrap());
    assert_eq!(&4, stack.get_max().unwrap(), "maximum falls back to 4");
}

#[test]
fn reference_trace() {
    let mut stack = StackMax::new();

    stack.push(9);
    assert_eq!(&9, stack.peek().unwrap());
    assert_eq!(&9, stack.get_max().unwrap());
    assert_eq!(1, stack.len());

    stack.push(4);
    assert_eq!(&4, stack.peek().unwrap());
    assert_eq!(&9, stack.get_max().unwrap());
    assert_eq!(2, stack.len());

    stack.push(14);
    assert_eq!(&14, stack.peek().unwrap());
    assert_eq!(&14, stack.get_max().unwrap());
    assert_eq!(3, stack.len());

    stack.pop();
    assert_eq!(&4, stack.peek().unwrap());
    assert_eq!(&9, stack.get_max().unwrap());
    assert_eq!(2, stack.len());

    stack.pop();
    assert_eq!(&9, stack.peek().unwrap());
    assert_eq!(&9, stack.get_max().unwrap());
    assert_eq!(1, stack.len());
}

#[test]
fn extreme_values_are_ordinary_data() {
    let mut stack = StackMax::new();
    stack.push(i32::MIN);
    assert_eq!(&i32::MIN, stack.peek().unwrap());
    assert_eq!(&i32::MIN, stack.get_max().unwrap());

    stack.push(i32::MAX);
    assert_eq!(&i32::MAX, stack.get_max().unwrap());

    stack.push(i32::MIN);
    assert_eq!(&i32::MIN, stack.peek().unwrap());
    assert_eq!(&i32::MAX, stack.get_max().unwrap());

    assert_eq!(i32::MIN, stack.pop().unwrap());
    assert_eq!(i32::MAX, stack.pop().unwrap());
    assert_eq!(&i32::MIN, stack.get_max().unwrap());
    assert_eq!(i32::MIN, stack.pop().unwrap());
    assert!(stack.pop().is_none());
}

#[test]
fn reusable_after_emptying() {
    let mut stack = StackMax::new();
    stack.push(5);
    assert_eq!(5, stack.pop().unwrap());
    assert!(stack.pop().is_none());

    stack.push(2);
    stack.push(8);
    assert_eq!(&8, stack.get_max().unwrap());
    assert_eq!(2, stack.len());
}
