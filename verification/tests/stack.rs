use lib::stack::Stack;

#[test]
fn test_push() {
    let mut stack: Stack<i32> = Stack::new();
    stack.push(1);
    stack.push(2);
    stack.push(3);

    assert_eq!(vec![1, 2, 3], Vec::from(stack));
}

#[test]
fn stack_test_pop() {
    let mut stack: Stack<i32> = Stack::new();
    stack.push(1);
    stack.push(2);
    stack.push(3);

    assert_eq!(Some(3), stack.pop());
    assert_eq!(vec![1, 2], Vec::from(stack));
}

#[test]
fn test_top() {
    let mut stack: Stack<i32> = Stack::new();
    stack.push(1);
    stack.push(2);
    stack.push(3);

    assert_eq!(Some(3), stack.top().copied());
    assert_eq!(vec![1, 2, 3], Vec::from(stack));
}

#[test]
fn test_search() {
    let mut stack: Stack<i32> = Stack::new();
    stack.push(1);
    stack.push(2);
    stack.push(3);

    assert_eq!(Some(2), stack.search(|v| *v == 2).copied());
}

#[test]
fn stack_test_clear() {
    let mut stack: Stack<i32> = Stack::new();
    stack.push(1);
    stack.push(2);
    stack.push(3);
    stack.clear();

    assert_eq!(None, stack.top());
}

#[test]
fn stack_test_count() {
    let mut stack: Stack<i32> = Stack::new();
    assert_eq!(0, stack.count());

    stack.push(1);
    stack.push(2);
    stack.push(3);
    assert_eq!(3, stack.count());

    let _ = stack.pop();
    assert_eq!(2, stack.count());
}

#[test]
fn search_finds_topmost_match() {
    let mut stack: Stack<i32> = Stack::new();
    stack.push(4);
    stack.push(1);
    stack.push(6);
    stack.push(3);
    assert_eq!(Some(6), stack.search(|v| *v % 2 == 0).copied());
    assert_eq!(None, stack.search(|v| *v > 10));
    assert_eq!(None, Stack::<i32>::new().pop());
}
