use lox_vm::stack::Stack;

const DEFAULT_STACK_SIZE: usize = 256;

#[test]
fn stack_init() {
    let stack = Stack::<usize, DEFAULT_STACK_SIZE>::default();
    assert_eq!(0, stack.pointer());
    assert_eq!(DEFAULT_STACK_SIZE, stack.capacity());
}

#[test]
fn stack_push_increase_pointer() {
    let mut stack = Stack::<usize, DEFAULT_STACK_SIZE>::default();

    stack.push(0).unwrap();
    assert_eq!(1, stack.pointer());

    stack.push(1).unwrap();
    stack.push(2).unwrap();
    assert_eq!(3, stack.pointer());
}

#[test]
fn stack_pop_decrease_pointer() {
    let mut stack = Stack::<usize, DEFAULT_STACK_SIZE>::default();

    stack.push(0).unwrap();
    assert_eq!(1, stack.pointer());

    stack.push(1).unwrap();
    stack.push(2).unwrap();
    assert_eq!(3, stack.pointer());
}

#[test]
fn stack_operations_are_lifo() {
    let mut stack = Stack::<usize, DEFAULT_STACK_SIZE>::default();
    for i in 0..3 {
        stack.push(i).unwrap();
    }
    for i in (0..3).rev() {
        assert_eq!(i, stack.pop().unwrap());
    }
}

#[test]
fn stack_exhausted_error_is_returned() {
    let mut stack = Stack::<usize, DEFAULT_STACK_SIZE>::default();
    assert_eq!(None, stack.pop());
}

#[test]
fn stack_exceeded_error_is_returned() {
    let mut stack = Stack::<usize, DEFAULT_STACK_SIZE>::default();
    for i in 0..DEFAULT_STACK_SIZE {
        stack.push(i).unwrap();
    }
    assert_eq!(None, stack.push(DEFAULT_STACK_SIZE));
}

#[test]
fn stack_push_returns_the_index() {
    let mut stack = Stack::<usize, 4>::new();
    assert_eq!(Some(0), stack.push(7));
    assert_eq!(Some(1), stack.push(8));
    assert_eq!(2, stack.len());
    assert_eq!(Some(&8), stack.top());
    assert_eq!(7, *stack.index(0));
}

#[test]
fn stack_reset_drops_every_item() {
    let mut stack = Stack::<usize, 4>::new();
    stack.push(1).unwrap();
    stack.push(2).unwrap();
    stack.reset();
    assert_eq!(0, stack.pointer());
    assert_eq!(None, stack.top());
    assert_eq!(Some(0), stack.push(3));
}

#[test]
fn stack_set_replace_and_truncate() {
    let mut stack = Stack::<usize, 4>::new();
    assert_eq!(Err(9), stack.replace_top(9));
    stack.push(1).unwrap();
    stack.push(2).unwrap();
    stack.push(3).unwrap();
    assert_eq!(Ok(3), stack.replace_top(30));
    stack.set(0, 10);
    assert_eq!(10, *stack.index(0));
    assert_eq!(30, *stack.index(2));
    stack.truncate(1);
    assert_eq!(1, stack.len());
    stack.truncate(3);
    assert_eq!(1, stack.len());
}

#[test]
fn stack_iterator_runs_from_both_ends() {
    let mut stack = Stack::<usize, 8>::new();
    for i in 0..5 {
        stack.push(i).unwrap();
    }
    let mut it = stack.iter();
    assert_eq!(5, it.len());
    assert_eq!(Some(&0), it.next());
    assert_eq!(Some(&4), it.next_back());
    assert_eq!(Some(&1), it.next());
    assert_eq!(2, it.len());
    assert_eq!(Some(&3), it.next_back());
    assert_eq!(Some(&2), it.next());
    assert_eq!(None, it.next());
    assert_eq!(None, it.next_back());
    assert_eq!(0, it.len());
}
