use chip8::stack::{Stack, StackError};

#[test]
fn stack_push_pop_roundtrip() {
    let mut stack = Stack::new();
    stack.push(0x0345).unwrap();
    assert_eq!(stack.pop(), Ok(0x0345));
    assert_eq!(stack.pop(), Err(StackError::Underflow));
}

#[test]
fn stack_sixteen_pushes_succeed_seventeenth_overflows() {
    let mut stack = Stack::new();
    for i in 0..16u16 {
        assert_eq!(stack.push(0x200 + i), Ok(()));
    }
    assert_eq!(stack.push(0xBEE), Err(StackError::Overflow));
    // The refused push left the stack as it was: LIFO order intact.
    for i in (0..16u16).rev() {
        assert_eq!(stack.pop(), Ok(0x200 + i));
    }
}

#[test]
fn stack_pop_empty_underflows() {
    let mut stack = Stack::new();
    assert_eq!(stack.pop(), Err(StackError::Underflow));
}
