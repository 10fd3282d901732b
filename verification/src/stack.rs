//! The CHIP-8 call stack: a strict LIFO of at most sixteen return addresses.

use vstd::prelude::*;

verus! {

/// Number of return addresses the call stack can hold.
pub const STACK_SIZE: usize = 16;

/// Why a stack operation was refused.
#[derive(Clone, Copy, Debug, PartialEq, Eq, Structural)]
pub enum StackError {
    /// A `push` would have grown the stack beyond [`STACK_SIZE`] addresses.
    Overflow,
    /// A `pop` was asked of an empty stack.
    Underflow,
}

/// The call stack of the CHIP-8.
///
/// Return addresses enter and leave only through `push` and `pop`;
/// the depth never exceeds [`STACK_SIZE`].
pub struct Stack {
    stack: Vec<u16>,
}

impl View for Stack {
    type V = Seq<u16>;

    closed spec fn view(&self) -> Seq<u16> {
        self.stack@
    }
}

impl Stack {
    /// An empty stack.
    pub fn new() -> (r: Self)
        ensures
            r@ == Seq::<u16>::empty(),
    {
        Stack { stack: Vec::new() }
    }

    /// Appends a return address; refused with `Overflow` when the stack
    /// already holds [`STACK_SIZE`] addresses, in which case nothing changes.
    pub fn push(&mut self, addr: u16) -> (r: Result<(), StackError>)
        ensures
            old(self)@.len() < STACK_SIZE ==> r == Ok::<(), StackError>(())
                && final(self)@ == old(self)@.push(addr),
            old(self)@.len() >= STACK_SIZE ==> r == Err::<(), StackError>(StackError::Overflow)
                && final(self)@ == old(self)@,
    {
        if self.stack.len() >= STACK_SIZE {
            Err(StackError::Overflow)
        } else {
            self.stack.push(addr);
            Ok(())
        }
    }

    /// Removes and returns the most recently pushed address; refused with
    /// `Underflow` when the stack is empty, in which case nothing changes.
    pub fn pop(&mut self) -> (r: Result<u16, StackError>)
        ensures
            old(self)@.len() > 0 ==> r == Ok::<u16, StackError>(old(self)@.last())
                && final(self)@ == old(self)@.drop_last(),
            old(self)@.len() == 0 ==> r == Err::<u16, StackError>(StackError::Underflow)
                && final(self)@ == old(self)@,
    {
        match self.stack.pop() {
            Some(addr) => Ok(addr),
            None => Err(StackError::Underflow),
        }
    }
}

/// What `push` then `pop` amount to on the stack's model: the address
/// pushed onto any stack is exactly what `pop` returns, and the stack
/// beneath it is unchanged. Together with the contracts of `push` and
/// `pop`, a push followed by a pop hands back the pushed value and
/// restores the stack.
pub proof fn lemma_push_pop(s: Seq<u16>, addr: u16)
    ensures
        s.push(addr).last() == addr,
        s.push(addr).drop_last() == s,
{
    assert(s.push(addr).drop_last() =~= s);
}

} // verus!
