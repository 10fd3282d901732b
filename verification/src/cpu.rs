//! The register file: sixteen byte registers, the index register and the
//! program counter.

use vstd::prelude::*;

verus! {

/// Number of general-purpose byte registers.
pub const REGISTER_COUNT: usize = 16;

/// Index of the register that doubles as the arithmetic flag.
pub const FLAG_REGISTER: usize = 0xF;

/// The CPU registers.
///
/// `v[0xF]` is simultaneously a general-purpose register and the carry /
/// borrow / collision flag; `i` addresses memory for the draw and
/// load-family instructions; `pc` starts at `0x200`.
pub struct Cpu {
    /// Index register.
    pub i: u16,
    /// Program counter.
    pub pc: u16,
    /// General-purpose registers.
    pub v: Vec<u8>,
}

impl Cpu {
    /// There are always exactly sixteen registers.
    pub open spec fn wf(&self) -> bool {
        self.v@.len() == REGISTER_COUNT
    }

    /// Fresh registers: everything zero, the program counter at `0x200`.
    pub fn new() -> (r: Self)
        ensures
            r.wf(),
            r.i == 0,
            r.pc == 0x200,
            r.v@ == Seq::new(REGISTER_COUNT as nat, |j: int| 0u8),
    {
        let mut v: Vec<u8> = Vec::new();
        while v.len() < REGISTER_COUNT
            invariant
                v@.len() <= REGISTER_COUNT,
                forall|j: int| 0 <= j < v@.len() ==> v@[j] == 0u8,
            decreases REGISTER_COUNT - v@.len(),
        {
            v.push(0);
        }
        proof {
            assert(v@ =~= Seq::new(REGISTER_COUNT as nat, |j: int| 0u8));
        }
        Cpu { i: 0, pc: 0x200, v }
    }

    /// Moves the program counter to the next instruction.
    pub fn next_instruction(&mut self)
        requires
            old(self).pc + 2 <= u16::MAX,
        ensures
            final(self).pc == old(self).pc + 2,
            final(self).i == old(self).i,
            final(self).v == old(self).v,
    {
        self.pc += 2;
    }

    /// Skips one instruction and moves to the one after it.
    pub fn skip_instruction(&mut self)
        requires
            old(self).pc + 4 <= u16::MAX,
        ensures
            final(self).pc == old(self).pc + 4,
            final(self).i == old(self).i,
            final(self).v == old(self).v,
    {
        self.pc += 4;
    }

    /// Writes `val` to register `v`.
    pub fn write_register(&mut self, v: u16, val: u8)
        requires
            old(self).wf(),
            v < REGISTER_COUNT,
        ensures
            final(self).wf(),
            final(self).v@ == old(self).v@.update(v as int, val),
            final(self).pc == old(self).pc,
            final(self).i == old(self).i,
    {
        self.v[v as usize] = val;
    }
}

} // verus!
