//! A verified CHIP-8 virtual machine core.
//!
//! The crate models the machine's memory, register file, call stack,
//! opcode decoder, display buffer and instruction dispatcher, and proves
//! each instruction's effect against a mathematical transition function.

pub mod chip8;
pub mod cpu;
pub mod display;
pub mod memory;
pub mod opcode;
pub mod rng;
pub mod stack;
