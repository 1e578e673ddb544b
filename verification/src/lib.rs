//! A CHIP-8 virtual machine core, verified with Verus.
//!
//! The crate has two layers, mirroring the machine itself: an opcode
//! decoder that maps a 16-bit instruction word to a symbolic tag, and a
//! machine state with an executor that applies one decoded instruction
//! per cycle. Every instruction's effect is pinned down by the spec-level
//! interpreter `machine::exec_instr`, and the executable code is proved
//! to implement it. Bound violations that the historical design left
//! unchecked (stack overflow and underflow, memory accesses past the end,
//! key indices past 15) are reported as `machine::Fault` values and leave
//! the machine unchanged.

pub mod alu;
pub mod decode;
pub mod font;
pub mod machine;
pub mod screen;

pub use decode::Instruction;
pub use machine::Chip8;
pub use machine::Fault;
pub use screen::SCREEN_HEIGHT;
pub use screen::SCREEN_WIDTH;
