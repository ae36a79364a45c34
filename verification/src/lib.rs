//! An interpreter for a small 8-bit virtual machine: a fixed 34-operation
//! instruction set over 16 general registers, a 4096-byte address space
//! shared by font glyphs, program image and call stack, a 64 by 32
//! monochrome display with XOR sprite drawing, and wall-clock-driven
//! countdown timers.
//!
//! The interpreter core is pure apart from one random draw per random
//! instruction: each cycle takes the key state and the wall clock as
//! arguments and reports the one effect it may request (a tone) in its
//! result, so a frontend owns all input and output.

pub mod cpu;
pub mod display;
pub mod memory;
pub mod opcode;
pub mod sprite;
pub mod timer;
