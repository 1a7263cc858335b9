//! An interpreter for the classic 8-bit fantasy console instruction set: a machine with
//! 4 KiB of memory, sixteen byte registers, a call stack, two timers and a 64x32
//! monochrome framebuffer, executing one two-byte instruction per step.
//!
//! The executable machine lives in [`machine`]; its meaning is given by the pure
//! functions of [`model`], and [`laws`] proves properties that relate several operations.
//!
//! Choices where the instruction set leaves room:
//! - every address wraps round the 4096 bytes of memory; the program counter and the
//!   index register are always kept to 12 bits, so `Fx1E` and `Bnnn` wrap as well;
//! - a call with sixteen calls in progress fails with `StackOverflow`, a return with
//!   none fails with `StackUnderflow`; the machine is left unchanged in both cases;
//! - `8xyE` sets the flag register to the raw high bit of the operand, `0x80` or `0`;
//! - arithmetic reads its operands first and writes the flag register before `Vx`;
//! - a key number above `0xF` counts as not held;
//! - an unknown instruction does nothing but move on to the next one.

pub mod laws;
pub mod machine;
pub mod model;

pub use machine::{Chip8, KeyboardState};
pub use model::{MachineError, MachineView, SCREEN_HEIGHT, SCREEN_WIDTH};
