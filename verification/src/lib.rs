//! A verified interpreter for the classic 8-bit CHIP-8 instruction set.
//!
//! The machine state, the fetch-decode-execute cycle, the per-opcode
//! semantics and the timer-decrement policy are specified against a
//! mathematical model of the machine and proved to follow it.

pub mod decode;
pub mod error;
pub mod exec;
pub mod font;
pub mod frontend;
pub mod laws;
pub mod machine;
pub mod model;
pub mod timer;

pub use error::Chip8Error;
pub use machine::Chip8;
pub use frontend::{keymap, render};
