use vstd::prelude::*;

verus! {

/// A terminal condition for the current run of the machine.
///
/// No error is recovered from: the driver may reset and reload, but the
/// interpreter itself never retries an instruction.
#[derive(Clone, Copy, Debug, PartialEq, Eq, Structural)]
pub enum Chip8Error {
    /// The fetched nibble pattern matches no defined operation.
    /// Carries the four nibbles and the address at which they were fetched.
    UnsupportedOpcode { a: u8, b: u8, c: u8, d: u8, addr: usize },
    /// A return executed with no call on the stack.
    StackUnderflow,
    /// A call executed with the stack already at capacity.
    StackOverflow,
    /// An address computation would read or write outside memory or the
    /// framebuffer.
    OutOfBoundsAccess,
}

} // verus!
