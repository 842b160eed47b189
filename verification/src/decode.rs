use vstd::prelude::*;

verus! {

/// A decoded instruction: the operation together with its operands, produced
/// from the four-nibble dispatch key of a fetched instruction.
#[derive(Clone, Copy, Debug)]
pub enum Op {
    /// Set the program counter to a 12-bit address.
    Jump { addr: usize },
    /// Set the program counter to a 12-bit address plus register 0.
    JumpV0 { addr: usize },
    /// Push the current program counter and jump to a 12-bit address.
    Call { addr: usize },
    /// Pop a return address and resume past the call site.
    Ret,
    /// Skip the next instruction when a register equals an immediate byte.
    SkipEqImm { x: usize, kk: u8 },
    /// Skip the next instruction when a register differs from an immediate.
    SkipNeImm { x: usize, kk: u8 },
    /// Skip the next instruction when two registers are equal.
    SkipEqReg { x: usize, y: usize },
    /// Skip the next instruction when two registers differ.
    SkipNeReg { x: usize, y: usize },
    /// Load an immediate byte into a register.
    SetImm { x: usize, kk: u8 },
    /// Add an immediate byte to a register, wrapping modulo 256.
    AddImm { x: usize, kk: u8 },
    /// Copy one register into another.
    CopyReg { x: usize, y: usize },
    /// Bitwise OR of two registers into the first.
    OrReg { x: usize, y: usize },
    /// Bitwise AND of two registers into the first.
    AndReg { x: usize, y: usize },
    /// Add two registers into the first, wrapping; the flag register records
    /// whether the unwrapped sum exceeded 255.
    AddReg { x: usize, y: usize },
    /// Subtract the second register from the first, wrapping; the flag
    /// register records the absence of a borrow.
    SubReg { x: usize, y: usize },
    /// Store a random byte masked by an immediate into a register.
    RandMask { x: usize, kk: u8 },
    /// Set the index register to a 12-bit address.
    SetIndex { addr: usize },
    /// Add a register's value to the index register.
    AddIndex { x: usize },
    /// Point the index register at the glyph pattern for the low 4 bits of a
    /// register's value.
    GlyphIndex { x: usize },
    /// Store the three decimal digits of a register at the index register.
    StoreBcd { x: usize },
    /// Store registers 0 through X inclusive into memory at the index
    /// register.
    StoreRegs { x: usize },
    /// Load registers 0 through X inclusive from memory at the index
    /// register.
    LoadRegs { x: usize },
    /// Set every framebuffer cell to 0.
    ClearScreen,
    /// XOR an N-byte sprite into the framebuffer at register coordinates.
    Draw { x: usize, y: usize, n: usize },
    /// Read the delay timer into a register.
    ReadDelay { x: usize },
    /// Set the delay timer from a register.
    SetDelay { x: usize },
}

/// The 12-bit address assembled from the low three nibbles.
pub open spec fn spec_addr(b: u8, c: u8, d: u8) -> usize {
    (b * 256 + c * 16 + d) as usize
}

/// The immediate byte assembled from the low two nibbles.
pub open spec fn spec_imm(c: u8, d: u8) -> u8 {
    (c * 16 + d) as u8
}

/// The operation recognized by a four-nibble pattern, or `None` for every
/// pattern outside the implemented instruction set (including the keypad,
/// sound-timer and machine-language escape patterns, which are deliberately
/// unimplemented).
pub open spec fn spec_decode(a: u8, b: u8, c: u8, d: u8) -> Option<Op> {
    if a == 0x0 && b == 0x0 && c == 0xE && d == 0x0 {
        Some(Op::ClearScreen)
    } else if a == 0x0 && b == 0x0 && c == 0xE && d == 0xE {
        Some(Op::Ret)
    } else if a == 0x1 {
        Some(Op::Jump { addr: spec_addr(b, c, d) })
    } else if a == 0x2 {
        Some(Op::Call { addr: spec_addr(b, c, d) })
    } else if a == 0x3 {
        Some(Op::SkipEqImm { x: b as usize, kk: spec_imm(c, d) })
    } else if a == 0x4 {
        Some(Op::SkipNeImm { x: b as usize, kk: spec_imm(c, d) })
    } else if a == 0x5 && d == 0x0 {
        Some(Op::SkipEqReg { x: b as usize, y: c as usize })
    } else if a == 0x6 {
        Some(Op::SetImm { x: b as usize, kk: spec_imm(c, d) })
    } else if a == 0x7 {
        Some(Op::AddImm { x: b as usize, kk: spec_imm(c, d) })
    } else if a == 0x8 && d == 0x0 {
        Some(Op::CopyReg { x: b as usize, y: c as usize })
    } else if a == 0x8 && d == 0x1 {
        Some(Op::OrReg { x: b as usize, y: c as usize })
    } else if a == 0x8 && d == 0x2 {
        Some(Op::AndReg { x: b as usize, y: c as usize })
    } else if a == 0x8 && d == 0x4 {
        Some(Op::AddReg { x: b as usize, y: c as usize })
    } else if a == 0x8 && d == 0x5 {
        Some(Op::SubReg { x: b as usize, y: c as usize })
    } else if a == 0x9 && d == 0x0 {
        Some(Op::SkipNeReg { x: b as usize, y: c as usize })
    } else if a == 0xA {
        Some(Op::SetIndex { addr: spec_addr(b, c, d) })
    } else if a == 0xB {
        Some(Op::JumpV0 { addr: spec_addr(b, c, d) })
    } else if a == 0xC {
        Some(Op::RandMask { x: b as usize, kk: spec_imm(c, d) })
    } else if a == 0xD {
        Some(Op::Draw { x: b as usize, y: c as usize, n: d as usize })
    } else if a == 0xF && c == 0x0 && d == 0x7 {
        Some(Op::ReadDelay { x: b as usize })
    } else if a == 0xF && c == 0x1 && d == 0x5 {
        Some(Op::SetDelay { x: b as usize })
    } else if a == 0xF && c == 0x1 && d == 0xE {
        Some(Op::AddIndex { x: b as usize })
    } else if a == 0xF && c == 0x2 && d == 0x9 {
        Some(Op::GlyphIndex { x: b as usize })
    } else if a == 0xF && c == 0x3 && d == 0x3 {
        Some(Op::StoreBcd { x: b as usize })
    } else if a == 0xF && c == 0x5 && d == 0x5 {
        Some(Op::StoreRegs { x: b as usize })
    } else if a == 0xF && c == 0x6 && d == 0x5 {
        Some(Op::LoadRegs { x: b as usize })
    } else {
        None
    }
}

/// Assembles the 12-bit address operand.
fn addr_of(b: u8, c: u8, d: u8) -> (r: usize)
    requires
        b < 16,
        c < 16,
        d < 16,
    ensures
        r == spec_addr(b, c, d),
        r < 4096,
{
    (b as usize) * 256 + (c as usize) * 16 + (d as usize)
}

/// Assembles the immediate byte operand.
fn imm_of(c: u8, d: u8) -> (r: u8)
    requires
        c < 16,
        d < 16,
    ensures
        r == spec_imm(c, d),
{
    c * 16 + d
}

/// Decodes a four-nibble dispatch key into an operation, or `None` for an
/// unsupported pattern.
pub fn decode(a: u8, b: u8, c: u8, d: u8) -> (r: Option<Op>)
    requires
        a < 16,
        b < 16,
        c < 16,
        d < 16,
    ensures
        r == spec_decode(a, b, c, d),
{
    match (a, b, c, d) {
        (0x0, 0x0, 0xE, 0x0) => Some(Op::ClearScreen),
        (0x0, 0x0, 0xE, 0xE) => Some(Op::Ret),
        (0x1, _, _, _) => Some(Op::Jump { addr: addr_of(b, c, d) }),
        (0x2, _, _, _) => Some(Op::Call { addr: addr_of(b, c, d) }),
        (0x3, _, _, _) => Some(Op::SkipEqImm { x: b as usize, kk: imm_of(c, d) }),
        (0x4, _, _, _) => Some(Op::SkipNeImm { x: b as usize, kk: imm_of(c, d) }),
        (0x5, _, _, 0x0) => Some(Op::SkipEqReg { x: b as usize, y: c as usize }),
        (0x6, _, _, _) => Some(Op::SetImm { x: b as usize, kk: imm_of(c, d) }),
        (0x7, _, _, _) => Some(Op::AddImm { x: b as usize, kk: imm_of(c, d) }),
        (0x8, _, _, 0x0) => Some(Op::CopyReg { x: b as usize, y: c as usize }),
        (0x8, _, _, 0x1) => Some(Op::OrReg { x: b as usize, y: c as usize }),
        (0x8, _, _, 0x2) => Some(Op::AndReg { x: b as usize, y: c as usize }),
        (0x8, _, _, 0x4) => Some(Op::AddReg { x: b as usize, y: c as usize }),
        (0x8, _, _, 0x5) => Some(Op::SubReg { x: b as usize, y: c as usize }),
        (0x9, _, _, 0x0) => Some(Op::SkipNeReg { x: b as usize, y: c as usize }),
        (0xA, _, _, _) => Some(Op::SetIndex { addr: addr_of(b, c, d) }),
        (0xB, _, _, _) => Some(Op::JumpV0 { addr: addr_of(b, c, d) }),
        (0xC, _, _, _) => Some(Op::RandMask { x: b as usize, kk: imm_of(c, d) }),
        (0xD, _, _, _) => Some(Op::Draw { x: b as usize, y: c as usize, n: d as usize }),
        (0xF, _, 0x0, 0x7) => Some(Op::ReadDelay { x: b as usize }),
        (0xF, _, 0x1, 0x5) => Some(Op::SetDelay { x: b as usize }),
        (0xF, _, 0x1, 0xE) => Some(Op::AddIndex { x: b as usize }),
        (0xF, _, 0x2, 0x9) => Some(Op::GlyphIndex { x: b as usize }),
        (0xF, _, 0x3, 0x3) => Some(Op::StoreBcd { x: b as usize }),
        (0xF, _, 0x5, 0x5) => Some(Op::StoreRegs { x: b as usize }),
        (0xF, _, 0x6, 0x5) => Some(Op::LoadRegs { x: b as usize }),
        _ => None,
    }
}

} // verus!
