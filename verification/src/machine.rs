use vstd::prelude::*;

use crate::error::Chip8Error;
use crate::font::{font_data, font_vec};
use crate::model::{
    adv, init_mach, inv, load_mach, mem_size, skip, spec_fetch, MachV,
};

verus! {

/// The machine state: memory with the glyph table, sixteen 8-bit registers,
/// the call stack, the framebuffer, the keypad, the index register, the
/// program counter, the stack pointer and the two countdown timers.
///
/// The fields are public so that a driver can inspect the framebuffer and a
/// harness can arrange memory; every operation requires and re-establishes
/// the structural invariant `wf`.
pub struct Chip8 {
    pub i: usize,
    pub pc: usize,
    pub sp: usize,
    pub delay_timer: u8,
    pub sound_timer: u8,
    pub stack: Vec<usize>,
    pub registers: Vec<u8>,
    pub memory: Vec<u8>,
    pub graphics: Vec<u8>,
    pub keys: Vec<bool>,
    pub needs_redraw: bool,
    pub last_tick: std::time::Instant,
}

impl View for Chip8 {
    type V = MachV;

    open spec fn view(&self) -> MachV {
        MachV {
            mem: self.memory@,
            regs: self.registers@,
            stack: self.stack@,
            gfx: self.graphics@,
            keys: self.keys@,
            pc: self.pc,
            i: self.i,
            sp: self.sp,
            delay: self.delay_timer,
            sound: self.sound_timer,
            redraw: self.needs_redraw,
        }
    }
}

/// A vector of `n` copies of `val`.
fn filled<T: Copy>(n: usize, val: T) -> (v: Vec<T>)
    ensures
        v@ == Seq::new(n as nat, |k: int| val),
{
    let mut v: Vec<T> = Vec::new();
    while v.len() < n
        invariant
            v@.len() <= n,
            forall|k: int| 0 <= k < v@.len() ==> v@[k] == val,
        decreases n - v@.len(),
    {
        v.push(val);
    }
    proof {
        assert(v@ =~= Seq::new(n as nat, |k: int| val));
    }
    v
}

/// The two nibbles of a byte, as shifts and masks compute them.
proof fn lemma_nibbles(b: u8)
    ensures
        b >> 4u8 == b / 16,
        b & 0xF == b % 16,
{
    assert(b >> 4u8 == b / 16 && b & 0xF == b % 16) by (bit_vector);
}

impl Chip8 {
    /// The structural invariant; see `inv` for what it states.
    pub open spec fn wf(&self) -> bool {
        inv(self@)
    }

    /// A fresh machine: memory zeroed except the glyph table, program counter
    /// at the first loadable address, all else zero.
    pub fn new() -> (r: Chip8)
        ensures
            r.wf(),
            r@ == init_mach(),
    {
        let mut memory = font_vec();
        while memory.len() < 4096
            invariant
                80 <= memory@.len() <= 4096,
                forall|k: int| 0 <= k < 80 ==> memory@[k] == font_data()[k],
                forall|k: int| 80 <= k < memory@.len() ==> memory@[k] == 0u8,
            decreases 4096 - memory@.len(),
        {
            memory.push(0);
        }
        let chip8 = Chip8 {
            i: 0,
            pc: 0x200,
            sp: 0,
            delay_timer: 0,
            sound_timer: 0,
            stack: filled(32, 0usize),
            registers: filled(16, 0u8),
            memory,
            graphics: filled(2048, 0u8),
            keys: filled(16, false),
            needs_redraw: false,
            last_tick: std::time::Instant::now(),
        };
        proof {
            assert(chip8@ =~= init_mach());
        }
        chip8
    }

    /// Resets every register, the stack, the framebuffer, the keypad, the
    /// timers and the pointers to their construction defaults, zeroes memory
    /// outside the glyph table, and copies the program verbatim starting at
    /// the first loadable address.
    ///
    /// A program longer than the loadable region (4096 - 0x200 bytes) would
    /// overflow memory: it is rejected with `OutOfBoundsAccess` and the state
    /// is left unchanged.
    pub fn load(&mut self, program: &[u8]) -> (r: Result<(), Chip8Error>)
        requires
            old(self).wf(),
        ensures
            final(self).wf(),
            program@.len() <= 3584 ==> r == Ok::<(), Chip8Error>(()) && final(self)@ == load_mach(
                old(self)@,
                program@,
            ),
            program@.len() > 3584 ==> r == Err::<(), Chip8Error>(
                Chip8Error::OutOfBoundsAccess,
            ) && final(self)@ == old(self)@,
    {
        let plen = program.len();
        if plen > 3584 {
            return Err(Chip8Error::OutOfBoundsAccess);
        }
        self.i = 0;
        self.pc = 0x200;
        self.sp = 0;
        self.delay_timer = 0;
        self.sound_timer = 0;
        self.needs_redraw = false;
        self.registers = filled(16, 0u8);
        self.stack = filled(32, 0usize);
        self.keys = filled(16, false);
        self.graphics = filled(2048, 0u8);
        let mut k: usize = 80;
        while k < 4096
            invariant
                80 <= k <= 4096,
                plen == program@.len() <= 3584,
                self.memory@.len() == 4096,
                self.registers@ == Seq::new(16, |j: int| 0u8),
                self.stack@ == Seq::new(32, |j: int| 0usize),
                self.keys@ == Seq::new(16, |j: int| false),
                self.graphics@ == Seq::new(2048, |j: int| 0u8),
                self.i == 0,
                self.pc == 0x200,
                self.sp == 0,
                self.delay_timer == 0,
                self.sound_timer == 0,
                self.needs_redraw == false,
                forall|j: int| 0 <= j < 80 ==> self.memory@[j] == old(self)@.mem[j],
                forall|j: int|
                    80 <= j < k ==> self.memory@[j] == load_mach(old(self)@, program@).mem[j],
            decreases 4096 - k,
        {
            let val: u8 = if 512 <= k && k < 512 + plen {
                program[k - 512]
            } else {
                0
            };
            self.memory.set(k, val);
            k += 1;
        }
        proof {
            assert(self@ =~= load_mach(old(self)@, program@));
        }
        Ok(())
    }

    /// Reads the two bytes at the program counter and splits them into the
    /// four dispatch nibbles.
    pub fn fetch_op(&self) -> (r: (u8, u8, u8, u8))
        requires
            self.wf(),
            self.pc + 1 < mem_size(),
        ensures
            r == spec_fetch(self@),
            r.0 < 16 && r.1 < 16 && r.2 < 16 && r.3 < 16,
    {
        let hi_byte = self.memory[self.pc];
        let lo_byte = self.memory[self.pc + 1];
        proof {
            lemma_nibbles(hi_byte);
            lemma_nibbles(lo_byte);
        }
        (hi_byte >> 4u8, hi_byte & 0xF, lo_byte >> 4u8, lo_byte & 0xF)
    }

    /// Sets the program counter, suppressing the generic advance.
    pub(crate) fn go_to(&mut self, address: usize)
        requires
            old(self).wf(),
        ensures
            final(self).wf(),
            final(self)@ == (MachV { pc: address, ..old(self)@ }),
    {
        self.pc = address;
    }

    /// The generic advance past a two-byte instruction.
    pub(crate) fn next(&mut self)
        requires
            old(self).wf(),
            old(self).pc + 1 < mem_size(),
        ensures
            final(self).wf(),
            final(self)@ == adv(old(self)@),
    {
        self.pc = self.pc + 2;
    }

    /// Advances by four bytes when the condition holds, by two otherwise.
    pub(crate) fn skip_if(&mut self, condition: bool)
        requires
            old(self).wf(),
            old(self).pc + 1 < mem_size(),
        ensures
            final(self).wf(),
            final(self)@ == skip(old(self)@, condition),
    {
        if condition {
            self.pc = self.pc + 4;
        } else {
            self.pc = self.pc + 2;
        }
    }

    /// Records a key-down transition for one of the 16 logical keys.
    pub fn key_down(&mut self, key: u8)
        requires
            old(self).wf(),
            key < 16,
        ensures
            final(self).wf(),
            final(self)@ == (MachV { keys: old(self)@.keys.update(key as int, true), ..old(self)@ }),
    {
        self.keys.set(key as usize, true);
    }

    /// Records a key-up transition for one of the 16 logical keys.
    pub fn key_up(&mut self, key: u8)
        requires
            old(self).wf(),
            key < 16,
        ensures
            final(self).wf(),
            final(self)@ == (MachV { keys: old(self)@.keys.update(key as int, false), ..old(self)@ }),
    {
        self.keys.set(key as usize, false);
    }
}

} // verus!
