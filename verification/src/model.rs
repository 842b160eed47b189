use vstd::prelude::*;

use crate::decode::{spec_decode, Op};
use crate::error::Chip8Error;
use crate::font::font_data;

verus! {

/// The mathematical model of the machine state.
///
/// Every contract of the interpreter is phrased over this view: 4096 bytes of
/// memory, 16 general-purpose 8-bit registers, a 32-entry stack of return
/// addresses, the 64x32 monochrome framebuffer stored row-major, the 16-key
/// keypad, the index register, the program counter, the stack pointer, the two
/// countdown timers, and the redraw signal raised by the display opcodes.
#[verifier::ext_equal]
pub ghost struct MachV {
    pub mem: Seq<u8>,
    pub regs: Seq<u8>,
    pub stack: Seq<usize>,
    pub gfx: Seq<u8>,
    pub keys: Seq<bool>,
    pub pc: usize,
    pub i: usize,
    pub sp: usize,
    pub delay: u8,
    pub sound: u8,
    pub redraw: bool,
}

/// Memory size in bytes.
pub open spec fn mem_size() -> int {
    4096
}

/// First loadable address; programs are copied here and the program counter
/// starts here.
pub open spec fn program_start() -> int {
    0x200
}

/// Number of framebuffer cells (64 columns times 32 rows).
pub open spec fn gfx_size() -> int {
    2048
}

/// Stack capacity in entries.
pub open spec fn stack_size() -> int {
    32
}

/// The structural invariant of a machine state.
///
/// The sizes are fixed; framebuffer cells are 0 or 1; the stack pointer counts
/// entries in use; the index register stays inside memory; every saved return
/// address is the address of a fetchable two-byte instruction.
pub open spec fn inv(v: MachV) -> bool {
    &&& v.mem.len() == mem_size()
    &&& v.regs.len() == 16
    &&& v.stack.len() == stack_size()
    &&& v.gfx.len() == gfx_size()
    &&& v.keys.len() == 16
    &&& v.sp <= stack_size()
    &&& v.i < mem_size()
    &&& forall|k: int| 0 <= k < gfx_size() ==> v.gfx[k] <= 1
    &&& forall|k: int| 0 <= k < stack_size() ==> v.stack[k] + 1 < mem_size()
}

/// The state of a freshly constructed machine: memory zeroed except the glyph
/// table, program counter at the first loadable address, everything else zero.
pub open spec fn init_mach() -> MachV {
    MachV {
        mem: Seq::new(mem_size() as nat, |k: int| if 0 <= k < 80 { font_data()[k] } else { 0u8 }),
        regs: Seq::new(16, |k: int| 0u8),
        stack: Seq::new(stack_size() as nat, |k: int| 0usize),
        gfx: Seq::new(gfx_size() as nat, |k: int| 0u8),
        keys: Seq::new(16, |k: int| false),
        pc: 0x200,
        i: 0,
        sp: 0,
        delay: 0,
        sound: 0,
        redraw: false,
    }
}

/// The state after loading a program: every register, the stack, the
/// framebuffer, the keypad, the timers and the pointers reset to their
/// construction defaults; memory below the program region untouched where the
/// glyph table lives, zeroed elsewhere; the program copied verbatim from the
/// first loadable address.
pub open spec fn load_mach(v: MachV, p: Seq<u8>) -> MachV {
    MachV {
        mem: Seq::new(
            mem_size() as nat,
            |k: int|
                if 0 <= k < 80 {
                    v.mem[k]
                } else if program_start() <= k < program_start() + p.len() {
                    p[k - program_start()]
                } else {
                    0u8
                },
        ),
        regs: Seq::new(16, |k: int| 0u8),
        stack: Seq::new(stack_size() as nat, |k: int| 0usize),
        gfx: Seq::new(gfx_size() as nat, |k: int| 0u8),
        keys: Seq::new(16, |k: int| false),
        pc: 0x200,
        i: 0,
        sp: 0,
        delay: 0,
        sound: 0,
        redraw: false,
    }
}

/// Advance past a two-byte instruction.
pub open spec fn adv(v: MachV) -> MachV {
    MachV { pc: (v.pc + 2) as usize, ..v }
}

/// Conditional skip: advance by four bytes when the condition holds, by two
/// otherwise.
pub open spec fn skip(v: MachV, cond: bool) -> MachV {
    MachV { pc: (v.pc + if cond { 4int } else { 2int }) as usize, ..v }
}

/// One saturating decrement: a timer at zero stays at zero.
pub open spec fn sat_dec(t: u8) -> u8 {
    if t == 0 {
        0u8
    } else {
        (t - 1) as u8
    }
}

/// One 1/60-second timer interval: both timers decrement, saturating at zero.
pub open spec fn tick_spec(v: MachV) -> MachV {
    MachV { delay: sat_dec(v.delay), sound: sat_dec(v.sound), ..v }
}

/// The high nibble of a byte.
pub open spec fn hi_nib(b: u8) -> u8 {
    (b / 16) as u8
}

/// The low nibble of a byte.
pub open spec fn lo_nib(b: u8) -> u8 {
    (b % 16) as u8
}

/// The four nibbles of the instruction at the program counter, in fetch order:
/// high and low nibble of the first byte, then of the second.
pub open spec fn spec_fetch(v: MachV) -> (u8, u8, u8, u8) {
    (
        hi_nib(v.mem[v.pc as int]),
        lo_nib(v.mem[v.pc as int]),
        hi_nib(v.mem[v.pc + 1]),
        lo_nib(v.mem[v.pc + 1]),
    )
}

/// An integer reduced modulo 256 into a byte, the wraparound of the 8-bit
/// register arithmetic.
pub open spec fn wrap8(x: int) -> u8 {
    (x % 256) as u8
}

/// Jump: the program counter becomes the address; no generic advance.
pub open spec fn jump_step(v: MachV, addr: usize) -> Result<MachV, Chip8Error> {
    Ok(MachV { pc: addr, ..v })
}

/// Jump plus register 0: the program counter becomes the address plus the
/// value of register 0.
pub open spec fn jump_v0_step(v: MachV, addr: usize) -> Result<MachV, Chip8Error> {
    Ok(MachV { pc: (addr + v.regs[0]) as usize, ..v })
}

/// Call: the address of the call instruction itself is pushed, the stack
/// pointer rises, and control moves to the address. A call with the stack at
/// capacity fails with `StackOverflow` and changes nothing.
pub open spec fn call_step(v: MachV, addr: usize) -> Result<MachV, Chip8Error> {
    if v.sp >= stack_size() {
        Err(Chip8Error::StackOverflow)
    } else {
        Ok(
            MachV {
                stack: v.stack.update(v.sp as int, v.pc),
                sp: (v.sp + 1) as usize,
                pc: addr,
                ..v
            },
        )
    }
}

/// Return: the stack pointer falls and control resumes two bytes past the
/// popped call site. A return with an empty stack fails with
/// `StackUnderflow` and changes nothing.
pub open spec fn ret_step(v: MachV) -> Result<MachV, Chip8Error> {
    if v.sp == 0 {
        Err(Chip8Error::StackUnderflow)
    } else {
        Ok(
            MachV {
                sp: (v.sp - 1) as usize,
                pc: (v.stack[v.sp - 1] + 2) as usize,
                ..v
            },
        )
    }
}

/// Load immediate: the register takes the byte.
pub open spec fn set_imm_step(v: MachV, x: int, kk: u8) -> Result<MachV, Chip8Error> {
    Ok(adv(MachV { regs: v.regs.update(x, kk), ..v }))
}

/// Add immediate: the register takes the sum modulo 256; no flag is defined.
pub open spec fn add_imm_step(v: MachV, x: int, kk: u8) -> Result<MachV, Chip8Error> {
    Ok(adv(MachV { regs: v.regs.update(x, wrap8(v.regs[x] + kk)), ..v }))
}

/// Register copy.
pub open spec fn copy_step(v: MachV, x: int, y: int) -> Result<MachV, Chip8Error> {
    Ok(adv(MachV { regs: v.regs.update(x, v.regs[y]), ..v }))
}

/// Bitwise OR into the first register.
pub open spec fn or_step(v: MachV, x: int, y: int) -> Result<MachV, Chip8Error> {
    Ok(adv(MachV { regs: v.regs.update(x, v.regs[x] | v.regs[y]), ..v }))
}

/// Bitwise AND into the first register.
pub open spec fn and_step(v: MachV, x: int, y: int) -> Result<MachV, Chip8Error> {
    Ok(adv(MachV { regs: v.regs.update(x, v.regs[x] & v.regs[y]), ..v }))
}

/// Add registers: the first register takes the sum modulo 256; the flag
/// register takes 1 exactly when the unwrapped sum exceeded 255.
pub open spec fn add_reg_step(v: MachV, x: int, y: int) -> Result<MachV, Chip8Error> {
    Ok(
        adv(
            MachV {
                regs: v.regs.update(x, wrap8(v.regs[x] + v.regs[y])).update(
                    15,
                    if v.regs[x] + v.regs[y] > 255 {
                        1u8
                    } else {
                        0u8
                    },
                ),
                ..v
            },
        ),
    )
}

/// Subtract registers: the first register takes the difference modulo 256;
/// the flag register takes 0 exactly when a borrow occurred.
pub open spec fn sub_reg_step(v: MachV, x: int, y: int) -> Result<MachV, Chip8Error> {
    Ok(
        adv(
            MachV {
                regs: v.regs.update(x, wrap8(v.regs[x] - v.regs[y])).update(
                    15,
                    if v.regs[x] < v.regs[y] {
                        0u8
                    } else {
                        1u8
                    },
                ),
                ..v
            },
        ),
    )
}

/// Random byte: the register takes the drawn byte masked by the immediate.
pub open spec fn rand_step(v: MachV, x: int, kk: u8, rb: u8) -> Result<MachV, Chip8Error> {
    Ok(adv(MachV { regs: v.regs.update(x, rb & kk), ..v }))
}

/// Set the index register to an address.
pub open spec fn set_index_step(v: MachV, addr: usize) -> Result<MachV, Chip8Error> {
    Ok(adv(MachV { i: addr, ..v }))
}

/// Add a register to the index register. A result outside memory fails with
/// `OutOfBoundsAccess` and changes nothing.
pub open spec fn add_index_step(v: MachV, x: int) -> Result<MachV, Chip8Error> {
    if v.i + v.regs[x] >= mem_size() {
        Err(Chip8Error::OutOfBoundsAccess)
    } else {
        Ok(adv(MachV { i: (v.i + v.regs[x]) as usize, ..v }))
    }
}

/// Point the index register at the 5-byte glyph for the low 4 bits of the
/// register's value.
pub open spec fn glyph_index_step(v: MachV, x: int) -> Result<MachV, Chip8Error> {
    Ok(adv(MachV { i: (5 * (v.regs[x] & 15)) as usize, ..v }))
}

/// Memory after the three decimal digits of `val` are stored at `i`.
pub open spec fn bcd_mem(mem: Seq<u8>, i: int, val: u8) -> Seq<u8> {
    mem.update(i, (val / 100) as u8).update(i + 1, ((val / 10) % 10) as u8).update(
        i + 2,
        (val % 10) as u8,
    )
}

/// Decimal decomposition: hundreds, tens and ones of the register value are
/// stored at the index register and the two following cells; the index
/// register itself is unchanged. Writes past memory fail with
/// `OutOfBoundsAccess` and change nothing.
pub open spec fn bcd_step(v: MachV, x: int) -> Result<MachV, Chip8Error> {
    if v.i + 2 >= mem_size() {
        Err(Chip8Error::OutOfBoundsAccess)
    } else {
        Ok(adv(MachV { mem: bcd_mem(v.mem, v.i as int, v.regs[x]), ..v }))
    }
}

/// Memory after registers 0 through `x` inclusive are stored starting at `i`.
pub open spec fn store_span(mem: Seq<u8>, i: int, regs: Seq<u8>, x: int) -> Seq<u8> {
    Seq::new(
        mem.len(),
        |k: int|
            if i <= k <= i + x {
                regs[k - i]
            } else {
                mem[k]
            },
    )
}

/// Block store: registers 0 through X inclusive go to memory at the index
/// register. A transfer past memory fails with `OutOfBoundsAccess` and
/// changes nothing.
pub open spec fn store_regs_step(v: MachV, x: int) -> Result<MachV, Chip8Error> {
    if v.i + x >= mem_size() {
        Err(Chip8Error::OutOfBoundsAccess)
    } else {
        Ok(adv(MachV { mem: store_span(v.mem, v.i as int, v.regs, x), ..v }))
    }
}

/// Registers after cells `i` through `i + x` of memory are loaded into
/// registers 0 through `x` inclusive.
pub open spec fn load_span(regs: Seq<u8>, mem: Seq<u8>, i: int, x: int) -> Seq<u8> {
    Seq::new(
        regs.len(),
        |k: int|
            if 0 <= k <= x {
                mem[i + k]
            } else {
                regs[k]
            },
    )
}

/// Block load: registers 0 through X inclusive come from memory at the index
/// register. A transfer past memory fails with `OutOfBoundsAccess` and
/// changes nothing.
pub open spec fn load_regs_step(v: MachV, x: int) -> Result<MachV, Chip8Error> {
    if v.i + x >= mem_size() {
        Err(Chip8Error::OutOfBoundsAccess)
    } else {
        Ok(adv(MachV { regs: load_span(v.regs, v.mem, v.i as int, x), ..v }))
    }
}

/// Clear display: every framebuffer cell becomes 0 and the redraw signal is
/// raised.
pub open spec fn clear_step(v: MachV) -> Result<MachV, Chip8Error> {
    Ok(adv(MachV { gfx: Seq::new(gfx_size() as nat, |k: int| 0u8), redraw: true, ..v }))
}

/// Sprite bit `j` of a row byte, bit 7 being the leftmost (j = 0).
pub open spec fn pix(b: u8, j: int) -> u8 {
    (b >> ((7 - j) as u8)) & 1
}

/// The framebuffer index targeted by sprite row `r`, bit `j`, for a sprite
/// drawn at coordinates (`vx`, `vy`): a flat row-major offset, computed
/// without wrapping at the 64-cell row edge.
pub open spec fn cell(vx: int, vy: int, r: int, j: int) -> int {
    64 * (vy + r) + vx + j
}

/// The framebuffer after the first `cnt` bits of one sprite row byte are
/// combined in, leftmost bit first, each by exclusive-or.
pub open spec fn draw_row(g: Seq<u8>, b: u8, vx: int, vy: int, r: int, cnt: int) -> Seq<u8>
    decreases cnt,
{
    if cnt <= 0 {
        g
    } else {
        let g2 = draw_row(g, b, vx, vy, r, cnt - 1);
        let idx = cell(vx, vy, r, cnt - 1);
        g2.update(idx, g2[idx] ^ pix(b, cnt - 1))
    }
}

/// The framebuffer after the first `cnt` sprite rows, read from memory at
/// `i`, are combined in.
pub open spec fn draw_rows(g: Seq<u8>, mem: Seq<u8>, i: int, vx: int, vy: int, cnt: int) -> Seq<u8>
    decreases cnt,
{
    if cnt <= 0 {
        g
    } else {
        draw_row(draw_rows(g, mem, i, vx, vy, cnt - 1), mem[i + cnt - 1], vx, vy, cnt - 1, 8)
    }
}

/// Whether one of the first `cnt` bits of a sprite row is 1 over a lit cell
/// of framebuffer `g`.
pub open spec fn row_hits(g: Seq<u8>, b: u8, vx: int, vy: int, r: int, cnt: int) -> bool
    decreases cnt,
{
    if cnt <= 0 {
        false
    } else {
        row_hits(g, b, vx, vy, r, cnt - 1) || (pix(b, cnt - 1) == 1 && g[cell(vx, vy, r, cnt - 1)]
            == 1)
    }
}

/// Whether any bit of the first `cnt` sprite rows is 1 over a lit cell of
/// framebuffer `g`: the collision condition, judged against the framebuffer
/// as it stood before the draw.
pub open spec fn hits(g: Seq<u8>, mem: Seq<u8>, i: int, vx: int, vy: int, cnt: int) -> bool
    decreases cnt,
{
    if cnt <= 0 {
        false
    } else {
        hits(g, mem, i, vx, vy, cnt - 1) || row_hits(g, mem[i + cnt - 1], vx, vy, cnt - 1, 8)
    }
}

/// Sprite draw: the flag register is first cleared; each sprite bit is
/// combined into its cell by exclusive-or; the flag register ends 1 exactly
/// when some 1 bit landed on a lit cell. A sprite row outside memory, or a
/// target cell outside the framebuffer, fails with `OutOfBoundsAccess` and
/// changes nothing.
pub open spec fn draw_step(v: MachV, x: int, y: int, n: int) -> Result<MachV, Chip8Error> {
    let vx = v.regs[x] as int;
    let vy = v.regs[y] as int;
    if n > 0 && v.i + n > mem_size() {
        Err(Chip8Error::OutOfBoundsAccess)
    } else if n > 0 && cell(vx, vy, n - 1, 7) >= gfx_size() {
        Err(Chip8Error::OutOfBoundsAccess)
    } else {
        Ok(
            adv(
                MachV {
                    gfx: draw_rows(v.gfx, v.mem, v.i as int, vx, vy, n),
                    regs: v.regs.update(
                        15,
                        if hits(v.gfx, v.mem, v.i as int, vx, vy, n) {
                            1u8
                        } else {
                            0u8
                        },
                    ),
                    redraw: true,
                    ..v
                },
            ),
        )
    }
}

/// Read the delay timer into a register.
pub open spec fn read_delay_step(v: MachV, x: int) -> Result<MachV, Chip8Error> {
    Ok(adv(MachV { regs: v.regs.update(x, v.delay), ..v }))
}

/// Set the delay timer from a register.
pub open spec fn set_delay_step(v: MachV, x: int) -> Result<MachV, Chip8Error> {
    Ok(adv(MachV { delay: v.regs[x], ..v }))
}

/// The effect of one decoded operation on the machine state.
pub open spec fn exec_spec(v: MachV, op: Op, rb: u8) -> Result<MachV, Chip8Error> {
    match op {
        Op::Jump { addr } => jump_step(v, addr),
        Op::JumpV0 { addr } => jump_v0_step(v, addr),
        Op::Call { addr } => call_step(v, addr),
        Op::Ret => ret_step(v),
        Op::SkipEqImm { x, kk } => Ok(skip(v, v.regs[x as int] == kk)),
        Op::SkipNeImm { x, kk } => Ok(skip(v, v.regs[x as int] != kk)),
        Op::SkipEqReg { x, y } => Ok(skip(v, v.regs[x as int] == v.regs[y as int])),
        Op::SkipNeReg { x, y } => Ok(skip(v, v.regs[x as int] != v.regs[y as int])),
        Op::SetImm { x, kk } => set_imm_step(v, x as int, kk),
        Op::AddImm { x, kk } => add_imm_step(v, x as int, kk),
        Op::CopyReg { x, y } => copy_step(v, x as int, y as int),
        Op::OrReg { x, y } => or_step(v, x as int, y as int),
        Op::AndReg { x, y } => and_step(v, x as int, y as int),
        Op::AddReg { x, y } => add_reg_step(v, x as int, y as int),
        Op::SubReg { x, y } => sub_reg_step(v, x as int, y as int),
        Op::RandMask { x, kk } => rand_step(v, x as int, kk, rb),
        Op::SetIndex { addr } => set_index_step(v, addr),
        Op::AddIndex { x } => add_index_step(v, x as int),
        Op::GlyphIndex { x } => glyph_index_step(v, x as int),
        Op::StoreBcd { x } => bcd_step(v, x as int),
        Op::StoreRegs { x } => store_regs_step(v, x as int),
        Op::LoadRegs { x } => load_regs_step(v, x as int),
        Op::ClearScreen => clear_step(v),
        Op::Draw { x, y, n } => draw_step(v, x as int, y as int, n as int),
        Op::ReadDelay { x } => read_delay_step(v, x as int),
        Op::SetDelay { x } => set_delay_step(v, x as int),
    }
}

/// One full fetch-decode-execute step, given the byte a random draw would
/// return. Fetching at a program counter without room for a two-byte
/// instruction fails with `OutOfBoundsAccess`; an unrecognized pattern fails
/// with `UnsupportedOpcode`, carrying the pattern and its address.
pub open spec fn step_spec(v: MachV, rb: u8) -> Result<MachV, Chip8Error> {
    if v.pc + 1 >= mem_size() {
        Err(Chip8Error::OutOfBoundsAccess)
    } else {
        let f = spec_fetch(v);
        match spec_decode(f.0, f.1, f.2, f.3) {
            None => Err(
                Chip8Error::UnsupportedOpcode { a: f.0, b: f.1, c: f.2, d: f.3, addr: v.pc },
            ),
            Some(op) => exec_spec(v, op, rb),
        }
    }
}

/// How an executable step relates to the model: on success the state becomes
/// exactly the model's successor; on failure the model's error is returned
/// and the state is unchanged.
pub open spec fn step_matches(
    pre: MachV,
    sr: Result<MachV, Chip8Error>,
    r: Result<(), Chip8Error>,
    post: MachV,
) -> bool {
    match sr {
        Ok(m) => r == Ok::<(), Chip8Error>(()) && post == m,
        Err(e) => r == Err::<(), Chip8Error>(e) && post == pre,
    }
}

/// Reducing modulo 256 agrees with the wrapping addition of the standard
/// library on two bytes.
pub proof fn lemma_wrap8_add(a: u8, b: u8)
    ensures
        wrap8(a + b) == vstd::wrapping::u8_specs::wrapping_add(a, b),
{
    if a + b > 255 {
        assert((a + b) % 256 == a + b - 256);
    } else {
        assert((a + b) % 256 == a + b);
    }
}

/// Reducing modulo 256 agrees with the wrapping subtraction of the standard
/// library on two bytes; the Euclidean remainder of the possibly negative
/// difference is what wraps.
pub proof fn lemma_wrap8_sub(a: u8, b: u8)
    ensures
        wrap8(a - b) == vstd::wrapping::u8_specs::wrapping_sub(a, b),
{
    if a - b < 0 {
        assert((a - b) % 256 == a - b + 256);
    } else {
        assert((a - b) % 256 == a - b);
    }
}

/// A sprite bit is 0 or 1.
pub proof fn lemma_pix_le_1(b: u8, j: int)
    requires
        0 <= j < 8,
    ensures
        pix(b, j) <= 1,
{
    let s = (7 - j) as u8;
    assert((b >> s) & 1 <= 1) by (bit_vector);
}

/// Exclusive-or cancels itself.
pub proof fn lemma_xor_cancel(a: u8, b: u8)
    ensures
        (a ^ b) ^ b == a,
{
    assert((a ^ b) ^ b == a) by (bit_vector);
}

/// Exclusive-or of two pixel values is a pixel value.
pub proof fn lemma_xor_le_1(a: u8, b: u8)
    requires
        a <= 1,
        b <= 1,
    ensures
        (a ^ b) <= 1,
{
    assert(a <= 1 && b <= 1 ==> (a ^ b) <= 1) by (bit_vector);
}

/// Distinct (row, bit) pairs of one sprite target distinct framebuffer
/// cells: every cell is combined in at most once per draw.
pub proof fn lemma_cell_inj(vx: int, vy: int, r1: int, j1: int, r2: int, j2: int)
    requires
        0 <= j1 < 8,
        0 <= j2 < 8,
        cell(vx, vy, r1, j1) == cell(vx, vy, r2, j2),
    ensures
        r1 == r2,
        j1 == j2,
{
    assert(64 * (vy + r1) == 64 * vy + 64 * r1) by (nonlinear_arith);
    assert(64 * (vy + r2) == 64 * vy + 64 * r2) by (nonlinear_arith);
    assert(64 * r1 + j1 == 64 * r2 + j2);
    assert(64 * r1 == 64 * r2 + (j2 - j1));
    if r1 < r2 {
        assert(64 * r1 + 64 <= 64 * r2) by (nonlinear_arith)
            requires
                r1 + 1 <= r2,
        ;
    }
    if r2 < r1 {
        assert(64 * r2 + 64 <= 64 * r1) by (nonlinear_arith)
            requires
                r2 + 1 <= r1,
        ;
    }
}

/// Every cell targeted by the first `cnt` bits of row `r` lies inside a
/// framebuffer of `glen` cells.
pub open spec fn row_in_range(glen: int, vx: int, vy: int, r: int, cnt: int) -> bool {
    forall|j: int| 0 <= j < cnt ==> 0 <= #[trigger] cell(vx, vy, r, j) < glen
}

/// Every cell targeted by an `n`-row sprite lies inside a framebuffer of
/// `glen` cells.
pub open spec fn cells_in_range(glen: int, vx: int, vy: int, n: int) -> bool {
    forall|r: int, j: int| 0 <= r < n && 0 <= j < 8 ==> 0 <= #[trigger] cell(vx, vy, r, j) < glen
}

/// Drawing a row keeps the framebuffer size.
pub proof fn lemma_draw_row_len(g: Seq<u8>, b: u8, vx: int, vy: int, r: int, cnt: int)
    requires
        row_in_range(g.len() as int, vx, vy, r, cnt),
    ensures
        draw_row(g, b, vx, vy, r, cnt).len() == g.len(),
    decreases cnt,
{
    if cnt > 0 {
        lemma_draw_row_len(g, b, vx, vy, r, cnt - 1);
    }
}

/// A cell targeted by none of the first `cnt` bits of a row is untouched by
/// drawing them.
pub proof fn lemma_draw_row_untouched(
    g: Seq<u8>,
    b: u8,
    vx: int,
    vy: int,
    r: int,
    cnt: int,
    idx: int,
)
    requires
        row_in_range(g.len() as int, vx, vy, r, cnt),
        forall|j: int| 0 <= j < cnt ==> cell(vx, vy, r, j) != idx,
    ensures
        draw_row(g, b, vx, vy, r, cnt).len() == g.len(),
        0 <= idx < g.len() ==> draw_row(g, b, vx, vy, r, cnt)[idx] == g[idx],
    decreases cnt,
{
    lemma_draw_row_len(g, b, vx, vy, r, cnt);
    if cnt > 0 {
        lemma_draw_row_len(g, b, vx, vy, r, cnt - 1);
        lemma_draw_row_untouched(g, b, vx, vy, r, cnt - 1, idx);
    }
}

/// The cell targeted by bit `j` of a row holds its old value combined with
/// that bit once the first `cnt > j` bits are drawn.
pub proof fn lemma_draw_row_at(g: Seq<u8>, b: u8, vx: int, vy: int, r: int, cnt: int, j: int)
    requires
        0 <= j < cnt <= 8,
        row_in_range(g.len() as int, vx, vy, r, cnt),
    ensures
        draw_row(g, b, vx, vy, r, cnt).len() == g.len(),
        draw_row(g, b, vx, vy, r, cnt)[cell(vx, vy, r, j)] == g[cell(vx, vy, r, j)] ^ pix(b, j),
    decreases cnt,
{
    lemma_draw_row_len(g, b, vx, vy, r, cnt);
    lemma_draw_row_len(g, b, vx, vy, r, cnt - 1);
    let idx = cell(vx, vy, r, j);
    if j == cnt - 1 {
        assert forall|j2: int| 0 <= j2 < cnt - 1 implies cell(vx, vy, r, j2) != idx by {
            if cell(vx, vy, r, j2) == idx {
                lemma_cell_inj(vx, vy, r, j2, r, j);
            }
        }
        lemma_draw_row_untouched(g, b, vx, vy, r, cnt - 1, idx);
    } else {
        lemma_draw_row_at(g, b, vx, vy, r, cnt - 1, j);
        assert(cell(vx, vy, r, cnt - 1) != idx) by {
            if cell(vx, vy, r, cnt - 1) == idx {
                lemma_cell_inj(vx, vy, r, cnt - 1, r, j);
            }
        }
    }
}

/// Drawing rows keeps the framebuffer size.
pub proof fn lemma_draw_rows_len(g: Seq<u8>, mem: Seq<u8>, i: int, vx: int, vy: int, cnt: int)
    requires
        cells_in_range(g.len() as int, vx, vy, cnt),
    ensures
        draw_rows(g, mem, i, vx, vy, cnt).len() == g.len(),
    decreases cnt,
{
    if cnt > 0 {
        lemma_draw_rows_len(g, mem, i, vx, vy, cnt - 1);
        lemma_draw_row_len(
            draw_rows(g, mem, i, vx, vy, cnt - 1),
            mem[i + cnt - 1],
            vx,
            vy,
            cnt - 1,
            8,
        );
    }
}

/// A cell targeted by no bit of the first `cnt` rows is untouched by drawing
/// them.
pub proof fn lemma_draw_rows_untouched(
    g: Seq<u8>,
    mem: Seq<u8>,
    i: int,
    vx: int,
    vy: int,
    cnt: int,
    idx: int,
)
    requires
        cells_in_range(g.len() as int, vx, vy, cnt),
        forall|r: int, j: int| 0 <= r < cnt && 0 <= j < 8 ==> cell(vx, vy, r, j) != idx,
    ensures
        draw_rows(g, mem, i, vx, vy, cnt).len() == g.len(),
        0 <= idx < g.len() ==> draw_rows(g, mem, i, vx, vy, cnt)[idx] == g[idx],
    decreases cnt,
{
    lemma_draw_rows_len(g, mem, i, vx, vy, cnt);
    if cnt > 0 {
        lemma_draw_rows_len(g, mem, i, vx, vy, cnt - 1);
        lemma_draw_rows_untouched(g, mem, i, vx, vy, cnt - 1, idx);
        lemma_draw_row_untouched(
            draw_rows(g, mem, i, vx, vy, cnt - 1),
            mem[i + cnt - 1],
            vx,
            vy,
            cnt - 1,
            8,
            idx,
        );
    }
}

/// The cell targeted by row `r`, bit `j` holds its old value combined with
/// that sprite bit once the first `cnt > r` rows are drawn.
pub proof fn lemma_draw_rows_at(
    g: Seq<u8>,
    mem: Seq<u8>,
    i: int,
    vx: int,
    vy: int,
    cnt: int,
    r: int,
    j: int,
)
    requires
        0 <= r < cnt,
        0 <= j < 8,
        cells_in_range(g.len() as int, vx, vy, cnt),
    ensures
        draw_rows(g, mem, i, vx, vy, cnt).len() == g.len(),
        draw_rows(g, mem, i, vx, vy, cnt)[cell(vx, vy, r, j)] == g[cell(vx, vy, r, j)] ^ pix(
            mem[i + r],
            j,
        ),
    decreases cnt,
{
    lemma_draw_rows_len(g, mem, i, vx, vy, cnt);
    let idx = cell(vx, vy, r, j);
    let prev = draw_rows(g, mem, i, vx, vy, cnt - 1);
    lemma_draw_rows_len(g, mem, i, vx, vy, cnt - 1);
    if r == cnt - 1 {
        assert forall|r2: int, j2: int| 0 <= r2 < cnt - 1 && 0 <= j2 < 8 implies cell(
            vx,
            vy,
            r2,
            j2,
        ) != idx by {
            if cell(vx, vy, r2, j2) == idx {
                lemma_cell_inj(vx, vy, r2, j2, r, j);
            }
        }
        lemma_draw_rows_untouched(g, mem, i, vx, vy, cnt - 1, idx);
        lemma_draw_row_at(prev, mem[i + cnt - 1], vx, vy, cnt - 1, 8, j);
    } else {
        lemma_draw_rows_at(g, mem, i, vx, vy, cnt - 1, r, j);
        assert forall|j2: int| 0 <= j2 < 8 implies #[trigger] cell(vx, vy, cnt - 1, j2) != idx by {
            if cell(vx, vy, cnt - 1, j2) == idx {
                lemma_cell_inj(vx, vy, cnt - 1, j2, r, j);
            }
        }
        lemma_draw_row_untouched(prev, mem[i + cnt - 1], vx, vy, cnt - 1, 8, idx);
    }
}

/// A single sprite bit over a lit cell witnesses a collision within its row.
pub proof fn lemma_row_hits_witness(
    g: Seq<u8>,
    b: u8,
    vx: int,
    vy: int,
    r: int,
    cnt: int,
    j: int,
)
    requires
        0 <= j < cnt,
        pix(b, j) == 1,
        g[cell(vx, vy, r, j)] == 1,
    ensures
        row_hits(g, b, vx, vy, r, cnt),
    decreases cnt,
{
    if j < cnt - 1 {
        lemma_row_hits_witness(g, b, vx, vy, r, cnt - 1, j);
    }
}

/// A single sprite bit over a lit cell witnesses a collision for the draw.
pub proof fn lemma_hits_witness(
    g: Seq<u8>,
    mem: Seq<u8>,
    i: int,
    vx: int,
    vy: int,
    cnt: int,
    r: int,
    j: int,
)
    requires
        0 <= r < cnt,
        0 <= j < 8,
        pix(mem[i + r], j) == 1,
        g[cell(vx, vy, r, j)] == 1,
    ensures
        hits(g, mem, i, vx, vy, cnt),
    decreases cnt,
{
    if r == cnt - 1 {
        lemma_row_hits_witness(g, mem[i + cnt - 1], vx, vy, cnt - 1, 8, j);
    } else {
        lemma_hits_witness(g, mem, i, vx, vy, cnt - 1, r, j);
    }
}

/// How one driver-visible cycle relates to the model, given the byte the
/// random source returned and whether a 1/60-second interval had elapsed: a
/// successful step optionally followed by one timer decrement; a failed step
/// returns the model's error and changes nothing.
pub open spec fn cycle_rel(
    pre: MachV,
    rb: u8,
    ticked: bool,
    r: Result<(), Chip8Error>,
    post: MachV,
) -> bool {
    match step_spec(pre, rb) {
        Ok(m) => r == Ok::<(), Chip8Error>(()) && post == if ticked {
            tick_spec(m)
        } else {
            m
        },
        Err(e) => r == Err::<(), Chip8Error>(e) && post == pre,
    }
}

} // verus!
