use vstd::prelude::*;

use crate::decode::Op;
use crate::model::{
    add_reg_step, bcd_step, call_step, cell, cells_in_range, draw_rows, draw_step, exec_spec,
    gfx_size, hi_nib, inv, lemma_draw_rows_at, lemma_draw_rows_len, lemma_draw_rows_untouched,
    lemma_hits_witness, lemma_xor_cancel, lo_nib, load_regs_step, mem_size, pix, ret_step,
    step_spec, store_regs_step, sub_reg_step, tick_spec, MachV,
};

verus! {

/// For all byte values a and b in the two registers, adding registers stores
/// `(a + b) mod 256` in the first register and sets the flag register to 1
/// exactly when the unwrapped sum exceeds 255, else to 0.
///
/// When the first register is the flag register itself, the flag overwrites
/// the stored sum, so that input is excluded.
pub proof fn lemma_add_registers(v: MachV, x: int, y: int)
    requires
        inv(v),
        0 <= x < 15,
        0 <= y < 16,
    ensures
        add_reg_step(v, x, y) matches Ok(m) && {
            &&& m.regs[x] == (v.regs[x] + v.regs[y]) % 256
            &&& (m.regs[15] == 1 <==> v.regs[x] + v.regs[y] > 255)
            &&& (m.regs[15] == 1 || m.regs[15] == 0)
        },
{
}

/// For all byte values a and b in the two registers, subtracting registers
/// stores `(a - b) mod 256` in the first register and sets the flag register
/// to 0 exactly when `a < b` (a borrow), else to 1.
///
/// When the first register is the flag register itself, the flag overwrites
/// the stored difference, so that input is excluded.
pub proof fn lemma_subtract_registers(v: MachV, x: int, y: int)
    requires
        inv(v),
        0 <= x < 15,
        0 <= y < 16,
    ensures
        sub_reg_step(v, x, y) matches Ok(m) && {
            &&& m.regs[x] == (v.regs[x] - v.regs[y]) % 256
            &&& (m.regs[15] == 0 <==> v.regs[x] < v.regs[y])
            &&& (m.regs[15] == 1 || m.regs[15] == 0)
        },
{
}

/// Jump sets the program counter to exactly the 12-bit address decoded from
/// the instruction's low three nibbles, whenever the fetched instruction has
/// high nibble 1.
pub proof fn lemma_jump_sets_pc(v: MachV, rb: u8)
    requires
        inv(v),
        v.pc + 1 < mem_size(),
        hi_nib(v.mem[v.pc as int]) == 1,
    ensures
        step_spec(v, rb) matches Ok(m) && m.pc == 256 * lo_nib(v.mem[v.pc as int]) + 16 * hi_nib(
            v.mem[v.pc + 1],
        ) + lo_nib(v.mem[v.pc + 1]),
{
}

/// A call pushes the address of the call instruction, raises the stack
/// pointer by one and moves control to the target; the paired return pops it
/// again and resumes exactly two bytes past the call site, with registers,
/// memory and framebuffer untouched throughout.
pub proof fn lemma_call_then_return(v: MachV, addr: usize)
    requires
        inv(v),
        v.sp < 32,
        v.pc + 1 < mem_size(),
    ensures
        call_step(v, addr) matches Ok(c) && {
            &&& c.pc == addr
            &&& c.sp == v.sp + 1
            &&& c.stack[v.sp as int] == v.pc
            &&& ret_step(c) matches Ok(m) && {
                &&& m.pc == v.pc + 2
                &&& m.sp == v.sp
                &&& m.regs == v.regs
                &&& m.mem == v.mem
                &&& m.gfx == v.gfx
                &&& m.i == v.i
            }
        },
{
}

/// Every conditional skip advances the program counter by exactly 4 when its
/// condition holds and by exactly 2 otherwise — never more, never less —
/// and changes nothing else.
pub proof fn lemma_skip_amounts(v: MachV, x: usize, y: usize, kk: u8, rb: u8)
    requires
        inv(v),
        x < 16,
        y < 16,
        v.pc + 1 < mem_size(),
    ensures
        exec_spec(v, Op::SkipEqImm { x, kk }, rb) matches Ok(m) && m.pc == v.pc + (
        if v.regs[x as int] == kk {
            4int
        } else {
            2int
        }) && m.regs == v.regs && m.mem == v.mem,
        exec_spec(v, Op::SkipNeImm { x, kk }, rb) matches Ok(m) && m.pc == v.pc + (
        if v.regs[x as int] != kk {
            4int
        } else {
            2int
        }) && m.regs == v.regs && m.mem == v.mem,
        exec_spec(v, Op::SkipEqReg { x, y }, rb) matches Ok(m) && m.pc == v.pc + (
        if v.regs[x as int] == v.regs[y as int] {
            4int
        } else {
            2int
        }) && m.regs == v.regs && m.mem == v.mem,
        exec_spec(v, Op::SkipNeReg { x, y }, rb) matches Ok(m) && m.pc == v.pc + (
        if v.regs[x as int] != v.regs[y as int] {
            4int
        } else {
            2int
        }) && m.regs == v.regs && m.mem == v.mem,
{
}

/// Decimal decomposition stores the hundreds, tens and ones digits of the
/// register value at the index register and the two following cells, each a
/// digit below 10, recomposing to exactly the register value; the index
/// register and all other memory are untouched.
pub proof fn lemma_bcd_decomposition(v: MachV, x: usize)
    requires
        inv(v),
        x < 16,
        v.i + 2 < mem_size(),
    ensures
        bcd_step(v, x as int) matches Ok(m) && {
            &&& m.mem[v.i as int] == v.regs[x as int] / 100
            &&& m.mem[v.i + 1] == (v.regs[x as int] / 10) % 10
            &&& m.mem[v.i + 2] == v.regs[x as int] % 10
            &&& m.mem[v.i as int] < 10
            &&& m.mem[v.i + 1] < 10
            &&& m.mem[v.i + 2] < 10
            &&& 100 * m.mem[v.i as int] + 10 * m.mem[v.i + 1] + m.mem[v.i + 2] == v.regs[x as int]
            &&& m.i == v.i
            &&& forall|k: int|
                0 <= k < mem_size() && !(v.i <= k <= v.i + 2) ==> m.mem[k] == v.mem[k]
        },
{
    let vx = v.regs[x as int];
    assert(100 * (vx / 100) + 10 * ((vx / 10) % 10) + vx % 10 == vx) by (bit_vector);
    assert(vx / 100 < 10 && (vx / 10) % 10 < 10 && vx % 10 < 10) by (bit_vector);
}

/// Drawing the same sprite at the same location twice in succession restores
/// every framebuffer cell to its pre-draw value.
///
/// The coordinate registers must not be the flag register, which the first
/// draw overwrites.
pub proof fn lemma_draw_twice_restores(v: MachV, x: usize, y: usize, n: usize)
    requires
        inv(v),
        x < 16,
        y < 16,
        n < 16,
        x != 15,
        y != 15,
        n > 0 ==> v.i + n <= mem_size(),
        cells_in_range(gfx_size(), v.regs[x as int] as int, v.regs[y as int] as int, n as int),
    ensures
        draw_step(v, x as int, y as int, n as int) matches Ok(m1) && draw_step(
            m1,
            x as int,
            y as int,
            n as int,
        ) matches Ok(m2) && m2.gfx == v.gfx,
{
    let vx = v.regs[x as int] as int;
    let vy = v.regs[y as int] as int;
    let i = v.i as int;
    if n > 0 {
        assert(cell(vx, vy, n - 1, 7) < gfx_size());
    }
    let m1 = match draw_step(v, x as int, y as int, n as int) {
        Ok(m1) => m1,
        Err(_) => v,
    };
    let g1 = draw_rows(v.gfx, v.mem, i, vx, vy, n as int);
    let g2 = draw_rows(g1, v.mem, i, vx, vy, n as int);
    lemma_draw_rows_len(v.gfx, v.mem, i, vx, vy, n as int);
    lemma_draw_rows_len(g1, v.mem, i, vx, vy, n as int);
    assert(m1.gfx == g1);
    assert(m1.regs[x as int] == v.regs[x as int]);
    assert(m1.regs[y as int] == v.regs[y as int]);
    assert forall|idx: int| 0 <= idx < gfx_size() implies g2[idx] == v.gfx[idx] by {
        if exists|r: int, j: int|
            0 <= r < n && 0 <= j < 8 && #[trigger] cell(vx, vy, r, j) == idx {
            let (r, j) = choose|r: int, j: int|
                0 <= r < n && 0 <= j < 8 && #[trigger] cell(vx, vy, r, j) == idx;
            lemma_draw_rows_at(v.gfx, v.mem, i, vx, vy, n as int, r, j);
            lemma_draw_rows_at(g1, v.mem, i, vx, vy, n as int, r, j);
            lemma_xor_cancel(v.gfx[idx], pix(v.mem[i + r], j));
        } else {
            assert(forall|r: int, j: int|
                0 <= r < n && 0 <= j < 8 ==> #[trigger] cell(vx, vy, r, j) != idx);
            lemma_draw_rows_untouched(v.gfx, v.mem, i, vx, vy, n as int, idx);
            lemma_draw_rows_untouched(g1, v.mem, i, vx, vy, n as int, idx);
        }
    }
    assert(g2 =~= v.gfx);
}

/// When every cell under a lit sprite bit starts unlit and the sprite has at
/// least one lit bit in the drawn rows, the first draw raises those cells and
/// the second draw reports a collision: the flag register ends at exactly 1.
///
/// With an all-zero sprite, or over cells already lit before the first draw,
/// the second draw's flag can be 0 instead, so those inputs are excluded.
pub proof fn lemma_draw_twice_collides(v: MachV, x: usize, y: usize, n: usize)
    requires
        inv(v),
        x < 16,
        y < 16,
        n < 16,
        x != 15,
        y != 15,
        n > 0 ==> v.i + n <= mem_size(),
        cells_in_range(gfx_size(), v.regs[x as int] as int, v.regs[y as int] as int, n as int),
        exists|r: int, j: int|
            0 <= r < n && 0 <= j < 8 && #[trigger] pix(v.mem[v.i + r], j) == 1,
        forall|r: int, j: int|
            0 <= r < n && 0 <= j < 8 && #[trigger] pix(v.mem[v.i + r], j) == 1 ==> v.gfx[cell(
                v.regs[x as int] as int,
                v.regs[y as int] as int,
                r,
                j,
            )] == 0,
    ensures
        draw_step(v, x as int, y as int, n as int) matches Ok(m1) && draw_step(
            m1,
            x as int,
            y as int,
            n as int,
        ) matches Ok(m2) && m2.regs[15] == 1,
{
    let vx = v.regs[x as int] as int;
    let vy = v.regs[y as int] as int;
    let i = v.i as int;
    let m1 = match draw_step(v, x as int, y as int, n as int) {
        Ok(m1) => m1,
        Err(_) => v,
    };
    let g1 = draw_rows(v.gfx, v.mem, i, vx, vy, n as int);
    lemma_draw_rows_len(v.gfx, v.mem, i, vx, vy, n as int);
    assert(m1.gfx == g1);
    assert(m1.regs[x as int] == v.regs[x as int]);
    assert(m1.regs[y as int] == v.regs[y as int]);
    let (r0, j0) = choose|r: int, j: int|
        0 <= r < n && 0 <= j < 8 && #[trigger] pix(v.mem[i + r], j) == 1;
    lemma_draw_rows_at(v.gfx, v.mem, i, vx, vy, n as int, r0, j0);
    assert(v.gfx[cell(vx, vy, r0, j0)] == 0);
    assert(0u8 ^ 1u8 == 1u8) by (bit_vector);
    assert(g1[cell(vx, vy, r0, j0)] == 1);
    lemma_hits_witness(g1, v.mem, i, vx, vy, n as int, r0, j0);
}

/// Block transfer in both directions covers registers 0 through X inclusive —
/// X + 1 registers — matching memory cells I through I + X one for one; the
/// store leaves the registers untouched and every other memory cell
/// untouched, and the load leaves memory untouched and every register above X
/// untouched.
pub proof fn lemma_block_transfer(v: MachV, x: usize)
    requires
        inv(v),
        x < 16,
        v.i + x < mem_size(),
    ensures
        store_regs_step(v, x as int) matches Ok(m) && {
            &&& forall|k: int| 0 <= k <= x ==> m.mem[v.i + k] == v.regs[k]
            &&& forall|k: int|
                0 <= k < mem_size() && !(v.i <= k <= v.i + x) ==> m.mem[k] == v.mem[k]
            &&& m.regs == v.regs
        },
        load_regs_step(v, x as int) matches Ok(m) && {
            &&& forall|k: int| 0 <= k <= x ==> m.regs[k] == v.mem[v.i + k]
            &&& forall|k: int| x < k < 16 ==> m.regs[k] == v.regs[k]
            &&& m.mem == v.mem
        },
{
}

/// The machine state after `n` consecutive 1/60-second timer intervals.
pub open spec fn tick_n(v: MachV, n: nat) -> MachV
    decreases n,
{
    if n == 0 {
        v
    } else {
        tick_spec(tick_n(v, (n - 1) as nat))
    }
}

/// However many consecutive real-time intervals elapse, a timer counts down
/// by exactly one per interval until it reaches 0 and then stays at 0: it
/// never wraps below zero.
pub proof fn lemma_timer_never_negative(v: MachV, n: nat)
    ensures
        tick_n(v, n).delay == if v.delay >= n {
            (v.delay - n) as u8
        } else {
            0u8
        },
        tick_n(v, n).sound == if v.sound >= n {
            (v.sound - n) as u8
        } else {
            0u8
        },
    decreases n,
{
    if n > 0 {
        lemma_timer_never_negative(v, (n - 1) as nat);
    }
}

} // verus!
