use vstd::prelude::*;

use crate::decode::{decode, Op};
use crate::error::Chip8Error;
use crate::machine::Chip8;
use crate::model::{
    add_index_step, add_reg_step, bcd_step, cell, cells_in_range, clear_step, cycle_rel,
    draw_row, draw_rows, draw_step, hits, lemma_cell_inj, lemma_draw_row_untouched,
    lemma_draw_rows_untouched, lemma_pix_le_1, lemma_wrap8_add, lemma_wrap8_sub, lemma_xor_le_1,
    load_regs_step, load_span, mem_size, pix, row_hits, row_in_range, step_matches, step_spec,
    store_regs_step, store_span, sub_reg_step, MachV,
};

verus! {

/// One sixtieth of a second in whole nanoseconds: the real-time cadence at
/// which both countdown timers decrement.
pub const TICK_NANOS: u128 = 16_666_666;

/// Relies on rand::thread_rng and rand::Rng::gen: one uniformly drawn random
/// byte. Nothing is assumed of the value.
#[verifier::external_body]
fn random_byte() -> u8 {
    rand::Rng::gen(&mut rand::thread_rng())
}

impl Chip8 {
    /// Block store: registers 0 through `x` inclusive go to memory starting
    /// at the index register.
    #[verifier::loop_isolation(false)]
    fn op_store_regs(&mut self, x: usize) -> (r: Result<(), Chip8Error>)
        requires
            old(self).wf(),
            x < 16,
            old(self).pc + 1 < mem_size(),
        ensures
            final(self).wf(),
            step_matches(
                old(self)@,
                store_regs_step(old(self)@, x as int),
                r,
                final(self)@,
            ),
    {
        if self.i + x >= 4096 {
            return Err(Chip8Error::OutOfBoundsAccess);
        }
        let mut k: usize = 0;
        while k <= x
            invariant
                k <= x + 1,
                self.i == old(self).i,
                self.pc == old(self).pc,
                self.sp == old(self).sp,
                self.delay_timer == old(self).delay_timer,
                self.sound_timer == old(self).sound_timer,
                self.needs_redraw == old(self).needs_redraw,
                self.registers@ == old(self)@.regs,
                self.stack@ == old(self)@.stack,
                self.graphics@ == old(self)@.gfx,
                self.keys@ == old(self)@.keys,
                self.memory@.len() == 4096,
                forall|j: int| 0 <= j < k ==> self.memory@[old(self).i + j] == old(self)@.regs[j],
                forall|j: int|
                    0 <= j < 4096 && !(old(self).i <= j < old(self).i + k) ==> self.memory@[j]
                        == old(self)@.mem[j],
            decreases x + 1 - k,
        {
            let val = self.registers[k];
            self.memory.set(self.i + k, val);
            k += 1;
        }
        self.next();
        proof {
            assert(self@ =~= (MachV {
                mem: store_span(old(self)@.mem, old(self).i as int, old(self)@.regs, x as int),
                pc: (old(self).pc + 2) as usize,
                ..old(self)@
            }));
        }
        Ok(())
    }

    /// Block load: registers 0 through `x` inclusive come from memory
    /// starting at the index register.
    #[verifier::loop_isolation(false)]
    fn op_load_regs(&mut self, x: usize) -> (r: Result<(), Chip8Error>)
        requires
            old(self).wf(),
            x < 16,
            old(self).pc + 1 < mem_size(),
        ensures
            final(self).wf(),
            step_matches(
                old(self)@,
                load_regs_step(old(self)@, x as int),
                r,
                final(self)@,
            ),
    {
        if self.i + x >= 4096 {
            return Err(Chip8Error::OutOfBoundsAccess);
        }
        let mut k: usize = 0;
        while k <= x
            invariant
                k <= x + 1,
                self.i == old(self).i,
                self.pc == old(self).pc,
                self.sp == old(self).sp,
                self.delay_timer == old(self).delay_timer,
                self.sound_timer == old(self).sound_timer,
                self.needs_redraw == old(self).needs_redraw,
                self.memory@ == old(self)@.mem,
                self.stack@ == old(self)@.stack,
                self.graphics@ == old(self)@.gfx,
                self.keys@ == old(self)@.keys,
                self.registers@.len() == 16,
                forall|j: int| 0 <= j < k ==> self.registers@[j] == old(self)@.mem[old(self).i + j],
                forall|j: int| k <= j < 16 ==> self.registers@[j] == old(self)@.regs[j],
            decreases x + 1 - k,
        {
            let val = self.memory[self.i + k];
            self.registers.set(k, val);
            k += 1;
        }
        self.next();
        proof {
            assert(self@ =~= (MachV {
                regs: load_span(old(self)@.regs, old(self)@.mem, old(self).i as int, x as int),
                pc: (old(self).pc + 2) as usize,
                ..old(self)@
            }));
        }
        Ok(())
    }

    /// Sprite draw: validates the sprite rows against memory and every target
    /// cell against the framebuffer, then combines the sprite in by
    /// exclusive-or, recording a collision whenever a 1 bit lands on a lit
    /// cell.
    #[verifier::loop_isolation(false)]
    fn op_draw(&mut self, x: usize, y: usize, n: usize) -> (r: Result<(), Chip8Error>)
        requires
            old(self).wf(),
            x < 16,
            y < 16,
            n < 16,
            old(self).pc + 1 < mem_size(),
        ensures
            final(self).wf(),
            step_matches(
                old(self)@,
                draw_step(old(self)@, x as int, y as int, n as int),
                r,
                final(self)@,
            ),
    {
        let vx = self.registers[x] as usize;
        let vy = self.registers[y] as usize;
        if n > 0 {
            if self.i + n > 4096 {
                return Err(Chip8Error::OutOfBoundsAccess);
            }
            if 64 * (vy + n - 1) + vx + 7 >= 2048 {
                return Err(Chip8Error::OutOfBoundsAccess);
            }
        }
        proof {
            assert forall|r2: int, j2: int| 0 <= r2 < n && 0 <= j2 < 8 implies 0 <= #[trigger] cell(
                vx as int,
                vy as int,
                r2,
                j2,
            ) < 2048 by {
                assert(cell(vx as int, vy as int, r2, j2) <= cell(vx as int, vy as int, n - 1, 7));
            }
            assert(cells_in_range(2048, vx as int, vy as int, n as int));
        }
        let ghost g0 = self.graphics@;
        let mut collision = false;
        let mut ri: usize = 0;
        while ri < n
            invariant
                ri <= n,
                self.i == old(self).i,
                self.pc == old(self).pc,
                self.sp == old(self).sp,
                self.delay_timer == old(self).delay_timer,
                self.sound_timer == old(self).sound_timer,
                self.needs_redraw == old(self).needs_redraw,
                self.registers@ == old(self)@.regs,
                self.stack@ == old(self)@.stack,
                self.memory@ == old(self)@.mem,
                self.keys@ == old(self)@.keys,
                self.graphics@.len() == 2048,
                forall|j: int| 0 <= j < 2048 ==> self.graphics@[j] <= 1,
                self.graphics@ == draw_rows(
                    g0,
                    old(self)@.mem,
                    old(self).i as int,
                    vx as int,
                    vy as int,
                    ri as int,
                ),
                collision == hits(
                    g0,
                    old(self)@.mem,
                    old(self).i as int,
                    vx as int,
                    vy as int,
                    ri as int,
                ),
            decreases n - ri,
        {
            let row = self.memory[self.i + ri];
            let ghost gr = self.graphics@;
            let mut j: usize = 0;
            while j < 8
                invariant
                    j <= 8,
                    ri < n,
                    row == old(self)@.mem[old(self).i + ri],
                    gr == draw_rows(
                        g0,
                        old(self)@.mem,
                        old(self).i as int,
                        vx as int,
                        vy as int,
                        ri as int,
                    ),
                    self.i == old(self).i,
                    self.pc == old(self).pc,
                    self.sp == old(self).sp,
                    self.delay_timer == old(self).delay_timer,
                    self.sound_timer == old(self).sound_timer,
                    self.needs_redraw == old(self).needs_redraw,
                    self.registers@ == old(self)@.regs,
                    self.stack@ == old(self)@.stack,
                    self.memory@ == old(self)@.mem,
                    self.keys@ == old(self)@.keys,
                    self.graphics@.len() == 2048,
                    forall|j2: int| 0 <= j2 < 2048 ==> self.graphics@[j2] <= 1,
                    self.graphics@ == draw_row(gr, row, vx as int, vy as int, ri as int, j as int),
                    collision == (hits(
                        g0,
                        old(self)@.mem,
                        old(self).i as int,
                        vx as int,
                        vy as int,
                        ri as int,
                    ) || row_hits(g0, row, vx as int, vy as int, ri as int, j as int)),
                decreases 8 - j,
            {
                let shift: u8 = (7 - j) as u8;
                let bit = (row >> shift) & 1;
                let idx = 64 * (vy + ri) + vx + j;
                proof {
                    assert(bit == pix(row, j as int));
                    assert(idx == cell(vx as int, vy as int, ri as int, j as int));
                    assert forall|j2: int| 0 <= j2 < j implies #[trigger] cell(
                        vx as int,
                        vy as int,
                        ri as int,
                        j2,
                    ) != idx by {
                        if cell(vx as int, vy as int, ri as int, j2) == idx {
                            lemma_cell_inj(vx as int, vy as int, ri as int, j2, ri as int, j as int);
                        }
                    }
                    assert(row_in_range(2048, vx as int, vy as int, ri as int, j as int));
                    lemma_draw_row_untouched(
                        gr,
                        row,
                        vx as int,
                        vy as int,
                        ri as int,
                        j as int,
                        idx as int,
                    );
                    assert forall|r2: int, j2: int|
                        0 <= r2 < ri && 0 <= j2 < 8 implies #[trigger] cell(
                        vx as int,
                        vy as int,
                        r2,
                        j2,
                    ) != idx by {
                        if cell(vx as int, vy as int, r2, j2) == idx {
                            lemma_cell_inj(vx as int, vy as int, r2, j2, ri as int, j as int);
                        }
                    }
                    lemma_draw_rows_untouched(
                        g0,
                        old(self)@.mem,
                        old(self).i as int,
                        vx as int,
                        vy as int,
                        ri as int,
                        idx as int,
                    );
                    assert(self.graphics@[idx as int] == g0[idx as int]);
                }
                let cur = self.graphics[idx];
                if bit == 1 && cur == 1 {
                    collision = true;
                }
                self.graphics.set(idx, cur ^ bit);
                proof {
                    lemma_pix_le_1(row, j as int);
                    lemma_xor_le_1(cur, bit);
                    assert(self.graphics@ =~= draw_row(
                        gr,
                        row,
                        vx as int,
                        vy as int,
                        ri as int,
                        j as int + 1,
                    ));
                }
                j += 1;
            }
            proof {
                assert(self.graphics@ =~= draw_rows(
                    g0,
                    old(self)@.mem,
                    old(self).i as int,
                    vx as int,
                    vy as int,
                    ri as int + 1,
                ));
            }
            ri += 1;
        }
        let flag: u8 = if collision {
            1
        } else {
            0
        };
        self.registers.set(15, flag);
        self.needs_redraw = true;
        self.next();
        proof {
            assert(self@ =~= (MachV {
                gfx: draw_rows(
                    g0,
                    old(self)@.mem,
                    old(self).i as int,
                    vx as int,
                    vy as int,
                    n as int,
                ),
                regs: old(self)@.regs.update(
                    15,
                    if hits(
                        g0,
                        old(self)@.mem,
                        old(self).i as int,
                        vx as int,
                        vy as int,
                        n as int,
                    ) {
                        1u8
                    } else {
                        0u8
                    },
                ),
                redraw: true,
                pc: (old(self).pc + 2) as usize,
                ..old(self)@
            }));
        }
        Ok(())
    }

    /// One fetch-decode-execute step, with the byte a random draw returned
    /// supplied by the caller. The state moves exactly as the model
    /// `step_spec` says: on an error the state is unchanged and the model's
    /// error is returned.
    pub fn step_with_random(&mut self, rb: u8) -> (r: Result<(), Chip8Error>)
        requires
            old(self).wf(),
        ensures
            final(self).wf(),
            step_matches(old(self)@, step_spec(old(self)@, rb), r, final(self)@),
    {
        if self.pc >= 4095 {
            return Err(Chip8Error::OutOfBoundsAccess);
        }
        let (a, b, c, d) = self.fetch_op();
        let op = match decode(a, b, c, d) {
            None => {
                return Err(Chip8Error::UnsupportedOpcode { a, b, c, d, addr: self.pc });
            },
            Some(op) => op,
        };
        match op {
            Op::Jump { addr } => {
                self.go_to(addr);
                Ok(())
            },
            Op::JumpV0 { addr } => {
                let v0 = self.registers[0] as usize;
                self.go_to(addr + v0);
                Ok(())
            },
            Op::Call { addr } => {
                if self.sp >= 32 {
                    return Err(Chip8Error::StackOverflow);
                }
                self.stack.set(self.sp, self.pc);
                self.sp = self.sp + 1;
                self.go_to(addr);
                Ok(())
            },
            Op::Ret => {
                if self.sp == 0 {
                    return Err(Chip8Error::StackUnderflow);
                }
                self.sp = self.sp - 1;
                let ra = self.stack[self.sp];
                self.go_to(ra + 2);
                Ok(())
            },
            Op::SkipEqImm { x, kk } => {
                let vx = self.registers[x];
                self.skip_if(vx == kk);
                Ok(())
            },
            Op::SkipNeImm { x, kk } => {
                let vx = self.registers[x];
                self.skip_if(vx != kk);
                Ok(())
            },
            Op::SkipEqReg { x, y } => {
                let vx = self.registers[x];
                let vy = self.registers[y];
                self.skip_if(vx == vy);
                Ok(())
            },
            Op::SkipNeReg { x, y } => {
                let vx = self.registers[x];
                let vy = self.registers[y];
                self.skip_if(vx != vy);
                Ok(())
            },
            Op::SetImm { x, kk } => {
                self.registers.set(x, kk);
                self.next();
                Ok(())
            },
            Op::AddImm { x, kk } => {
                let vx = self.registers[x];
                proof {
                    lemma_wrap8_add(vx, kk);
                }
                self.registers.set(x, vx.wrapping_add(kk));
                self.next();
                Ok(())
            },
            Op::CopyReg { x, y } => {
                let vy = self.registers[y];
                self.registers.set(x, vy);
                self.next();
                Ok(())
            },
            Op::OrReg { x, y } => {
                let vx = self.registers[x];
                let vy = self.registers[y];
                self.registers.set(x, vx | vy);
                self.next();
                Ok(())
            },
            Op::AndReg { x, y } => {
                let vx = self.registers[x];
                let vy = self.registers[y];
                self.registers.set(x, vx & vy);
                self.next();
                Ok(())
            },
            Op::AddReg { x, y } => {
                let vx = self.registers[x];
                let vy = self.registers[y];
                proof {
                    lemma_wrap8_add(vx, vy);
                }
                let sum = vx.wrapping_add(vy);
                self.registers.set(x, sum);
                self.registers.set(15, if sum < vx { 1 } else { 0 });
                self.next();
                proof {
                    assert(step_matches(
                        old(self)@,
                        add_reg_step(old(self)@, x as int, y as int),
                        Ok(()),
                        self@,
                    ));
                }
                Ok(())
            },
            Op::SubReg { x, y } => {
                let vx = self.registers[x];
                let vy = self.registers[y];
                proof {
                    lemma_wrap8_sub(vx, vy);
                }
                let diff = vx.wrapping_sub(vy);
                self.registers.set(x, diff);
                self.registers.set(15, if vx < vy { 0 } else { 1 });
                self.next();
                proof {
                    assert(step_matches(
                        old(self)@,
                        sub_reg_step(old(self)@, x as int, y as int),
                        Ok(()),
                        self@,
                    ));
                }
                Ok(())
            },
            Op::RandMask { x, kk } => {
                self.registers.set(x, rb & kk);
                self.next();
                Ok(())
            },
            Op::SetIndex { addr } => {
                self.i = addr;
                self.next();
                Ok(())
            },
            Op::AddIndex { x } => {
                let vx = self.registers[x] as usize;
                if self.i + vx >= 4096 {
                    return Err(Chip8Error::OutOfBoundsAccess);
                }
                self.i = self.i + vx;
                self.next();
                proof {
                    assert(step_matches(
                        old(self)@,
                        add_index_step(old(self)@, x as int),
                        Ok(()),
                        self@,
                    ));
                }
                Ok(())
            },
            Op::GlyphIndex { x } => {
                let vx = self.registers[x];
                let lsd = vx & 0xF;
                proof {
                    assert(vx & 0xF < 16) by (bit_vector);
                }
                self.i = 5 * (lsd as usize);
                self.next();
                Ok(())
            },
            Op::StoreBcd { x } => {
                if self.i + 2 >= 4096 {
                    return Err(Chip8Error::OutOfBoundsAccess);
                }
                let vx = self.registers[x];
                self.memory.set(self.i, vx / 100);
                self.memory.set(self.i + 1, (vx / 10) % 10);
                self.memory.set(self.i + 2, vx % 10);
                self.next();
                proof {
                    assert(step_matches(old(self)@, bcd_step(old(self)@, x as int), Ok(()), self@));
                }
                Ok(())
            },
            Op::StoreRegs { x } => self.op_store_regs(x),
            Op::LoadRegs { x } => self.op_load_regs(x),
            Op::ClearScreen => {
                self.clear_graphics();
                self.needs_redraw = true;
                self.next();
                proof {
                    assert(step_matches(old(self)@, clear_step(old(self)@), Ok(()), self@));
                }
                Ok(())
            },
            Op::Draw { x, y, n } => self.op_draw(x, y, n),
            Op::ReadDelay { x } => {
                let dt = self.delay_timer;
                self.registers.set(x, dt);
                self.next();
                Ok(())
            },
            Op::SetDelay { x } => {
                let vx = self.registers[x];
                self.delay_timer = vx;
                self.next();
                Ok(())
            },
        }
    }

    /// Zeroes the framebuffer in place.
    #[verifier::loop_isolation(false)]
    fn clear_graphics(&mut self)
        requires
            old(self).wf(),
        ensures
            final(self).wf(),
            final(self)@ == (MachV {
                gfx: Seq::new(2048, |k: int| 0u8),
                ..old(self)@
            }),
    {
        let mut k: usize = 0;
        while k < 2048
            invariant
                k <= 2048,
                self.i == old(self).i,
                self.pc == old(self).pc,
                self.sp == old(self).sp,
                self.delay_timer == old(self).delay_timer,
                self.sound_timer == old(self).sound_timer,
                self.needs_redraw == old(self).needs_redraw,
                self.registers@ == old(self)@.regs,
                self.stack@ == old(self)@.stack,
                self.memory@ == old(self)@.mem,
                self.keys@ == old(self)@.keys,
                self.graphics@.len() == 2048,
                forall|j: int| 0 <= j < k ==> self.graphics@[j] == 0u8,
                forall|j: int| k <= j < 2048 ==> self.graphics@[j] == old(self)@.gfx[j],
            decreases 2048 - k,
        {
            self.graphics.set(k, 0);
            k += 1;
        }
        proof {
            assert(self.graphics@ =~= Seq::new(2048, |j: int| 0u8));
        }
    }

    /// One driver-visible cycle: draw a random byte, perform one
    /// fetch-decode-execute step, then decrement both timers once if at least
    /// 1/60 of a second has passed since the last decrement.
    ///
    /// The random byte and the clock are outside the model, so the contract
    /// states what holds for every outcome: some drawn byte and some verdict
    /// of the interval check relate the old and the new state through
    /// `cycle_rel`.
    pub fn cycle(&mut self) -> (r: Result<(), Chip8Error>)
        requires
            old(self).wf(),
        ensures
            final(self).wf(),
            exists|rb: u8, ticked: bool| cycle_rel(old(self)@, rb, ticked, r, final(self)@),
    {
        let rb = random_byte();
        let r = self.step_with_random(rb);
        if r.is_err() {
            proof {
                assert(cycle_rel(old(self)@, rb, false, r, self@));
            }
            return r;
        }
        let nanos = self.last_tick.elapsed().as_nanos();
        let ticked = nanos >= TICK_NANOS;
        if ticked {
            self.tick_timers();
            self.last_tick = std::time::Instant::now();
        }
        proof {
            assert(cycle_rel(old(self)@, rb, ticked, r, self@));
        }
        r
    }
}

} // verus!
