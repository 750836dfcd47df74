//! The machine: register file, program counter, index register, memory,
//! call stack, the framebuffer, both timers and the keypad handle. Every
//! mutation is specified against the ghost snapshot [`MachineV`].

use vstd::prelude::*;
use crate::display::{Display, lemma_cell_index};
use crate::emu_timer::EmuTimer;
use crate::key_input::KeyInput;
use crate::model::{
    Chip8Error, MachineV, FONT_BASE, MEM_SIZE, LOAD_BASE, skip, with_reg, write_ram, load_regs,
    cycle_enabled, cycle_pre, cycle_post, spec_fetch, first_nib_of,
};

verus! {

/// The built-in 5-byte glyphs for the hex digits 0 through F, in order,
/// eighty bytes in all, placed at [`FONT_BASE`] when the machine is built.
pub const FONT_SET: [u8; 80] = [
    0xF0, 0x90, 0x90, 0x90, 0xF0,
    0x20, 0x60, 0x20, 0x20, 0x70,
    0xF0, 0x10, 0xF0, 0x80, 0xF0,
    0xF0, 0x10, 0xF0, 0x10, 0xF0,
    0x90, 0x90, 0xF0, 0x10, 0x10,
    0xF0, 0x80, 0xF0, 0x10, 0xF0,
    0xF0, 0x80, 0xF0, 0x90, 0xF0,
    0xF0, 0x10, 0x20, 0x40, 0x40,
    0xF0, 0x90, 0xF0, 0x90, 0xF0,
    0xF0, 0x90, 0xF0, 0x10, 0xF0,
    0xF0, 0x90, 0xF0, 0x90, 0x90,
    0xE0, 0x90, 0xE0, 0x90, 0xE0,
    0xF0, 0x80, 0x80, 0x80, 0xF0,
    0xE0, 0x90, 0x90, 0x90, 0xE0,
    0xF0, 0x80, 0xF0, 0x80, 0xF0,
    0xF0, 0x80, 0xF0, 0x80, 0x80,
];

/// All sixteen registers zero.
pub open spec fn zero_regs() -> Seq<u8> {
    Seq::new(16, |i: int| 0u8)
}

/// All 4096 memory bytes zero.
pub open spec fn zero_ram() -> Seq<u8> {
    Seq::new(MEM_SIZE as nat, |i: int| 0u8)
}

/// Memory as the machine is built: zero everywhere but the glyph region.
pub open spec fn initial_ram() -> Seq<u8> {
    write_ram(zero_ram(), FONT_BASE as int, FONT_SET@)
}

/// The processor core: sixteen 8-bit data registers V0 to VF, the program
/// counter and the index register (both 16-bit, semantically 12-bit).
pub struct CPUState {
    pub v_regs: Vec<u8>,
    pub pc: u16,
    pub i_reg: u16,
}

impl CPUState {
    pub fn new() -> (s: CPUState)
        ensures
            s.v_regs@ == zero_regs(),
            s.pc == 0x200,
            s.i_reg == 0,
    {
        let mut v_regs: Vec<u8> = Vec::new();
        let mut k: usize = 0;
        while k < 16
            invariant
                k <= 16,
                v_regs@.len() == k,
                forall|j: int| 0 <= j < k ==> (#[trigger] v_regs@[j]) == 0,
            decreases 16 - k,
        {
            v_regs.push(0);
            k = k + 1;
        }
        let s = CPUState { v_regs, pc: 0x200, i_reg: 0 };
        proof {
            assert(s.v_regs@ =~= zero_regs());
        }
        s
    }
}

pub struct Chip8 {
    pub state: CPUState,
    pub ram: Vec<u8>,
    pub stack: Vec<u16>,
    pub display: Display,
    pub key_input: KeyInput,
    pub delay_timer: EmuTimer,
    pub sound_timer: EmuTimer,
}

impl View for Chip8 {
    type V = MachineV;

    open spec fn view(&self) -> MachineV {
        MachineV {
            regs: self.state.v_regs@,
            pc: self.state.pc,
            i_reg: self.state.i_reg,
            ram: self.ram@,
            stack: self.stack@,
            rows: self.display.num_rows,
            cols: self.display.num_cols,
            fb: self.display.grid(),
            dirty: self.display.should_update,
            delay: self.delay_timer.time_left,
            sound: self.sound_timer.time_left,
            key: self.key_input.curr_pressed_key,
        }
    }
}

impl Chip8 {
    pub open spec fn wf(&self) -> bool {
        &&& self.display.wf()
        &&& self.key_input.wf()
        &&& self@.wf()
    }

    /// A fresh machine over the given framebuffer and keypad: registers and
    /// index zero, program counter at the load base, empty stack, timers
    /// zero, and the glyph data seeded into low memory.
    pub fn new(display: Display, key_input: KeyInput) -> (c: Chip8)
        requires
            display.wf(),
            key_input.wf(),
        ensures
            c.wf(),
            c@ == (MachineV {
                regs: zero_regs(),
                pc: 0x200,
                i_reg: 0,
                ram: initial_ram(),
                stack: Seq::empty(),
                rows: display.num_rows,
                cols: display.num_cols,
                fb: display.grid(),
                dirty: display.should_update,
                delay: 0,
                sound: 0,
                key: key_input.curr_pressed_key,
            }),
    {
        let mut ram: Vec<u8> = Vec::new();
        let mut k: usize = 0;
        while k < MEM_SIZE
            invariant
                k <= MEM_SIZE,
                ram@.len() == k,
                forall|j: int| 0 <= j < k ==> (#[trigger] ram@[j]) == 0,
            decreases MEM_SIZE - k,
        {
            ram.push(0);
            k = k + 1;
        }
        let mut j: usize = 0;
        while j < 80
            invariant
                j <= 80,
                ram@.len() == MEM_SIZE,
                forall|t: int| 0 <= t < j ==> ram@[FONT_BASE + t] == FONT_SET@[t],
                forall|t: int|
                    0 <= t < MEM_SIZE && !(FONT_BASE <= t < FONT_BASE + j) ==> (#[trigger] ram@[t])
                        == 0,
            decreases 80 - j,
        {
            ram[FONT_BASE + j] = FONT_SET[j];
            j = j + 1;
        }
        proof {
            assert(ram@ =~= initial_ram());
        }
        let c = Chip8 {
            state: CPUState::new(),
            ram,
            stack: Vec::new(),
            display,
            key_input,
            delay_timer: EmuTimer::new(0),
            sound_timer: EmuTimer::new(0),
        };
        proof {
            assert forall|r: int, cc: int|
                0 <= r < c@.rows && 0 <= cc < c@.cols implies (#[trigger] c@.fb[r][cc]) == 0
                || c@.fb[r][cc] == 1 by {
                lemma_cell_index(c@.rows as int, c@.cols as int, r, cc);
            }
        }
        c
    }

    /// Push a return address.
    pub fn stack_push(&mut self, addr: u16)
        requires
            old(self).wf(),
        ensures
            final(self).wf(),
            final(self)@ == (MachineV { stack: old(self)@.stack.push(addr), ..old(self)@ }),
    {
        self.stack.push(addr)
    }

    /// Pop the most recent return address. The caller must know the stack
    /// is non-empty; a return on an empty stack is surfaced as a
    /// [`Chip8Error::StackUnderflow`] by the executor before popping.
    pub fn stack_pop(&mut self) -> (addr: u16)
        requires
            old(self).wf(),
            old(self)@.stack.len() > 0,
        ensures
            final(self).wf(),
            addr == old(self)@.stack.last(),
            final(self)@ == (MachineV { stack: old(self)@.stack.drop_last(), ..old(self)@ }),
    {
        match self.stack.pop() {
            Some(addr) => addr,
            None => {
                proof {
                    assert(false);
                }
                0
            },
        }
    }

    /// Place a program image into memory starting at the load base, or
    /// refuse it when it does not fit below the end of memory.
    pub fn load_to_ram(&mut self, instrs: &[u8]) -> (res: Result<(), Chip8Error>)
        requires
            old(self).wf(),
        ensures
            final(self).wf(),
            instrs@.len() <= MEM_SIZE - LOAD_BASE ==> res is Ok && final(self)@ == (MachineV {
                ram: write_ram(old(self)@.ram, LOAD_BASE as int, instrs@),
                ..old(self)@
            }),
            instrs@.len() > MEM_SIZE - LOAD_BASE ==> res == Err::<(), Chip8Error>(
                Chip8Error::ProgramTooLarge,
            ) && final(self)@ == old(self)@,
    {
        if instrs.len() > MEM_SIZE - LOAD_BASE {
            return Err(Chip8Error::ProgramTooLarge);
        }
        let mut start: usize = LOAD_BASE;
        let mut k: usize = 0;
        while k < instrs.len()
            invariant
                old(self).wf(),
                k <= instrs@.len(),
                instrs@.len() <= MEM_SIZE - LOAD_BASE,
                start == LOAD_BASE + k,
                self.ram@.len() == MEM_SIZE,
                self.state == old(self).state,
                self.stack == old(self).stack,
                self.display == old(self).display,
                self.key_input == old(self).key_input,
                self.delay_timer == old(self).delay_timer,
                self.sound_timer == old(self).sound_timer,
                forall|t: int| 0 <= t < k ==> self.ram@[LOAD_BASE + t] == instrs@[t],
                forall|t: int|
                    0 <= t < MEM_SIZE && !(LOAD_BASE <= t < LOAD_BASE + k) ==> (
                    #[trigger] self.ram@[t]) == old(self).ram@[t],
            decreases instrs@.len() - k,
        {
            self.ram[start] = instrs[k];
            start = start + 1;
            k = k + 1;
        }
        proof {
            assert(self.ram@ =~= write_ram(old(self)@.ram, LOAD_BASE as int, instrs@));
        }
        Ok(())
    }

    /// Push the current program counter (a subroutine call is about to
    /// jump).
    pub fn stack_push_pc(&mut self)
        requires
            old(self).wf(),
        ensures
            final(self).wf(),
            final(self)@ == (MachineV { stack: old(self)@.stack.push(old(self)@.pc), ..old(self)@ }),
    {
        let pc = self.state.pc;
        self.stack_push(pc);
    }

    pub fn set_pc(&mut self, addr: u16)
        requires
            old(self).wf(),
        ensures
            final(self).wf(),
            final(self)@ == (MachineV { pc: addr, ..old(self)@ }),
    {
        self.state.pc = addr;
    }

    /// Move the program counter past one instruction.
    pub fn incr_pc(&mut self)
        requires
            old(self).wf(),
            old(self)@.pc + 2 <= u16::MAX,
        ensures
            final(self).wf(),
            final(self)@ == skip(old(self)@),
    {
        self.state.pc = self.state.pc + 2;
    }

    /// Move the program counter back onto the instruction just fetched, so
    /// the same instruction is re-fetched next cycle.
    pub fn decr_pc(&mut self)
        requires
            old(self).wf(),
            old(self)@.pc >= 2,
        ensures
            final(self).wf(),
            final(self)@ == (MachineV { pc: (old(self)@.pc - 2) as u16, ..old(self)@ }),
    {
        self.state.pc = self.state.pc - 2;
    }

    pub fn set_index_reg(&mut self, addr: u16)
        requires
            old(self).wf(),
        ensures
            final(self).wf(),
            final(self)@ == (MachineV { i_reg: addr, ..old(self)@ }),
    {
        self.state.i_reg = addr;
    }

    pub fn get_index_reg(&mut self) -> (addr: u16)
        requires
            old(self).wf(),
        ensures
            *final(self) == *old(self),
            addr == old(self)@.i_reg,
    {
        self.state.i_reg
    }

    pub fn set_reg(&mut self, reg_num: u8, val: u8)
        requires
            old(self).wf(),
            reg_num < 16,
        ensures
            final(self).wf(),
            final(self)@ == with_reg(old(self)@, reg_num as int, val),
    {
        self.state.v_regs[reg_num as usize] = val;
    }

    pub fn get_reg(&mut self, reg_num: u8) -> (val: u8)
        requires
            old(self).wf(),
            reg_num < 16,
        ensures
            *final(self) == *old(self),
            val == old(self)@.regs[reg_num as int],
    {
        self.state.v_regs[reg_num as usize]
    }

    pub fn get_mem_data(&mut self, addr: u16) -> (b: u8)
        requires
            old(self).wf(),
            addr < MEM_SIZE,
        ensures
            *final(self) == *old(self),
            b == old(self)@.ram[addr as int],
    {
        self.ram[addr as usize]
    }

    /// The conditional skip of the `EX9E`/`EXA1` pair: with `is_same` skip
    /// when the held key equals VX, without it skip when it differs or no
    /// key is held.
    pub fn skip_if_key(&mut self, reg_num: u8, is_same: bool)
        requires
            old(self).wf(),
            reg_num < 16,
            old(self)@.pc + 2 <= u16::MAX,
        ensures
            final(self).wf(),
            final(self)@ == (
            if (is_same && old(self)@.key == Some(old(self)@.regs[reg_num as int])) || (!is_same
                && old(self)@.key != Some(old(self)@.regs[reg_num as int])) {
                skip(old(self)@)
            } else {
                old(self)@
            }),
    {
        let reg_key = self.get_reg(reg_num);
        let pressed_key = self.key_input.get_curr_pressed_key();
        if let Some(k) = pressed_key {
            if k == reg_key && is_same {
                self.incr_pc()
            } else if k != reg_key && !is_same {
                self.incr_pc()
            }
        } else {
            if !is_same {
                // no key held counts as "not the key in VX"
                self.incr_pc()
            }
        }
    }

    /// Store the given bytes at increasing addresses from the index
    /// register.
    pub fn store_from_i(&mut self, vals: Vec<u8>)
        requires
            old(self).wf(),
            old(self)@.i_reg + vals@.len() <= MEM_SIZE,
        ensures
            final(self).wf(),
            final(self)@ == (MachineV {
                ram: write_ram(old(self)@.ram, old(self)@.i_reg as int, vals@),
                ..old(self)@
            }),
    {
        let curr = self.get_index_reg() as usize;
        let mut k: usize = 0;
        while k < vals.len()
            invariant
                old(self).wf(),
                k <= vals@.len(),
                curr == old(self)@.i_reg,
                curr + vals@.len() <= MEM_SIZE,
                self.ram@.len() == MEM_SIZE,
                self.state == old(self).state,
                self.stack == old(self).stack,
                self.display == old(self).display,
                self.key_input == old(self).key_input,
                self.delay_timer == old(self).delay_timer,
                self.sound_timer == old(self).sound_timer,
                forall|t: int| 0 <= t < k ==> self.ram@[curr + t] == vals@[t],
                forall|t: int|
                    0 <= t < MEM_SIZE && !(curr <= t < curr + k) ==> (#[trigger] self.ram@[t])
                        == old(self).ram@[t],
            decreases vals@.len() - k,
        {
            self.ram[curr + k] = vals[k];
            k = k + 1;
        }
        proof {
            assert(self.ram@ =~= write_ram(old(self)@.ram, old(self)@.i_reg as int, vals@));
        }
    }

    /// Load the first `num_regs` registers from memory at the index
    /// register onward.
    pub fn load_from_i(&mut self, num_regs: u8)
        requires
            old(self).wf(),
            num_regs <= 16,
            old(self)@.i_reg + num_regs <= MEM_SIZE,
        ensures
            final(self).wf(),
            final(self)@ == (MachineV {
                regs: load_regs(
                    old(self)@.regs,
                    old(self)@.ram,
                    old(self)@.i_reg as int,
                    num_regs as int - 1,
                ),
                ..old(self)@
            }),
    {
        let curr_index: u16 = self.get_index_reg();
        let mut i: u8 = 0;
        while i < num_regs
            invariant
                old(self).wf(),
                i <= num_regs,
                num_regs <= 16,
                curr_index == old(self)@.i_reg,
                curr_index + num_regs <= MEM_SIZE,
                self.state.v_regs@.len() == 16,
                self.state.pc == old(self).state.pc,
                self.state.i_reg == old(self).state.i_reg,
                self.ram == old(self).ram,
                self.stack == old(self).stack,
                self.display == old(self).display,
                self.key_input == old(self).key_input,
                self.delay_timer == old(self).delay_timer,
                self.sound_timer == old(self).sound_timer,
                forall|t: int| 0 <= t < i ==> self.state.v_regs@[t] == self.ram@[curr_index + t],
                forall|t: int|
                    i <= t < 16 ==> (#[trigger] self.state.v_regs@[t]) == old(self).state.v_regs@[t],
            decreases num_regs - i,
        {
            let end = curr_index + (i as u16);
            self.state.v_regs[i as usize] = self.ram[end as usize];
            i = i + 1;
        }
        proof {
            assert(self.state.v_regs@ =~= load_regs(
                old(self)@.regs,
                old(self)@.ram,
                old(self)@.i_reg as int,
                num_regs as int - 1,
            ));
        }
    }

    /// The first `range` registers, in order.
    pub fn get_regs_in_range(&self, range: u8) -> (vals: Vec<u8>)
        requires
            self.wf(),
            range <= 16,
        ensures
            vals@ == self@.regs.subrange(0, range as int),
    {
        let mut vals: Vec<u8> = Vec::new();
        let mut k: u8 = 0;
        while k < range
            invariant
                self.wf(),
                k <= range,
                range <= 16,
                vals@.len() == k,
                forall|t: int| 0 <= t < k ==> vals@[t] == self.state.v_regs@[t],
            decreases range - k,
        {
            vals.push(self.state.v_regs[k as usize]);
            k = k + 1;
        }
        proof {
            assert(vals@ =~= self@.regs.subrange(0, range as int));
        }
        vals
    }

    /// The `FX0A` blocking key wait: with a key held its code lands in the
    /// given register; with none held the program counter is rewound so the
    /// interpreter spins on this instruction until a key arrives.
    pub fn block_till_key(&mut self, reg_num: u8)
        requires
            old(self).wf(),
            reg_num < 16,
            old(self)@.key is None ==> old(self)@.pc >= 2,
        ensures
            final(self).wf(),
            final(self)@ == (match old(self)@.key {
                Some(k) => with_reg(old(self)@, reg_num as int, k),
                None => (MachineV { pc: (old(self)@.pc - 2) as u16, ..old(self)@ }),
            }),
    {
        let pressed_key = self.key_input.get_curr_pressed_key();
        if let Some(k) = pressed_key {
            self.set_reg(reg_num, k);
        } else {
            self.decr_pc();
        }
    }

    /// One unit of the driver loop's work: fetch the big-endian instruction
    /// word at the program counter, move the counter past it, tick both
    /// timers, then execute the word. Pacing and redrawing stay with the
    /// host; the machine moves exactly as [`crate::model::spec_cycle`] says.
    pub fn cpu_cycle(&mut self) -> (res: Result<(), Chip8Error>)
        requires
            old(self).wf(),
            cycle_enabled(old(self)@),
        ensures
            final(self).wf(),
            first_nib_of(spec_fetch(old(self)@)) == 0xC ==> (exists|r: u8|
                cycle_post(old(self)@, final(self)@, res, r)),
            first_nib_of(spec_fetch(old(self)@)) != 0xC ==> cycle_post(
                old(self)@,
                final(self)@,
                res,
                0,
            ),
    {
        let pc = self.state.pc;
        let hi = self.get_mem_data(pc);
        let lo = self.get_mem_data(pc + 1);
        let h: u16 = hi as u16;
        let l: u16 = lo as u16;
        proof {
            assert((h << 8u16) | l == h * 256 + l) by (bit_vector)
                requires
                    h < 256,
                    l < 256,
            ;
        }
        let curr_instr: u16 = (h << 8u16) | l;
        self.incr_pc();
        self.delay_timer.decr_time_left();
        self.sound_timer.decr_time_left();
        proof {
            assert(self@ == cycle_pre(old(self)@));
            assert(curr_instr == spec_fetch(old(self)@));
        }
        let res = crate::instr::op(curr_instr, self);
        proof {
            if first_nib_of(curr_instr) == 0xC {
                let r = choose|r: u8|
                    crate::model::step_post(curr_instr, cycle_pre(old(self)@), self@, res, r);
                assert(cycle_post(old(self)@, self@, res, r));
            }
        }
        res
    }

    /// Point the index register at the built-in glyph for the low nibble of
    /// the given value.
    pub fn load_char_into_index_reg(&mut self, val: u8)
        requires
            old(self).wf(),
        ensures
            final(self).wf(),
            final(self)@ == (MachineV {
                i_reg: (FONT_BASE + (val % 16) * 5) as u16,
                ..old(self)@
            }),
    {
        let nib: u8 = val & 0x0F;
        proof {
            assert(val & 0x0F == val % 16) by (bit_vector);
        }
        let addr_of_char: u16 = (FONT_BASE as u16) + (nib as u16) * 5;
        self.set_index_reg(addr_of_char);
    }
}

} // verus!
