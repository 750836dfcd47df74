//! The mathematical model of the machine: a ghost mirror of the interpreter
//! state, spec-level instruction decoding, and [`spec_step`], a pure function
//! giving the exact machine state after one instruction. The executable
//! interpreter in [`crate::instr`] is proved to implement `spec_step`.

use vstd::prelude::*;
use crate::emu_timer::spec_tick;

verus! {

/// The errors the interpreter can surface. All of them are fatal: they mean
/// a malformed program image or a malformed instruction stream, and the run
/// is to be aborted rather than resumed.
#[derive(Clone, Copy, Debug, PartialEq, Eq, Structural)]
pub enum Chip8Error {
    /// An instruction word with no defined meaning; carries the raw word.
    InvalidOpcode(u16),
    /// A subroutine return with an empty call stack.
    StackUnderflow,
    /// A program image longer than the memory left above the load address.
    ProgramTooLarge,
}

/// A ghost snapshot of the whole machine: register file, program counter,
/// index register, memory, call stack, framebuffer grid with its dimensions
/// and dirty flag, the two timers, and the currently held hex key.
#[verifier::ext_equal]
pub ghost struct MachineV {
    pub regs: Seq<u8>,
    pub pc: u16,
    pub i_reg: u16,
    pub ram: Seq<u8>,
    pub stack: Seq<u16>,
    pub rows: usize,
    pub cols: usize,
    pub fb: Seq<Seq<u8>>,
    pub dirty: bool,
    pub delay: usize,
    pub sound: usize,
    pub key: Option<u8>,
}

/// Number of bytes of addressable memory.
pub const MEM_SIZE: usize = 4096;

/// Lowest address at which a program image is placed.
pub const LOAD_BASE: usize = 0x200;

/// Base address of the built-in hex-digit glyphs.
pub const FONT_BASE: usize = 0x50;

impl MachineV {
    /// Well-formedness: sixteen registers, 4096 memory bytes, a framebuffer
    /// of `rows` x `cols` cells each 0 or 1, timers within 8-bit range, and
    /// a held key (if any) already translated to a 4-bit hex code.
    pub open spec fn wf(self) -> bool {
        &&& self.regs.len() == 16
        &&& self.ram.len() == MEM_SIZE
        &&& 1 <= self.rows <= 256
        &&& 1 <= self.cols <= 256
        &&& self.fb.len() == self.rows
        &&& forall|r: int| 0 <= r < self.rows ==> (#[trigger] self.fb[r]).len() == self.cols
        &&& forall|r: int, c: int|
            0 <= r < self.rows && 0 <= c < self.cols ==> (#[trigger] self.fb[r][c]) == 0
                || self.fb[r][c] == 1
        &&& self.delay <= 255
        &&& self.sound <= 255
        &&& match self.key {
            Some(k) => k < 16,
            None => true,
        }
    }
}

// ---------------------------------------------------------------------------
// Instruction word fields. The word splits into four 4-bit nibbles, numbered
// first (most significant) to fourth, and the derived fields: the low byte
// `NN` and the low twelve bits `NNN` (an address).
// ---------------------------------------------------------------------------

pub open spec fn first_nib_of(w: u16) -> u16 {
    w / 0x1000
}

pub open spec fn second_nib_of(w: u16) -> u16 {
    (w / 0x100) % 0x10
}

pub open spec fn third_nib_of(w: u16) -> u16 {
    (w / 0x10) % 0x10
}

pub open spec fn fourth_nib_of(w: u16) -> u16 {
    w % 0x10
}

pub open spec fn first_byte_of(w: u16) -> u16 {
    w / 0x100
}

pub open spec fn second_byte_of(w: u16) -> u16 {
    w % 0x100
}

pub open spec fn addr_of(w: u16) -> u16 {
    w % 0x1000
}

/// The instruction word assembled from four nibble fields.
pub open spec fn word(n1: u16, n2: u16, n3: u16, n4: u16) -> u16 {
    (n1 * 0x1000 + n2 * 0x100 + n3 * 0x10 + n4) as u16
}

/// The instruction word assembled from two nibbles and a low byte.
pub open spec fn word_nn(n1: u16, n2: u16, nn: u16) -> u16 {
    (n1 * 0x1000 + n2 * 0x100 + nn) as u16
}

// ---------------------------------------------------------------------------
// Building blocks of the step function.
// ---------------------------------------------------------------------------

/// The machine with register `i` set to `v`.
pub open spec fn with_reg(m: MachineV, i: int, v: u8) -> MachineV {
    MachineV { regs: m.regs.update(i, v), ..m }
}

/// The machine after skipping one instruction (the program counter moved
/// past the following 2-byte word).
pub open spec fn skip(m: MachineV) -> MachineV {
    MachineV { pc: (m.pc + 2) as u16, ..m }
}

/// An all-off framebuffer of the given dimensions.
pub open spec fn blank_fb(rows: int, cols: int) -> Seq<Seq<u8>> {
    Seq::new(rows as nat, |r: int| Seq::new(cols as nat, |c: int| 0u8))
}

/// Memory with `bytes` written at increasing addresses from `i0`.
pub open spec fn write_ram(ram: Seq<u8>, i0: int, bytes: Seq<u8>) -> Seq<u8> {
    Seq::new(ram.len(), |j: int| if i0 <= j < i0 + bytes.len() {
        bytes[j - i0]
    } else {
        ram[j]
    })
}

/// Registers 0 through `x` inclusive replaced by memory at `i0` onward;
/// the remaining registers kept.
pub open spec fn load_regs(regs: Seq<u8>, ram: Seq<u8>, i0: int, x: int) -> Seq<u8> {
    Seq::new(regs.len(), |k: int| if k <= x {
        ram[i0 + k]
    } else {
        regs[k]
    })
}

/// The decimal digits of a byte, most significant first, with no leading
/// zeroes; zero has no digits at all.
pub open spec fn spec_digits(v: u8) -> Seq<u8> {
    if v == 0 {
        Seq::empty()
    } else if v < 10 {
        seq![v]
    } else if v < 100 {
        seq![v / 10, v % 10]
    } else {
        seq![v / 100, (v / 10) % 10, v % 10]
    }
}

// ---------------------------------------------------------------------------
// Sprite drawing.
// ---------------------------------------------------------------------------

/// Bit `j` of a sprite row byte, counted from the most significant end
/// (`j` ranges over 0..8).
pub open spec fn sprite_row_bit(b: u8, j: int) -> bool {
    (b >> ((7 - j) as u8)) & 1 == 1
}

/// Whether the sprite with base address `i0` in `ram`, drawn with starting
/// column `x0`, starting row `y0` and `n` rows, has a set bit at grid
/// position (`r`, `c`). Positions beyond the grid edge are simply never
/// asked about: the sprite is clipped, not wrapped.
pub open spec fn sprite_covers(
    ram: Seq<u8>,
    i0: int,
    x0: int,
    y0: int,
    n: int,
    r: int,
    c: int,
) -> bool {
    &&& y0 <= r < y0 + n
    &&& x0 <= c < x0 + 8
    &&& sprite_row_bit(ram[i0 + (r - y0)], c - x0)
}

/// A pixel flipped: sprite bits toggle the cells they land on.
pub open spec fn toggle(v: u8) -> u8 {
    if v == 0 {
        1u8
    } else {
        0u8
    }
}

/// The framebuffer after the draw: every in-bounds cell under a set sprite
/// bit is toggled, every other cell is left alone (a zero sprite bit never
/// erases a set pixel).
pub open spec fn draw_fb(
    fb: Seq<Seq<u8>>,
    ram: Seq<u8>,
    i0: int,
    x0: int,
    y0: int,
    n: int,
) -> Seq<Seq<u8>> {
    Seq::new(
        fb.len(),
        |r: int|
            Seq::new(
                fb[r].len(),
                |c: int|
                    if sprite_covers(ram, i0, x0, y0, n, r, c) {
                        toggle(fb[r][c])
                    } else {
                        fb[r][c]
                    },
            ),
    )
}

/// Whether the draw collides: some set sprite bit lands on a cell that is
/// already on.
pub open spec fn draw_collides(
    fb: Seq<Seq<u8>>,
    ram: Seq<u8>,
    i0: int,
    x0: int,
    y0: int,
    n: int,
) -> bool {
    exists|r: int, c: int|
        0 <= r < fb.len() && 0 <= c < fb[r].len() && #[trigger] sprite_covers(
            ram,
            i0,
            x0,
            y0,
            n,
            r,
            c,
        ) && fb[r][c] == 1
}

/// Whether the draw writes any cell at all (used for the dirty flag).
pub open spec fn draw_touches(
    fb: Seq<Seq<u8>>,
    ram: Seq<u8>,
    i0: int,
    x0: int,
    y0: int,
    n: int,
) -> bool {
    exists|r: int, c: int|
        0 <= r < fb.len() && 0 <= c < fb[r].len() && #[trigger] sprite_covers(
            ram,
            i0,
            x0,
            y0,
            n,
            r,
            c,
        )
}

// ---------------------------------------------------------------------------
// The step function: the exact effect of one instruction word on the
// machine. `r` is the random byte drawn for the `CXNN` instruction; every
// other instruction ignores it.
// ---------------------------------------------------------------------------

/// The conditions under which the interpreter may be asked to execute `w`
/// on machine `m`: the bounds the instruction set leaves to the caller
/// (memory windows inside the 4096-byte space, a program counter with room
/// to move). A conformant program never leaves them.
pub open spec fn op_enabled(w: u16, m: MachineV) -> bool {
    let n1 = first_nib_of(w);
    let x = second_nib_of(w) as int;
    let sb = second_byte_of(w);
    let n4 = fourth_nib_of(w) as int;
    &&& m.wf()
    &&& (n1 == 3 || n1 == 4 || n1 == 5 || n1 == 9 || n1 == 0xE) ==> m.pc + 2 <= u16::MAX
    &&& n1 == 0xD ==> m.i_reg + n4 <= MEM_SIZE
    &&& (n1 == 0xF && sb == 0x0A && m.key is None) ==> m.pc >= 2
    &&& (n1 == 0xF && sb == 0x33) ==> m.i_reg + spec_digits(m.regs[x]).len() <= MEM_SIZE
    &&& (n1 == 0xF && sb == 0x55) ==> m.i_reg + x + 1 <= MEM_SIZE
    &&& (n1 == 0xF && sb == 0x65) ==> m.i_reg + x + 1 <= MEM_SIZE
}

pub open spec fn spec_step(w: u16, m: MachineV, r: u8) -> Result<MachineV, Chip8Error> {
    let n1 = first_nib_of(w);
    let x = second_nib_of(w) as int;
    let y = third_nib_of(w) as int;
    let n4 = fourth_nib_of(w);
    let nn = second_byte_of(w) as u8;
    let nnn = addr_of(w);
    let vx = m.regs[x];
    let vy = m.regs[y];
    if n1 == 0x0 {
        if second_byte_of(w) == 0xE0 {
            // 00E0: clear the framebuffer, mark it dirty.
            Ok(MachineV { fb: blank_fb(m.rows as int, m.cols as int), dirty: true, ..m })
        } else if second_byte_of(w) == 0xEE {
            // 00EE: subroutine return.
            if m.stack.len() == 0 {
                Err(Chip8Error::StackUnderflow)
            } else {
                Ok(MachineV { pc: m.stack.last(), stack: m.stack.drop_last(), ..m })
            }
        } else {
            Err(Chip8Error::InvalidOpcode(w))
        }
    } else if n1 == 0x1 {
        // 1NNN: unconditional jump.
        Ok(MachineV { pc: nnn, ..m })
    } else if n1 == 0x2 {
        // 2NNN: subroutine call.
        Ok(MachineV { stack: m.stack.push(m.pc), pc: nnn, ..m })
    } else if n1 == 0x3 {
        // 3XNN: skip next instruction if VX == NN.
        Ok(if vx == nn {
            skip(m)
        } else {
            m
        })
    } else if n1 == 0x4 {
        // 4XNN: skip next instruction if VX != NN.
        Ok(if vx != nn {
            skip(m)
        } else {
            m
        })
    } else if n1 == 0x5 {
        // 5XY0: skip next instruction if VX == VY.
        if n4 == 0 {
            Ok(if vx == vy {
                skip(m)
            } else {
                m
            })
        } else {
            Err(Chip8Error::InvalidOpcode(w))
        }
    } else if n1 == 0x6 {
        // 6XNN: VX = NN.
        Ok(with_reg(m, x, nn))
    } else if n1 == 0x7 {
        // 7XNN: VX += NN, wrapping, no flag.
        Ok(with_reg(m, x, if vx + nn > 255 {
            (vx + nn - 256) as u8
        } else {
            (vx + nn) as u8
        }))
    } else if n1 == 0x8 {
        if n4 == 0 {
            Ok(with_reg(m, x, vy))
        } else if n4 == 1 {
            Ok(with_reg(m, x, vx | vy))
        } else if n4 == 2 {
            Ok(with_reg(m, x, vx & vy))
        } else if n4 == 3 {
            Ok(with_reg(m, x, vx ^ vy))
        } else if n4 == 4 {
            // 8XY4: VX = VX + VY; afterwards the flag register holds the
            // carry, even when X is the flag register itself.
            let sum = with_reg(m, x, if vx + vy > 255 {
                (vx + vy - 256) as u8
            } else {
                (vx + vy) as u8
            });
            Ok(with_reg(sum, 15, if vx + vy > 255 {
                1u8
            } else {
                0u8
            }))
        } else if n4 == 5 {
            // 8XY5: flag = no-borrow, then VX = VX - VY wrapped; the
            // difference wins when X is the flag register.
            let flagged = with_reg(m, 15, if vx < vy {
                0u8
            } else {
                1u8
            });
            Ok(with_reg(flagged, x, if vx - vy < 0 {
                (vx - vy + 256) as u8
            } else {
                (vx - vy) as u8
            }))
        } else if n4 == 6 {
            // 8XY6: flag = least significant bit of VX, then VX >>= 1.
            let flagged = with_reg(m, 15, vx & 1);
            Ok(with_reg(flagged, x, vx >> 1u8))
        } else if n4 == 7 {
            // 8XY7: flag = no-borrow, then VX = VY - VX wrapped.
            let flagged = with_reg(m, 15, if vy < vx {
                0u8
            } else {
                1u8
            });
            Ok(with_reg(flagged, x, if vy - vx < 0 {
                (vy - vx + 256) as u8
            } else {
                (vy - vx) as u8
            }))
        } else if n4 == 0xE {
            // 8XYE: flag = most significant bit of VX, then VX <<= 1.
            let flagged = with_reg(m, 15, (vx & 0x80) >> 7u8);
            Ok(with_reg(flagged, x, vx << 1u8))
        } else {
            Err(Chip8Error::InvalidOpcode(w))
        }
    } else if n1 == 0x9 {
        // 9XY0: skip next instruction if VX != VY.
        if n4 == 0 {
            Ok(if vx != vy {
                skip(m)
            } else {
                m
            })
        } else {
            Err(Chip8Error::InvalidOpcode(w))
        }
    } else if n1 == 0xA {
        // ANNN: I = NNN.
        Ok(MachineV { i_reg: nnn, ..m })
    } else if n1 == 0xB {
        // BNNN: jump to V0 + NNN.
        Ok(MachineV { pc: (m.regs[0] + nnn) as u16, ..m })
    } else if n1 == 0xC {
        // CXNN: VX = random byte masked by NN.
        Ok(with_reg(m, x, r & nn))
    } else if n1 == 0xD {
        // DXYN: sprite draw; see the sprite spec functions above.
        let x0 = (vx as int) % (m.cols as int);
        let y0 = (vy as int) % (m.rows as int);
        let i0 = m.i_reg as int;
        let n = n4 as int;
        Ok(
            MachineV {
                regs: m.regs.update(15, if draw_collides(m.fb, m.ram, i0, x0, y0, n) {
                    1u8
                } else {
                    0u8
                }),
                fb: draw_fb(m.fb, m.ram, i0, x0, y0, n),
                dirty: m.dirty || draw_touches(m.fb, m.ram, i0, x0, y0, n),
                ..m
            },
        )
    } else if n1 == 0xE {
        if second_byte_of(w) == 0x9E {
            // EX9E: skip if the held key equals VX.
            Ok(if m.key == Some(vx) {
                skip(m)
            } else {
                m
            })
        } else if second_byte_of(w) == 0xA1 {
            // EXA1: skip if the held key differs from VX (no key counts).
            Ok(
                if match m.key {
                    Some(k) => k != vx,
                    None => true,
                } {
                    skip(m)
                } else {
                    m
                },
            )
        } else {
            Err(Chip8Error::InvalidOpcode(w))
        }
    } else {
        // n1 == 0xF
        let sb = second_byte_of(w);
        if sb == 0x07 {
            // FX07: VX = delay timer.
            Ok(with_reg(m, x, m.delay as u8))
        } else if sb == 0x15 {
            // FX15: delay timer = VX.
            Ok(MachineV { delay: vx as usize, ..m })
        } else if sb == 0x18 {
            // FX18: sound timer = VX.
            Ok(MachineV { sound: vx as usize, ..m })
        } else if sb == 0x1E {
            // FX1E: I += VX, a 16-bit add with no flag.
            Ok(
                MachineV {
                    i_reg: if m.i_reg + vx > 0xFFFF {
                        (m.i_reg + vx - 0x10000) as u16
                    } else {
                        (m.i_reg + vx) as u16
                    },
                    ..m
                },
            )
        } else if sb == 0x0A {
            // FX0A: blocking key wait. With a key held its code lands in
            // VX; with none held the program counter is rewound so the
            // same instruction is fetched again next cycle.
            match m.key {
                Some(k) => Ok(with_reg(m, x, k)),
                None => Ok(MachineV { pc: (m.pc - 2) as u16, ..m }),
            }
        } else if sb == 0x29 {
            // FX29: I = address of the glyph for the low nibble of VX.
            Ok(MachineV { i_reg: (FONT_BASE + (vx % 16) * 5) as u16, ..m })
        } else if sb == 0x33 {
            // FX33: decimal digits of VX stored at I onward.
            Ok(MachineV { ram: write_ram(m.ram, m.i_reg as int, spec_digits(vx)), ..m })
        } else if sb == 0x55 {
            // FX55: store V0..=VX at I onward.
            Ok(
                MachineV {
                    ram: write_ram(m.ram, m.i_reg as int, m.regs.subrange(0, x + 1)),
                    ..m
                },
            )
        } else if sb == 0x65 {
            // FX65: load V0..=VX from I onward.
            Ok(MachineV { regs: load_regs(m.regs, m.ram, m.i_reg as int, x), ..m })
        } else {
            Err(Chip8Error::InvalidOpcode(w))
        }
    }
}

/// How an executor run relates to the step function: on success the machine
/// moved exactly to the state the step function gives; on an error the step
/// function gives that same error and the machine is untouched.
pub open spec fn step_post(
    w: u16,
    pre: MachineV,
    post: MachineV,
    res: Result<(), Chip8Error>,
    r: u8,
) -> bool {
    match res {
        Ok(u) => spec_step(w, pre, r) == Ok::<MachineV, Chip8Error>(post),
        Err(e) => spec_step(w, pre, r) == Err::<MachineV, Chip8Error>(e) && post == pre,
    }
}

// ---------------------------------------------------------------------------
// One whole machine cycle: fetch, advance, tick, execute.
// ---------------------------------------------------------------------------

/// The big-endian instruction word at the program counter.
pub open spec fn spec_fetch(m: MachineV) -> u16 {
    (m.ram[m.pc as int] * 256 + m.ram[m.pc + 1]) as u16
}

/// The machine after the fetch stage: the program counter past the fetched
/// word and both timers ticked, the instruction not yet executed.
pub open spec fn cycle_pre(m: MachineV) -> MachineV {
    MachineV {
        pc: (m.pc + 2) as u16,
        delay: spec_tick(m.delay),
        sound: spec_tick(m.sound),
        ..m
    }
}

/// The conditions under which a cycle may be run: the fetch must lie in
/// memory and the fetched instruction must be enabled on the post-fetch
/// machine.
pub open spec fn cycle_enabled(m: MachineV) -> bool {
    &&& m.wf()
    &&& m.pc + 1 < MEM_SIZE
    &&& op_enabled(spec_fetch(m), cycle_pre(m))
}

/// The machine after one whole cycle, `r` being the random byte drawn if
/// the fetched instruction asks for one.
pub open spec fn spec_cycle(m: MachineV, r: u8) -> Result<MachineV, Chip8Error> {
    spec_step(spec_fetch(m), cycle_pre(m), r)
}

/// How a driver-loop cycle relates to [`spec_cycle`]: on an error the fetch
/// stage (program counter and timers) has still happened, the instruction's
/// effect has not.
pub open spec fn cycle_post(
    pre: MachineV,
    post: MachineV,
    res: Result<(), Chip8Error>,
    r: u8,
) -> bool {
    match res {
        Ok(u) => spec_cycle(pre, r) == Ok::<MachineV, Chip8Error>(post),
        Err(e) => spec_cycle(pre, r) == Err::<MachineV, Chip8Error>(e) && post == cycle_pre(pre),
    }
}

} // verus!
