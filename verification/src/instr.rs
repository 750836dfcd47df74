//! The instruction decoder and executor: a 16-bit instruction word is split
//! into nibble fields, dispatched on its first nibble, and applied to the
//! machine. Each family's executor is proved to implement the step function
//! [`spec_step`] exactly.

use vstd::prelude::*;
use rand::Rng;
use crate::cpu::Chip8;
use crate::model::{
    Chip8Error, MachineV, first_nib_of, second_nib_of, third_nib_of, fourth_nib_of, first_byte_of,
    second_byte_of, addr_of, op_enabled, spec_step, step_post, draw_fb, draw_collides,
    draw_touches, sprite_covers, sprite_row_bit, toggle, MEM_SIZE,
};
use crate::utils::extract_digits_u8;

verus! {

// ---------------------------------------------------------------------------
// Field extraction helpers. Each is proved against the arithmetic form used
// by the specification.
// ---------------------------------------------------------------------------

pub fn first_nib(opcode: &u16) -> (r: u16)
    ensures
        r == first_nib_of(*opcode),
        r < 16,
{
    let o: u16 = *opcode;
    proof {
        assert((o & 0xF000) >> 12 == o / 0x1000 && o / 0x1000 < 16) by (bit_vector);
    }
    (o & 0xF000) >> 12
}

pub fn second_nib(opcode: &u16) -> (r: u16)
    ensures
        r == second_nib_of(*opcode),
        r < 16,
{
    let o: u16 = *opcode;
    proof {
        assert((o & 0x0F00) >> 8 == (o / 0x100) % 0x10 && (o / 0x100) % 0x10 < 16) by (bit_vector);
    }
    (o & 0x0F00) >> 8
}

pub fn third_nib(opcode: &u16) -> (r: u16)
    ensures
        r == third_nib_of(*opcode),
        r < 16,
{
    let o: u16 = *opcode;
    proof {
        assert((o & 0x00F0) >> 4 == (o / 0x10) % 0x10 && (o / 0x10) % 0x10 < 16) by (bit_vector);
    }
    (o & 0x00F0) >> 4
}

pub fn fourth_nib(opcode: &u16) -> (r: u16)
    ensures
        r == fourth_nib_of(*opcode),
        r < 16,
{
    let o: u16 = *opcode;
    proof {
        assert(o & 0x000F == o % 0x10 && o % 0x10 < 16) by (bit_vector);
    }
    o & 0x000F
}

pub fn first_byte(opcode: &u16) -> (r: u16)
    ensures
        r == first_byte_of(*opcode),
        r < 256,
{
    let o: u16 = *opcode;
    proof {
        assert((o & 0xFF00) >> 8 == o / 0x100 && o / 0x100 < 256) by (bit_vector);
    }
    (o & 0xFF00) >> 8
}

pub fn second_byte(opcode: &u16) -> (r: u16)
    ensures
        r == second_byte_of(*opcode),
        r < 256,
{
    let o: u16 = *opcode;
    proof {
        assert(o & 0x00FF == o % 0x100 && o % 0x100 < 256) by (bit_vector);
    }
    o & 0x00FF
}

pub fn addr_bits(opcode: &u16) -> (r: u16)
    ensures
        r == addr_of(*opcode),
        r < 0x1000,
{
    let o: u16 = *opcode;
    proof {
        assert(o & 0x0FFF == o % 0x1000 && o % 0x1000 < 0x1000) by (bit_vector);
    }
    o & 0x0FFF
}

pub fn least_significant_bit(byte: &u8) -> (r: u8)
    ensures
        r == *byte & 1,
{
    *byte & 1
}

pub fn most_significant_bit(byte: &u8) -> (r: u8)
    ensures
        r == (*byte & 0x80) >> 7u8,
{
    (*byte & 0b10000000) >> 7u8
}

// ---------------------------------------------------------------------------
// The one value the instruction set takes from outside the machine.
// ---------------------------------------------------------------------------

/// Relies on rand's `Rng::gen` on `rand::thread_rng()`: a uniformly
/// distributed random byte. Nothing is assumed of the result; the caller
/// states what holds of every outcome.
#[verifier::external_body]
fn random_byte() -> u8 {
    rand::thread_rng().gen()
}

// ---------------------------------------------------------------------------
// The per-family executors. Each requires its own leading nibble and the
// enabling conditions, and moves the machine exactly as the step function
// says.
// ---------------------------------------------------------------------------

fn op_0(opcode: u16, chip8: &mut Chip8) -> (res: Result<(), Chip8Error>)
    requires
        old(chip8).wf(),
        op_enabled(opcode, old(chip8)@),
        first_nib_of(opcode) == 0x0,
    ensures
        final(chip8).wf(),
        step_post(opcode, old(chip8)@, final(chip8)@, res, 0),
{
    let instr = second_byte(&opcode);
    if instr == 0xE0 {
        // clear screen
        chip8.display.clear_display();
        Ok(())
    } else if instr == 0xEE {
        // subroutine return
        if chip8.stack.is_empty() {
            Err(Chip8Error::StackUnderflow)
        } else {
            let ret_addr = chip8.stack_pop();
            chip8.set_pc(ret_addr);
            Ok(())
        }
    } else {
        Err(Chip8Error::InvalidOpcode(opcode))
    }
}

fn op_1(opcode: u16, chip8: &mut Chip8) -> (res: Result<(), Chip8Error>)
    requires
        old(chip8).wf(),
        op_enabled(opcode, old(chip8)@),
        first_nib_of(opcode) == 0x1,
    ensures
        final(chip8).wf(),
        step_post(opcode, old(chip8)@, final(chip8)@, res, 0),
{
    let addr = addr_bits(&opcode);
    chip8.set_pc(addr);
    Ok(())
}

fn op_2(opcode: u16, chip8: &mut Chip8) -> (res: Result<(), Chip8Error>)
    requires
        old(chip8).wf(),
        op_enabled(opcode, old(chip8)@),
        first_nib_of(opcode) == 0x2,
    ensures
        final(chip8).wf(),
        step_post(opcode, old(chip8)@, final(chip8)@, res, 0),
{
    let addr = addr_bits(&opcode);
    chip8.stack_push_pc();
    chip8.set_pc(addr);
    Ok(())
}

fn op_3(opcode: u16, chip8: &mut Chip8) -> (res: Result<(), Chip8Error>)
    requires
        old(chip8).wf(),
        op_enabled(opcode, old(chip8)@),
        first_nib_of(opcode) == 0x3,
    ensures
        final(chip8).wf(),
        step_post(opcode, old(chip8)@, final(chip8)@, res, 0),
{
    let reg_num = second_nib(&opcode) as u8;
    let nn = second_byte(&opcode) as u8;
    let val = chip8.get_reg(reg_num);
    if val == nn {
        chip8.incr_pc();
    }
    Ok(())
}

fn op_4(opcode: u16, chip8: &mut Chip8) -> (res: Result<(), Chip8Error>)
    requires
        old(chip8).wf(),
        op_enabled(opcode, old(chip8)@),
        first_nib_of(opcode) == 0x4,
    ensures
        final(chip8).wf(),
        step_post(opcode, old(chip8)@, final(chip8)@, res, 0),
{
    let reg_num = second_nib(&opcode) as u8;
    let nn = second_byte(&opcode) as u8;
    let val = chip8.get_reg(reg_num);
    if val != nn {
        chip8.incr_pc();
    }
    Ok(())
}

fn op_5(opcode: u16, chip8: &mut Chip8) -> (res: Result<(), Chip8Error>)
    requires
        old(chip8).wf(),
        op_enabled(opcode, old(chip8)@),
        first_nib_of(opcode) == 0x5,
    ensures
        final(chip8).wf(),
        step_post(opcode, old(chip8)@, final(chip8)@, res, 0),
{
    if fourth_nib(&opcode) != 0 {
        return Err(Chip8Error::InvalidOpcode(opcode));
    }
    let reg_x = second_nib(&opcode) as u8;
    let reg_y = third_nib(&opcode) as u8;
    let x = chip8.get_reg(reg_x);
    let y = chip8.get_reg(reg_y);
    if x == y {
        chip8.incr_pc();
    }
    Ok(())
}

fn op_6(opcode: u16, chip8: &mut Chip8) -> (res: Result<(), Chip8Error>)
    requires
        old(chip8).wf(),
        op_enabled(opcode, old(chip8)@),
        first_nib_of(opcode) == 0x6,
    ensures
        final(chip8).wf(),
        step_post(opcode, old(chip8)@, final(chip8)@, res, 0),
{
    let reg_num = second_nib(&opcode) as u8;
    let val = second_byte(&opcode) as u8;
    chip8.set_reg(reg_num, val);
    Ok(())
}

fn op_7(opcode: u16, chip8: &mut Chip8) -> (res: Result<(), Chip8Error>)
    requires
        old(chip8).wf(),
        op_enabled(opcode, old(chip8)@),
        first_nib_of(opcode) == 0x7,
    ensures
        final(chip8).wf(),
        step_post(opcode, old(chip8)@, final(chip8)@, res, 0),
{
    let reg_num = second_nib(&opcode) as u8;
    let val = second_byte(&opcode) as u8;
    let reg_val = chip8.get_reg(reg_num);
    let sum = reg_val.wrapping_add(val);
    chip8.set_reg(reg_num, sum);
    Ok(())
}

fn op_8(opcode: u16, chip8: &mut Chip8) -> (res: Result<(), Chip8Error>)
    requires
        old(chip8).wf(),
        op_enabled(opcode, old(chip8)@),
        first_nib_of(opcode) == 0x8,
    ensures
        final(chip8).wf(),
        step_post(opcode, old(chip8)@, final(chip8)@, res, 0),
{
    let reg_x = second_nib(&opcode) as u8;
    let reg_y = third_nib(&opcode) as u8;
    let x = chip8.get_reg(reg_x);
    let y = chip8.get_reg(reg_y);

    match fourth_nib(&opcode) as u8 {
        0 => {
            chip8.set_reg(reg_x, y);
            Ok(())
        },
        1 => {
            chip8.set_reg(reg_x, x | y);
            Ok(())
        },
        2 => {
            chip8.set_reg(reg_x, x & y);
            Ok(())
        },
        3 => {
            chip8.set_reg(reg_x, x ^ y);
            Ok(())
        },
        4 => {
            // 9-bit intermediate sum; the flag register takes the carry and
            // is written after the result.
            let sum: u16 = x as u16 + y as u16;
            if sum > 255 {
                chip8.set_reg(reg_x, (sum % 256) as u8);
                chip8.set_reg(0xF, 1);
            } else {
                chip8.set_reg(reg_x, sum as u8);
                chip8.set_reg(0xF, 0);
            }
            Ok(())
        },
        5 => {
            // the flag register takes "no borrow" before the result lands
            let flag: u8 = if x < y {
                0
            } else {
                1
            };
            chip8.set_reg(0xF, flag);
            chip8.set_reg(reg_x, x.wrapping_sub(y));
            Ok(())
        },
        6 => {
            let lsb = least_significant_bit(&x);
            chip8.set_reg(0xF, lsb);
            chip8.set_reg(reg_x, x >> 1u8);
            Ok(())
        },
        7 => {
            let flag: u8 = if y < x {
                0
            } else {
                1
            };
            chip8.set_reg(0xF, flag);
            chip8.set_reg(reg_x, y.wrapping_sub(x));
            Ok(())
        },
        0xe => {
            let msb = most_significant_bit(&x);
            chip8.set_reg(0xF, msb);
            chip8.set_reg(reg_x, x << 1u8);
            Ok(())
        },
        _ => Err(Chip8Error::InvalidOpcode(opcode)),
    }
}

// ---------------------------------------------------------------------------
// Sprite drawing. The draw runs row by row and bit by bit; the spec
// functions below describe the framebuffer, collision and dirty state after
// a prefix of that walk has been applied: all rows before `rd` whole, and
// of row `rd` only the bits before `bd`.
// ---------------------------------------------------------------------------

spec fn covers_before(
    ram: Seq<u8>,
    i0: int,
    x0: int,
    y0: int,
    n: int,
    rd: int,
    bd: int,
    r: int,
    c: int,
) -> bool {
    &&& sprite_covers(ram, i0, x0, y0, n, r, c)
    &&& (r - y0 < rd || (r - y0 == rd && c - x0 < bd))
}

spec fn draw_fb_before(
    fb: Seq<Seq<u8>>,
    ram: Seq<u8>,
    i0: int,
    x0: int,
    y0: int,
    n: int,
    rd: int,
    bd: int,
) -> Seq<Seq<u8>> {
    Seq::new(
        fb.len(),
        |r: int|
            Seq::new(
                fb[r].len(),
                |c: int|
                    if covers_before(ram, i0, x0, y0, n, rd, bd, r, c) {
                        toggle(fb[r][c])
                    } else {
                        fb[r][c]
                    },
            ),
    )
}

spec fn collides_before(
    fb: Seq<Seq<u8>>,
    ram: Seq<u8>,
    i0: int,
    x0: int,
    y0: int,
    n: int,
    rd: int,
    bd: int,
) -> bool {
    exists|r: int, c: int|
        0 <= r < fb.len() && 0 <= c < fb[r].len() && #[trigger] covers_before(
            ram,
            i0,
            x0,
            y0,
            n,
            rd,
            bd,
            r,
            c,
        ) && fb[r][c] == 1
}

spec fn touches_before(
    fb: Seq<Seq<u8>>,
    ram: Seq<u8>,
    i0: int,
    x0: int,
    y0: int,
    n: int,
    rd: int,
    bd: int,
) -> bool {
    exists|r: int, c: int|
        0 <= r < fb.len() && 0 <= c < fb[r].len() && #[trigger] covers_before(
            ram,
            i0,
            x0,
            y0,
            n,
            rd,
            bd,
            r,
            c,
        )
}

/// Nothing of the sprite has been applied at cutoff (0, 0).
proof fn lemma_draw_start(fb: Seq<Seq<u8>>, ram: Seq<u8>, i0: int, x0: int, y0: int, n: int)
    ensures
        draw_fb_before(fb, ram, i0, x0, y0, n, 0, 0) == fb,
        !collides_before(fb, ram, i0, x0, y0, n, 0, 0),
        !touches_before(fb, ram, i0, x0, y0, n, 0, 0),
{
    assert forall|r: int| 0 <= r < fb.len() implies draw_fb_before(fb, ram, i0, x0, y0, n, 0, 0)[r]
        =~= fb[r] by {}
    assert(draw_fb_before(fb, ram, i0, x0, y0, n, 0, 0) =~~= fb);
    if touches_before(fb, ram, i0, x0, y0, n, 0, 0) {
        let (r, c) = choose|r: int, c: int|
            0 <= r < fb.len() && 0 <= c < fb[r].len() && #[trigger] covers_before(
                ram,
                i0,
                x0,
                y0,
                n,
                0,
                0,
                r,
                c,
            );
        assert(false);
    }
    if collides_before(fb, ram, i0, x0, y0, n, 0, 0) {
        let (r, c) = choose|r: int, c: int|
            0 <= r < fb.len() && 0 <= c < fb[r].len() && #[trigger] covers_before(
                ram,
                i0,
                x0,
                y0,
                n,
                0,
                0,
                r,
                c,
            ) && fb[r][c] == 1;
        assert(false);
    }
}

/// Moving the bit cutoff one to the right brings in exactly the position
/// (`y0 + i`, `x0 + j`), when the sprite covers it.
proof fn lemma_bit_step(
    fb: Seq<Seq<u8>>,
    ram: Seq<u8>,
    i0: int,
    x0: int,
    y0: int,
    n: int,
    i: int,
    j: int,
)
    requires
        0 <= i,
        0 <= j,
    ensures
        collides_before(fb, ram, i0, x0, y0, n, i, j + 1) == (collides_before(
            fb,
            ram,
            i0,
            x0,
            y0,
            n,
            i,
            j,
        ) || (0 <= y0 + i < fb.len() && 0 <= x0 + j < fb[y0 + i].len() && sprite_covers(
            ram,
            i0,
            x0,
            y0,
            n,
            y0 + i,
            x0 + j,
        ) && fb[y0 + i][x0 + j] == 1)),
        touches_before(fb, ram, i0, x0, y0, n, i, j + 1) == (touches_before(
            fb,
            ram,
            i0,
            x0,
            y0,
            n,
            i,
            j,
        ) || (0 <= y0 + i < fb.len() && 0 <= x0 + j < fb[y0 + i].len() && sprite_covers(
            ram,
            i0,
            x0,
            y0,
            n,
            y0 + i,
            x0 + j,
        ))),
{
    if collides_before(fb, ram, i0, x0, y0, n, i, j + 1) {
        let (r, c) = choose|r: int, c: int|
            0 <= r < fb.len() && 0 <= c < fb[r].len() && #[trigger] covers_before(
                ram,
                i0,
                x0,
                y0,
                n,
                i,
                j + 1,
                r,
                c,
            ) && fb[r][c] == 1;
        if r == y0 + i && c == x0 + j {
        } else {
            assert(covers_before(ram, i0, x0, y0, n, i, j, r, c));
        }
    }
    if collides_before(fb, ram, i0, x0, y0, n, i, j) {
        let (r, c) = choose|r: int, c: int|
            0 <= r < fb.len() && 0 <= c < fb[r].len() && #[trigger] covers_before(
                ram,
                i0,
                x0,
                y0,
                n,
                i,
                j,
                r,
                c,
            ) && fb[r][c] == 1;
        assert(covers_before(ram, i0, x0, y0, n, i, j + 1, r, c));
    }
    if 0 <= y0 + i < fb.len() && 0 <= x0 + j < fb[y0 + i].len() && sprite_covers(
        ram,
        i0,
        x0,
        y0,
        n,
        y0 + i,
        x0 + j,
    ) {
        assert(covers_before(ram, i0, x0, y0, n, i, j + 1, y0 + i, x0 + j));
    }
    if touches_before(fb, ram, i0, x0, y0, n, i, j + 1) {
        let (r, c) = choose|r: int, c: int|
            0 <= r < fb.len() && 0 <= c < fb[r].len() && #[trigger] covers_before(
                ram,
                i0,
                x0,
                y0,
                n,
                i,
                j + 1,
                r,
                c,
            );
        if r == y0 + i && c == x0 + j {
        } else {
            assert(covers_before(ram, i0, x0, y0, n, i, j, r, c));
        }
    }
    if touches_before(fb, ram, i0, x0, y0, n, i, j) {
        let (r, c) = choose|r: int, c: int|
            0 <= r < fb.len() && 0 <= c < fb[r].len() && #[trigger] covers_before(
                ram,
                i0,
                x0,
                y0,
                n,
                i,
                j,
                r,
                c,
            );
        assert(covers_before(ram, i0, x0, y0, n, i, j + 1, r, c));
    }
}

/// Two cutoffs that admit exactly the same in-bounds positions describe the
/// same draw state.
proof fn lemma_cutoff_same(
    fb: Seq<Seq<u8>>,
    ram: Seq<u8>,
    i0: int,
    x0: int,
    y0: int,
    n: int,
    rd1: int,
    bd1: int,
    rd2: int,
    bd2: int,
)
    requires
        forall|r: int, c: int|
            0 <= r < fb.len() && 0 <= c < fb[r].len() ==> covers_before(
                ram,
                i0,
                x0,
                y0,
                n,
                rd1,
                bd1,
                r,
                c,
            ) == covers_before(ram, i0, x0, y0, n, rd2, bd2, r, c),
    ensures
        draw_fb_before(fb, ram, i0, x0, y0, n, rd1, bd1) == draw_fb_before(
            fb,
            ram,
            i0,
            x0,
            y0,
            n,
            rd2,
            bd2,
        ),
        collides_before(fb, ram, i0, x0, y0, n, rd1, bd1) == collides_before(
            fb,
            ram,
            i0,
            x0,
            y0,
            n,
            rd2,
            bd2,
        ),
        touches_before(fb, ram, i0, x0, y0, n, rd1, bd1) == touches_before(
            fb,
            ram,
            i0,
            x0,
            y0,
            n,
            rd2,
            bd2,
        ),
{
    assert forall|r: int| 0 <= r < fb.len() implies draw_fb_before(
        fb,
        ram,
        i0,
        x0,
        y0,
        n,
        rd1,
        bd1,
    )[r] =~= draw_fb_before(fb, ram, i0, x0, y0, n, rd2, bd2)[r] by {}
    assert(draw_fb_before(fb, ram, i0, x0, y0, n, rd1, bd1) =~~= draw_fb_before(
        fb,
        ram,
        i0,
        x0,
        y0,
        n,
        rd2,
        bd2,
    ));
    if collides_before(fb, ram, i0, x0, y0, n, rd1, bd1) {
        let (r, c) = choose|r: int, c: int|
            0 <= r < fb.len() && 0 <= c < fb[r].len() && #[trigger] covers_before(
                ram,
                i0,
                x0,
                y0,
                n,
                rd1,
                bd1,
                r,
                c,
            ) && fb[r][c] == 1;
        assert(covers_before(ram, i0, x0, y0, n, rd2, bd2, r, c));
    }
    if collides_before(fb, ram, i0, x0, y0, n, rd2, bd2) {
        let (r, c) = choose|r: int, c: int|
            0 <= r < fb.len() && 0 <= c < fb[r].len() && #[trigger] covers_before(
                ram,
                i0,
                x0,
                y0,
                n,
                rd2,
                bd2,
                r,
                c,
            ) && fb[r][c] == 1;
        assert(covers_before(ram, i0, x0, y0, n, rd1, bd1, r, c));
    }
    if touches_before(fb, ram, i0, x0, y0, n, rd1, bd1) {
        let (r, c) = choose|r: int, c: int|
            0 <= r < fb.len() && 0 <= c < fb[r].len() && #[trigger] covers_before(
                ram,
                i0,
                x0,
                y0,
                n,
                rd1,
                bd1,
                r,
                c,
            );
        assert(covers_before(ram, i0, x0, y0, n, rd2, bd2, r, c));
    }
    if touches_before(fb, ram, i0, x0, y0, n, rd2, bd2) {
        let (r, c) = choose|r: int, c: int|
            0 <= r < fb.len() && 0 <= c < fb[r].len() && #[trigger] covers_before(
                ram,
                i0,
                x0,
                y0,
                n,
                rd2,
                bd2,
                r,
                c,
            );
        assert(covers_before(ram, i0, x0, y0, n, rd1, bd1, r, c));
    }
}

/// The cutoff past the last row is the whole draw.
proof fn lemma_draw_done(
    fb: Seq<Seq<u8>>,
    ram: Seq<u8>,
    i0: int,
    x0: int,
    y0: int,
    n: int,
    rd: int,
)
    requires
        rd >= n || (fb.len() == y0 + rd),
    ensures
        draw_fb_before(fb, ram, i0, x0, y0, n, rd, 0) == draw_fb(fb, ram, i0, x0, y0, n),
        collides_before(fb, ram, i0, x0, y0, n, rd, 0) == draw_collides(fb, ram, i0, x0, y0, n),
        touches_before(fb, ram, i0, x0, y0, n, rd, 0) == draw_touches(fb, ram, i0, x0, y0, n),
{
    assert forall|r: int| 0 <= r < fb.len() implies draw_fb_before(
        fb,
        ram,
        i0,
        x0,
        y0,
        n,
        rd,
        0,
    )[r] =~= draw_fb(fb, ram, i0, x0, y0, n)[r] by {}
    assert(draw_fb_before(fb, ram, i0, x0, y0, n, rd, 0) =~~= draw_fb(fb, ram, i0, x0, y0, n));
    if collides_before(fb, ram, i0, x0, y0, n, rd, 0) {
        let (r, c) = choose|r: int, c: int|
            0 <= r < fb.len() && 0 <= c < fb[r].len() && #[trigger] covers_before(
                ram,
                i0,
                x0,
                y0,
                n,
                rd,
                0,
                r,
                c,
            ) && fb[r][c] == 1;
        assert(sprite_covers(ram, i0, x0, y0, n, r, c));
    }
    if draw_collides(fb, ram, i0, x0, y0, n) {
        let (r, c) = choose|r: int, c: int|
            0 <= r < fb.len() && 0 <= c < fb[r].len() && #[trigger] sprite_covers(
                ram,
                i0,
                x0,
                y0,
                n,
                r,
                c,
            ) && fb[r][c] == 1;
        assert(covers_before(ram, i0, x0, y0, n, rd, 0, r, c));
    }
    if touches_before(fb, ram, i0, x0, y0, n, rd, 0) {
        let (r, c) = choose|r: int, c: int|
            0 <= r < fb.len() && 0 <= c < fb[r].len() && #[trigger] covers_before(
                ram,
                i0,
                x0,
                y0,
                n,
                rd,
                0,
                r,
                c,
            );
        assert(sprite_covers(ram, i0, x0, y0, n, r, c));
    }
    if draw_touches(fb, ram, i0, x0, y0, n) {
        let (r, c) = choose|r: int, c: int|
            0 <= r < fb.len() && 0 <= c < fb[r].len() && #[trigger] sprite_covers(
                ram,
                i0,
                x0,
                y0,
                n,
                r,
                c,
            );
        assert(covers_before(ram, i0, x0, y0, n, rd, 0, r, c));
    }
}

fn op_d(opcode: u16, chip8: &mut Chip8) -> (res: Result<(), Chip8Error>)
    requires
        old(chip8).wf(),
        op_enabled(opcode, old(chip8)@),
        first_nib_of(opcode) == 0xD,
    ensures
        final(chip8).wf(),
        step_post(opcode, old(chip8)@, final(chip8)@, res, 0),
{
    let ghost m0 = old(chip8)@;
    let x_reg = second_nib(&opcode) as u8;
    let y_reg = third_nib(&opcode) as u8;
    let n = fourth_nib(&opcode) as usize;
    let num_rows: usize = chip8.display.num_rows;
    let num_cols: usize = chip8.display.num_cols;
    let vx = chip8.get_reg(x_reg);
    let vy = chip8.get_reg(y_reg);
    let x_start: usize = (vx as usize) % num_cols;
    let y_start: usize = (vy as usize) % num_rows;
    chip8.set_reg(0xF, 0);
    let i_reg = chip8.get_index_reg();

    let ghost i0 = m0.i_reg as int;
    let ghost x0 = x_start as int;
    let ghost y0 = y_start as int;
    let ghost nn = n as int;
    let ghost fb0 = m0.fb;
    let ghost ram0 = m0.ram;

    proof {
        lemma_draw_start(fb0, ram0, i0, x0, y0, nn);
        assert(chip8@.regs =~= m0.regs.update(15, 0u8));
    }

    let mut i: usize = 0;
    let mut y: usize = y_start;
    while i < n && y < num_rows
        invariant
            old(chip8).wf(),
            m0 == old(chip8)@,
            i0 == m0.i_reg as int,
            fb0 == m0.fb,
            ram0 == m0.ram,
            nn == n as int,
            x0 == x_start as int,
            y0 == y_start as int,
            n < 16,
            i0 + nn <= MEM_SIZE,
            num_rows == m0.rows,
            num_cols == m0.cols,
            x_start < num_cols,
            y_start < num_rows,
            i <= n,
            y == y_start + i,
            y <= num_rows,
            i_reg == m0.i_reg,
            chip8.wf(),
            chip8@ == (MachineV {
                regs: m0.regs.update(15, if collides_before(fb0, ram0, i0, x0, y0, nn, i as int, 0) {
                    1u8
                } else {
                    0u8
                }),
                fb: draw_fb_before(fb0, ram0, i0, x0, y0, nn, i as int, 0),
                dirty: m0.dirty || touches_before(fb0, ram0, i0, x0, y0, nn, i as int, 0),
                ..m0
            }),
        decreases n - i,
    {
        let sprite_data: u8 = chip8.get_mem_data(i_reg + i as u16);
        proof {
            assert(sprite_data == ram0[i0 + i as int]);
        }
        let mut x: usize = x_start;
        let mut j: usize = 0;
        while j < 8 && x < num_cols
            invariant
                old(chip8).wf(),
                m0 == old(chip8)@,
                i0 == m0.i_reg as int,
                fb0 == m0.fb,
                ram0 == m0.ram,
                nn == n as int,
                x0 == x_start as int,
                y0 == y_start as int,
                n < 16,
                i0 + nn <= MEM_SIZE,
                num_rows == m0.rows,
                num_cols == m0.cols,
                x_start < num_cols,
                y_start < num_rows,
                i < n,
                y == y_start + i,
                y < num_rows,
                j <= 8,
                x == x_start + j,
                sprite_data == ram0[i0 + i as int],
                chip8.wf(),
                chip8@ == (MachineV {
                    regs: m0.regs.update(
                        15,
                        if collides_before(fb0, ram0, i0, x0, y0, nn, i as int, j as int) {
                            1u8
                        } else {
                            0u8
                        },
                    ),
                    fb: draw_fb_before(fb0, ram0, i0, x0, y0, nn, i as int, j as int),
                    dirty: m0.dirty || touches_before(fb0, ram0, i0, x0, y0, nn, i as int, j as int),
                    ..m0
                }),
            decreases 8 - j,
        {
            let ghost pre = chip8@;
            let curr_val = chip8.display.get_display_buffer(y as u8, x as u8);
            let shift: u8 = (7 - j) as u8;
            let curr_bit: u8 = (sprite_data >> shift) & 1;
            proof {
                assert((sprite_data >> shift) & 1 == 0 || (sprite_data >> shift) & 1 == 1)
                    by (bit_vector);
                // the position about to be processed still shows its
                // original pixel
                assert(!covers_before(ram0, i0, x0, y0, nn, i as int, j as int, y as int, x as int));
                assert(curr_val == fb0[y as int][x as int]);
                assert(curr_val == 0 || curr_val == 1);
                assert(curr_val & curr_bit > 0 <==> curr_val == 1 && curr_bit == 1) by (bit_vector)
                    requires
                        curr_val == 0 || curr_val == 1,
                        curr_bit == 0 || curr_bit == 1,
                ;
                assert(curr_bit == 1 <==> sprite_row_bit(sprite_data, j as int));
                lemma_bit_step(fb0, ram0, i0, x0, y0, nn, i as int, j as int);
            }
            if (curr_val & curr_bit) > 0 {
                chip8.display.set_display(y as u8, x as u8, 0);
                chip8.set_reg(0xF, 1);
                proof {
                    assert(sprite_covers(ram0, i0, x0, y0, nn, y as int, x as int));
                    assert(chip8@.regs =~= m0.regs.update(15, 1u8));
                    assert forall|r: int| 0 <= r < fb0.len() implies chip8@.fb[r] =~= draw_fb_before(
                        fb0,
                        ram0,
                        i0,
                        x0,
                        y0,
                        nn,
                        i as int,
                        j + 1,
                    )[r] by {
                        assert forall|c: int| 0 <= c < fb0[r].len() implies chip8@.fb[r][c]
                            == draw_fb_before(fb0, ram0, i0, x0, y0, nn, i as int, j + 1)[r][c] by {
                            if r == y as int && c == x as int {
                            } else {
                                assert(covers_before(ram0, i0, x0, y0, nn, i as int, j + 1, r, c)
                                    == covers_before(ram0, i0, x0, y0, nn, i as int, j as int, r, c));
                            }
                        }
                    }
                    assert(chip8@.fb =~~= draw_fb_before(fb0, ram0, i0, x0, y0, nn, i as int, j + 1));
                }
            } else if curr_bit > 0 && curr_val == 0 {
                chip8.display.set_display(y as u8, x as u8, 1);
                proof {
                    assert(sprite_covers(ram0, i0, x0, y0, nn, y as int, x as int));
                    assert forall|r: int| 0 <= r < fb0.len() implies chip8@.fb[r] =~= draw_fb_before(
                        fb0,
                        ram0,
                        i0,
                        x0,
                        y0,
                        nn,
                        i as int,
                        j + 1,
                    )[r] by {
                        assert forall|c: int| 0 <= c < fb0[r].len() implies chip8@.fb[r][c]
                            == draw_fb_before(fb0, ram0, i0, x0, y0, nn, i as int, j + 1)[r][c] by {
                            if r == y as int && c == x as int {
                            } else {
                                assert(covers_before(ram0, i0, x0, y0, nn, i as int, j + 1, r, c)
                                    == covers_before(ram0, i0, x0, y0, nn, i as int, j as int, r, c));
                            }
                        }
                    }
                    assert(chip8@.fb =~~= draw_fb_before(fb0, ram0, i0, x0, y0, nn, i as int, j + 1));
                }
            } else {
                proof {
                    assert(!sprite_covers(ram0, i0, x0, y0, nn, y as int, x as int));
                    assert forall|r: int| 0 <= r < fb0.len() implies chip8@.fb[r] =~= draw_fb_before(
                        fb0,
                        ram0,
                        i0,
                        x0,
                        y0,
                        nn,
                        i as int,
                        j + 1,
                    )[r] by {
                        assert forall|c: int| 0 <= c < fb0[r].len() implies chip8@.fb[r][c]
                            == draw_fb_before(fb0, ram0, i0, x0, y0, nn, i as int, j + 1)[r][c] by {
                            assert(covers_before(ram0, i0, x0, y0, nn, i as int, j + 1, r, c)
                                == covers_before(ram0, i0, x0, y0, nn, i as int, j as int, r, c));
                        }
                    }
                    assert(chip8@.fb =~~= draw_fb_before(fb0, ram0, i0, x0, y0, nn, i as int, j + 1));
                }
            }
            x = x + 1;
            j = j + 1;
        }
        proof {
            // whether the row ran its eight bits or was clipped at the
            // right edge, its state equals the full-row cutoff
            assert forall|r: int, c: int|
                0 <= r < fb0.len() && 0 <= c < fb0[r].len() implies covers_before(
                ram0,
                i0,
                x0,
                y0,
                nn,
                i as int,
                j as int,
                r,
                c,
            ) == covers_before(ram0, i0, x0, y0, nn, i as int + 1, 0, r, c) by {}
            lemma_cutoff_same(fb0, ram0, i0, x0, y0, nn, i as int, j as int, i as int + 1, 0);
        }
        y = y + 1;
        i = i + 1;
    }
    proof {
        if i < n {
            // clipped at the bottom edge: every in-bounds row is done
            assert(fb0.len() == y0 + i as int);
        }
        lemma_draw_done(fb0, ram0, i0, x0, y0, nn, i as int);
    }
    Ok(())
}

fn op_9(opcode: u16, chip8: &mut Chip8) -> (res: Result<(), Chip8Error>)
    requires
        old(chip8).wf(),
        op_enabled(opcode, old(chip8)@),
        first_nib_of(opcode) == 0x9,
    ensures
        final(chip8).wf(),
        step_post(opcode, old(chip8)@, final(chip8)@, res, 0),
{
    if fourth_nib(&opcode) != 0 {
        return Err(Chip8Error::InvalidOpcode(opcode));
    }
    let reg_x = second_nib(&opcode) as u8;
    let reg_y = third_nib(&opcode) as u8;
    let x = chip8.get_reg(reg_x);
    let y = chip8.get_reg(reg_y);
    if x != y {
        chip8.incr_pc();
    }
    Ok(())
}

fn op_a(opcode: u16, chip8: &mut Chip8) -> (res: Result<(), Chip8Error>)
    requires
        old(chip8).wf(),
        op_enabled(opcode, old(chip8)@),
        first_nib_of(opcode) == 0xA,
    ensures
        final(chip8).wf(),
        step_post(opcode, old(chip8)@, final(chip8)@, res, 0),
{
    let addr = addr_bits(&opcode);
    chip8.set_index_reg(addr);
    Ok(())
}

fn op_b(opcode: u16, chip8: &mut Chip8) -> (res: Result<(), Chip8Error>)
    requires
        old(chip8).wf(),
        op_enabled(opcode, old(chip8)@),
        first_nib_of(opcode) == 0xB,
    ensures
        final(chip8).wf(),
        step_post(opcode, old(chip8)@, final(chip8)@, res, 0),
{
    let addr = addr_bits(&opcode);
    let v0 = chip8.get_reg(0x0) as u16;
    chip8.set_pc(v0 + addr);
    Ok(())
}

fn op_c(opcode: u16, chip8: &mut Chip8) -> (res: Result<(), Chip8Error>)
    requires
        old(chip8).wf(),
        op_enabled(opcode, old(chip8)@),
        first_nib_of(opcode) == 0xC,
    ensures
        final(chip8).wf(),
        exists|r: u8| step_post(opcode, old(chip8)@, final(chip8)@, res, r),
{
    let r: u8 = random_byte();
    let reg_x = second_nib(&opcode) as u8;
    let nn = second_byte(&opcode) as u8;
    chip8.set_reg(reg_x, r & nn);
    proof {
        assert(step_post(opcode, old(chip8)@, chip8@, Ok::<(), Chip8Error>(()), r));
    }
    Ok(())
}

fn op_e(opcode: u16, chip8: &mut Chip8) -> (res: Result<(), Chip8Error>)
    requires
        old(chip8).wf(),
        op_enabled(opcode, old(chip8)@),
        first_nib_of(opcode) == 0xE,
    ensures
        final(chip8).wf(),
        step_post(opcode, old(chip8)@, final(chip8)@, res, 0),
{
    let reg_num = second_nib(&opcode) as u8;
    let sb = second_byte(&opcode);
    if sb == 0x9e {
        chip8.skip_if_key(reg_num, true);
        Ok(())
    } else if sb == 0xa1 {
        chip8.skip_if_key(reg_num, false);
        Ok(())
    } else {
        Err(Chip8Error::InvalidOpcode(opcode))
    }
}

fn op_f(opcode: u16, chip8: &mut Chip8) -> (res: Result<(), Chip8Error>)
    requires
        old(chip8).wf(),
        op_enabled(opcode, old(chip8)@),
        first_nib_of(opcode) == 0xF,
    ensures
        final(chip8).wf(),
        step_post(opcode, old(chip8)@, final(chip8)@, res, 0),
{
    let reg_num = second_nib(&opcode) as u8;
    let reg_val = chip8.get_reg(reg_num);
    let sb = second_byte(&opcode);
    if sb == 0x07 {
        // VX = delay timer
        let t = chip8.delay_timer.get_time_left();
        chip8.set_reg(reg_num, t as u8);
        Ok(())
    } else if sb == 0x15 {
        chip8.delay_timer.set_time_left(reg_val as usize);
        Ok(())
    } else if sb == 0x18 {
        chip8.sound_timer.set_time_left(reg_val as usize);
        Ok(())
    } else if sb == 0x1e {
        // I += VX, a 16-bit add with no flag
        let i_reg_val = chip8.get_index_reg();
        let res16 = i_reg_val.wrapping_add(reg_val as u16);
        chip8.set_index_reg(res16);
        Ok(())
    } else if sb == 0x0a {
        chip8.block_till_key(reg_num);
        Ok(())
    } else if sb == 0x29 {
        chip8.load_char_into_index_reg(reg_val);
        Ok(())
    } else if sb == 0x33 {
        // binary-coded decimal: the digits of VX land at I onward
        let digits = extract_digits_u8(reg_val);
        chip8.store_from_i(digits);
        Ok(())
    } else if sb == 0x55 {
        // store V0..=VX
        let vals = chip8.get_regs_in_range(reg_num + 1);
        chip8.store_from_i(vals);
        Ok(())
    } else if sb == 0x65 {
        // load V0..=VX
        chip8.load_from_i(reg_num + 1);
        Ok(())
    } else {
        Err(Chip8Error::InvalidOpcode(opcode))
    }
}

/// Decode and execute one instruction word against the machine. On success
/// the machine has moved exactly as [`spec_step`] says; on an error —
/// an unrecognized pattern or a return on an empty stack — the machine is
/// untouched and the error says what was wrong. Only the `CXNN` family
/// consults a random byte, so every other instruction's effect is pinned
/// down deterministically.
pub fn op(opcode: u16, chip8: &mut Chip8) -> (res: Result<(), Chip8Error>)
    requires
        old(chip8).wf(),
        op_enabled(opcode, old(chip8)@),
    ensures
        final(chip8).wf(),
        first_nib_of(opcode) == 0xC ==> (exists|r: u8|
            step_post(opcode, old(chip8)@, final(chip8)@, res, r)),
        first_nib_of(opcode) != 0xC ==> step_post(opcode, old(chip8)@, final(chip8)@, res, 0),
{
    let first_nibble = first_nib(&opcode);
    match first_nibble {
        0x0 => op_0(opcode, chip8),
        0x1 => op_1(opcode, chip8),
        0x2 => op_2(opcode, chip8),
        0x3 => op_3(opcode, chip8),
        0x4 => op_4(opcode, chip8),
        0x5 => op_5(opcode, chip8),
        0x6 => op_6(opcode, chip8),
        0x7 => op_7(opcode, chip8),
        0x8 => op_8(opcode, chip8),
        0x9 => op_9(opcode, chip8),
        0xa => op_a(opcode, chip8),
        0xb => op_b(opcode, chip8),
        0xc => op_c(opcode, chip8),
        0xd => op_d(opcode, chip8),
        0xe => op_e(opcode, chip8),
        0xf => op_f(opcode, chip8),
        _ => {
            proof {
                assert(false);
            }
            Err(Chip8Error::InvalidOpcode(opcode))
        },
    }
}

} // verus!
