//! Machine-wide laws of the instruction set, each proved once and for all
//! over the step function [`spec_step`]: wrap-and-carry addition across a
//! set/set/add sequence, sprite-draw involution, the store/load round trip,
//! and the blocking key wait.

use vstd::prelude::*;
use crate::emu_timer::spec_tick;
use crate::model::{
    MachineV, spec_step, spec_cycle, spec_fetch, word, word_nn, first_nib_of, second_nib_of,
    third_nib_of, fourth_nib_of, second_byte_of, addr_of, sprite_covers, draw_fb, draw_collides,
    toggle, with_reg, MEM_SIZE,
};

verus! {

/// The field values of an instruction word assembled from four nibbles.
pub proof fn lemma_word_fields(n1: u16, n2: u16, n3: u16, n4: u16)
    by (bit_vector)
    requires
        n1 < 16,
        n2 < 16,
        n3 < 16,
        n4 < 16,
    ensures
        first_nib_of(word(n1, n2, n3, n4)) == n1,
        second_nib_of(word(n1, n2, n3, n4)) == n2,
        third_nib_of(word(n1, n2, n3, n4)) == n3,
        fourth_nib_of(word(n1, n2, n3, n4)) == n4,
        second_byte_of(word(n1, n2, n3, n4)) == n3 * 0x10 + n4,
        addr_of(word(n1, n2, n3, n4)) == n2 * 0x100 + n3 * 0x10 + n4,
{
}

/// The field values of an instruction word assembled from two nibbles and a
/// low byte.
pub proof fn lemma_word_nn_fields(n1: u16, n2: u16, nn: u16)
    by (bit_vector)
    requires
        n1 < 16,
        n2 < 16,
        nn < 256,
    ensures
        first_nib_of(word_nn(n1, n2, nn)) == n1,
        second_nib_of(word_nn(n1, n2, nn)) == n2,
        second_byte_of(word_nn(n1, n2, nn)) == nn,
        fourth_nib_of(word_nn(n1, n2, nn)) == nn % 16,
        addr_of(word_nn(n1, n2, nn)) == n2 * 0x100 + nn,
{
}

/// For any two distinct registers X and Y, X not the flag register, and any
/// byte values a and b: executing "set X = a; set Y = b; add X += Y" leaves
/// X = (a + b) mod 256 and the flag register = 1 exactly when a + b
/// exceeds 255, else 0. (With X = Y or X the flag register the adder's own
/// writes overlap the operands, so those cases are left out.)
#[verifier::rlimit(60)]
pub proof fn lemma_set_set_add(m: MachineV, x: u16, y: u16, a: u8, b: u8)
    requires
        m.wf(),
        x < 16,
        y < 16,
        x != y,
        x != 0xF,
    ensures
        ({
            let s1 = spec_step(word_nn(0x6, x, a as u16), m, 0);
            let s2 = spec_step(word_nn(0x6, y, b as u16), s1->Ok_0, 0);
            let s3 = spec_step(word(0x8, x, y, 0x4), s2->Ok_0, 0);
            &&& s1 is Ok
            &&& s2 is Ok
            &&& s3 is Ok
            &&& s3->Ok_0.regs[x as int] == ((a + b) % 256) as u8
            &&& s3->Ok_0.regs[15] == (if a + b > 255 {
                1u8
            } else {
                0u8
            })
        }),
{
    lemma_word_nn_fields(0x6, x, a as u16);
    lemma_word_nn_fields(0x6, y, b as u16);
    lemma_word_fields(0x8, x, y, 0x4);
    let m1 = spec_step(word_nn(0x6, x, a as u16), m, 0)->Ok_0;
    assert(m1 == with_reg(m, x as int, a));
    let m2 = spec_step(word_nn(0x6, y, b as u16), m1, 0)->Ok_0;
    assert(m2 == with_reg(m1, y as int, b));
    assert(m2.regs[x as int] == a);
    assert(m2.regs[y as int] == b);
    let m3 = spec_step(word(0x8, x, y, 0x4), m2, 0)->Ok_0;
    assert(m3.regs[x as int] == (if a + b > 255 {
        (a + b - 256) as u8
    } else {
        (a + b) as u8
    }));
}

/// Storing registers 0..=X at I (`FX55`) and then loading registers 0..=X
/// back from the same I (`FX65`) restores every register; the program
/// counter is untouched by either.
pub proof fn lemma_store_load_round_trip(m: MachineV, x: u16)
    requires
        m.wf(),
        x < 16,
        m.i_reg + x + 1 <= MEM_SIZE,
    ensures
        ({
            let s1 = spec_step(word_nn(0xF, x, 0x55), m, 0);
            let s2 = spec_step(word_nn(0xF, x, 0x65), s1->Ok_0, 0);
            &&& s1 is Ok
            &&& s2 is Ok
            &&& s2->Ok_0.regs == m.regs
            &&& s2->Ok_0.pc == m.pc
        }),
{
    lemma_word_nn_fields(0xF, x, 0x55);
    lemma_word_nn_fields(0xF, x, 0x65);
    let s1 = spec_step(word_nn(0xF, x, 0x55), m, 0);
    let s2 = spec_step(word_nn(0xF, x, 0x65), s1->Ok_0, 0);
    assert(s2->Ok_0.regs =~= m.regs);
}

/// Drawing the same sprite at the same spot twice restores the whole
/// framebuffer, and the second draw reports a collision exactly when the
/// first draw turned some pixel on. (The start position is read from X and
/// Y, so neither may be the flag register, which the first draw writes.)
pub proof fn lemma_sprite_double_draw(m: MachineV, x: u16, y: u16, n: u16)
    requires
        m.wf(),
        x < 16,
        y < 16,
        n < 16,
        x != 0xF,
        y != 0xF,
        m.i_reg + n <= MEM_SIZE,
    ensures
        ({
            let s1 = spec_step(word(0xD, x, y, n), m, 0);
            let s2 = spec_step(word(0xD, x, y, n), s1->Ok_0, 0);
            let x0 = (m.regs[x as int] as int) % (m.cols as int);
            let y0 = (m.regs[y as int] as int) % (m.rows as int);
            &&& s1 is Ok
            &&& s2 is Ok
            &&& s2->Ok_0.fb == m.fb
            &&& (s2->Ok_0.regs[15] == 1 <==> (exists|r: int, c: int|
                0 <= r < m.fb.len() && 0 <= c < m.fb[r].len() && #[trigger] sprite_covers(
                    m.ram,
                    m.i_reg as int,
                    x0,
                    y0,
                    n as int,
                    r,
                    c,
                ) && m.fb[r][c] == 0))
        }),
{
    lemma_word_fields(0xD, x, y, n);
    let w = word(0xD, x, y, n);
    let s1 = spec_step(w, m, 0);
    let m1 = s1->Ok_0;
    let s2 = spec_step(w, m1, 0);
    let m2 = s2->Ok_0;
    let i0 = m.i_reg as int;
    let x0 = (m.regs[x as int] as int) % (m.cols as int);
    let y0 = (m.regs[y as int] as int) % (m.rows as int);
    let nn = n as int;
    let fb1 = draw_fb(m.fb, m.ram, i0, x0, y0, nn);
    // the first draw only wrote the flag register, so the second draw
    // starts from the same position and sprite
    assert(m1.regs[x as int] == m.regs[x as int]);
    assert(m1.regs[y as int] == m.regs[y as int]);
    assert(m1.fb == fb1);
    // toggling twice restores every cell
    assert forall|r: int| 0 <= r < m.fb.len() implies m2.fb[r] =~= m.fb[r] by {
        assert forall|c: int| 0 <= c < m.fb[r].len() implies m2.fb[r][c] == m.fb[r][c] by {
            if sprite_covers(m.ram, i0, x0, y0, nn, r, c) {
                assert(fb1[r][c] == toggle(m.fb[r][c]));
            }
        }
    }
    assert(m2.fb =~~= m.fb);
    // the second draw's collision: a covered cell that the first draw
    // turned on is exactly a covered cell that started off
    if draw_collides(fb1, m.ram, i0, x0, y0, nn) {
        let (r, c) = choose|r: int, c: int|
            0 <= r < fb1.len() && 0 <= c < fb1[r].len() && #[trigger] sprite_covers(
                m.ram,
                i0,
                x0,
                y0,
                nn,
                r,
                c,
            ) && fb1[r][c] == 1;
        assert(fb1[r][c] == toggle(m.fb[r][c]));
        assert(m.fb[r][c] == 0);
    }
    if exists|r: int, c: int|
        0 <= r < m.fb.len() && 0 <= c < m.fb[r].len() && #[trigger] sprite_covers(
            m.ram,
            i0,
            x0,
            y0,
            nn,
            r,
            c,
        ) && m.fb[r][c] == 0 {
        let (r, c) = choose|r: int, c: int|
            0 <= r < m.fb.len() && 0 <= c < m.fb[r].len() && #[trigger] sprite_covers(
                m.ram,
                i0,
                x0,
                y0,
                nn,
                r,
                c,
            ) && m.fb[r][c] == 0;
        assert(fb1[r][c] == 1);
        assert(draw_collides(fb1, m.ram, i0, x0, y0, nn));
    }
}

/// A cycle that fetches the blocking key wait (`FX0A`) with no key held
/// leaves the program counter where it was — the fetch advance and the
/// rewind cancel, so the same instruction is fetched again next cycle —
/// with registers, memory, stack and framebuffer untouched and both timers
/// ticked.
pub proof fn lemma_key_wait_blocks(m: MachineV, x: u16)
    requires
        m.wf(),
        m.pc + 1 < MEM_SIZE,
        x < 16,
        spec_fetch(m) == word_nn(0xF, x, 0x0A),
        m.key is None,
    ensures
        ({
            let out = spec_cycle(m, 0);
            &&& out is Ok
            &&& out->Ok_0.pc == m.pc
            &&& out->Ok_0.regs == m.regs
            &&& out->Ok_0.ram == m.ram
            &&& out->Ok_0.stack == m.stack
            &&& out->Ok_0.fb == m.fb
            &&& out->Ok_0.delay == spec_tick(m.delay)
            &&& out->Ok_0.sound == spec_tick(m.sound)
        }),
{
    lemma_word_nn_fields(0xF, x, 0x0A);
}

/// Once a key is held, the same instruction completes: the key's code
/// lands in VX and the program counter moves on normally.
pub proof fn lemma_key_wait_proceeds(m: MachineV, x: u16, k: u8)
    requires
        m.wf(),
        m.pc + 1 < MEM_SIZE,
        x < 16,
        spec_fetch(m) == word_nn(0xF, x, 0x0A),
        m.key == Some(k),
    ensures
        ({
            let out = spec_cycle(m, 0);
            &&& out is Ok
            &&& out->Ok_0.pc == m.pc + 2
            &&& out->Ok_0.regs == m.regs.update(x as int, k)
            &&& out->Ok_0.ram == m.ram
            &&& out->Ok_0.delay == spec_tick(m.delay)
            &&& out->Ok_0.sound == spec_tick(m.sound)
        }),
{
    lemma_word_nn_fields(0xF, x, 0x0A);
}

} // verus!
