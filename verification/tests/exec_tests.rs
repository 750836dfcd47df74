use chip8::cpu::Chip8;
use chip8::display::Display;
use chip8::instr::op;
use chip8::key_input::KeyInput;
use chip8::model::Chip8Error;

fn machine() -> Chip8 {
    Chip8::new(Display::new(32, 64), KeyInput::new())
}

#[test]
fn test_set_and_assign() {
    let mut c = machine();
    assert_eq!(op(0x603B, &mut c), Ok(()));
    assert_eq!(c.get_reg(0), 0x3B);
    assert_eq!(op(0x8100, &mut c), Ok(()));
    assert_eq!(c.get_reg(1), 0x3B);
}

#[test]
fn test_add_immediate_wraps() {
    let mut c = machine();
    assert_eq!(op(0x60FE, &mut c), Ok(()));
    assert_eq!(op(0x7005, &mut c), Ok(()));
    // 0xFE + 5 wraps to 3 and the flag register is untouched
    assert_eq!(c.get_reg(0), 3);
    assert_eq!(c.get_reg(0xF), 0);
}

#[test]
fn test_add_with_carry() {
    let mut c = machine();
    // V0 = 200, V1 = 100, V0 += V1: 300 mod 256 = 44, carry
    assert_eq!(op(0x60C8, &mut c), Ok(()));
    assert_eq!(op(0x6164, &mut c), Ok(()));
    assert_eq!(op(0x8014, &mut c), Ok(()));
    assert_eq!(c.get_reg(0), 44);
    assert_eq!(c.get_reg(0xF), 1);
    // 3 + 4 = 7, no carry
    assert_eq!(op(0x6003, &mut c), Ok(()));
    assert_eq!(op(0x6104, &mut c), Ok(()));
    assert_eq!(op(0x8014, &mut c), Ok(()));
    assert_eq!(c.get_reg(0), 7);
    assert_eq!(c.get_reg(0xF), 0);
}

#[test]
fn test_sub_with_borrow() {
    let mut c = machine();
    // V0 = 5, V1 = 10, V0 -= V1: 5 - 10 wraps to 251, borrow clears flag
    c.set_reg(0, 5);
    c.set_reg(1, 10);
    assert_eq!(op(0x8015, &mut c), Ok(()));
    assert_eq!(c.get_reg(0), 251);
    assert_eq!(c.get_reg(0xF), 0);
    // 10 - 5 = 5 with no borrow
    c.set_reg(0, 10);
    c.set_reg(1, 5);
    assert_eq!(op(0x8015, &mut c), Ok(()));
    assert_eq!(c.get_reg(0), 5);
    assert_eq!(c.get_reg(0xF), 1);
}

#[test]
fn test_sub_reversed() {
    let mut c = machine();
    // V0 = VY - VX: 3 - 10 wraps to 249, borrow clears flag
    c.set_reg(0, 10);
    c.set_reg(1, 3);
    assert_eq!(op(0x8017, &mut c), Ok(()));
    assert_eq!(c.get_reg(0), 249);
    assert_eq!(c.get_reg(0xF), 0);
}

#[test]
fn test_bitwise_ops() {
    let mut c = machine();
    c.set_reg(0, 0b1100);
    c.set_reg(1, 0b1010);
    assert_eq!(op(0x8011, &mut c), Ok(()));
    assert_eq!(c.get_reg(0), 0b1110);
    c.set_reg(0, 0b1100);
    assert_eq!(op(0x8012, &mut c), Ok(()));
    assert_eq!(c.get_reg(0), 0b1000);
    c.set_reg(0, 0b1100);
    assert_eq!(op(0x8013, &mut c), Ok(()));
    assert_eq!(c.get_reg(0), 0b0110);
}

#[test]
fn test_shift_right() {
    let mut c = machine();
    c.set_reg(0, 0x83);
    assert_eq!(op(0x8006, &mut c), Ok(()));
    assert_eq!(c.get_reg(0), 0x41);
    assert_eq!(c.get_reg(0xF), 1);
    c.set_reg(0, 0x40);
    assert_eq!(op(0x8006, &mut c), Ok(()));
    assert_eq!(c.get_reg(0), 0x20);
    assert_eq!(c.get_reg(0xF), 0);
}

#[test]
fn test_shift_left() {
    let mut c = machine();
    c.set_reg(0, 0x83);
    assert_eq!(op(0x800E, &mut c), Ok(()));
    assert_eq!(c.get_reg(0), 0x06);
    assert_eq!(c.get_reg(0xF), 1);
}

#[test]
fn test_skips() {
    let mut c = machine();
    let pc = c.state.pc;
    c.set_reg(0, 5);
    assert_eq!(op(0x3005, &mut c), Ok(()));
    assert_eq!(c.state.pc, pc + 2);
    assert_eq!(op(0x3006, &mut c), Ok(()));
    assert_eq!(c.state.pc, pc + 2);
    assert_eq!(op(0x4006, &mut c), Ok(()));
    assert_eq!(c.state.pc, pc + 4);
    c.set_reg(1, 5);
    assert_eq!(op(0x5010, &mut c), Ok(()));
    assert_eq!(c.state.pc, pc + 6);
    assert_eq!(op(0x9010, &mut c), Ok(()));
    assert_eq!(c.state.pc, pc + 6);
    c.set_reg(1, 7);
    assert_eq!(op(0x9010, &mut c), Ok(()));
    assert_eq!(c.state.pc, pc + 8);
}

#[test]
fn test_jump_call_return() {
    let mut c = machine();
    assert_eq!(op(0x1ABC, &mut c), Ok(()));
    assert_eq!(c.state.pc, 0xABC);
    assert_eq!(op(0x2345, &mut c), Ok(()));
    assert_eq!(c.state.pc, 0x345);
    assert_eq!(c.stack, vec![0xABC]);
    assert_eq!(op(0x00EE, &mut c), Ok(()));
    assert_eq!(c.state.pc, 0xABC);
    assert!(c.stack.is_empty());
}

#[test]
fn test_jump_with_offset() {
    let mut c = machine();
    c.set_reg(0, 4);
    assert_eq!(op(0xB300, &mut c), Ok(()));
    assert_eq!(c.state.pc, 0x304);
}

#[test]
fn test_index_register_ops() {
    let mut c = machine();
    assert_eq!(op(0xA123, &mut c), Ok(()));
    assert_eq!(c.get_index_reg(), 0x123);
    c.set_reg(0, 0x10);
    assert_eq!(op(0xF01E, &mut c), Ok(()));
    assert_eq!(c.get_index_reg(), 0x133);
    // the index add is a plain 16-bit add, wrapping at the top
    c.set_index_reg(0xFFFF);
    c.set_reg(0, 2);
    assert_eq!(op(0xF01E, &mut c), Ok(()));
    assert_eq!(c.get_index_reg(), 1);
}

#[test]
fn test_random_masked() {
    let mut c = machine();
    // the random byte is masked by NN; with NN = 0 the result is forced
    assert_eq!(op(0xC000, &mut c), Ok(()));
    assert_eq!(c.get_reg(0), 0);
    assert_eq!(op(0xC10F, &mut c), Ok(()));
    assert_eq!(c.get_reg(1) & 0xF0, 0);
}

#[test]
fn test_timer_instructions() {
    let mut c = machine();
    c.set_reg(0, 3);
    assert_eq!(op(0xF015, &mut c), Ok(()));
    assert_eq!(c.delay_timer.get_time_left(), 3);
    assert_eq!(op(0xF018, &mut c), Ok(()));
    assert_eq!(c.sound_timer.get_time_left(), 3);
    assert_eq!(op(0xF107, &mut c), Ok(()));
    assert_eq!(c.get_reg(1), 3);
}

#[test]
fn test_glyph_address() {
    let mut c = machine();
    // the glyph of the low nibble of VX: 0xAB keeps only the 0xB
    c.set_reg(0, 0xAB);
    assert_eq!(op(0xF029, &mut c), Ok(()));
    assert_eq!(c.get_index_reg(), 0x50 + 0xB * 5);
    // the glyph region itself was seeded at construction: digit 0 starts 0xF0
    assert_eq!(c.get_mem_data(0x50), 0xF0);
}

#[test]
fn test_digit_storage() {
    let mut c = machine();
    c.set_index_reg(0x300);
    c.set_reg(0, 123);
    assert_eq!(op(0xF033, &mut c), Ok(()));
    assert_eq!(c.get_mem_data(0x300), 1);
    assert_eq!(c.get_mem_data(0x301), 2);
    assert_eq!(c.get_mem_data(0x302), 3);
    // a single-digit value stores one byte with no leading-zero padding
    c.set_index_reg(0x310);
    c.set_reg(0, 5);
    assert_eq!(op(0xF033, &mut c), Ok(()));
    assert_eq!(c.get_mem_data(0x310), 5);
    assert_eq!(c.get_mem_data(0x311), 0);
}

#[test]
fn test_store_load_round_trip() {
    let mut c = machine();
    c.set_reg(0, 11);
    c.set_reg(1, 22);
    c.set_reg(2, 33);
    c.set_reg(3, 44);
    c.set_reg(4, 55);
    c.set_index_reg(0x400);
    // store V0..=V3
    assert_eq!(op(0xF355, &mut c), Ok(()));
    assert_eq!(c.get_mem_data(0x400), 11);
    assert_eq!(c.get_mem_data(0x403), 44);
    assert_eq!(c.get_mem_data(0x404), 0);
    // scramble, then load V0..=V3 back from the same region
    c.set_reg(0, 99);
    c.set_reg(1, 99);
    c.set_reg(2, 99);
    c.set_reg(3, 99);
    assert_eq!(op(0xF365, &mut c), Ok(()));
    assert_eq!(c.get_reg(0), 11);
    assert_eq!(c.get_reg(1), 22);
    assert_eq!(c.get_reg(2), 33);
    assert_eq!(c.get_reg(3), 44);
    assert_eq!(c.get_reg(4), 55);
}

#[test]
fn test_key_skips() {
    let mut c = machine();
    let pc = c.state.pc;
    c.set_reg(0, 5);
    // no key held: EX9E does not skip, EXA1 does
    assert_eq!(op(0xE09E, &mut c), Ok(()));
    assert_eq!(c.state.pc, pc);
    assert_eq!(op(0xE0A1, &mut c), Ok(()));
    assert_eq!(c.state.pc, pc + 2);
    // the held key equals V0: EX9E skips, EXA1 does not
    c.key_input.update_curr_pressed_key(Some(5));
    assert_eq!(op(0xE09E, &mut c), Ok(()));
    assert_eq!(c.state.pc, pc + 4);
    assert_eq!(op(0xE0A1, &mut c), Ok(()));
    assert_eq!(c.state.pc, pc + 4);
    // a different key: back to the other way round
    c.key_input.update_curr_pressed_key(Some(6));
    assert_eq!(op(0xE09E, &mut c), Ok(()));
    assert_eq!(c.state.pc, pc + 4);
    assert_eq!(op(0xE0A1, &mut c), Ok(()));
    assert_eq!(c.state.pc, pc + 6);
}

#[test]
fn test_sprite_draw_and_collision() {
    let mut c = machine();
    // one 0xFF sprite row at 0x350
    c.set_index_reg(0x350);
    c.store_from_i(vec![0xFF]);
    c.set_reg(0, 0);
    c.set_reg(1, 0);
    // first draw turns the first eight pixels of row 0 on, no collision
    assert_eq!(op(0xD011, &mut c), Ok(()));
    for col in 0..8 {
        assert_eq!(c.display.get_display_buffer(0, col), 1);
    }
    assert_eq!(c.display.get_display_buffer(0, 8), 0);
    assert_eq!(c.get_reg(0xF), 0);
    assert!(c.display.take_update());
    // the identical second draw collides everywhere and toggles them off
    assert_eq!(op(0xD011, &mut c), Ok(()));
    for col in 0..8 {
        assert_eq!(c.display.get_display_buffer(0, col), 0);
    }
    assert_eq!(c.get_reg(0xF), 1);
    assert!(c.display.take_update());
}

#[test]
fn test_sprite_clipped_at_edge() {
    let mut c = machine();
    c.set_index_reg(0x350);
    c.store_from_i(vec![0xFF]);
    // start at column 60 of 64: only four pixels fit, nothing wraps round
    c.set_reg(0, 60);
    c.set_reg(1, 0);
    assert_eq!(op(0xD011, &mut c), Ok(()));
    for col in 60..64 {
        assert_eq!(c.display.get_display_buffer(0, col), 1);
    }
    assert_eq!(c.display.get_display_buffer(0, 0), 0);
    assert_eq!(c.get_reg(0xF), 0);
}

#[test]
fn test_sprite_start_wraps_modulo() {
    let mut c = machine();
    c.set_index_reg(0x350);
    c.store_from_i(vec![0x80]);
    // the start position is taken modulo the grid size: 66 mod 64 = 2
    c.set_reg(0, 66);
    c.set_reg(1, 33);
    assert_eq!(op(0xD011, &mut c), Ok(()));
    assert_eq!(c.display.get_display_buffer(1, 2), 1);
}

#[test]
fn test_zero_row_sprite_draws_nothing() {
    let mut c = machine();
    c.set_reg(0xF, 1);
    assert_eq!(op(0xD010, &mut c), Ok(()));
    // the flag register is still cleared before drawing
    assert_eq!(c.get_reg(0xF), 0);
    assert!(!c.display.take_update());
}

#[test]
fn test_clear_screen() {
    let mut c = machine();
    c.display.set_display(3, 4, 1);
    assert_eq!(op(0x00E0, &mut c), Ok(()));
    assert_eq!(c.display.get_display_buffer(3, 4), 0);
    assert!(c.display.take_update());
}

#[test]
fn test_stack_underflow() {
    let mut c = machine();
    assert_eq!(op(0x00EE, &mut c), Err(Chip8Error::StackUnderflow));
}

#[test]
fn test_invalid_opcodes() {
    let mut c = machine();
    assert_eq!(op(0x0123, &mut c), Err(Chip8Error::InvalidOpcode(0x0123)));
    assert_eq!(op(0x8008, &mut c), Err(Chip8Error::InvalidOpcode(0x8008)));
    assert_eq!(op(0x5011, &mut c), Err(Chip8Error::InvalidOpcode(0x5011)));
    assert_eq!(op(0x9013, &mut c), Err(Chip8Error::InvalidOpcode(0x9013)));
    assert_eq!(op(0xE0FF, &mut c), Err(Chip8Error::InvalidOpcode(0xE0FF)));
    assert_eq!(op(0xF0FF, &mut c), Err(Chip8Error::InvalidOpcode(0xF0FF)));
}
