use chip8::cpu::Chip8;
use chip8::display::Display;
use chip8::emu_timer::EmuTimer;
use chip8::key_input::KeyInput;
use chip8::model::Chip8Error;

fn machine() -> Chip8 {
    Chip8::new(Display::new(32, 64), KeyInput::new())
}

#[test]
fn test_timer_never_underflows() {
    let mut t = EmuTimer::new(2);
    assert_eq!(t.get_time_left(), 2);
    t.decr_time_left();
    assert_eq!(t.get_time_left(), 1);
    t.decr_time_left();
    assert_eq!(t.get_time_left(), 0);
    t.decr_time_left();
    assert_eq!(t.get_time_left(), 0);
    t.incr_time_left();
    assert_eq!(t.get_time_left(), 1);
    t.set_time_left(9);
    assert_eq!(t.get_time_left(), 9);
}

#[test]
fn test_key_input_state() {
    let mut k = KeyInput::new();
    assert_eq!(k.get_curr_pressed_key(), None);
    k.update_curr_pressed_key(Some(0xC));
    assert_eq!(k.get_curr_pressed_key(), Some(0xC));
    k.update_curr_pressed_key(None);
    assert_eq!(k.get_curr_pressed_key(), None);
}

#[test]
fn test_display_pixels_and_dirty_flag() {
    let mut d = Display::new(32, 64);
    assert!(!d.take_update());
    assert_eq!(d.get_display_buffer(2, 3), 0);
    d.set_display(2, 3, 1);
    assert_eq!(d.get_display_buffer(2, 3), 1);
    assert_eq!(d.get_display_buffer(3, 2), 0);
    assert!(d.take_update());
    assert!(!d.take_update());
    d.clear_display();
    assert_eq!(d.get_display_buffer(2, 3), 0);
    assert!(d.take_update());
}

#[test]
fn test_new_machine_state() {
    let mut c = machine();
    assert_eq!(c.state.pc, 0x200);
    assert_eq!(c.get_index_reg(), 0);
    for r in 0..16 {
        assert_eq!(c.get_reg(r), 0);
    }
    assert!(c.stack.is_empty());
    // the glyph table sits at 0x50..0xA0; everything around it is zero
    assert_eq!(c.get_mem_data(0x4F), 0);
    assert_eq!(c.get_mem_data(0x50), 0xF0);
    assert_eq!(c.get_mem_data(0x9F), 0x80);
    assert_eq!(c.get_mem_data(0xA0), 0);
    assert_eq!(c.delay_timer.get_time_left(), 0);
    assert_eq!(c.sound_timer.get_time_left(), 0);
}

#[test]
fn test_stack_push_pop() {
    let mut c = machine();
    c.stack_push(0x123);
    c.stack_push(0x456);
    c.stack_push_pc();
    assert_eq!(c.stack_pop(), 0x200);
    assert_eq!(c.stack_pop(), 0x456);
    assert_eq!(c.stack_pop(), 0x123);
    assert!(c.stack.is_empty());
}

#[test]
fn test_pc_moves() {
    let mut c = machine();
    c.set_pc(0x300);
    c.incr_pc();
    assert_eq!(c.state.pc, 0x302);
    c.decr_pc();
    assert_eq!(c.state.pc, 0x300);
}

#[test]
fn test_load_program_bounds() {
    let mut c = machine();
    // an empty image is fine and changes nothing
    assert_eq!(c.load_to_ram(&[]), Ok(()));
    assert_eq!(c.get_mem_data(0x200), 0);
    assert_eq!(c.load_to_ram(&[0xAA, 0xBB, 0xCC]), Ok(()));
    assert_eq!(c.get_mem_data(0x200), 0xAA);
    assert_eq!(c.get_mem_data(0x201), 0xBB);
    assert_eq!(c.get_mem_data(0x202), 0xCC);
    assert_eq!(c.get_mem_data(0x203), 0);
    // exactly the space above the load base fits
    let full = vec![7u8; 4096 - 0x200];
    assert_eq!(c.load_to_ram(&full), Ok(()));
    assert_eq!(c.get_mem_data(0xFFF), 7);
    // one more byte is refused and memory is left alone
    let too_big = vec![7u8; 4096 - 0x200 + 1];
    assert_eq!(c.load_to_ram(&too_big), Err(Chip8Error::ProgramTooLarge));
    assert_eq!(c.get_mem_data(0x200), 7);
}

#[test]
fn test_regs_in_range_and_bulk_store() {
    let mut c = machine();
    c.set_reg(0, 1);
    c.set_reg(1, 2);
    c.set_reg(2, 3);
    assert_eq!(c.get_regs_in_range(3), vec![1, 2, 3]);
    assert_eq!(c.get_regs_in_range(0), Vec::<u8>::new());
    c.set_index_reg(0x500);
    c.store_from_i(vec![9, 8]);
    assert_eq!(c.get_mem_data(0x500), 9);
    assert_eq!(c.get_mem_data(0x501), 8);
    c.load_from_i(2);
    assert_eq!(c.get_reg(0), 9);
    assert_eq!(c.get_reg(1), 8);
    assert_eq!(c.get_reg(2), 3);
}

#[test]
fn test_blocking_key_wait() {
    let mut c = machine();
    // the program is one blocking key wait into V0
    assert_eq!(c.load_to_ram(&[0xF0, 0x0A]), Ok(()));
    c.delay_timer.set_time_left(2);
    // with no key held the cycle rewinds the program counter onto the same
    // instruction, so net of the loop it has not moved; timers still tick
    assert_eq!(c.cpu_cycle(), Ok(()));
    assert_eq!(c.state.pc, 0x200);
    assert_eq!(c.delay_timer.get_time_left(), 1);
    assert_eq!(c.cpu_cycle(), Ok(()));
    assert_eq!(c.state.pc, 0x200);
    assert_eq!(c.delay_timer.get_time_left(), 0);
    // once a key is held the same instruction completes
    c.key_input.update_curr_pressed_key(Some(0xA));
    assert_eq!(c.cpu_cycle(), Ok(()));
    assert_eq!(c.state.pc, 0x202);
    assert_eq!(c.get_reg(0), 0xA);
}

#[test]
fn test_end_to_end_three_cycles() {
    let mut c = machine();
    // set V0 = 5, set V1 = 5, clear the screen
    assert_eq!(c.load_to_ram(&[0x60, 0x05, 0x61, 0x05, 0x00, 0xE0]), Ok(()));
    assert_eq!(c.cpu_cycle(), Ok(()));
    assert_eq!(c.cpu_cycle(), Ok(()));
    assert_eq!(c.cpu_cycle(), Ok(()));
    assert_eq!(c.get_reg(0), 5);
    assert_eq!(c.get_reg(1), 5);
    assert_eq!(c.state.pc, 0x206);
    for row in 0..32 {
        for col in 0..64 {
            assert_eq!(c.display.get_display_buffer(row, col), 0);
        }
    }
    // the clear marked the framebuffer for the host's redraw poll; after
    // that one poll it is clean
    assert!(c.display.take_update());
    assert!(!c.display.take_update());
}

#[test]
fn test_cycle_surfaces_decode_error() {
    let mut c = machine();
    // 0xFFFF is no instruction: the run aborts with the raw word
    assert_eq!(c.load_to_ram(&[0xFF, 0xFF]), Ok(()));
    assert_eq!(c.cpu_cycle(), Err(Chip8Error::InvalidOpcode(0xFFFF)));
    // the fetch still advanced past the bad word
    assert_eq!(c.state.pc, 0x202);
}
