use chip8_core::{Chip8Error, Emulator, SCREEN_HEIGHT, SCREEN_WIDTH};

fn machine_with(program: &[u8]) -> Emulator {
    let mut emu = Emulator::new();
    emu.load(program).unwrap();
    emu
}

fn run(emu: &mut Emulator, ticks: usize) {
    for _ in 0..ticks {
        emu.tick_with(0).unwrap();
    }
}

fn lit_pixels(emu: &Emulator) -> usize {
    emu.get_display().iter().filter(|p| **p).count()
}

#[test]
fn startup_state() {
    let emu = Emulator::new();
    assert_eq!(emu.program_counter(), 0x200);
    for x in 0..16 {
        assert_eq!(emu.register(x), 0);
    }
    assert_eq!(emu.index_register(), 0);
    assert_eq!(emu.stack_pointer(), 0);
    assert_eq!(emu.delay_timer(), 0);
    assert_eq!(emu.sound_timer(), 0);
    assert_eq!(emu.get_display().len(), SCREEN_WIDTH * SCREEN_HEIGHT);
    assert_eq!(lit_pixels(&emu), 0);
    let glyph_zero = [0xF0, 0x90, 0x90, 0x90, 0xF0];
    for (k, b) in glyph_zero.iter().enumerate() {
        assert_eq!(emu.memory(k), *b);
    }
    assert_eq!(emu.memory(75), 0xF0);
    assert_eq!(emu.memory(79), 0x80);
    for a in 80..4096 {
        assert_eq!(emu.memory(a), 0);
    }
}

#[test]
fn reset_restores_startup_state() {
    let mut emu = machine_with(&[0x60, 0x05, 0xA1, 0x23, 0xF0, 0x15, 0x22, 0x00]);
    emu.keypress(3, true).unwrap();
    run(&mut emu, 4);
    assert_eq!(emu.stack_pointer(), 1);
    emu.reset();
    assert_eq!(emu.program_counter(), 0x200);
    assert_eq!(emu.register(0), 0);
    assert_eq!(emu.index_register(), 0);
    assert_eq!(emu.stack_pointer(), 0);
    assert_eq!(emu.delay_timer(), 0);
    assert_eq!(emu.memory(0x200), 0);
    assert_eq!(emu.memory(0), 0xF0);
}

#[test]
fn load_then_tick_fetches_big_endian_word() {
    let mut emu = machine_with(&[0xA1, 0x23]);
    emu.tick_with(0).unwrap();
    assert_eq!(emu.index_register(), 0x123);
    assert_eq!(emu.program_counter(), 0x202);
}

#[test]
fn load_places_image_at_start() {
    let emu = machine_with(&[1, 2, 3]);
    assert_eq!(emu.memory(0x1FF), 0);
    assert_eq!(emu.memory(0x200), 1);
    assert_eq!(emu.memory(0x202), 3);
    assert_eq!(emu.memory(0x203), 0);
    assert_eq!(emu.program_counter(), 0x200);
}

#[test]
fn load_largest_image_fits() {
    let mut emu = Emulator::new();
    let data = vec![7u8; 4096 - 0x200];
    assert_eq!(emu.load(&data), Ok(()));
    assert_eq!(emu.memory(4095), 7);
}

#[test]
fn load_too_large_is_memory_overflow() {
    let mut emu = Emulator::new();
    let data = vec![7u8; 4096 - 0x200 + 1];
    assert_eq!(emu.load(&data), Err(Chip8Error::MemoryOverflow));
    assert_eq!(emu.memory(0x200), 0);
}

#[test]
fn clear_screen_unlights_everything() {
    // I = 0 (glyph 0), draw at (0, 0), then clear.
    let mut emu = machine_with(&[0xA0, 0x00, 0xD0, 0x05, 0x00, 0xE0]);
    run(&mut emu, 2);
    assert!(lit_pixels(&emu) > 0);
    run(&mut emu, 1);
    assert_eq!(lit_pixels(&emu), 0);
}

#[test]
fn call_then_return() {
    // 0x200: call 0x206; 0x206: return.
    let mut emu = machine_with(&[0x22, 0x06, 0x00, 0x00, 0x00, 0x00, 0x00, 0xEE]);
    run(&mut emu, 1);
    assert_eq!(emu.program_counter(), 0x206);
    assert_eq!(emu.stack_pointer(), 1);
    run(&mut emu, 1);
    assert_eq!(emu.program_counter(), 0x202);
    assert_eq!(emu.stack_pointer(), 0);
}

#[test]
fn add_with_overflow_sets_flag() {
    let mut emu = machine_with(&[0x60, 0xFF, 0x61, 0x01, 0x80, 0x14]);
    run(&mut emu, 3);
    assert_eq!(emu.register(0), 0x00);
    assert_eq!(emu.register(0xF), 1);
}

#[test]
fn add_without_overflow_clears_flag() {
    let mut emu = machine_with(&[0x60, 0x10, 0x61, 0x01, 0x6F, 0x01, 0x80, 0x14]);
    run(&mut emu, 4);
    assert_eq!(emu.register(0), 0x11);
    assert_eq!(emu.register(0xF), 0);
}

#[test]
fn subtract_with_borrow_clears_flag() {
    let mut emu = machine_with(&[0x60, 0x01, 0x61, 0x02, 0x80, 0x15]);
    run(&mut emu, 3);
    assert_eq!(emu.register(0), 0xFF);
    assert_eq!(emu.register(0xF), 0);
}

#[test]
fn subtract_reversed_without_borrow() {
    let mut emu = machine_with(&[0x60, 0x01, 0x61, 0x05, 0x80, 0x17]);
    run(&mut emu, 3);
    assert_eq!(emu.register(0), 4);
    assert_eq!(emu.register(0xF), 1);
}

#[test]
fn shifts_report_the_bit_shifted_out() {
    let mut emu = machine_with(&[0x60, 0x81, 0x80, 0x06]);
    run(&mut emu, 2);
    assert_eq!(emu.register(0), 0x40);
    assert_eq!(emu.register(0xF), 1);
    let mut emu = machine_with(&[0x60, 0x81, 0x80, 0x0E]);
    run(&mut emu, 2);
    assert_eq!(emu.register(0), 0x02);
    assert_eq!(emu.register(0xF), 1);
}

#[test]
fn logic_ops_and_copy() {
    let mut emu = machine_with(&[
        0x60, 0x0C, 0x61, 0x0A, 0x62, 0x00, 0x82, 0x11, 0x63, 0x0C, 0x83, 0x12, 0x64, 0x0C,
        0x84, 0x13, 0x85, 0x10,
    ]);
    run(&mut emu, 9);
    assert_eq!(emu.register(2), 0x0A);
    assert_eq!(emu.register(3), 0x08);
    assert_eq!(emu.register(4), 0x06);
    assert_eq!(emu.register(5), 0x0A);
}

#[test]
fn add_immediate_wraps_without_flag() {
    let mut emu = machine_with(&[0x60, 0xFE, 0x70, 0x03]);
    run(&mut emu, 2);
    assert_eq!(emu.register(0), 0x01);
    assert_eq!(emu.register(0xF), 0);
}

#[test]
fn skips() {
    // Each skip form, with V0 = 5 (and V1 = 5).
    let mut emu = machine_with(&[0x60, 0x05, 0x30, 0x05]);
    run(&mut emu, 2);
    assert_eq!(emu.program_counter(), 0x206);
    let mut emu = machine_with(&[0x60, 0x05, 0x40, 0x05]);
    run(&mut emu, 2);
    assert_eq!(emu.program_counter(), 0x204);
    let mut emu = machine_with(&[0x60, 0x05, 0x61, 0x05, 0x50, 0x10]);
    run(&mut emu, 3);
    assert_eq!(emu.program_counter(), 0x208);
    let mut emu = machine_with(&[0x60, 0x05, 0x61, 0x05, 0x90, 0x10]);
    run(&mut emu, 3);
    assert_eq!(emu.program_counter(), 0x206);
}

#[test]
fn jumps() {
    let mut emu = machine_with(&[0x13, 0x45]);
    run(&mut emu, 1);
    assert_eq!(emu.program_counter(), 0x345);
    let mut emu = machine_with(&[0x60, 0x10, 0xB3, 0x00]);
    run(&mut emu, 2);
    assert_eq!(emu.program_counter(), 0x310);
}

#[test]
fn draw_twice_restores_screen() {
    let mut emu = machine_with(&[0xA0, 0x00, 0xD0, 0x15, 0xD0, 0x15]);
    run(&mut emu, 2);
    assert_eq!(emu.register(0xF), 0);
    assert_eq!(lit_pixels(&emu), 14);
    run(&mut emu, 1);
    assert_eq!(emu.register(0xF), 1);
    assert_eq!(lit_pixels(&emu), 0);
}

#[test]
fn draw_wraps_around_edges() {
    // V0 = 62, V1 = 31, I = 0 (first row 0xF0), draw one row.
    let mut emu = machine_with(&[0x60, 0x3E, 0x61, 0x1F, 0xA0, 0x00, 0xD0, 0x11]);
    run(&mut emu, 4);
    let screen = emu.get_display();
    assert!(screen[62 + 64 * 31]);
    assert!(screen[63 + 64 * 31]);
    assert!(screen[0 + 64 * 31]);
    assert!(screen[1 + 64 * 31]);
    assert!(!screen[2 + 64 * 31]);
    assert_eq!(lit_pixels(&emu), 4);
}

#[test]
fn random_is_masked() {
    let mut emu = machine_with(&[0xC0, 0x0F]);
    emu.tick_with(0xAB).unwrap();
    assert_eq!(emu.register(0), 0x0B);
    for _ in 0..50 {
        let mut emu = machine_with(&[0xC3, 0x5A]);
        emu.tick().unwrap();
        assert_eq!(emu.register(3) & !0x5A, 0);
    }
}

#[test]
fn key_wait_repeats_until_pressed() {
    let mut emu = machine_with(&[0xF2, 0x0A]);
    run(&mut emu, 1);
    assert_eq!(emu.program_counter(), 0x200);
    run(&mut emu, 1);
    assert_eq!(emu.program_counter(), 0x200);
    emu.keypress(9, true).unwrap();
    emu.keypress(5, true).unwrap();
    run(&mut emu, 1);
    assert_eq!(emu.register(2), 5);
    assert_eq!(emu.program_counter(), 0x202);
}

#[test]
fn key_skips() {
    let mut emu = machine_with(&[0x60, 0x04, 0xE0, 0x9E]);
    emu.keypress(4, true).unwrap();
    run(&mut emu, 2);
    assert_eq!(emu.program_counter(), 0x206);
    let mut emu = machine_with(&[0x60, 0x04, 0xE0, 0xA1]);
    run(&mut emu, 2);
    assert_eq!(emu.program_counter(), 0x206);
    emu.keypress(4, false).unwrap();
}

#[test]
fn key_skip_with_out_of_range_key() {
    let mut emu = machine_with(&[0x60, 0x10, 0xE0, 0x9E]);
    run(&mut emu, 1);
    assert_eq!(emu.tick_with(0), Err(Chip8Error::IndexOutOfRange));
    assert_eq!(emu.program_counter(), 0x202);
}

#[test]
fn keypress_out_of_range() {
    let mut emu = Emulator::new();
    assert_eq!(emu.keypress(16, true), Err(Chip8Error::IndexOutOfRange));
    assert_eq!(emu.keypress(15, true), Ok(()));
}

#[test]
fn timers() {
    let mut emu = machine_with(&[0x60, 0x02, 0xF0, 0x15, 0xF0, 0x18, 0xF1, 0x07]);
    run(&mut emu, 4);
    assert_eq!(emu.register(1), 2);
    assert_eq!(emu.delay_timer(), 2);
    assert_eq!(emu.sound_timer(), 2);
    assert!(!emu.tick_timers());
    assert_eq!(emu.delay_timer(), 1);
    assert!(emu.tick_timers());
    assert_eq!(emu.sound_timer(), 0);
    assert_eq!(emu.delay_timer(), 0);
    assert!(!emu.tick_timers());
    assert_eq!(emu.sound_timer(), 0);
    assert_eq!(emu.delay_timer(), 0);
}

#[test]
fn index_register_ops() {
    let mut emu = machine_with(&[0x60, 0x0A, 0xF0, 0x29]);
    run(&mut emu, 2);
    assert_eq!(emu.index_register(), 50);
    let mut emu = machine_with(&[0xA0, 0xFE, 0x60, 0x03, 0xF0, 0x1E]);
    run(&mut emu, 3);
    assert_eq!(emu.index_register(), 0x101);
}

#[test]
fn decimal_digits() {
    let mut emu = machine_with(&[0x60, 123, 0xA3, 0x00, 0xF0, 0x33]);
    run(&mut emu, 3);
    assert_eq!(emu.memory(0x300), 1);
    assert_eq!(emu.memory(0x301), 2);
    assert_eq!(emu.memory(0x302), 3);
}

#[test]
fn store_and_load_registers() {
    let mut emu = machine_with(&[
        0x60, 0x11, 0x61, 0x22, 0x62, 0x33, 0xA3, 0x00, 0xF1, 0x55, 0x60, 0x00, 0x61, 0x00,
        0x62, 0x00, 0xF2, 0x65,
    ]);
    run(&mut emu, 9);
    assert_eq!(emu.memory(0x300), 0x11);
    assert_eq!(emu.memory(0x301), 0x22);
    assert_eq!(emu.memory(0x302), 0x00);
    assert_eq!(emu.register(0), 0x11);
    assert_eq!(emu.register(1), 0x22);
    assert_eq!(emu.register(2), 0x00);
}

#[test]
fn unimplemented_opcode_leaves_state() {
    let mut emu = machine_with(&[0xFF, 0xFF]);
    assert_eq!(emu.tick_with(0), Err(Chip8Error::UnimplementedOpcode(0xFFFF)));
    assert_eq!(emu.program_counter(), 0x200);
    let mut emu = machine_with(&[0x51, 0x21]);
    assert_eq!(emu.tick_with(0), Err(Chip8Error::UnimplementedOpcode(0x5121)));
}

#[test]
fn return_with_empty_stack() {
    let mut emu = machine_with(&[0x00, 0xEE]);
    assert_eq!(emu.tick_with(0), Err(Chip8Error::StackUnderflow));
    assert_eq!(emu.program_counter(), 0x200);
}

#[test]
fn call_with_full_stack() {
    let mut emu = machine_with(&[0x22, 0x00]);
    run(&mut emu, 16);
    assert_eq!(emu.stack_pointer(), 16);
    assert_eq!(emu.tick_with(0), Err(Chip8Error::StackOverflow));
    assert_eq!(emu.stack_pointer(), 16);
}

#[test]
fn memory_bounds() {
    // I = 0xFFF: a one-row sprite fits, a two-row one does not.
    let mut emu = machine_with(&[0xAF, 0xFF, 0xD0, 0x01, 0xD0, 0x02]);
    run(&mut emu, 2);
    assert_eq!(emu.tick_with(0), Err(Chip8Error::AddressOutOfRange));
    let mut emu = machine_with(&[0x1F, 0xFF]);
    run(&mut emu, 1);
    assert_eq!(emu.tick_with(0), Err(Chip8Error::AddressOutOfRange));
    assert_eq!(emu.program_counter(), 0xFFF);
    let mut emu = machine_with(&[0xAF, 0xFE, 0xF0, 0x33]);
    run(&mut emu, 1);
    assert_eq!(emu.tick_with(0), Err(Chip8Error::AddressOutOfRange));
}
