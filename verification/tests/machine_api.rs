use chip8::keymap;
use chip8::render;
use chip8::Chip8;
use chip8::Chip8Error;

#[test]
fn add_flag_examples() {
    let mut chip8 = Chip8::new();
    chip8.memory[0x200] = 0x80;
    chip8.memory[0x201] = 0x14;
    chip8.registers[0] = 0x39;
    chip8.registers[1] = 0x0D;
    chip8.step_with_random(0).unwrap();
    assert_eq!(chip8.registers[0], 0x46);
    assert_eq!(chip8.registers[0xF], 0);

    let mut chip8 = Chip8::new();
    chip8.memory[0x200] = 0x80;
    chip8.memory[0x201] = 0x14;
    chip8.registers[0] = 0x39;
    chip8.registers[1] = 0xFF;
    chip8.step_with_random(0).unwrap();
    assert_eq!(chip8.registers[0], 0x38);
    assert_eq!(chip8.registers[0xF], 1);
}

#[test]
fn sub_flag_examples() {
    let mut chip8 = Chip8::new();
    chip8.memory[0x200] = 0x80;
    chip8.memory[0x201] = 0x15;
    chip8.registers[0] = 0x39;
    chip8.registers[1] = 0x0D;
    chip8.step_with_random(0).unwrap();
    assert_eq!(chip8.registers[0], 0x2C);
    assert_eq!(chip8.registers[0xF], 1);

    let mut chip8 = Chip8::new();
    chip8.memory[0x200] = 0x80;
    chip8.memory[0x201] = 0x15;
    chip8.registers[0] = 0x39;
    chip8.registers[1] = 0xFF;
    chip8.step_with_random(0).unwrap();
    assert_eq!(chip8.registers[0], 0x3A);
    assert_eq!(chip8.registers[0xF], 0);
}

#[test]
fn load_resets_and_copies() {
    let mut chip8 = Chip8::new();
    chip8.registers[3] = 7;
    chip8.delay_timer = 9;
    chip8.graphics[100] = 1;
    chip8.i = 0x300;
    chip8.pc = 0x400;
    chip8.sp = 2;
    let program = vec![0x13u8, 0x5F, 0xAA];
    chip8.load(&program).unwrap();
    assert_eq!(chip8.pc, 0x200);
    assert_eq!(chip8.sp, 0);
    assert_eq!(chip8.i, 0);
    assert_eq!(chip8.delay_timer, 0);
    assert_eq!(chip8.memory[0x200], 0x13);
    assert_eq!(chip8.memory[0x201], 0x5F);
    assert_eq!(chip8.memory[0x202], 0xAA);
    assert_eq!(chip8.memory[0x203], 0);
    assert_eq!(chip8.registers[3], 0);
    assert_eq!(chip8.graphics[100], 0);
    // The glyph table survives a load.
    assert_eq!(chip8.memory[0], 0xF0);
}

#[test]
fn load_rejects_oversized_program() {
    let mut chip8 = Chip8::new();
    chip8.registers[3] = 7;
    let program = vec![0u8; 3585];
    assert_eq!(chip8.load(&program), Err(Chip8Error::OutOfBoundsAccess));
    // Nothing was changed by the rejected load.
    assert_eq!(chip8.registers[3], 7);

    let exact = vec![0xAAu8; 3584];
    assert_eq!(chip8.load(&exact), Ok(()));
    assert_eq!(chip8.memory[4095], 0xAA);
}

#[test]
fn unsupported_opcode_reports_pattern_and_address() {
    let mut chip8 = Chip8::new();
    chip8.memory[0x200] = 0x8A;
    chip8.memory[0x201] = 0xB7;
    let err = chip8.cycle().unwrap_err();
    assert_eq!(
        err,
        Chip8Error::UnsupportedOpcode { a: 0x8, b: 0xA, c: 0xB, d: 0x7, addr: 0x200 },
    );
    assert_eq!(chip8.pc, 0x200);
}

#[test]
fn return_with_empty_stack_underflows() {
    let mut chip8 = Chip8::new();
    chip8.memory[0x200] = 0x00;
    chip8.memory[0x201] = 0xEE;
    assert_eq!(chip8.cycle(), Err(Chip8Error::StackUnderflow));
    assert_eq!(chip8.sp, 0);
    assert_eq!(chip8.pc, 0x200);
}

#[test]
fn call_with_full_stack_overflows() {
    let mut chip8 = Chip8::new();
    chip8.memory[0x200] = 0x25;
    chip8.memory[0x201] = 0x00;
    chip8.sp = 32;
    assert_eq!(chip8.cycle(), Err(Chip8Error::StackOverflow));
    assert_eq!(chip8.sp, 32);
    assert_eq!(chip8.pc, 0x200);
}

#[test]
fn fetch_past_memory_is_out_of_bounds() {
    let mut chip8 = Chip8::new();
    chip8.pc = 0xFFF;
    assert_eq!(chip8.cycle(), Err(Chip8Error::OutOfBoundsAccess));
    assert_eq!(chip8.pc, 0xFFF);
}

#[test]
fn index_arithmetic_past_memory_is_out_of_bounds() {
    let mut chip8 = Chip8::new();
    chip8.memory[0x200] = 0xF4;
    chip8.memory[0x201] = 0x1E;
    chip8.i = 0xFFF;
    chip8.registers[4] = 0x20;
    assert_eq!(chip8.cycle(), Err(Chip8Error::OutOfBoundsAccess));
    assert_eq!(chip8.i, 0xFFF);
}

#[test]
fn sprite_draw_past_framebuffer_is_out_of_bounds() {
    let mut chip8 = Chip8::new();
    chip8.memory[0x200] = 0xD0;
    chip8.memory[0x201] = 0x15;
    chip8.registers[0] = 60;
    chip8.registers[1] = 31;
    chip8.i = 0x500;
    assert_eq!(chip8.cycle(), Err(Chip8Error::OutOfBoundsAccess));
    assert_eq!(chip8.registers[0xF], 0);
}

#[test]
fn bcd_write_past_memory_is_out_of_bounds() {
    let mut chip8 = Chip8::new();
    chip8.memory[0x200] = 0xF1;
    chip8.memory[0x201] = 0x33;
    chip8.i = 0xFFE;
    assert_eq!(chip8.cycle(), Err(Chip8Error::OutOfBoundsAccess));
}

#[test]
fn block_transfer_past_memory_is_out_of_bounds() {
    let mut chip8 = Chip8::new();
    chip8.memory[0x200] = 0xF7;
    chip8.memory[0x201] = 0x55;
    chip8.i = 0xFFA;
    assert_eq!(chip8.cycle(), Err(Chip8Error::OutOfBoundsAccess));
}

#[test]
fn timers_saturate_at_zero() {
    let mut chip8 = Chip8::new();
    chip8.delay_timer = 2;
    chip8.sound_timer = 1;
    chip8.tick_timers();
    assert_eq!(chip8.delay_timer, 1);
    assert_eq!(chip8.sound_timer, 0);
    chip8.tick_timers();
    assert_eq!(chip8.delay_timer, 0);
    assert_eq!(chip8.sound_timer, 0);
    chip8.tick_timers();
    assert_eq!(chip8.delay_timer, 0);
    assert_eq!(chip8.sound_timer, 0);
}

#[test]
fn delay_timer_round_trip() {
    let mut chip8 = Chip8::new();
    chip8.memory[0x200] = 0xF3;
    chip8.memory[0x201] = 0x15;
    chip8.memory[0x202] = 0xF7;
    chip8.memory[0x203] = 0x07;
    chip8.registers[3] = 42;
    chip8.step_with_random(0).unwrap();
    assert_eq!(chip8.delay_timer, 42);
    chip8.step_with_random(0).unwrap();
    assert_eq!(chip8.registers[7], 42);
}

#[test]
fn keypad_transitions() {
    let mut chip8 = Chip8::new();
    assert!(!chip8.keys[0xA]);
    chip8.key_down(0xA);
    assert!(chip8.keys[0xA]);
    chip8.key_down(0x3);
    assert!(chip8.keys[0x3]);
    chip8.key_up(0xA);
    assert!(!chip8.keys[0xA]);
    assert!(chip8.keys[0x3]);
}

#[test]
fn redraw_signal_raised_by_display_opcodes() {
    let mut chip8 = Chip8::new();
    assert!(!chip8.needs_redraw);
    chip8.memory[0x200] = 0x6A;
    chip8.memory[0x201] = 0x10;
    chip8.step_with_random(0).unwrap();
    assert!(!chip8.needs_redraw);
    chip8.memory[0x202] = 0x00;
    chip8.memory[0x203] = 0xE0;
    chip8.step_with_random(0).unwrap();
    assert!(chip8.needs_redraw);
    chip8.needs_redraw = false;
    chip8.memory[0x204] = 0xD0;
    chip8.memory[0x205] = 0x11;
    chip8.step_with_random(0).unwrap();
    assert!(chip8.needs_redraw);
}

#[test]
fn render_flips_vertically_and_colors_green() {
    let mut chip8 = Chip8::new();
    chip8.graphics[64 * 12 + 10] = 1;
    let mut framebuffer = vec![0xCCu8; 3 * 64 * 32];
    render(&chip8, &mut framebuffer);
    let lit = 3 * ((31 - 12) * 64 + 10);
    assert_eq!(framebuffer[lit], 0);
    assert_eq!(framebuffer[lit + 1], 255);
    assert_eq!(framebuffer[lit + 2], 0);
    let dark = 3 * ((31 - 13) * 64 + 10);
    assert_eq!(framebuffer[dark], 0);
    assert_eq!(framebuffer[dark + 1], 0);
    assert_eq!(framebuffer[dark + 2], 0);
}

#[test]
fn keymap_covers_the_sixteen_keys() {
    assert_eq!(keymap(2), Some(0x1));
    assert_eq!(keymap(3), Some(0x2));
    assert_eq!(keymap(4), Some(0x3));
    assert_eq!(keymap(5), Some(0xC));
    assert_eq!(keymap(16), Some(0x4));
    assert_eq!(keymap(17), Some(0x5));
    assert_eq!(keymap(18), Some(0x6));
    assert_eq!(keymap(19), Some(0xD));
    assert_eq!(keymap(30), Some(0x7));
    assert_eq!(keymap(31), Some(0x8));
    assert_eq!(keymap(32), Some(0x9));
    assert_eq!(keymap(33), Some(0xE));
    assert_eq!(keymap(44), Some(0xA));
    assert_eq!(keymap(45), Some(0x0));
    assert_eq!(keymap(46), Some(0xB));
    assert_eq!(keymap(47), Some(0xF));
    assert_eq!(keymap(1), None);
    assert_eq!(keymap(48), None);
}

#[test]
fn glyph_index_uses_low_nibble_only() {
    let mut chip8 = Chip8::new();
    chip8.memory[0x200] = 0xF2;
    chip8.memory[0x201] = 0x29;
    chip8.registers[2] = 0xD7;
    chip8.step_with_random(0).unwrap();
    assert_eq!(chip8.i, 5 * 0x7);
}

#[test]
fn draw_with_zero_rows_touches_nothing() {
    let mut chip8 = Chip8::new();
    chip8.memory[0x200] = 0xD0;
    chip8.memory[0x201] = 0x10;
    chip8.registers[0xF] = 1;
    chip8.step_with_random(0).unwrap();
    assert_eq!(chip8.registers[0xF], 0);
    assert!(chip8.graphics.iter().all(|&cell| cell == 0));
    assert!(chip8.needs_redraw);
    assert_eq!(chip8.pc, 0x202);
}

#[test]
fn load_empty_program() {
    let mut chip8 = Chip8::new();
    chip8.registers[2] = 9;
    chip8.load(&[]).unwrap();
    assert_eq!(chip8.pc, 0x200);
    assert_eq!(chip8.registers[2], 0);
    assert_eq!(chip8.memory[0x200], 0);
}
