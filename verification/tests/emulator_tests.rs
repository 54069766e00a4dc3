use chip8::config::Config;
use chip8::emulator::chip8::Chip8;
use chip8::emulator::quirks::Quirks;
use chip8::isa::CycleOutcome;

fn quirks() -> Quirks {
    Quirks { vf_reset: false, memory_increment: true, clipping: false, shifting: false }
}

fn machine_with(rom: &[u8], quirks: Quirks) -> Chip8 {
    let config = Config { cpu_hz: 700, quirks };
    let mut c = Chip8::new(&config);
    c.load_rom(rom, "test".to_string());
    c
}

fn machine(rom: &[u8]) -> Chip8 {
    machine_with(rom, quirks())
}

fn run(c: &mut Chip8, cycles: usize) {
    for _ in 0..cycles {
        assert!(c.can_cycle());
        assert_eq!(c.cycle_with_random(0), CycleOutcome::Executed);
    }
}

fn lit(c: &Chip8, x: usize, y: usize) -> bool {
    c.fb.pixels[y * 64 + x] == 1
}

#[test]
fn emulator_new_state() {
    let c = Chip8::new(&Config::default());
    assert_eq!(c.loaded_rom, "");
    assert_eq!(c.sound_timer, 0);
    assert!(c.fb.pixels.iter().all(|&p| p == 0));
}

#[test]
fn emulator_load_rom_records_name() {
    let c = machine(&[0x00, 0xE0]);
    assert_eq!(c.loaded_rom, "test");
}

#[test]
fn emulator_font_in_memory() {
    // I = 0x50, V0..V1 = font bytes of glyph 0, sound timer = V1
    let mut c = machine(&[0xA0, 0x50, 0xF1, 0x65, 0xF1, 0x18]);
    run(&mut c, 3);
    assert_eq!(c.sound_timer, 0x90);
}

#[test]
fn emulator_load_immediate() {
    let mut c = machine(&[0x60, 0x2A, 0xF0, 0x18]);
    run(&mut c, 2);
    assert_eq!(c.sound_timer, 0x2A);
}

#[test]
fn emulator_add_immediate_wraps() {
    let mut c = machine(&[0x60, 0xFF, 0x70, 0x02, 0xF0, 0x18]);
    run(&mut c, 3);
    assert_eq!(c.sound_timer, 1);
}

#[test]
fn emulator_add_with_carry() {
    // V0 = 200, V1 = 100, V0 += V1 -> 44, VF = 1
    let mut c = machine(&[0x60, 200, 0x61, 100, 0x80, 0x14, 0xF0, 0x18]);
    run(&mut c, 4);
    assert_eq!(c.sound_timer, 44);
    let mut c = machine(&[0x60, 200, 0x61, 100, 0x80, 0x14, 0xFF, 0x18]);
    run(&mut c, 4);
    assert_eq!(c.sound_timer, 1);
    let mut c = machine(&[0x60, 20, 0x61, 100, 0x80, 0x14, 0xFF, 0x18]);
    run(&mut c, 4);
    assert_eq!(c.sound_timer, 0);
}

#[test]
fn emulator_subtract_with_borrow() {
    let mut c = machine(&[0x60, 5, 0x61, 7, 0x80, 0x15, 0xF0, 0x18]);
    run(&mut c, 4);
    assert_eq!(c.sound_timer, 254);
    let mut c = machine(&[0x60, 5, 0x61, 7, 0x80, 0x15, 0xFF, 0x18]);
    run(&mut c, 4);
    assert_eq!(c.sound_timer, 0);
    let mut c = machine(&[0x60, 5, 0x61, 7, 0x80, 0x17, 0xFF, 0x18]);
    run(&mut c, 4);
    assert_eq!(c.sound_timer, 1);
}

#[test]
fn emulator_shifts() {
    let mut c = machine(&[0x60, 5, 0x80, 0x16, 0xF0, 0x18]);
    run(&mut c, 3);
    assert_eq!(c.sound_timer, 2);
    let mut c = machine(&[0x60, 5, 0x80, 0x16, 0xFF, 0x18]);
    run(&mut c, 3);
    assert_eq!(c.sound_timer, 1);
    let mut c = machine(&[0x60, 0x81, 0x80, 0x1E, 0xF0, 0x18]);
    run(&mut c, 3);
    assert_eq!(c.sound_timer, 2);
    let mut c = machine(&[0x60, 0x81, 0x80, 0x1E, 0xFF, 0x18]);
    run(&mut c, 3);
    assert_eq!(c.sound_timer, 1);
}

#[test]
fn emulator_shift_quirk_uses_vy() {
    let q = Quirks { vf_reset: false, memory_increment: true, clipping: false, shifting: true };
    let mut c = machine_with(&[0x60, 5, 0x61, 8, 0x80, 0x16, 0xF0, 0x18], q);
    run(&mut c, 4);
    assert_eq!(c.sound_timer, 4);
}

#[test]
fn emulator_logic_and_vf_reset() {
    let mut c = machine(&[0x6F, 9, 0x60, 0x0C, 0x61, 0x0A, 0x80, 0x11, 0xF0, 0x18]);
    run(&mut c, 5);
    assert_eq!(c.sound_timer, 0x0E);
    let mut c = machine(&[0x6F, 9, 0x60, 0x0C, 0x61, 0x0A, 0x80, 0x12, 0xFF, 0x18]);
    run(&mut c, 5);
    assert_eq!(c.sound_timer, 9);
    let q = Quirks { vf_reset: true, memory_increment: true, clipping: false, shifting: false };
    let mut c = machine_with(&[0x6F, 9, 0x60, 0x0C, 0x61, 0x0A, 0x80, 0x13, 0xFF, 0x18], q);
    run(&mut c, 5);
    assert_eq!(c.sound_timer, 0);
}

#[test]
fn emulator_skip_if_equal() {
    let mut c = machine(&[0x60, 1, 0x30, 1, 0x60, 9, 0xF0, 0x18]);
    run(&mut c, 3);
    assert_eq!(c.sound_timer, 1);
    let mut c = machine(&[0x60, 1, 0x40, 1, 0x60, 9, 0xF0, 0x18]);
    run(&mut c, 4);
    assert_eq!(c.sound_timer, 9);
}

#[test]
fn emulator_call_and_return() {
    // 200: call 206; 202: V0 = 7; 204: ST = V0; 206: return
    let mut c = machine(&[0x22, 0x06, 0x60, 0x07, 0xF0, 0x18, 0x00, 0xEE]);
    run(&mut c, 4);
    assert_eq!(c.sound_timer, 7);
}

#[test]
fn emulator_jump_with_offset() {
    // V0 = 4; jump to 0x200 + V0 = 0x204, skipping V1 = 9
    let mut c = machine(&[0x60, 0x04, 0xB2, 0x02, 0x61, 0x09, 0x61, 0x03, 0xF1, 0x18]);
    run(&mut c, 2);
    run(&mut c, 2);
    assert_eq!(c.sound_timer, 3);
}

#[test]
fn emulator_draw_and_collide() {
    // I = glyph 0; draw it at (0, 0); VF -> sound timer
    let mut c = machine(&[0xA0, 0x50, 0xD0, 0x15, 0xFF, 0x18, 0xD0, 0x15, 0xFF, 0x18]);
    run(&mut c, 3);
    assert_eq!(c.sound_timer, 0);
    for x in 0..4 {
        assert!(lit(&c, x, 0));
    }
    assert!(!lit(&c, 4, 0));
    assert!(lit(&c, 0, 1) && !lit(&c, 1, 1) && !lit(&c, 2, 1) && lit(&c, 3, 1));
    run(&mut c, 2);
    assert_eq!(c.sound_timer, 1);
    assert!(c.fb.pixels.iter().all(|&p| p == 0));
}

#[test]
fn emulator_draw_wraps_around() {
    // V0 = 62, V1 = 31; draw glyph 0 (2 rows): wraps to the left and top edges
    let mut c = machine(&[0xA0, 0x50, 0x60, 62, 0x61, 31, 0xD0, 0x12]);
    run(&mut c, 4);
    assert!(lit(&c, 62, 31) && lit(&c, 63, 31) && lit(&c, 0, 31) && lit(&c, 1, 31));
    assert!(lit(&c, 62, 0) && !lit(&c, 63, 0) && !lit(&c, 0, 0) && lit(&c, 1, 0));
}

#[test]
fn emulator_draw_clips() {
    let q = Quirks { vf_reset: false, memory_increment: true, clipping: true, shifting: false };
    let mut c = machine_with(&[0xA0, 0x50, 0x60, 62, 0x61, 31, 0xD0, 0x12], q);
    run(&mut c, 4);
    assert!(lit(&c, 62, 31) && lit(&c, 63, 31));
    assert!(!lit(&c, 0, 31) && !lit(&c, 1, 31));
    assert!(!lit(&c, 62, 0));
    assert_eq!(c.fb.pixels.iter().filter(|&&p| p == 1).count(), 2);
}

#[test]
fn emulator_draw_position_is_modular() {
    // V0 = 64 + 3, V1 = 32 + 2
    let mut c = machine(&[0xA0, 0x50, 0x60, 67, 0x61, 34, 0xD0, 0x11]);
    run(&mut c, 4);
    assert!(lit(&c, 3, 2) && lit(&c, 6, 2) && !lit(&c, 7, 2));
}

#[test]
fn emulator_clear_screen() {
    let mut c = machine(&[0xA0, 0x50, 0xD0, 0x15, 0x00, 0xE0]);
    run(&mut c, 3);
    assert!(c.fb.pixels.iter().all(|&p| p == 0));
}

#[test]
fn emulator_bcd_and_load() {
    // V0 = 251; I = 0x300; BCD; load V0..V2; ST = V1 (tens)
    let mut c = machine(&[0x60, 251, 0xA3, 0x00, 0xF0, 0x33, 0xF2, 0x65, 0xF1, 0x18]);
    run(&mut c, 5);
    assert_eq!(c.sound_timer, 5);
}

#[test]
fn emulator_store_load_round_trip() {
    // V0 = 1, V1 = 2, V2 = 3; I = 0x300; store V0..V2; I advanced to 0x303;
    // I = 0x300; clear V1; load V0..V2; ST = V1
    let rom = [
        0x60, 1, 0x61, 2, 0x62, 3, 0xA3, 0x00, 0xF2, 0x55, 0xA3, 0x00, 0x61, 0, 0xF2, 0x65, 0xF1,
        0x18,
    ];
    let mut c = machine(&rom);
    run(&mut c, 9);
    assert_eq!(c.sound_timer, 2);
}

#[test]
fn emulator_memory_increment_moves_i() {
    // store V0..V1 at 0x300, then load V0 from I (now 0x302, still zero)
    let rom = [0x60, 7, 0xA3, 0x00, 0xF1, 0x55, 0xF0, 0x65, 0xF0, 0x18];
    let mut c = machine(&rom);
    run(&mut c, 5);
    assert_eq!(c.sound_timer, 0);
    let q = Quirks { vf_reset: false, memory_increment: false, clipping: false, shifting: false };
    let mut c = machine_with(&rom, q);
    run(&mut c, 5);
    assert_eq!(c.sound_timer, 7);
}

#[test]
fn emulator_font_address() {
    // V0 = 1; I = glyph 1; load V0 -> first byte of glyph 1
    let mut c = machine(&[0x60, 1, 0xF0, 0x29, 0xF0, 0x65, 0xF0, 0x18]);
    run(&mut c, 4);
    assert_eq!(c.sound_timer, 0x20);
    // V0 = 0xF; glyph F ends with 0x80 0x80
    let mut c = machine(&[0x60, 0xF, 0xF0, 0x29, 0xF4, 0x65, 0xF4, 0x18]);
    run(&mut c, 4);
    assert_eq!(c.sound_timer, 0x80);
}

#[test]
fn emulator_draw_at_vf() {
    // VF = 5, V0 = 0, I = glyph 0; DF05 draws at (VF, V0) = (5, 0) as VF was
    let mut c = machine(&[0x6F, 5, 0xA0, 0x50, 0xDF, 0x05, 0xFF, 0x18]);
    run(&mut c, 4);
    assert!(!lit(&c, 0, 0));
    for x in 5..9 {
        assert!(lit(&c, x, 0));
    }
    assert_eq!(c.sound_timer, 0);
}

#[test]
fn emulator_store_at_top_of_address_space() {
    // I = 0xFFE + 240 * 255 + 240 = 0xFFFE; store V0..V1: I + X == 0xFFFF
    let mut rom = vec![0x62, 0xFF, 0x63, 0xF0, 0xAF, 0xFE];
    for _ in 0..240 {
        rom.extend_from_slice(&[0xF2, 0x1E]);
    }
    rom.extend_from_slice(&[0xF3, 0x1E, 0xF1, 0x55]);
    let q = Quirks { vf_reset: false, memory_increment: false, clipping: false, shifting: false };
    let mut c = machine_with(&rom, q);
    run(&mut c, 244);
    assert!(c.can_cycle());
    assert_eq!(c.cycle_with_random(0), CycleOutcome::Executed);
    let mut c = machine(&rom);
    run(&mut c, 244);
    assert!(!c.can_cycle());
}

#[test]
fn emulator_accessors() {
    let mut c = machine(&[0x60, 9, 0xF0, 0x18, 0xA0, 0x50, 0xD0, 0x11]);
    run(&mut c, 4);
    assert_eq!(c.sound_timer(), 9);
    assert_eq!(c.loaded_rom(), "test");
    assert_eq!(c.framebuffer().pixels[9], 1);
}

#[test]
fn emulator_index_add() {
    let mut c = machine(&[0x60, 0x10, 0xA0, 0x40, 0xF0, 0x1E, 0xF0, 0x65, 0xF0, 0x18]);
    run(&mut c, 5);
    assert_eq!(c.sound_timer, 0xF0);
}

#[test]
fn emulator_timers() {
    let mut c = machine(&[0x60, 3, 0xF0, 0x15, 0xF0, 0x18, 0xF1, 0x07, 0xF1, 0x18]);
    run(&mut c, 3);
    c.update_timers();
    run(&mut c, 2);
    assert_eq!(c.sound_timer, 2);
    c.update_timers();
    c.update_timers();
    c.update_timers();
    assert_eq!(c.sound_timer, 0);
}

#[test]
fn emulator_random_masked() {
    let mut c = machine(&[0xC0, 0x0F, 0xF0, 0x18]);
    assert_eq!(c.cycle_with_random(0xAB), CycleOutcome::Executed);
    run(&mut c, 1);
    assert_eq!(c.sound_timer, 0x0B);
    for _ in 0..20 {
        let mut c = machine(&[0xC0, 0x0F, 0xF0, 0x18]);
        assert_eq!(c.cycle(), CycleOutcome::Executed);
        assert_eq!(c.cycle(), CycleOutcome::Executed);
        assert!(c.sound_timer <= 0x0F);
    }
}

#[test]
fn emulator_skip_on_key() {
    let mut c = machine(&[0x60, 5, 0xE0, 0x9E, 0x61, 9, 0xF1, 0x18]);
    c.press_key(5);
    run(&mut c, 3);
    assert_eq!(c.sound_timer, 0);
    let mut c = machine(&[0x60, 5, 0xE0, 0xA1, 0x61, 9, 0xF1, 0x18]);
    run(&mut c, 3);
    assert_eq!(c.sound_timer, 0);
    let mut c = machine(&[0x60, 5, 0xE0, 0x9E, 0x61, 9, 0xF1, 0x18]);
    run(&mut c, 4);
    assert_eq!(c.sound_timer, 9);
}

#[test]
fn emulator_wait_for_key() {
    let mut c = machine(&[0xF0, 0x0A, 0xF0, 0x18]);
    run(&mut c, 3);
    c.update_keyboard_states();
    run(&mut c, 1);
    c.press_key(5);
    c.press_key(7);
    c.update_keyboard_states();
    c.release_key(7);
    c.release_key(5);
    run(&mut c, 2);
    assert_eq!(c.sound_timer, 5);
}

#[test]
fn emulator_unrecognized_instruction() {
    let mut c = machine(&[0x01, 0x23, 0x80, 0x08, 0xE0, 0x00, 0xF0, 0x99, 0x60, 4, 0xF0, 0x18]);
    assert_eq!(c.cycle_with_random(0), CycleOutcome::Unrecognized(0x0123));
    assert_eq!(c.cycle_with_random(0), CycleOutcome::Unrecognized(0x8008));
    assert_eq!(c.cycle_with_random(0), CycleOutcome::Unrecognized(0xE000));
    assert_eq!(c.cycle_with_random(0), CycleOutcome::Unrecognized(0xF099));
    run(&mut c, 2);
    assert_eq!(c.sound_timer, 4);
}

#[test]
fn emulator_fetch_outside_memory() {
    // jump to 0xFFF, whose second byte lies past the end of RAM
    let mut c = machine(&[0x1F, 0xFF]);
    run(&mut c, 1);
    assert_eq!(c.cycle_with_random(0), CycleOutcome::InvalidAddress);
    assert_eq!(c.cycle_with_random(0), CycleOutcome::InvalidAddress);
}

#[test]
fn emulator_can_cycle_refuses_faults() {
    // return with an empty stack
    let c = machine(&[0x00, 0xEE]);
    assert!(!c.can_cycle());
    // key number out of range
    let mut c = machine(&[0x60, 16, 0xE0, 0x9E]);
    run(&mut c, 1);
    assert!(!c.can_cycle());
    // fifteen nested calls fit, the sixteenth does not
    let mut c = machine(&[0x22, 0x00]);
    run(&mut c, 15);
    assert!(!c.can_cycle());
}
