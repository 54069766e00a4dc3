use std::time::Duration;
use chip8::chip8::Chip8;
use chip8::isa::CycleOutcome;

fn machine(rom: &[u8]) -> Chip8 {
    let mut c = Chip8::new();
    c.load_rom(rom);
    c
}

fn run(c: &mut Chip8, cycles: usize) {
    for _ in 0..cycles {
        assert!(c.can_cycle());
        assert_eq!(c.cycle_with_random(0), CycleOutcome::Executed);
    }
}

fn lit(c: &Chip8, x: usize, y: usize) -> bool {
    c.fb.pixels[y * 64 + x] == 1
}

#[test]
fn timer_interval_is_one_sixtieth_second() {
    let c = Chip8::new();
    assert_eq!(c.timer_interval, Duration::from_secs_f64(1.0 / 60.0));
    assert_eq!(c.timer_interval, Duration::from_nanos(16_666_667));
    assert_eq!(c.timer_interval(), c.timer_interval);
}

#[test]
fn playing_sound_follows_timer() {
    let mut c = machine(&[0x60, 2, 0xF0, 0x18]);
    assert!(!c.playing_sound());
    run(&mut c, 2);
    assert!(c.playing_sound());
    c.update_timers();
    assert!(c.playing_sound());
    c.update_timers();
    assert!(!c.playing_sound());
    c.update_timers();
    assert_eq!(c.sound_timer, 0);
}

#[test]
fn arithmetic_through_sound_timer() {
    let mut c = machine(&[0x60, 200, 0x61, 100, 0x80, 0x14, 0xF0, 0x18]);
    run(&mut c, 4);
    assert_eq!(c.sound_timer, 44);
    let mut c = machine(&[0x60, 200, 0x61, 100, 0x80, 0x14, 0xFF, 0x18]);
    run(&mut c, 4);
    assert_eq!(c.sound_timer, 1);
}

#[test]
fn no_memory_increment() {
    // store V0..V1 at 0x300; I stays at 0x300; load V0 back
    let rom = [0x60, 7, 0xA3, 0x00, 0xF1, 0x55, 0x60, 0, 0xF0, 0x65, 0xF0, 0x18];
    let mut c = machine(&rom);
    run(&mut c, 6);
    assert_eq!(c.sound_timer, 7);
}

#[test]
fn draw_twice_restores() {
    let mut c = machine(&[0xA0, 0x5A, 0xD0, 0x15, 0xD0, 0x15, 0xFF, 0x18]);
    run(&mut c, 2);
    assert!(lit(&c, 0, 0));
    run(&mut c, 2);
    assert!(c.fb.pixels.iter().all(|&p| p == 0));
    assert_eq!(c.sound_timer, 1);
}

#[test]
fn draw_wraps_around() {
    let mut c = machine(&[0xA0, 0x50, 0x60, 62, 0x61, 31, 0xD0, 0x12]);
    run(&mut c, 4);
    assert!(lit(&c, 62, 31) && lit(&c, 63, 31) && lit(&c, 0, 31) && lit(&c, 1, 31));
    assert!(lit(&c, 62, 0) && lit(&c, 1, 0));
}

#[test]
fn lowest_released_key() {
    let mut c = machine(&[0xF0, 0x0A, 0xF0, 0x18]);
    run(&mut c, 2);
    c.press_key(3);
    c.press_key(9);
    c.update_keyboard_states();
    c.release_key(3);
    c.release_key(9);
    run(&mut c, 2);
    assert_eq!(c.sound_timer, 3);
}

#[test]
fn call_and_return() {
    let mut c = machine(&[0x22, 0x06, 0x60, 0x07, 0xF0, 0x18, 0x00, 0xEE]);
    run(&mut c, 4);
    assert_eq!(c.sound_timer, 7);
}

#[test]
fn key_skips() {
    let mut c = machine(&[0x60, 0xA, 0xE0, 0x9E, 0x61, 9, 0xF1, 0x18]);
    c.press_key(0xA);
    run(&mut c, 3);
    assert_eq!(c.sound_timer, 0);
    c.release_key(0xA);
    let mut c = machine(&[0x60, 0xA, 0xE0, 0xA1, 0x61, 9, 0xF1, 0x18]);
    c.press_key(0xA);
    run(&mut c, 4);
    assert_eq!(c.sound_timer, 9);
}

#[test]
fn unrecognized_instruction() {
    let mut c = machine(&[0x0F, 0xFF, 0x60, 4, 0xF0, 0x18]);
    assert_eq!(c.cycle_with_random(0), CycleOutcome::Unrecognized(0x0FFF));
    run(&mut c, 2);
    assert_eq!(c.sound_timer, 4);
}

#[test]
fn random_with_given_byte() {
    let mut c = machine(&[0xC0, 0xF0, 0xF0, 0x18]);
    assert_eq!(c.cycle_with_random(0x5A), CycleOutcome::Executed);
    run(&mut c, 1);
    assert_eq!(c.sound_timer, 0x50);
    let mut c = machine(&[0xC0, 0x00, 0xF0, 0x18]);
    assert_eq!(c.cycle(), CycleOutcome::Executed);
    assert_eq!(c.cycle(), CycleOutcome::Executed);
    assert_eq!(c.sound_timer, 0);
}

#[test]
fn can_cycle_refuses_memory_faults() {
    // I = 0xFFE; BCD would write past the end of RAM
    let mut c = machine(&[0xAF, 0xFE, 0xF0, 0x33]);
    run(&mut c, 1);
    assert!(!c.can_cycle());
    // a sprite read past the end of RAM
    let mut c = machine(&[0xAF, 0xFE, 0xD0, 0x15]);
    run(&mut c, 1);
    assert!(!c.can_cycle());
    // a fetch past the end of RAM
    let mut c = machine(&[0x1F, 0xFF]);
    run(&mut c, 1);
    assert!(!c.can_cycle());
}

#[test]
fn load_rom_copies_program() {
    let mut c = machine(&[0x60, 0x12, 0xA2, 0x00, 0xF0, 0x65, 0xF0, 0x18]);
    run(&mut c, 4);
    assert_eq!(c.sound_timer, 0x60);
}

#[test]
fn font_glyph_address() {
    // V0 = 2; I = glyph 2; load V0..V1; ST = V1 (second byte of glyph 2)
    let mut c = machine(&[0x60, 2, 0xF0, 0x29, 0xF1, 0x65, 0xF1, 0x18]);
    run(&mut c, 4);
    assert_eq!(c.sound_timer(), 0x10);
}

#[test]
fn draw_coordinates_read_before_vf_cleared() {
    // VF = 8, V1 = 1; DF15 draws glyph 0 at (8, 1)
    let mut c = machine(&[0x6F, 8, 0x61, 1, 0xA0, 0x50, 0xDF, 0x15]);
    run(&mut c, 4);
    assert!(lit(&c, 8, 1) && lit(&c, 11, 1) && !lit(&c, 0, 1));
    assert_eq!(c.framebuffer().pixels[64 + 8], 1);
}
