use chip8::config::Config;
use chip8::emulator::quirks::Quirks;
use chip8::host::{chip8_key, cycles_per_tick};

#[test]
fn default_config() {
    let c = Config::default();
    assert_eq!(c.cpu_hz, 700);
    assert!(!c.quirks.vf_reset);
    assert!(c.quirks.memory_increment);
    assert!(!c.quirks.clipping);
    assert!(!c.quirks.shifting);
}

#[test]
fn quirks_copied_from_config() {
    let c = Config {
        cpu_hz: 500,
        quirks: Quirks { vf_reset: true, memory_increment: false, clipping: true, shifting: true },
    };
    let q = Quirks::new(&c);
    assert!(q.vf_reset && !q.memory_increment && q.clipping && q.shifting);
}

#[test]
fn cycles_per_tick_rounds() {
    assert_eq!(cycles_per_tick(700), 12);
    assert_eq!(cycles_per_tick(1000), 17);
    assert_eq!(cycles_per_tick(60), 1);
    assert_eq!(cycles_per_tick(29), 0);
    assert_eq!(cycles_per_tick(30), 1);
    assert_eq!(cycles_per_tick(90), 2);
    assert_eq!(cycles_per_tick(0), 0);
    assert_eq!(cycles_per_tick(u32::MAX), 71582788);
}

#[test]
fn key_layout() {
    assert_eq!(chip8_key('1'), Some(0x1));
    assert_eq!(chip8_key('4'), Some(0xC));
    assert_eq!(chip8_key('Q'), Some(0x4));
    assert_eq!(chip8_key('R'), Some(0xD));
    assert_eq!(chip8_key('F'), Some(0xE));
    assert_eq!(chip8_key('Z'), Some(0xA));
    assert_eq!(chip8_key('X'), Some(0x0));
    assert_eq!(chip8_key('V'), Some(0xF));
    assert_eq!(chip8_key('Y'), None);
    assert_eq!(chip8_key('q'), None);
}
