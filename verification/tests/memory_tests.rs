use chip8::memory::Memory;
use chip8::emulator::memory::Memory as CheckedMemory;

#[test]
fn memory_starts_zeroed() {
    let m = Memory::new();
    assert_eq!(m.read_byte(0), 0);
    assert_eq!(m.read_byte(4095), 0);
}

#[test]
fn memory_read_after_write() {
    let mut m = Memory::new();
    m.write_byte(0x300, 0xAB);
    assert_eq!(m.read_byte(0x300), 0xAB);
    assert_eq!(m.read_byte(0x301), 0);
    assert_eq!(m.read_byte(0x2FF), 0);
}

#[test]
fn memory_word_is_big_endian() {
    let mut m = Memory::new();
    m.write_byte(0x200, 0x12);
    m.write_byte(0x201, 0x34);
    assert_eq!(m.read_word(0x200), 0x1234);
    assert_eq!(m.read_word(0x201), 0x3400);
}

#[test]
fn memory_last_word() {
    let mut m = Memory::new();
    m.write_byte(4094, 0xFE);
    m.write_byte(4095, 0xDC);
    assert_eq!(m.read_word(4094), 0xFEDC);
}

#[test]
fn checked_memory_read_after_write() {
    let mut m = CheckedMemory::new();
    m.write_byte(0x0ABC, 7);
    assert_eq!(m.read_byte(0x0ABC), Some(7));
    assert_eq!(m.read_byte(0x0ABD), Some(0));
}

#[test]
fn checked_memory_outside_ram() {
    let mut m = CheckedMemory::new();
    m.write_byte(4096, 9);
    m.write_byte(0xFFFF, 9);
    assert_eq!(m.read_byte(4096), None);
    assert_eq!(m.read_byte(0xFFFF), None);
    assert_eq!(m.read_byte(4095), Some(0));
}

#[test]
fn checked_memory_words() {
    let mut m = CheckedMemory::new();
    m.write_byte(0x200, 0xA2);
    m.write_byte(0x201, 0x2A);
    m.write_byte(4095, 0x11);
    assert_eq!(m.read_word(0x200), Some(0xA22A));
    assert_eq!(m.read_word(4094), Some(0x0011));
    assert_eq!(m.read_word(4095), None);
    assert_eq!(m.read_word(0xFFFF), None);
}
