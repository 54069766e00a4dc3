//! Decisions of the front end that drives an interpreter: how many
//! instructions run per timer tick and which host key stands for which
//! CHIP-8 key.

use vstd::prelude::*;

verus! {

/// Timer ticks per second.
pub const TIMER_HZ: u32 = 60;

/// Instructions to run per timer tick so that `cpu_hz` instructions run per
/// second: `cpu_hz / 60` rounded to the nearest integer, halves rounded up.
pub fn cycles_per_tick(cpu_hz: u32) -> (n: u32)
    ensures
        60 * n <= cpu_hz + 30 < 60 * n + 60,
{
    cpu_hz / TIMER_HZ + if cpu_hz % TIMER_HZ >= TIMER_HZ / 2 { 1 } else { 0 }
}

/// The CHIP-8 key that a host key stands for on a QWERTY keyboard:
///
/// ```text
/// 1 2 3 C      1 2 3 4
/// 4 5 6 D  <-  Q W E R
/// 7 8 9 E      A S D F
/// A 0 B F      Z X C V
/// ```
pub open spec fn key_layout(key: char) -> Option<u8> {
    if key == '1' {
        Some(0x1u8)
    } else if key == '2' {
        Some(0x2u8)
    } else if key == '3' {
        Some(0x3u8)
    } else if key == '4' {
        Some(0xCu8)
    } else if key == 'Q' {
        Some(0x4u8)
    } else if key == 'W' {
        Some(0x5u8)
    } else if key == 'E' {
        Some(0x6u8)
    } else if key == 'R' {
        Some(0xDu8)
    } else if key == 'A' {
        Some(0x7u8)
    } else if key == 'S' {
        Some(0x8u8)
    } else if key == 'D' {
        Some(0x9u8)
    } else if key == 'F' {
        Some(0xEu8)
    } else if key == 'Z' {
        Some(0xAu8)
    } else if key == 'X' {
        Some(0x0u8)
    } else if key == 'C' {
        Some(0xBu8)
    } else if key == 'V' {
        Some(0xFu8)
    } else {
        None
    }
}

/// The CHIP-8 key of host key `key` (a digit or an upper-case letter), if any.
pub fn chip8_key(key: char) -> (k: Option<u8>)
    ensures
        k == key_layout(key),
        k matches Some(n) ==> n < 16,
{
    match key {
        '1' => Some(0x1),
        '2' => Some(0x2),
        '3' => Some(0x3),
        '4' => Some(0xC),
        'Q' => Some(0x4),
        'W' => Some(0x5),
        'E' => Some(0x6),
        'R' => Some(0xD),
        'A' => Some(0x7),
        'S' => Some(0x8),
        'D' => Some(0x9),
        'F' => Some(0xE),
        'Z' => Some(0xA),
        'X' => Some(0x0),
        'C' => Some(0xB),
        'V' => Some(0xF),
        _ => None,
    }
}

/// Every CHIP-8 key has exactly one host key.
pub proof fn lemma_layout_covers_keypad(k: u8)
    requires
        k < 16,
    ensures
        exists|c: char| #[trigger] key_layout(c) == Some(k),
        forall|c: char, d: char|
            key_layout(c) == Some(k) && key_layout(d) == Some(k) ==> c == d,
{
    if k == 0x0 { assert(key_layout('X') == Some(k)); }
    else if k == 0x1 { assert(key_layout('1') == Some(k)); }
    else if k == 0x2 { assert(key_layout('2') == Some(k)); }
    else if k == 0x3 { assert(key_layout('3') == Some(k)); }
    else if k == 0x4 { assert(key_layout('Q') == Some(k)); }
    else if k == 0x5 { assert(key_layout('W') == Some(k)); }
    else if k == 0x6 { assert(key_layout('E') == Some(k)); }
    else if k == 0x7 { assert(key_layout('A') == Some(k)); }
    else if k == 0x8 { assert(key_layout('S') == Some(k)); }
    else if k == 0x9 { assert(key_layout('D') == Some(k)); }
    else if k == 0xA { assert(key_layout('Z') == Some(k)); }
    else if k == 0xB { assert(key_layout('C') == Some(k)); }
    else if k == 0xC { assert(key_layout('4') == Some(k)); }
    else if k == 0xD { assert(key_layout('R') == Some(k)); }
    else if k == 0xE { assert(key_layout('F') == Some(k)); }
    else { assert(key_layout('V') == Some(k)); }
}

/// The host keys of the layout, row by row.
pub open spec fn host_rows() -> Seq<char> {
    seq!['1', '2', '3', '4', 'Q', 'W', 'E', 'R', 'A', 'S', 'D', 'F', 'Z', 'X', 'C', 'V']
}

/// The CHIP-8 keypad, row by row.
pub open spec fn keypad_rows() -> Seq<u8> {
    seq![0x1u8, 0x2, 0x3, 0xC, 0x4, 0x5, 0x6, 0xD, 0x7, 0x8, 0x9, 0xE, 0xA, 0x0, 0xB, 0xF]
}

/// The host key in row `r`, column `c` of the QWERTY block stands for the
/// CHIP-8 key in row `r`, column `c` of the keypad, and no other host key
/// stands for any.
pub proof fn lemma_layout_by_position(r: int, c: int, other: char)
    requires
        0 <= r < 4,
        0 <= c < 4,
    ensures
        key_layout(host_rows()[4 * r + c]) == Some(keypad_rows()[4 * r + c]),
        !host_rows().contains(other) ==> key_layout(other) is None,
{
    let i = 4 * r + c;
    assert(0 <= i < 16);
    if !host_rows().contains(other) {
        assert forall|j: int| 0 <= j < 16 implies host_rows()[j] != other by {
            if host_rows()[j] == other {
                assert(host_rows().contains(other));
            }
        }
        assert(other != host_rows()[0] && other != host_rows()[1] && other != host_rows()[2]
            && other != host_rows()[3] && other != host_rows()[4] && other != host_rows()[5]
            && other != host_rows()[6] && other != host_rows()[7] && other != host_rows()[8]
            && other != host_rows()[9] && other != host_rows()[10] && other != host_rows()[11]
            && other != host_rows()[12] && other != host_rows()[13] && other != host_rows()[14]
            && other != host_rows()[15]);
    }
}

} // verus!
