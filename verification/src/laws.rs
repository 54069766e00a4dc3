//! What each instruction does, stated directly over the machine's fields and
//! the opcode's digits, independently of how [`crate::isa::execute`] is written.
//!
//! In every law `op / 0x1000` is the instruction's first hex digit, `x` is
//! `op / 0x100 % 0x10`, `y` is `op / 0x10 % 0x10`, `nnn` is `op % 0x1000` and
//! `kk` is `op % 0x100`. `execute` runs on a machine whose program counter
//! already points past the instruction.

use vstd::prelude::*;
use crate::isa::{
    Machine, recognized, needs_random, font, initial_memory, execute, draw, draw_x0, draw_y0, draw_rows, drawn,
    sprite_row, sprite_col, pixel_bit, lemma_draw_pixel, lemma_draw_keeps_binary,
};
use crate::keypad::lowest_released_from;

verus! {

/// At power-on RAM holds the 80 font bytes from address 0x50 on and zeros
/// everywhere else; FX29 then points I at the five bytes of the glyph of VX.
pub proof fn lemma_law_power_on_font(s: Machine, op: u16, rnd: u8, key: Option<u8>, j: int)
    requires
        s.wf(),
        s.mem == initial_memory(),
        op / 0x1000 == 0xF,
        op % 0x100 == 0x29,
        s.v[(op / 0x100 % 0x10) as int] < 16,
        0 <= j < 5,
    ensures
        initial_memory().len() == 4096,
        forall|a: int| 0 <= a < 4096 ==> #[trigger] initial_memory()[a] == if 0x50 <= a < 0xA0 {
            font()[a - 0x50]
        } else {
            0u8
        },
        s.mem[execute(s, op, rnd, key).i + j] == font()[5 * s.v[(op / 0x100 % 0x10) as int] + j],
{
}

/// Opcodes outside the instruction set (0NNN but 00E0 and 00EE; 8XYN with N
/// of 8 to D or F; EXKK but EX9E and EXA1; FXKK but the nine F instructions)
/// leave the machine as it was, and they are the only opcodes reported as
/// unrecognized.
pub proof fn lemma_law_unknown_opcodes(s: Machine, op: u16, rnd: u8, key: Option<u8>)
    ensures
        ({
            let f = op / 0x1000;
            let n = op % 0x10;
            let kk = op % 0x100;
            let unknown = {
                ||| f == 0 && op != 0x00E0 && op != 0x00EE
                ||| f == 8 && 8 <= n <= 0xD
                ||| f == 8 && n == 0xF
                ||| f == 0xE && kk != 0x9E && kk != 0xA1
                ||| f == 0xF && kk != 0x07 && kk != 0x0A && kk != 0x15 && kk != 0x18 && kk != 0x1E
                    && kk != 0x29 && kk != 0x33 && kk != 0x55 && kk != 0x65
            };
            &&& unknown ==> execute(s, op, rnd, key) == s
            &&& recognized(op) == !unknown
        }),
{
}

/// Only CXKK takes a random byte: every other instruction does the same
/// whatever byte is drawn.
pub proof fn lemma_law_randomness(s: Machine, op: u16, r1: u8, r2: u8, key: Option<u8>)
    ensures
        needs_random(op) == (op / 0x1000 == 0xC),
        op / 0x1000 != 0xC ==> execute(s, op, r1, key) == execute(s, op, r2, key),
{
}

/// 00E0 darkens every pixel and changes nothing else.
pub proof fn lemma_law_clear(s: Machine, rnd: u8, key: Option<u8>)
    requires
        s.wf(),
    ensures
        ({
            let e = execute(s, 0x00E0, rnd, key);
            &&& e.fb.len() == 2048
            &&& forall|k: int| 0 <= k < 2048 ==> #[trigger] e.fb[k] == 0
            &&& (Machine { fb: s.fb, ..e }) == s
        }),
{
}

/// 00EE returns to the address on top of the stack and pops it.
pub proof fn lemma_law_return(s: Machine, rnd: u8, key: Option<u8>)
    requires
        s.wf(),
        1 <= s.sp < 16,
    ensures
        ({
            let e = execute(s, 0x00EE, rnd, key);
            &&& e.pc == s.stack[s.sp as int]
            &&& e.sp == s.sp - 1
            &&& (Machine { pc: s.pc, sp: s.sp, ..e }) == s
        }),
{
}

/// 1NNN jumps to NNN whatever the registers hold.
pub proof fn lemma_law_jump(s: Machine, op: u16, rnd: u8, key: Option<u8>)
    requires
        op / 0x1000 == 1,
    ensures
        execute(s, op, rnd, key).pc == op % 0x1000,
        (Machine { pc: s.pc, ..execute(s, op, rnd, key) }) == s,
{
}

/// 2NNN pushes the return address, then jumps to NNN.
pub proof fn lemma_law_call(s: Machine, op: u16, rnd: u8, key: Option<u8>)
    requires
        s.wf(),
        op / 0x1000 == 2,
        s.sp + 1 < 16,
    ensures
        ({
            let e = execute(s, op, rnd, key);
            &&& e.pc == op % 0x1000
            &&& e.sp == s.sp + 1
            &&& e.stack[s.sp + 1] == s.pc
            &&& forall|j: int| 0 <= j < 16 && j != s.sp + 1 ==> #[trigger] e.stack[j] == s.stack[j]
            &&& e.stack.len() == 16
            &&& (Machine { pc: s.pc, sp: s.sp, stack: s.stack, ..e }) == s
        }),
{
}

/// 3XKK skips the next instruction exactly when VX equals KK, 4XKK exactly
/// when it does not.
pub proof fn lemma_law_skip_byte(s: Machine, op: u16, rnd: u8, key: Option<u8>)
    requires
        s.wf(),
        op / 0x1000 == 3 || op / 0x1000 == 4,
        s.pc + 2 <= 0xFFFF,
    ensures
        ({
            let e = execute(s, op, rnd, key);
            let equal = s.v[(op / 0x100 % 0x10) as int] == op % 0x100;
            let skip = if op / 0x1000 == 3 { equal } else { !equal };
            &&& e.pc == if skip { s.pc + 2 } else { s.pc as int }
            &&& (Machine { pc: s.pc, ..e }) == s
        }),
{
}

/// 5XY0 skips the next instruction exactly when VX equals VY, 9XY0 exactly
/// when it does not.
pub proof fn lemma_law_skip_registers(s: Machine, op: u16, rnd: u8, key: Option<u8>)
    requires
        s.wf(),
        op / 0x1000 == 5 || op / 0x1000 == 9,
        s.pc + 2 <= 0xFFFF,
    ensures
        ({
            let e = execute(s, op, rnd, key);
            let equal = s.v[(op / 0x100 % 0x10) as int] == s.v[(op / 0x10 % 0x10) as int];
            let skip = if op / 0x1000 == 5 { equal } else { !equal };
            &&& e.pc == if skip { s.pc + 2 } else { s.pc as int }
            &&& (Machine { pc: s.pc, ..e }) == s
        }),
{
}

/// EX9E skips exactly when the key named by VX is down, EXA1 exactly when it is up.
pub proof fn lemma_law_skip_key(s: Machine, op: u16, rnd: u8, key: Option<u8>)
    requires
        s.wf(),
        op / 0x1000 == 0xE,
        op % 0x100 == 0x9E || op % 0x100 == 0xA1,
        s.v[(op / 0x100 % 0x10) as int] < 16,
        s.pc + 2 <= 0xFFFF,
    ensures
        ({
            let e = execute(s, op, rnd, key);
            let down = s.keys_down[s.v[(op / 0x100 % 0x10) as int] as int];
            let skip = if op % 0x100 == 0x9E { down } else { !down };
            &&& e.pc == if skip { s.pc + 2 } else { s.pc as int }
            &&& (Machine { pc: s.pc, ..e }) == s
        }),
{
}

/// The register instructions 6XKK, 7XKK and CXKK write VX alone.
pub proof fn lemma_law_load_byte(s: Machine, op: u16, rnd: u8, key: Option<u8>)
    requires
        s.wf(),
        op / 0x1000 == 6 || op / 0x1000 == 7 || op / 0x1000 == 0xC,
    ensures
        ({
            let e = execute(s, op, rnd, key);
            let x = (op / 0x100 % 0x10) as int;
            let kk = (op % 0x100) as u8;
            &&& op / 0x1000 == 6 ==> e.v[x] == kk
            &&& op / 0x1000 == 7 ==> e.v[x] == (s.v[x] + kk) % 256
            &&& op / 0x1000 == 0xC ==> e.v[x] == rnd & kk
            &&& e.v.len() == 16
            &&& forall|j: int| 0 <= j < 16 && j != x ==> #[trigger] e.v[j] == s.v[j]
            &&& (Machine { v: s.v, ..e }) == s
        }),
{
}

/// 8XY0 copies VY, 8XY1/2/3 combine bitwise; with the VF-reset quirk the
/// logic instructions clear VF. Only VX and VF change.
pub proof fn lemma_law_logic(s: Machine, op: u16, rnd: u8, key: Option<u8>)
    requires
        s.wf(),
        op / 0x1000 == 8,
        op % 0x10 <= 3,
        op / 0x100 % 0x10 != 15,
    ensures
        ({
            let e = execute(s, op, rnd, key);
            let x = (op / 0x100 % 0x10) as int;
            let vx = s.v[x];
            let vy = s.v[(op / 0x10 % 0x10) as int];
            let n = op % 0x10;
            &&& n == 0 ==> e.v[x] == vy
            &&& n == 1 ==> e.v[x] == vx | vy
            &&& n == 2 ==> e.v[x] == vx & vy
            &&& n == 3 ==> e.v[x] == vx ^ vy
            &&& e.v[15] == if n != 0 && s.quirks.vf_reset { 0 } else { s.v[15] }
            &&& forall|j: int| 0 <= j < 15 && j != x ==> #[trigger] e.v[j] == s.v[j]
            &&& (Machine { v: s.v, ..e }) == s
        }),
{
}

/// 8XY4 keeps the full sum: the carry in VF is worth 256.
pub proof fn lemma_law_add(s: Machine, op: u16, rnd: u8, key: Option<u8>)
    requires
        s.wf(),
        op / 0x1000 == 8,
        op % 0x10 == 4,
        op / 0x100 % 0x10 != 15,
    ensures
        ({
            let e = execute(s, op, rnd, key);
            let x = (op / 0x100 % 0x10) as int;
            let y = (op / 0x10 % 0x10) as int;
            &&& e.v[15] <= 1
            &&& e.v[x] + 256 * e.v[15] == s.v[x] + s.v[y]
            &&& forall|j: int| 0 <= j < 15 && j != x ==> #[trigger] e.v[j] == s.v[j]
            &&& (Machine { v: s.v, ..e }) == s
        }),
{
}

/// 8XY5 keeps the full difference VX - VY: VF is 1 when no borrow was needed.
pub proof fn lemma_law_subtract(s: Machine, op: u16, rnd: u8, key: Option<u8>)
    requires
        s.wf(),
        op / 0x1000 == 8,
        op % 0x10 == 5,
        op / 0x100 % 0x10 != 15,
    ensures
        ({
            let e = execute(s, op, rnd, key);
            let x = (op / 0x100 % 0x10) as int;
            let y = (op / 0x10 % 0x10) as int;
            &&& e.v[15] <= 1
            &&& e.v[x] - 256 * (1 - e.v[15]) == s.v[x] - s.v[y]
            &&& forall|j: int| 0 <= j < 15 && j != x ==> #[trigger] e.v[j] == s.v[j]
            &&& (Machine { v: s.v, ..e }) == s
        }),
{
}

/// 8XY7 keeps the full difference VY - VX: VF is 1 when no borrow was needed.
pub proof fn lemma_law_subtract_reversed(s: Machine, op: u16, rnd: u8, key: Option<u8>)
    requires
        s.wf(),
        op / 0x1000 == 8,
        op % 0x10 == 7,
        op / 0x100 % 0x10 != 15,
    ensures
        ({
            let e = execute(s, op, rnd, key);
            let x = (op / 0x100 % 0x10) as int;
            let y = (op / 0x10 % 0x10) as int;
            &&& e.v[15] <= 1
            &&& e.v[x] - 256 * (1 - e.v[15]) == s.v[y] - s.v[x]
            &&& forall|j: int| 0 <= j < 15 && j != x ==> #[trigger] e.v[j] == s.v[j]
            &&& (Machine { v: s.v, ..e }) == s
        }),
{
}

/// With X = F the flag is written after the result: VF ends up holding the
/// carry, the no-borrow bit or the bit shifted out, and no other register changes.
pub proof fn lemma_law_flag_register(s: Machine, op: u16, rnd: u8, key: Option<u8>)
    requires
        s.wf(),
        op / 0x1000 == 8,
        op / 0x100 % 0x10 == 15,
        op % 0x10 == 4 || op % 0x10 == 5 || op % 0x10 == 6 || op % 0x10 == 7 || op % 0x10 == 0xE,
    ensures
        ({
            let e = execute(s, op, rnd, key);
            let vf = s.v[15];
            let vy = s.v[(op / 0x10 % 0x10) as int];
            let src = if s.quirks.shifting { vy } else { vf };
            let n = op % 0x10;
            &&& n == 4 ==> e.v[15] == if vf + vy > 255 { 1u8 } else { 0u8 }
            &&& n == 5 ==> e.v[15] == if vf >= vy { 1u8 } else { 0u8 }
            &&& n == 6 ==> e.v[15] == src % 2
            &&& n == 7 ==> e.v[15] == if vy >= vf { 1u8 } else { 0u8 }
            &&& n == 0xE ==> e.v[15] == src / 128
            &&& e.v.len() == 16
            &&& forall|j: int| 0 <= j < 15 ==> #[trigger] e.v[j] == s.v[j]
            &&& (Machine { v: s.v, ..e }) == s
        }),
{
}

/// 8XY6 halves (VY with the shift quirk, VX without) and keeps the bit shifted
/// out in VF; 8XYE doubles it and keeps the bit shifted out in VF.
pub proof fn lemma_law_shift(s: Machine, op: u16, rnd: u8, key: Option<u8>)
    requires
        s.wf(),
        op / 0x1000 == 8,
        op % 0x10 == 6 || op % 0x10 == 0xE,
        op / 0x100 % 0x10 != 15,
    ensures
        ({
            let e = execute(s, op, rnd, key);
            let x = (op / 0x100 % 0x10) as int;
            let y = (op / 0x10 % 0x10) as int;
            let src = if s.quirks.shifting { s.v[y] } else { s.v[x] };
            &&& e.v[15] <= 1
            &&& op % 0x10 == 6 ==> 2 * e.v[x] + e.v[15] == src
            &&& op % 0x10 == 0xE ==> e.v[x] + 256 * e.v[15] == 2 * src
            &&& forall|j: int| 0 <= j < 15 && j != x ==> #[trigger] e.v[j] == s.v[j]
            &&& (Machine { v: s.v, ..e }) == s
        }),
{
}

/// ANNN sets I to NNN; BNNN jumps to NNN + V0.
pub proof fn lemma_law_address(s: Machine, op: u16, rnd: u8, key: Option<u8>)
    requires
        s.wf(),
        op / 0x1000 == 0xA || op / 0x1000 == 0xB,
    ensures
        ({
            let e = execute(s, op, rnd, key);
            &&& op / 0x1000 == 0xA ==> e.i == op % 0x1000 && (Machine { i: s.i, ..e }) == s
            &&& op / 0x1000 == 0xB ==> e.pc == op % 0x1000 + s.v[0] && (Machine { pc: s.pc, ..e })
                == s
        }),
{
}

/// FX07 reads the delay timer into VX; FX15 and FX18 set the delay and the
/// sound timer from VX.
pub proof fn lemma_law_timers(s: Machine, op: u16, rnd: u8, key: Option<u8>)
    requires
        s.wf(),
        op / 0x1000 == 0xF,
        op % 0x100 == 0x07 || op % 0x100 == 0x15 || op % 0x100 == 0x18,
    ensures
        ({
            let e = execute(s, op, rnd, key);
            let x = (op / 0x100 % 0x10) as int;
            &&& op % 0x100 == 0x07 ==> e.v[x] == s.delay_timer && e.v.len() == 16 && (forall|
                j: int,
            | 0 <= j < 16 && j != x ==> #[trigger] e.v[j] == s.v[j]) && (Machine { v: s.v, ..e })
                == s
            &&& op % 0x100 == 0x15 ==> e.delay_timer == s.v[x] && (Machine {
                delay_timer: s.delay_timer,
                ..e
            }) == s
            &&& op % 0x100 == 0x18 ==> e.sound_timer == s.v[x] && (Machine {
                sound_timer: s.sound_timer,
                ..e
            }) == s
        }),
{
}

/// Setting the delay timer from VX and reading it into VY gives VY the value of VX.
pub proof fn lemma_law_delay_round_trip(s: Machine, x: u16, y: u16, rnd: u8, key: Option<u8>)
    requires
        s.wf(),
        x < 16,
        y < 16,
    ensures
        execute(execute(s, (0xF015 + x * 0x100) as u16, rnd, key), (0xF007 + y * 0x100) as u16, rnd, key).v[y as int]
            == s.v[x as int],
{
    let a = (0xF015 + x * 0x100) as u16;
    let b = (0xF007 + y * 0x100) as u16;
    assert(a / 0x1000 == 0xF && a % 0x100 == 0x15 && a / 0x100 % 0x10 == x);
    assert(b / 0x1000 == 0xF && b % 0x100 == 0x07 && b / 0x100 % 0x10 == y);
    lemma_law_timers(s, a, rnd, key);
    let t = execute(s, a, rnd, key);
    assert(t.wf());
    lemma_law_timers(t, b, rnd, key);
}

/// FX1E adds VX to I; FX29 points I at the five-byte glyph of digit VX.
pub proof fn lemma_law_index(s: Machine, op: u16, rnd: u8, key: Option<u8>)
    requires
        s.wf(),
        op / 0x1000 == 0xF,
        op % 0x100 == 0x1E || op % 0x100 == 0x29,
        op % 0x100 == 0x1E ==> s.i + s.v[(op / 0x100 % 0x10) as int] <= 0xFFFF,
    ensures
        ({
            let e = execute(s, op, rnd, key);
            let vx = s.v[(op / 0x100 % 0x10) as int];
            &&& op % 0x100 == 0x1E ==> e.i == s.i + vx
            &&& op % 0x100 == 0x29 ==> e.i == 0x50 + 5 * vx
            &&& (Machine { i: s.i, ..e }) == s
        }),
{
}

/// FX33 writes the three decimal digits of VX, most significant first, to
/// I, I+1 and I+2, and changes nothing else.
pub proof fn lemma_law_bcd(s: Machine, op: u16, rnd: u8, key: Option<u8>)
    requires
        s.wf(),
        op / 0x1000 == 0xF,
        op % 0x100 == 0x33,
        s.i + 2 < 4096,
    ensures
        ({
            let e = execute(s, op, rnd, key);
            let vx = s.v[(op / 0x100 % 0x10) as int];
            &&& e.mem[s.i as int] < 10 && e.mem[s.i + 1] < 10 && e.mem[s.i + 2] < 10
            &&& 100 * e.mem[s.i as int] + 10 * e.mem[s.i + 1] + e.mem[s.i + 2] == vx
            &&& e.mem.len() == 4096
            &&& forall|a: int| 0 <= a < 4096 && !(s.i <= a <= s.i + 2) ==> #[trigger] e.mem[a]
                == s.mem[a]
            &&& (Machine { mem: s.mem, ..e }) == s
        }),
{
}

/// FX55 writes V0..VX to I..I+X; FX65 reads V0..VX from there. Either
/// leaves I past the last register transferred under the memory quirk.
pub proof fn lemma_law_transfer(s: Machine, op: u16, rnd: u8, key: Option<u8>)
    requires
        s.wf(),
        op / 0x1000 == 0xF,
        op % 0x100 == 0x55 || op % 0x100 == 0x65,
        s.i + op / 0x100 % 0x10 < 4096,
    ensures
        ({
            let e = execute(s, op, rnd, key);
            let x = (op / 0x100 % 0x10) as int;
            &&& e.i == if s.quirks.memory_increment { s.i + x + 1 } else { s.i as int }
            &&& op % 0x100 == 0x55 ==> (forall|j: int| 0 <= j <= x ==> #[trigger] e.mem[s.i + j]
                == s.v[j]) && (forall|a: int|
                0 <= a < 4096 && !(s.i <= a <= s.i + x) ==> #[trigger] e.mem[a] == s.mem[a])
                && (Machine { mem: s.mem, i: s.i, ..e }) == s
            &&& op % 0x100 == 0x65 ==> (forall|j: int| 0 <= j <= x ==> #[trigger] e.v[j]
                == s.mem[s.i + j]) && (forall|j: int| x < j < 16 ==> #[trigger] e.v[j] == s.v[j])
                && (Machine { v: s.v, i: s.i, ..e }) == s
        }),
{
}

/// FX0A stores a key released since the previous keyboard tick, the
/// lowest-numbered one, and goes on; with no key released it stays on itself.
pub proof fn lemma_law_wait_key(s: Machine, op: u16, rnd: u8)
    requires
        s.wf(),
        op / 0x1000 == 0xF,
        op % 0x100 == 0x0A,
        s.pc >= 2,
    ensures
        ({
            let e = execute(s, op, rnd, s.lowest_released());
            let x = (op / 0x100 % 0x10) as int;
            &&& (exists|k: int| 0 <= k < 16 && #[trigger] s.keys_prev[k] && !s.keys_down[k]) ==> {
                &&& 0 <= e.v[x] < 16
                &&& s.keys_prev[e.v[x] as int] && !s.keys_down[e.v[x] as int]
                &&& forall|j: int| 0 <= j < e.v[x] ==> !(#[trigger] s.keys_prev[j] && !s.keys_down[j])
                &&& e.v.len() == 16
                &&& forall|j: int| 0 <= j < 16 && j != x ==> #[trigger] e.v[j] == s.v[j]
                &&& (Machine { v: s.v, ..e }) == s
            }
            &&& (forall|k: int| 0 <= k < 16 ==> !(#[trigger] s.keys_prev[k] && !s.keys_down[k]))
                ==> e == (Machine { pc: (s.pc - 2) as u16, ..s })
        }),
{
    lemma_lowest_released_is_lowest(s.keys_down, s.keys_prev, 0);
    let x = (op / 0x100 % 0x10) as int;
    assert(op / 0x1000 == 0xF && (op % 0x100) as u8 == 0x0A);
    match s.lowest_released() {
        Some(r) => {
            assert(execute(s, op, rnd, Some(r)) == s.set_v(x, r));
        },
        None => {
            assert(execute(s, op, rnd, None) == s.set_pc((s.pc - 2) as u16));
        },
    }
}

/// Starting at `v` wrapped to a width of `w` and moving on by `d < w`, wrapping
/// again, lands `d` columns on; and every column is reached from `v` that way.
proof fn lemma_wrap_offset(v: int, d: int, w: int, p: int)
    requires
        w == 32 || w == 64,
        0 <= v,
        0 <= d < w,
        0 <= p < w,
    ensures
        ((v % w + d) % w - v % w) % w == d,
        (v + d) % w == (v % w + d) % w,
        (v + (p - v % w) % w) % w == p,
{
    if w == 32 {
        lemma_wrap_offset_by(v, d, 32, p, v / 32, v % 32);
    } else {
        lemma_wrap_offset_by(v, d, 64, p, v / 64, v % 64);
    }
}

/// [`lemma_wrap_offset`] with `v` split into `q * w + m`.
proof fn lemma_wrap_offset_by(v: int, d: int, w: int, p: int, q: int, m: int)
    requires
        w == 32 || w == 64,
        0 <= d < w,
        0 <= p < w,
        v == q * w + m,
        0 <= m < w,
    ensures
        ((m + d) % w - m) % w == d,
        (v + d) % w == (m + d) % w,
        (v + (p - m) % w) % w == p,
{
    if w == 32 {
        assert(((m + d) % 32 - m) % 32 == d);
        assert((v + d) % 32 == (m + d) % 32) by (nonlinear_arith)
            requires v == q * 32 + m, 0 <= m < 32, 0 <= d < 32;
        assert((v + (p - m) % 32) % 32 == p) by (nonlinear_arith)
            requires v == q * 32 + m, 0 <= m < 32, 0 <= p < 32;
    } else {
        assert(((m + d) % 64 - m) % 64 == d);
        assert((v + d) % 64 == (m + d) % 64) by (nonlinear_arith)
            requires v == q * 64 + m, 0 <= m < 64, 0 <= d < 64;
        assert((v + (p - m) % 64) % 64 == p) by (nonlinear_arith)
            requires v == q * 64 + m, 0 <= m < 64, 0 <= p < 64;
    }
}

/// DXYN is [`crate::isa::draw`].
proof fn lemma_execute_draw(s: Machine, op: u16, rnd: u8, key: Option<u8>)
    requires
        op / 0x1000 == 0xD,
    ensures
        execute(s, op, rnd, key) == draw(s, op),
{
}

/// DXYN on a wrapping display XORs bit `c` (counted from the most significant)
/// of the sprite byte at I + `r` onto the pixel in column (VX + `c`) mod 64
/// and row (VY + `r`) mod 32, for each of the N rows and 8 columns.
pub proof fn lemma_law_draw_pixel(s: Machine, op: u16, rnd: u8, key: Option<u8>, r: int, c: int)
    requires
        s.wf(),
        op / 0x1000 == 0xD,
        !s.quirks.clipping,
        s.i + op % 0x10 <= 4096,
        0 <= r < op % 0x10,
        0 <= c < 8,
    ensures
        ({
            let e = execute(s, op, rnd, key);
            let px = (s.v[(op / 0x100 % 0x10) as int] + c) % 64;
            let py = (s.v[(op / 0x10 % 0x10) as int] + r) % 32;
            e.fb[py * 64 + px] == s.fb[py * 64 + px] ^ ((s.mem[s.i + r] >> ((7 - c) as u8)) & 1u8)
        }),
{
    lemma_execute_draw(s, op, rnd, key);
    let vx = s.v[(op / 0x100 % 0x10) as int] as int;
    let vy = s.v[(op / 0x10 % 0x10) as int] as int;
    lemma_wrap_offset(vx, c, 64, 0);
    lemma_wrap_offset(vy, r, 32, 0);
    let px = (vx + c) % 64;
    let py = (vy + r) % 32;
    assert(draw_x0(s, op) == vx % 64);
    assert(draw_y0(s, op) == vy % 32);
    assert(draw_rows(s, op) == op % 0x10);
    lemma_draw_pixel(s, op, r, c, px, py);
    let k = py * 64 + px;
    assert(k / 64 == py && k % 64 == px);
    assert(sprite_row(s, op, py) == r);
    assert(sprite_col(s, op, px) == c);
    assert(drawn(s, op, k, draw_rows(s, op), 0));
}

/// DXYN on a wrapping display leaves every pixel that no sprite bit lands on
/// as it was, and every register but VF; on a display of 0s and 1s VF becomes
/// 1 exactly when a lit pixel went dark.
pub proof fn lemma_law_draw_rest(s: Machine, op: u16, rnd: u8, key: Option<u8>, k: int)
    requires
        s.wf(),
        op / 0x1000 == 0xD,
        !s.quirks.clipping,
        s.i + op % 0x10 <= 4096,
        0 <= k < 2048,
    ensures
        ({
            let e = execute(s, op, rnd, key);
            let vx = s.v[(op / 0x100 % 0x10) as int];
            let vy = s.v[(op / 0x10 % 0x10) as int];
            &&& (forall|r: int, c: int|
                0 <= r < op % 0x10 && 0 <= c < 8 ==> k != #[trigger] ((vy + r) % 32 * 64 + (vx + c)
                    % 64)) ==> e.fb[k] == s.fb[k]
            &&& e.fb.len() == 2048
            &&& e.v.len() == 16
            &&& forall|j: int| 0 <= j < 15 ==> #[trigger] e.v[j] == s.v[j]
            &&& (Machine { fb: s.fb, v: s.v, ..e }) == s
            &&& (forall|j: int| 0 <= j < 2048 ==> #[trigger] s.fb[j] <= 1) ==> (e.v[15] == 1
                <==> exists|j: int| 0 <= j < 2048 && s.fb[j] == 1 && #[trigger] e.fb[j] == 0)
            &&& (forall|j: int| 0 <= j < 2048 ==> #[trigger] s.fb[j] <= 1) ==> e.v[15] <= 1
        }),
{
    lemma_execute_draw(s, op, rnd, key);
    let vx = s.v[(op / 0x100 % 0x10) as int] as int;
    let vy = s.v[(op / 0x10 % 0x10) as int] as int;
    let rows = draw_rows(s, op);
    assert(rows == op % 0x10);
    assert(draw_x0(s, op) == vx % 64);
    assert(draw_y0(s, op) == vy % 32);
    if drawn(s, op, k, rows, 0) {
        let r = sprite_row(s, op, k / 64);
        let c = sprite_col(s, op, k % 64);
        lemma_wrap_offset(vy, 0, 32, k / 64);
        lemma_wrap_offset(vx, 0, 64, k % 64);
        assert((vy + r) % 32 == k / 64);
        assert((vx + c) % 64 == k % 64);
        assert(k == (vy + r) % 32 * 64 + (vx + c) % 64);
    }
    if forall|j: int| 0 <= j < 2048 ==> #[trigger] s.fb[j] <= 1 {
        lemma_draw_keeps_binary(s, op);
    }
}

/// DXYN on a clipping display XORs bit `c` (counted from the most
/// significant) of the sprite byte at I + `r` onto the pixel in column
/// VX mod 64 + `c` and row VY mod 32 + `r`, for the rows and columns of the
/// sprite that lie on the display.
pub proof fn lemma_law_draw_pixel_clipped(
    s: Machine,
    op: u16,
    rnd: u8,
    key: Option<u8>,
    r: int,
    c: int,
)
    requires
        s.wf(),
        op / 0x1000 == 0xD,
        s.quirks.clipping,
        s.i + op % 0x10 <= 4096,
        0 <= r < op % 0x10,
        0 <= c < 8,
        s.v[(op / 0x100 % 0x10) as int] % 64 + c < 64,
        s.v[(op / 0x10 % 0x10) as int] % 32 + r < 32,
    ensures
        ({
            let e = execute(s, op, rnd, key);
            let px = s.v[(op / 0x100 % 0x10) as int] % 64 + c;
            let py = s.v[(op / 0x10 % 0x10) as int] % 32 + r;
            e.fb[py * 64 + px] == s.fb[py * 64 + px] ^ ((s.mem[s.i + r] >> ((7 - c) as u8)) & 1u8)
        }),
{
    lemma_execute_draw(s, op, rnd, key);
    let px = s.v[(op / 0x100 % 0x10) as int] % 64 + c;
    let py = s.v[(op / 0x10 % 0x10) as int] % 32 + r;
    assert(draw_x0(s, op) + c == px);
    assert(draw_y0(s, op) + r == py);
    assert(r < draw_rows(s, op));
    lemma_draw_pixel(s, op, r, c, px, py);
    let k = py * 64 + px;
    assert(k / 64 == py && k % 64 == px);
    assert(sprite_row(s, op, py) == r);
    assert(sprite_col(s, op, px) == c);
    assert(drawn(s, op, k, draw_rows(s, op), 0));
}

/// DXYN on a clipping display leaves every pixel that no sprite bit lands on
/// as it was: nothing wraps around to the left or top edge.
pub proof fn lemma_law_draw_rest_clipped(s: Machine, op: u16, rnd: u8, key: Option<u8>, k: int)
    requires
        s.wf(),
        op / 0x1000 == 0xD,
        s.quirks.clipping,
        s.i + op % 0x10 <= 4096,
        0 <= k < 2048,
    ensures
        ({
            let e = execute(s, op, rnd, key);
            let x0 = s.v[(op / 0x100 % 0x10) as int] % 64;
            let y0 = s.v[(op / 0x10 % 0x10) as int] % 32;
            (forall|r: int, c: int|
                0 <= r < op % 0x10 && 0 <= c < 8 && x0 + c < 64 && y0 + r < 32 ==> k
                    != #[trigger] ((y0 + r) * 64 + x0 + c)) ==> e.fb[k] == s.fb[k]
        }),
{
    lemma_execute_draw(s, op, rnd, key);
    let x0 = s.v[(op / 0x100 % 0x10) as int] % 64;
    let y0 = s.v[(op / 0x10 % 0x10) as int] % 32;
    let rows = draw_rows(s, op);
    assert(draw_x0(s, op) == x0);
    assert(draw_y0(s, op) == y0);
    assert(rows <= op % 0x10);
    if drawn(s, op, k, rows, 0) {
        let r = sprite_row(s, op, k / 64);
        let c = sprite_col(s, op, k % 64);
        assert(r == k / 64 - y0 && c == k % 64 - x0);
        assert(k == (k / 64) * 64 + k % 64);
        assert(k == (y0 + r) * 64 + x0 + c);
    }
}

/// The search for a released key from `k` on finds the first released key
/// at or after `k`, or none when there is none.
pub proof fn lemma_lowest_released_is_lowest(down: Seq<bool>, prev: Seq<bool>, k: int)
    requires
        0 <= k <= 16,
    ensures
        match lowest_released_from(down, prev, k) {
            Some(r) => k <= r < 16 && prev[r as int] && !down[r as int] && forall|j: int|
                k <= j < r ==> !(#[trigger] prev[j] && !down[j]),
            None => forall|j: int| k <= j < 16 ==> !(#[trigger] prev[j] && !down[j]),
        },
    decreases 16 - k,
{
    if k < 16 {
        lemma_lowest_released_is_lowest(down, prev, k + 1);
    }
}

} // verus!
