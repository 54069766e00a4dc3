//! The CHIP-8 instruction set as a mathematical model.
//!
//! Both interpreters of this crate (`crate::chip8` and `crate::emulator::chip8`)
//! expose their state as a [`Machine`] and prove that each of their operations
//! behaves as the spec functions of this module say.

use vstd::prelude::*;
use crate::emulator::quirks::Quirks;
use crate::keypad::lowest_released_from;

verus! {

/// Address of the first instruction of a loaded program.
pub const PROGRAM_START: u16 = 0x200;

/// Address of the built-in hexadecimal font.
pub const FONTSET_START: u16 = 0x050;

/// The 16 glyphs `0`..`F` of the built-in font, five bytes each.
pub open spec fn font() -> Seq<u8> {
    seq![
        0xF0u8, 0x90, 0x90, 0x90, 0xF0,  // 0
        0x20, 0x60, 0x20, 0x20, 0x70,  // 1
        0xF0, 0x10, 0xF0, 0x80, 0xF0,  // 2
        0xF0, 0x10, 0xF0, 0x10, 0xF0,  // 3
        0x90, 0x90, 0xF0, 0x10, 0x10,  // 4
        0xF0, 0x80, 0xF0, 0x10, 0xF0,  // 5
        0xF0, 0x80, 0xF0, 0x90, 0xF0,  // 6
        0xF0, 0x10, 0x20, 0x40, 0x40,  // 7
        0xF0, 0x90, 0xF0, 0x90, 0xF0,  // 8
        0xF0, 0x90, 0xF0, 0x10, 0xF0,  // 9
        0xF0, 0x90, 0xF0, 0x90, 0x90,  // A
        0xE0, 0x90, 0xE0, 0x90, 0xE0,  // B
        0xF0, 0x80, 0x80, 0x80, 0xF0,  // C
        0xE0, 0x90, 0x90, 0x90, 0xE0,  // D
        0xF0, 0x80, 0xF0, 0x80, 0xF0,  // E
        0xF0, 0x80, 0xF0, 0x80, 0x80,  // F
    ]
}

/// RAM right after power-on: zero everywhere but the font.
pub open spec fn initial_memory() -> Seq<u8> {
    Seq::new(
        4096,
        |a: int|
            if FONTSET_START <= a < FONTSET_START + 80 {
                font()[a - FONTSET_START]
            } else {
                0u8
            },
    )
}

/// The whole observable state of a CHIP-8 machine.
#[verifier::ext_equal]
pub struct Machine {
    /// 4096 bytes of RAM.
    pub mem: Seq<u8>,
    /// Registers V0..VF.
    pub v: Seq<u8>,
    /// The address register I.
    pub i: u16,
    pub delay_timer: u8,
    pub sound_timer: u8,
    /// Program counter.
    pub pc: u16,
    /// Stack pointer; `stack[sp]` is the most recent return address.
    pub sp: u8,
    pub stack: Seq<u16>,
    /// Which of the 16 keys are held down now.
    pub keys_down: Seq<bool>,
    /// Which of the 16 keys were held down at the previous keyboard tick.
    pub keys_prev: Seq<bool>,
    /// The 64x32 display, row by row, one byte per pixel.
    pub fb: Seq<u8>,
    pub quirks: Quirks,
}

impl Machine {
    /// Every sequence has the size of the hardware it stands for.
    pub open spec fn wf(self) -> bool {
        &&& self.mem.len() == 4096
        &&& self.v.len() == 16
        &&& self.stack.len() == 16
        &&& self.keys_down.len() == 16
        &&& self.keys_prev.len() == 16
        &&& self.fb.len() == 2048
    }

    /// Register `k` replaced by `value`.
    pub open spec fn set_v(self, k: int, value: u8) -> Machine {
        Machine { v: self.v.update(k, value), ..self }
    }

    pub open spec fn set_pc(self, pc: u16) -> Machine {
        Machine { pc, ..self }
    }

    pub open spec fn set_i(self, i: u16) -> Machine {
        Machine { i, ..self }
    }

    /// The program counter moved past the next instruction when `cond` holds.
    pub open spec fn skip_if(self, cond: bool) -> Machine {
        if cond {
            self.set_pc((self.pc + 2) as u16)
        } else {
            self
        }
    }

    /// The big-endian word at the program counter.
    pub open spec fn word_at_pc(self) -> u16 {
        (self.mem[self.pc as int] * 256 + self.mem[self.pc + 1]) as u16
    }

    /// The instruction can be fetched: both of its bytes lie in memory.
    pub open spec fn fetch_in_range(self) -> bool {
        self.pc + 1 < 4096
    }

    /// The key that register `x` names is held down.
    pub open spec fn key_down(self, x: int) -> bool {
        self.keys_down[self.v[x] as int]
    }

    /// The lowest-numbered key released since the previous keyboard tick.
    pub open spec fn lowest_released(self) -> Option<u8> {
        lowest_released_from(self.keys_down, self.keys_prev, 0)
    }
}

// ---------------------------------------------------------------------------
// Instruction fields

/// `_X__`
pub open spec fn op_x(op: u16) -> int {
    (op / 0x100 % 0x10) as int
}

/// `__Y_`
pub open spec fn op_y(op: u16) -> int {
    (op / 0x10 % 0x10) as int
}

/// `___N`
pub open spec fn op_n(op: u16) -> int {
    (op % 0x10) as int
}

/// `_NNN`
pub open spec fn op_nnn(op: u16) -> u16 {
    op % 0x1000
}

/// `__KK`
pub open spec fn op_kk(op: u16) -> u8 {
    (op % 0x100) as u8
}

/// `F___`
pub open spec fn op_family(op: u16) -> int {
    (op / 0x1000) as int
}

/// The masks and shifts that pick the fields out of an opcode give the fields.
pub proof fn lemma_fields(op: u16)
    ensures
        ((op & 0x0F00) >> 8) as int == op_x(op),
        ((op & 0x00F0) >> 4) as int == op_y(op),
        (op & 0x000F) as int == op_n(op),
        op & 0x0FFF == op_nnn(op),
        (op & 0x00FF) as u8 == op_kk(op),
        (op & 0xF000) as int == op_family(op) * 0x1000,
        0 <= op_x(op) < 16,
        0 <= op_y(op) < 16,
        0 <= op_n(op) < 16,
        0 <= op_family(op) < 16,
        op & 0x00FF < 0x100,
        op & 0x000F < 0x10,
{
    assert(op & 0x00FF < 0x100) by (bit_vector);
    assert(op & 0x000F < 0x10) by (bit_vector);
    assert((op & 0x0F00) >> 8 == op / 0x100 % 0x10) by (bit_vector);
    assert((op & 0x00F0) >> 4 == op / 0x10 % 0x10) by (bit_vector);
    assert(op & 0x000F == op % 0x10) by (bit_vector);
    assert(op & 0x0FFF == op % 0x1000) by (bit_vector);
    assert(op & 0x00FF == op % 0x100) by (bit_vector);
    assert(op & 0xF000 == (op / 0x1000) * 0x1000) by (bit_vector);
}

// ---------------------------------------------------------------------------
// Arithmetic and logic: 8XYN

/// The 8XY_ instructions; `n` is the last nibble.
pub open spec fn alu(s: Machine, x: int, y: int, n: int) -> Machine {
    let vx = s.v[x];
    let vy = s.v[y];
    if n == 0x0 {
        s.set_v(x, vy)
    } else if n == 0x1 || n == 0x2 || n == 0x3 {
        let r = if n == 0x1 {
            vx | vy
        } else if n == 0x2 {
            vx & vy
        } else {
            vx ^ vy
        };
        let t = s.set_v(x, r);
        if s.quirks.vf_reset {
            t.set_v(15, 0)
        } else {
            t
        }
    } else if n == 0x4 {
        let sum = vx + vy;
        s.set_v(x, (sum % 256) as u8).set_v(15, if sum > 255 { 1 } else { 0 })
    } else if n == 0x5 {
        s.set_v(x, ((vx - vy) % 256) as u8).set_v(15, if vx >= vy { 1 } else { 0 })
    } else if n == 0x6 {
        let src = if s.quirks.shifting { vy } else { vx };
        s.set_v(x, src / 2).set_v(15, src % 2)
    } else if n == 0x7 {
        s.set_v(x, ((vy - vx) % 256) as u8).set_v(15, if vy >= vx { 1 } else { 0 })
    } else if n == 0xE {
        let src = if s.quirks.shifting { vy } else { vx };
        s.set_v(x, ((src * 2) % 256) as u8).set_v(15, src / 128)
    } else {
        s
    }
}

pub open spec fn alu_recognized(n: int) -> bool {
    0 <= n <= 7 || n == 0xE
}

// ---------------------------------------------------------------------------
// Memory transfers

/// A store that lands only when the address lies in RAM.
pub open spec fn mem_write(mem: Seq<u8>, a: int, value: u8) -> Seq<u8> {
    if 0 <= a < 4096 {
        mem.update(a, value)
    } else {
        mem
    }
}

/// FX33: the hundreds, tens and ones of VX at I, I+1 and I+2.
pub open spec fn store_bcd(s: Machine, x: int) -> Machine {
    let value = s.v[x];
    let m1 = mem_write(s.mem, s.i as int, value / 100);
    let m2 = mem_write(m1, s.i + 1, (value / 10) % 10);
    let m3 = mem_write(m2, s.i + 2, value % 10);
    Machine { mem: m3, ..s }
}

/// FX55: V0..VX stored from I on.
pub open spec fn store_registers(s: Machine, x: int) -> Machine {
    let mem = Seq::new(
        s.mem.len(),
        |a: int| if s.i <= a <= s.i + x { s.v[a - s.i] } else { s.mem[a] },
    );
    let i = if s.quirks.memory_increment { (s.i + x + 1) as u16 } else { s.i };
    Machine { mem, i, ..s }
}

/// FX65: V0..VX loaded from I on, from the addresses that lie in RAM.
pub open spec fn load_registers(s: Machine, x: int) -> Machine {
    let v = Seq::new(
        s.v.len(),
        |k: int| if k <= x && s.i + k < 4096 { s.mem[s.i + k] } else { s.v[k] },
    );
    let i = if s.quirks.memory_increment { (s.i + x + 1) as u16 } else { s.i };
    Machine { v, i, ..s }
}

// ---------------------------------------------------------------------------
// Drawing: DXYN

/// Column of the sprite's left edge: VX, wrapped to the display width.
pub open spec fn draw_x0(s: Machine, op: u16) -> int {
    (s.v[op_x(op)] as int) % 64
}

/// Row of the sprite's top edge: VY, wrapped to the display height.
pub open spec fn draw_y0(s: Machine, op: u16) -> int {
    (s.v[op_y(op)] as int) % 32
}

/// Sprite rows that fit on the display: all N when the sprite wraps around,
/// the ones above the bottom edge when it is clipped.
pub open spec fn draw_fit(s: Machine, op: u16) -> int {
    if s.quirks.clipping && 32 - draw_y0(s, op) < op_n(op) {
        32 - draw_y0(s, op)
    } else {
        op_n(op)
    }
}

/// Sprite rows whose byte lies in RAM.
pub open spec fn draw_avail(s: Machine) -> int {
    if s.i < 4096 {
        4096 - s.i
    } else {
        0
    }
}

/// Number of sprite rows drawn.
pub open spec fn draw_rows(s: Machine, op: u16) -> int {
    if draw_avail(s) < draw_fit(s, op) {
        draw_avail(s)
    } else {
        draw_fit(s, op)
    }
}

/// The sprite row shown on display row `py` (meaningful when in `0..rows`).
pub open spec fn sprite_row(s: Machine, op: u16, py: int) -> int {
    if s.quirks.clipping {
        py - draw_y0(s, op)
    } else {
        (py - draw_y0(s, op)) % 32
    }
}

/// The sprite column shown on display column `px` (meaningful when in `0..8`).
pub open spec fn sprite_col(s: Machine, op: u16, px: int) -> int {
    if s.quirks.clipping {
        px - draw_x0(s, op)
    } else {
        (px - draw_x0(s, op)) % 64
    }
}

/// Bit `c` of sprite row `r`; the leftmost pixel is the most significant bit.
pub open spec fn sprite_bit(s: Machine, r: int, c: int) -> u8 {
    (s.mem[s.i + r] >> ((7 - c) as u8)) & 1u8
}

/// Display pixel `k` has been drawn once rows `0..r` and, of row `r`,
/// columns `0..b` have been.
pub open spec fn drawn(s: Machine, op: u16, k: int, r: int, b: int) -> bool {
    let row = sprite_row(s, op, k / 64);
    let col = sprite_col(s, op, k % 64);
    &&& 0 <= row
    &&& 0 <= col < 8
    &&& (row < r || (row == r && col < b))
}

/// The bit that drawing XORs into pixel `k`.
pub open spec fn pixel_bit(s: Machine, op: u16, k: int) -> u8 {
    sprite_bit(s, sprite_row(s, op, k / 64), sprite_col(s, op, k % 64))
}

/// The display once the pixels drawn up to row `r`, column `b` have been XORed.
pub open spec fn draw_fb(s: Machine, op: u16, r: int, b: int) -> Seq<u8> {
    Seq::new(
        2048,
        |k: int|
            if drawn(s, op, k, r, b) {
                s.fb[k] ^ pixel_bit(s, op, k)
            } else {
                s.fb[k]
            },
    )
}

/// Drawing pixel `k` turns a lit pixel off.
pub open spec fn erases(s: Machine, op: u16, k: int) -> bool {
    s.fb[k] == 1 && (s.fb[k] ^ pixel_bit(s, op, k)) == 0
}

/// Some pixel drawn up to row `r`, column `b` was turned off.
pub open spec fn draw_hit(s: Machine, op: u16, r: int, b: int) -> bool {
    exists|k: int| 0 <= k < 2048 && #[trigger] drawn(s, op, k, r, b) && erases(s, op, k)
}

/// DXYN: XOR the N-byte sprite at I onto the display at (VX, VY);
/// VF tells whether a lit pixel was turned off.
pub open spec fn draw(s: Machine, op: u16) -> Machine {
    let rows = draw_rows(s, op);
    Machine {
        fb: draw_fb(s, op, rows, 0),
        v: s.v.update(15, if draw_hit(s, op, rows, 0) { 1 } else { 0 }),
        ..s
    }
}

/// Nothing is drawn before the first row.
pub proof fn lemma_draw_start(s: Machine, op: u16)
    requires
        s.wf(),
    ensures
        draw_fb(s, op, 0, 0) == s.fb,
        !draw_hit(s, op, 0, 0),
{
    assert(draw_fb(s, op, 0, 0) =~= s.fb);
}

/// The pixel at (`px`, `py`) lies in row `r`, column `b` of the sprite.
proof fn lemma_draw_cell(s: Machine, op: u16, r: int, b: int, px: int, py: int)
    requires
        0 <= r < draw_rows(s, op),
        0 <= b < 8,
        py == (if s.quirks.clipping { draw_y0(s, op) + r } else { (draw_y0(s, op) + r) % 32 }),
        0 <= py < 32,
        px == (if s.quirks.clipping { draw_x0(s, op) + b } else { (draw_x0(s, op) + b) % 64 }),
        0 <= px < 64,
    ensures
        0 <= py * 64 + px < 2048,
        (py * 64 + px) / 64 == py,
        (py * 64 + px) % 64 == px,
        sprite_row(s, op, py) == r,
        sprite_col(s, op, px) == b,
        drawn(s, op, py * 64 + px, r, b + 1),
        !drawn(s, op, py * 64 + px, r, b),
{
    assert(draw_rows(s, op) <= op_n(op) < 16);
}

/// No other pixel lies in row `r`, column `b` of the sprite.
proof fn lemma_draw_cell_unique(s: Machine, op: u16, r: int, b: int, px: int, py: int, k: int)
    requires
        0 <= r < 16,
        0 <= b < 8,
        py == (if s.quirks.clipping { draw_y0(s, op) + r } else { (draw_y0(s, op) + r) % 32 }),
        0 <= py < 32,
        px == (if s.quirks.clipping { draw_x0(s, op) + b } else { (draw_x0(s, op) + b) % 64 }),
        0 <= px < 64,
        0 <= k < 2048,
        sprite_row(s, op, k / 64) == r,
        sprite_col(s, op, k % 64) == b,
    ensures
        k == py * 64 + px,
{
    assert(k / 64 == py);
    assert(k % 64 == px);
    assert(k == (k / 64) * 64 + k % 64);
}

/// Pixel (`px`, `py`) shows column `b` of sprite row `r`, and drawing it
/// changes that pixel alone.
pub proof fn lemma_draw_pixel(s: Machine, op: u16, r: int, b: int, px: int, py: int)
    requires
        s.wf(),
        0 <= r < draw_rows(s, op),
        0 <= b < 8,
        py == (if s.quirks.clipping { draw_y0(s, op) + r } else { (draw_y0(s, op) + r) % 32 }),
        0 <= py < 32,
        px == (if s.quirks.clipping { draw_x0(s, op) + b } else { (draw_x0(s, op) + b) % 64 }),
        0 <= px < 64,
    ensures
        0 <= py * 64 + px < 2048,
        pixel_bit(s, op, py * 64 + px) == sprite_bit(s, r, b),
        draw_fb(s, op, r, b)[py * 64 + px] == s.fb[py * 64 + px],
        draw_fb(s, op, r, b + 1) == draw_fb(s, op, r, b).update(
            py * 64 + px,
            s.fb[py * 64 + px] ^ sprite_bit(s, r, b),
        ),
        draw_hit(s, op, r, b + 1) == (draw_hit(s, op, r, b) || (s.fb[py * 64 + px] == 1 && (
        s.fb[py * 64 + px] ^ sprite_bit(s, r, b)) == 0)),
{
    let k0 = py * 64 + px;
    lemma_draw_cell(s, op, r, b, px, py);
    assert forall|k: int| 0 <= k < 2048 && k != k0 implies drawn(s, op, k, r, b + 1) == drawn(
        s,
        op,
        k,
        r,
        b,
    ) by {
        if sprite_row(s, op, k / 64) == r && sprite_col(s, op, k % 64) == b {
            lemma_draw_cell_unique(s, op, r, b, px, py, k);
        }
    }
    assert(draw_fb(s, op, r, b + 1) =~= draw_fb(s, op, r, b).update(k0, s.fb[k0] ^ sprite_bit(s, r, b)));
    if draw_hit(s, op, r, b + 1) {
        let k = choose|k: int| 0 <= k < 2048 && #[trigger] drawn(s, op, k, r, b + 1) && erases(s, op, k);
        if k != k0 {
            assert(drawn(s, op, k, r, b));
        }
    }
    if draw_hit(s, op, r, b) {
        let k = choose|k: int| 0 <= k < 2048 && #[trigger] drawn(s, op, k, r, b) && erases(s, op, k);
        assert(k != k0);
        assert(drawn(s, op, k, r, b + 1));
    }
    if s.fb[k0] == 1 && (s.fb[k0] ^ sprite_bit(s, r, b)) == 0 {
        assert(erases(s, op, k0));
    }
}

/// A row is done once its 8 columns are, or once the rest of it is past the
/// right edge of a clipping display.
pub proof fn lemma_draw_row_end(s: Machine, op: u16, r: int, b: int)
    requires
        0 <= b <= 8,
        b == 8 || (s.quirks.clipping && draw_x0(s, op) + b > 63),
    ensures
        draw_fb(s, op, r, b) == draw_fb(s, op, r + 1, 0),
        draw_hit(s, op, r, b) == draw_hit(s, op, r + 1, 0),
{
    assert forall|k: int| 0 <= k < 2048 implies drawn(s, op, k, r, b) == drawn(s, op, k, r + 1, 0) by {
        let col = sprite_col(s, op, k % 64);
        if s.quirks.clipping && b < 8 {
            assert(col <= 63 - draw_x0(s, op));
        }
    }
    assert(draw_fb(s, op, r, b) =~= draw_fb(s, op, r + 1, 0));
    if draw_hit(s, op, r, b) {
        let k = choose|k: int| 0 <= k < 2048 && #[trigger] drawn(s, op, k, r, b) && erases(s, op, k);
        assert(drawn(s, op, k, r + 1, 0));
    }
    if draw_hit(s, op, r + 1, 0) {
        let k = choose|k: int| 0 <= k < 2048 && #[trigger] drawn(s, op, k, r + 1, 0) && erases(s, op, k);
        assert(drawn(s, op, k, r, b));
    }
}

// ---------------------------------------------------------------------------
// Dispatch

/// The instruction is one the interpreter knows.
pub open spec fn recognized(op: u16) -> bool {
    let f = op_family(op);
    let kk = op_kk(op);
    if f == 0 {
        op == 0x00E0 || op == 0x00EE
    } else if f == 8 {
        alu_recognized(op_n(op))
    } else if f == 0xE {
        kk == 0x9E || kk == 0xA1
    } else if f == 0xF {
        kk == 0x07 || kk == 0x0A || kk == 0x15 || kk == 0x18 || kk == 0x1E || kk == 0x29
            || kk == 0x33 || kk == 0x55 || kk == 0x65
    } else {
        true
    }
}

/// CXKK: the only instruction that needs a random byte.
pub open spec fn needs_random(op: u16) -> bool {
    op_family(op) == 0xC
}

/// Executes `op` on a machine whose program counter already points past it.
/// `rnd` is the random byte that CXKK masks, `key` what FX0A waits for.
pub open spec fn execute(s: Machine, op: u16, rnd: u8, key: Option<u8>) -> Machine {
    let f = op_family(op);
    let x = op_x(op);
    let y = op_y(op);
    let kk = op_kk(op);
    let nnn = op_nnn(op);
    if f == 0 {
        if op == 0x00E0 {
            Machine { fb: Seq::new(2048, |k: int| 0u8), ..s }
        } else if op == 0x00EE {
            Machine { pc: s.stack[s.sp as int], sp: (s.sp - 1) as u8, ..s }
        } else {
            s
        }
    } else if f == 1 {
        s.set_pc(nnn)
    } else if f == 2 {
        let sp = (s.sp + 1) as u8;
        Machine { sp, stack: s.stack.update(sp as int, s.pc), pc: nnn, ..s }
    } else if f == 3 {
        s.skip_if(s.v[x] == kk)
    } else if f == 4 {
        s.skip_if(s.v[x] != kk)
    } else if f == 5 {
        s.skip_if(s.v[x] == s.v[y])
    } else if f == 6 {
        s.set_v(x, kk)
    } else if f == 7 {
        s.set_v(x, ((s.v[x] + kk) % 256) as u8)
    } else if f == 8 {
        alu(s, x, y, op_n(op))
    } else if f == 9 {
        s.skip_if(s.v[x] != s.v[y])
    } else if f == 0xA {
        s.set_i(nnn)
    } else if f == 0xB {
        s.set_pc((nnn + s.v[0]) as u16)
    } else if f == 0xC {
        s.set_v(x, rnd & kk)
    } else if f == 0xD {
        draw(s, op)
    } else if f == 0xE {
        if kk == 0x9E {
            s.skip_if(s.key_down(x))
        } else if kk == 0xA1 {
            s.skip_if(!s.key_down(x))
        } else {
            s
        }
    } else {
        if kk == 0x07 {
            s.set_v(x, s.delay_timer)
        } else if kk == 0x0A {
            match key {
                Some(k) => s.set_v(x, k),
                None => s.set_pc((s.pc - 2) as u16),
            }
        } else if kk == 0x15 {
            Machine { delay_timer: s.v[x], ..s }
        } else if kk == 0x18 {
            Machine { sound_timer: s.v[x], ..s }
        } else if kk == 0x1E {
            s.set_i((s.i + s.v[x]) as u16)
        } else if kk == 0x29 {
            s.set_i((FONTSET_START + 5 * s.v[x]) as u16)
        } else if kk == 0x33 {
            store_bcd(s, x)
        } else if kk == 0x55 {
            store_registers(s, x)
        } else if kk == 0x65 {
            load_registers(s, x)
        } else {
            s
        }
    }
}

/// The condition under which a skip instruction (3XKK, 4XKK, 5XY0, 9XY0,
/// EX9E, EXA1) moves the program counter past the next instruction.
pub open spec fn skip_condition(s: Machine, op: u16) -> bool {
    let f = op_family(op);
    let x = op_x(op);
    let y = op_y(op);
    let kk = op_kk(op);
    if f == 3 {
        s.v[x] == kk
    } else if f == 4 {
        s.v[x] != kk
    } else if f == 5 {
        s.v[x] == s.v[y]
    } else if f == 9 {
        s.v[x] != s.v[y]
    } else if f == 0xE && kk == 0x9E {
        s.key_down(x)
    } else if f == 0xE && kk == 0xA1 {
        !s.key_down(x)
    } else {
        false
    }
}

/// `op` runs without an arithmetic overflow, a stack overflow or underflow,
/// or a key number out of range.
pub open spec fn execute_ok(s: Machine, op: u16) -> bool {
    let f = op_family(op);
    let x = op_x(op);
    let kk = op_kk(op);
    if op == 0x00EE {
        1 <= s.sp < 16
    } else if f == 2 {
        s.sp + 1 < 16
    } else if f == 3 || f == 4 || f == 5 || f == 9 {
        skip_condition(s, op) ==> s.pc + 2 <= 0xFFFF
    } else if f == 0xE && (kk == 0x9E || kk == 0xA1) {
        s.v[x] < 16 && (skip_condition(s, op) ==> s.pc + 2 <= 0xFFFF)
    } else if f == 0xF {
        if kk == 0x0A {
            s.pc >= 2
        } else if kk == 0x1E {
            s.i + s.v[x] <= 0xFFFF
        } else if kk == 0x33 {
            s.i + 2 <= 0xFFFF
        } else if kk == 0x55 || kk == 0x65 {
            s.i + x <= 0xFFFF && (s.quirks.memory_increment ==> s.i + x + 1 <= 0xFFFF)
        } else {
            true
        }
    } else {
        true
    }
}

/// Every memory access of `op` lies in RAM.
pub open spec fn memory_ok(s: Machine, op: u16) -> bool {
    let f = op_family(op);
    let x = op_x(op);
    let kk = op_kk(op);
    if f == 0xD {
        s.i + draw_fit(s, op) <= 4096
    } else if f == 0xF && kk == 0x33 {
        s.i + 2 < 4096
    } else if f == 0xF && (kk == 0x55 || kk == 0x65) {
        s.i + x < 4096
    } else {
        true
    }
}

// ---------------------------------------------------------------------------
// Laws

/// Drawing the same sprite twice at the same place gives the display back:
/// drawing XORs, and the second draw covers the same pixels with the same bits.
/// The second draw reports a collision exactly when the first one lit a dark
/// pixel. (Both coordinate registers must differ from VF, which the first draw
/// overwrites.)
pub proof fn lemma_draw_twice_restores(s: Machine, op: u16)
    requires
        s.wf(),
        op_x(op) != 15,
        op_y(op) != 15,
    ensures
        draw(draw(s, op), op).fb == s.fb,
        draw(draw(s, op), op).mem == s.mem,
        draw(draw(s, op), op).i == s.i,
        draw(draw(s, op), op).v == s.v.update(
            15,
            if exists|k: int| 0 <= k < 2048 && s.fb[k] == 0 && #[trigger] draw(s, op).fb[k] == 1 {
                1u8
            } else {
                0u8
            },
        ),
{
    let s1 = draw(s, op);
    let s2 = draw(s1, op);
    assert(draw_x0(s1, op) == draw_x0(s, op));
    assert(draw_y0(s1, op) == draw_y0(s, op));
    assert(draw_rows(s1, op) == draw_rows(s, op));
    let rows = draw_rows(s, op);
    assert forall|k: int| 0 <= k < 2048 implies #[trigger] s2.fb[k] == s.fb[k] by {
        assert(drawn(s1, op, k, rows, 0) == drawn(s, op, k, rows, 0));
        assert(pixel_bit(s1, op, k) == pixel_bit(s, op, k));
        let p = s.fb[k];
        let b = pixel_bit(s, op, k);
        assert((p ^ b) ^ b == p) by (bit_vector);
    }
    assert(s2.fb =~= s.fb);
    let lit = exists|k: int| 0 <= k < 2048 && s.fb[k] == 0 && #[trigger] s1.fb[k] == 1;
    if draw_hit(s1, op, rows, 0) {
        let k = choose|k: int| 0 <= k < 2048 && #[trigger] drawn(s1, op, k, rows, 0) && erases(s1, op, k);
        assert(drawn(s, op, k, rows, 0));
        assert(pixel_bit(s1, op, k) == pixel_bit(s, op, k));
        let p = s.fb[k];
        let b = pixel_bit(s, op, k);
        assert(((p ^ b) == 1 && ((p ^ b) ^ b) == 0) ==> p == 0) by (bit_vector);
        assert(s.fb[k] == 0 && s1.fb[k] == 1);
    }
    if lit {
        let k = choose|k: int| 0 <= k < 2048 && s.fb[k] == 0 && #[trigger] s1.fb[k] == 1;
        assert(drawn(s, op, k, rows, 0));
        assert(drawn(s1, op, k, rows, 0));
        assert(pixel_bit(s1, op, k) == pixel_bit(s, op, k));
        let b = pixel_bit(s, op, k);
        assert((0u8 ^ b) == 1 ==> (1u8 ^ b) == 0) by (bit_vector);
        assert(erases(s1, op, k));
    }
    assert(s2.v =~= s.v.update(15, if lit { 1u8 } else { 0u8 }));
}

/// A display whose pixels are all 0 or 1 stays so when a sprite is drawn,
/// and VF then tells whether a lit pixel of the sprite's area went dark.
pub proof fn lemma_draw_keeps_binary(s: Machine, op: u16)
    requires
        s.wf(),
        forall|k: int| 0 <= k < 2048 ==> #[trigger] s.fb[k] <= 1,
    ensures
        forall|k: int| 0 <= k < 2048 ==> #[trigger] draw(s, op).fb[k] <= 1,
        draw(s, op).v[15] == 1 <==> exists|k: int|
            0 <= k < 2048 && s.fb[k] == 1 && #[trigger] draw(s, op).fb[k] == 0,
        draw(s, op).v[15] <= 1,
{
    let rows = draw_rows(s, op);
    let t = draw(s, op);
    assert forall|k: int| 0 <= k < 2048 implies #[trigger] t.fb[k] <= 1 && (t.fb[k] == 0 && s.fb[k]
        == 1 <==> drawn(s, op, k, rows, 0) && erases(s, op, k)) by {
        let p = s.fb[k];
        let b = pixel_bit(s, op, k);
        assert(b == (s.mem[s.i + sprite_row(s, op, k / 64)] >> ((7 - sprite_col(s, op, k % 64)) as u8)) & 1u8);
        let m = s.mem[s.i + sprite_row(s, op, k / 64)];
        let c = ((7 - sprite_col(s, op, k % 64)) as u8);
        assert((m >> c) & 1u8 <= 1) by (bit_vector);
        assert(p <= 1 && b <= 1 ==> (p ^ b) <= 1 && ((p ^ b == 0) == (p == b))) by (bit_vector);
    }
    if t.v[15] == 1 {
        let k = choose|k: int| 0 <= k < 2048 && #[trigger] drawn(s, op, k, rows, 0) && erases(s, op, k);
        assert(t.fb[k] == 0);
    }
    if exists|k: int| 0 <= k < 2048 && s.fb[k] == 1 && #[trigger] t.fb[k] == 0 {
        let k = choose|k: int| 0 <= k < 2048 && s.fb[k] == 1 && #[trigger] t.fb[k] == 0;
        assert(drawn(s, op, k, rows, 0) && erases(s, op, k));
    }
}

/// Every instruction that runs without a fault keeps the sizes of the machine, and keeps a display
/// whose pixels are all 0 or 1 so.
pub proof fn lemma_execute_keeps_invariants(s: Machine, op: u16, rnd: u8, key: Option<u8>)
    requires
        s.wf(),
        execute_ok(s, op),
        forall|k: int| 0 <= k < 2048 ==> #[trigger] s.fb[k] <= 1,
    ensures
        execute(s, op, rnd, key).wf(),
        forall|k: int| 0 <= k < 2048 ==> #[trigger] execute(s, op, rnd, key).fb[k] <= 1,
{
    if op_family(op) == 0xD {
        lemma_draw_keeps_binary(s, op);
    }
}

/// 3XKK and 4XKK on the same register and byte skip in complementary cases,
/// and so do 5XY0 and 9XY0 on the same registers.
pub proof fn lemma_skips_complementary(s: Machine, op: u16, rnd: u8, key: Option<u8>)
    requires
        op_family(op) == 3 || op_family(op) == 5,
    ensures
        execute(s, op, rnd, key) == s.skip_if(skip_condition(s, op)),
        op_family(op) == 3 ==> execute(s, (op + 0x1000) as u16, rnd, key) == s.skip_if(
            !skip_condition(s, op),
        ),
        op_family(op) == 5 ==> execute(s, (op + 0x4000) as u16, rnd, key) == s.skip_if(
            !skip_condition(s, op),
        ),
{
    if op_family(op) == 3 {
        let other = (op + 0x1000) as u16;
        assert(other == op + 0x1000);
        assert(op_family(other) == 4 && op_x(other) == op_x(op) && op_kk(other) == op_kk(op));
    } else {
        let other = (op + 0x4000) as u16;
        assert(other == op + 0x4000);
        assert(op_family(other) == 9 && op_x(other) == op_x(op) && op_y(other) == op_y(op));
    }
}

/// Loading registers from where they were just stored gives them back.
pub proof fn lemma_store_then_load(s: Machine, x: int)
    requires
        s.wf(),
        0 <= x < 16,
        s.i + x < 4096,
    ensures
        load_registers(store_registers(s, x).set_i(s.i), x).v == s.v,
{
    let t = store_registers(s, x).set_i(s.i);
    assert(load_registers(t, x).v =~= s.v);
}

/// FX33 stores the three decimal digits of VX, most significant first.
pub proof fn lemma_bcd_digits(s: Machine, x: int)
    requires
        s.wf(),
        0 <= x < 16,
        s.i + 2 < 4096,
    ensures
        ({
            let m = store_bcd(s, x).mem;
            &&& m[s.i as int] < 10 && m[s.i + 1] < 10 && m[s.i + 2] < 10
            &&& m[s.i as int] * 100 + m[s.i + 1] * 10 + m[s.i + 2] == s.v[x]
            &&& forall|a: int| 0 <= a < 4096 && !(s.i <= a <= s.i + 2) ==> m[a] == s.mem[a]
        }),
{
}

/// 8XY4 keeps the full sum: the carry in VF is worth 256.
pub proof fn lemma_add_carry(s: Machine, x: int, y: int)
    requires
        s.wf(),
        0 <= x < 15,
        0 <= y < 16,
    ensures
        alu(s, x, y, 4).v[x] + 256 * alu(s, x, y, 4).v[15] == s.v[x] + s.v[y],
{
}

/// 8XY5 subtracts modulo 256 and sets VF exactly when no borrow occurs.
pub proof fn lemma_sub_borrow(s: Machine, x: int, y: int)
    requires
        s.wf(),
        0 <= x < 15,
        0 <= y < 16,
    ensures
        alu(s, x, y, 5).v[x] - 256 * (1 - alu(s, x, y, 5).v[15]) == s.v[x] - s.v[y],
{
}

/// An instruction outside the instruction set changes nothing.
pub proof fn lemma_unrecognized_is_noop(s: Machine, op: u16, rnd: u8, key: Option<u8>)
    requires
        !recognized(op),
    ensures
        execute(s, op, rnd, key) == s,
{
}

/// The machine with its program counter moved past the next instruction.
pub open spec fn advance(s: Machine) -> Machine {
    s.set_pc((s.pc + 2) as u16)
}

/// What a cycle reports to its caller.
#[derive(Debug, Clone, Copy, PartialEq, Eq, Structural)]
pub enum CycleOutcome {
    /// The instruction was executed.
    Executed,
    /// The instruction is not part of the instruction set; nothing but the
    /// program counter changed.
    Unrecognized(u16),
    /// The program counter pointed outside RAM; it moved on by two.
    InvalidAddress,
}

} // verus!
