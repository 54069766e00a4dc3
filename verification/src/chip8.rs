use vstd::prelude::*;
use std::time::Duration;
use crate::framebuffer::Framebuffer;
use crate::isa::{
    Machine, CycleOutcome, FONTSET_START, PROGRAM_START, font, initial_memory, op_x, op_y, op_n,
    op_nnn, op_kk, op_family, lemma_fields, alu, store_bcd, store_registers, load_registers, draw,
    draw_x0, draw_y0, draw_fit, draw_rows, draw_fb, draw_hit, lemma_draw_start, lemma_draw_pixel,
    lemma_draw_row_end, execute, execute_ok, memory_ok, recognized, needs_random, advance, lemma_unrecognized_is_noop, lemma_execute_keeps_invariants,
};
use crate::keypad::lowest_released_from;
use crate::memory::Memory;
use crate::rng::random_byte;

verus! {

/// The `Duration` of `nanos` nanoseconds.
pub uninterp spec fn nanos_duration(nanos: u64) -> Duration;

/// `Duration::from_nanos` of std, which builds the span of `nanos`
/// nanoseconds; the result is named, not described.
pub assume_specification[ Duration::from_nanos ](nanos: u64) -> (d: Duration)
    ensures
        d == nanos_duration(nanos),
;

const FONTSET: [u8; 80] = [
    0xF0, 0x90, 0x90, 0x90, 0xF0, // 0
    0x20, 0x60, 0x20, 0x20, 0x70, // 1
    0xF0, 0x10, 0xF0, 0x80, 0xF0, // 2
    0xF0, 0x10, 0xF0, 0x10, 0xF0, // 3
    0x90, 0x90, 0xF0, 0x10, 0x10, // 4
    0xF0, 0x80, 0xF0, 0x10, 0xF0, // 5
    0xF0, 0x80, 0xF0, 0x90, 0xF0, // 6
    0xF0, 0x10, 0x20, 0x40, 0x40, // 7
    0xF0, 0x90, 0xF0, 0x90, 0xF0, // 8
    0xF0, 0x90, 0xF0, 0x10, 0xF0, // 9
    0xF0, 0x90, 0xF0, 0x90, 0x90, // A
    0xE0, 0x90, 0xE0, 0x90, 0xE0, // B
    0xF0, 0x80, 0x80, 0x80, 0xF0, // C
    0xE0, 0x90, 0x90, 0x90, 0xE0, // D
    0xF0, 0x80, 0xF0, 0x80, 0xF0, // E
    0xF0, 0x80, 0xF0, 0x80, 0x80, // F
];

/// Nanoseconds in one sixtieth of a second, rounded to the nearest.
pub const TIMER_INTERVAL_NANOS: u64 = 16_666_667;

/// One cycle: fetch the instruction at the program counter and execute it.
/// FX0A takes the lowest-numbered key released since the previous keyboard tick.
pub open spec fn step(s: Machine, rnd: u8) -> Machine {
    execute(advance(s), s.word_at_pc(), rnd, s.lowest_released())
}

/// A cycle reads and writes RAM only, and runs without an arithmetic
/// overflow, a stack overflow or underflow, or a key number out of range.
pub open spec fn step_ok(s: Machine) -> bool {
    &&& s.fetch_in_range()
    &&& execute_ok(advance(s), s.word_at_pc())
    &&& memory_ok(advance(s), s.word_at_pc())
}

/// What a cycle reports.
pub open spec fn step_outcome(s: Machine) -> CycleOutcome {
    if recognized(s.word_at_pc()) {
        CycleOutcome::Executed
    } else {
        CycleOutcome::Unrecognized(s.word_at_pc())
    }
}

/// RAM once `rom` is copied to the program area.
pub open spec fn loaded_memory(mem: Seq<u8>, rom: Seq<u8>) -> Seq<u8> {
    Seq::new(
        mem.len(),
        |a: int|
            if PROGRAM_START <= a < PROGRAM_START + rom.len() {
                rom[a - PROGRAM_START]
            } else {
                mem[a]
            },
    )
}

/// Calling a subroutine whose first instruction is a return resumes right
/// after the call: two cycles leave the machine as it was but for the program
/// counter, which moved past the call, and the stack slot the call wrote.
pub proof fn lemma_call_then_return(s: Machine, r1: u8, r2: u8)
    requires
        s.wf(),
        step_ok(s),
        s.fetch_in_range(),
        op_family(s.word_at_pc()) == 2,
        step(s, r1).fetch_in_range(),
        step(s, r1).word_at_pc() == 0x00EE,
    ensures
        step(step(s, r1), r2) == (Machine {
            pc: (s.pc + 2) as u16,
            stack: s.stack.update(s.sp + 1, (s.pc + 2) as u16),
            ..s
        }),
{
    let t = step(s, r1);
    assert(op_family(0x00EE) == 0);
}

/// An instruction the interpreter does not know only moves the program
/// counter past it.
pub proof fn lemma_unknown_instruction(s: Machine, rnd: u8)
    requires
        s.fetch_in_range(),
        !recognized(s.word_at_pc()),
    ensures
        step(s, rnd) == advance(s),
        step_outcome(s) == CycleOutcome::Unrecognized(s.word_at_pc()),
{
    lemma_unrecognized_is_noop(advance(s), s.word_at_pc(), rnd, s.lowest_released());
}

/// FX0A with no key released keeps the program counter on itself, so the
/// next cycle waits again; nothing else changes.
pub proof fn lemma_wait_for_key(s: Machine, rnd: u8)
    requires
        s.fetch_in_range(),
        op_family(s.word_at_pc()) == 0xF,
        op_kk(s.word_at_pc()) == 0x0A,
        s.lowest_released() is None,
    ensures
        step(s, rnd) == s,
{
}

/// A skip instruction whose condition holds moves the program counter past
/// the next instruction, four bytes on.
pub proof fn lemma_skip_taken(s: Machine, rnd: u8)
    requires
        s.fetch_in_range(),
        op_family(s.word_at_pc()) == 3,
        s.v[op_x(s.word_at_pc())] == op_kk(s.word_at_pc()),
    ensures
        step(s, rnd) == s.set_pc((s.pc + 4) as u16),
{
}

/// A cycle that runs without a fault keeps the sizes of the machine, and keeps a display whose pixels
/// are all 0 or 1 so.
pub proof fn lemma_step_keeps_invariants(s: Machine, rnd: u8)
    requires
        s.wf(),
        step_ok(s),
        forall|k: int| 0 <= k < 2048 ==> #[trigger] s.fb[k] <= 1,
    ensures
        step(s, rnd).wf(),
        forall|k: int| 0 <= k < 2048 ==> #[trigger] step(s, rnd).fb[k] <= 1,
{
    lemma_execute_keeps_invariants(advance(s), s.word_at_pc(), rnd, s.lowest_released());
}

/// Loading a program puts its byte `j` at address 0x200 + `j` and leaves the
/// rest of RAM as it was.
pub proof fn lemma_load_places_program(mem: Seq<u8>, rom: Seq<u8>, a: int)
    requires
        mem.len() == 4096,
        0x200 + rom.len() <= 4096,
        0 <= a < 4096,
    ensures
        loaded_memory(mem, rom).len() == 4096,
        0x200 <= a < 0x200 + rom.len() ==> loaded_memory(mem, rom)[a] == rom[a - 0x200],
        !(0x200 <= a < 0x200 + rom.len()) ==> loaded_memory(mem, rom)[a] == mem[a],
{
}

/// A cycle fetches the two bytes at the program counter, high byte first,
/// moves the program counter past them and executes them.
pub proof fn lemma_cycle_fetches(s: Machine, rnd: u8)
    ensures
        step(s, rnd) == execute(
            Machine { pc: (s.pc + 2) as u16, ..s },
            (s.mem[s.pc as int] * 256 + s.mem[s.pc + 1]) as u16,
            rnd,
            s.lowest_released(),
        ),
{
}

/// A cycle on a jump (first byte `0x1N`) sets the program counter to the
/// twelve low bits of the instruction, whatever the registers hold, and
/// changes nothing else.
pub proof fn lemma_cycle_jump(s: Machine, rnd: u8)
    requires
        s.wf(),
        s.pc + 1 < 4096,
        s.mem[s.pc as int] / 16 == 1,
    ensures
        step(s, rnd) == (Machine {
            pc: ((s.mem[s.pc as int] % 16) * 256 + s.mem[s.pc + 1]) as u16,
            ..s
        }),
{
    let hi = s.mem[s.pc as int];
    let lo = s.mem[s.pc + 1];
    let op = (hi * 256 + lo) as u16;
    assert(op == hi * 256 + lo);
    assert(op / 0x1000 == hi / 16 && op % 0x1000 == (hi % 16) * 256 + lo);
}

/// A cycle on 5XY0 skips the next instruction exactly when VX equals VY, and
/// a cycle on 9XY0 exactly when they differ; nothing but the program counter
/// changes.
pub proof fn lemma_cycle_skip_registers(s: Machine, rnd: u8)
    requires
        s.wf(),
        s.pc + 1 < 4096,
        s.mem[s.pc as int] / 16 == 5 || s.mem[s.pc as int] / 16 == 9,
    ensures
        ({
            let hi = s.mem[s.pc as int];
            let equal = s.v[(hi % 16) as int] == s.v[(s.mem[s.pc + 1] / 16) as int];
            let skip = if hi / 16 == 5 { equal } else { !equal };
            step(s, rnd) == (Machine { pc: (if skip { s.pc + 4 } else { s.pc + 2 }) as u16, ..s })
        }),
{
    let hi = s.mem[s.pc as int];
    let lo = s.mem[s.pc + 1];
    let op = (hi * 256 + lo) as u16;
    assert(op == hi * 256 + lo);
    assert(op / 0x1000 == hi / 16 && op / 0x100 % 0x10 == hi % 16 && op / 0x10 % 0x10 == lo / 16);
}

/// A cycle on a jump, a conditional skip on registers or a byte, a register
/// load, an arithmetic or logic instruction, ANNN, BNNN or CXKK cannot fault:
/// it is always allowed.
pub proof fn lemma_cycle_allowed(s: Machine)
    requires
        s.pc + 1 < 4096,
        ({
            let f = s.mem[s.pc as int] / 16;
            f == 1 || f == 3 || f == 4 || f == 5 || f == 6 || f == 7 || f == 8 || f == 9 || f
                == 0xA || f == 0xB || f == 0xC
        }),
    ensures
        step_ok(s),
{
    let hi = s.mem[s.pc as int];
    let lo = s.mem[s.pc + 1];
    let op = (hi * 256 + lo) as u16;
    assert(op == hi * 256 + lo);
    assert(op / 0x1000 == hi / 16);
}

/// A CHIP-8 machine with every quirk off, whose memory accesses must stay in RAM.
pub struct Chip8 {
    // --- RAM
    mem: Memory,
    // --- Registers
    // 16 8-bit registers labeled V0 - VF
    v: [u8; 16],
    // 16-bit register labeled I
    i: u16,
    // --- Timers
    delay_timer: u8,
    pub sound_timer: u8,
    pub timer_interval: Duration,
    // Program Counter
    pc: u16,
    // Stack
    sp: u8,
    stack: [u16; 16],
    // --- Keypad
    keypad: [KeyState; 16],
    // --- Framebuffer
    pub fb: Framebuffer,
    // --- Quirks
    quirks: Quirks,
}

struct Quirks {
    vf_reset: bool,
    memory_increment: bool,
    clipping: bool,
    shifting: bool,
}

impl Quirks {
    fn new() -> (q: Quirks)
        ensures
            !q.vf_reset && !q.memory_increment && !q.clipping && !q.shifting,
    {
        Quirks { vf_reset: false, memory_increment: false, clipping: false, shifting: false }
    }
}

#[derive(Copy, Clone, Debug)]
struct KeyState {
    prev_state: bool,
    curr_state: bool,
}

/// Keys `0..k` have moved their current state to their previous state.
spec fn ticked_upto(keys: Seq<KeyState>, s: Machine, k: int) -> bool {
    &&& forall|j: int| 0 <= j < 16 ==> (#[trigger] keys[j]).curr_state == s.keys_down[j]
    &&& forall|j: int|
        0 <= j < 16 ==> (#[trigger] keys[j]).prev_state == (if j < k {
            s.keys_down[j]
        } else {
            s.keys_prev[j]
        })
}

proof fn lemma_tick_one(old_keys: Seq<KeyState>, keys: Seq<KeyState>, s: Machine, k: int, state: KeyState)
    requires
        0 <= k < 16,
        old_keys.len() == 16,
        ticked_upto(old_keys, s, k),
        keys == old_keys.update(k, state),
        state.curr_state == old_keys[k].curr_state,
        state.prev_state == old_keys[k].curr_state,
    ensures
        ticked_upto(keys, s, k + 1),
{
    assert forall|j: int| 0 <= j < 16 implies (#[trigger] keys[j]).curr_state == s.keys_down[j] by {
        assert(old_keys[j].curr_state == s.keys_down[j]);
    }
    assert forall|j: int| 0 <= j < 16 implies (#[trigger] keys[j]).prev_state == (if j < k + 1 {
        s.keys_down[j]
    } else {
        s.keys_prev[j]
    }) by {
        assert(old_keys[j].curr_state == s.keys_down[j]);
    }
}

impl View for Chip8 {
    type V = Machine;

    closed spec fn view(&self) -> Machine {
        Machine {
            mem: self.mem@,
            v: self.v@,
            i: self.i,
            delay_timer: self.delay_timer,
            sound_timer: self.sound_timer,
            pc: self.pc,
            sp: self.sp,
            stack: self.stack@,
            keys_down: Seq::new(16, |k: int| self.keypad@[k].curr_state),
            keys_prev: Seq::new(16, |k: int| self.keypad@[k].prev_state),
            fb: self.fb@,
            quirks: crate::emulator::quirks::Quirks {
                vf_reset: self.quirks.vf_reset,
                memory_increment: self.quirks.memory_increment,
                clipping: self.quirks.clipping,
                shifting: self.quirks.shifting,
            },
        }
    }
}

impl Chip8 {
    /// The span between two timer ticks.
    pub closed spec fn interval(&self) -> Duration {
        self.timer_interval
    }

    /// The sound timer.
    pub fn sound_timer(&self) -> (t: u8)
        ensures
            t == self@.sound_timer,
    {
        self.sound_timer
    }

    /// The display.
    pub fn framebuffer(&self) -> (fb: &Framebuffer)
        ensures
            fb@ == self@.fb,
    {
        &self.fb
    }

    /// The span between two timer ticks.
    pub fn timer_interval(&self) -> (d: Duration)
        ensures
            d == self.interval(),
    {
        self.timer_interval
    }

    /// The state of every machine has the sizes of the hardware.
    pub proof fn lemma_wf(&self)
        ensures
            self@.wf(),
    {
        self.mem.lemma_len();
    }

    /// Power-on state: the font in RAM, every register, timer and pixel zero,
    /// the program counter at the program area, every quirk off, timers
    /// ticking sixty times a second.
    pub fn new() -> (c: Chip8)
        ensures
            c@ == (Machine {
                mem: initial_memory(),
                v: Seq::new(16, |k: int| 0u8),
                i: 0,
                delay_timer: 0,
                sound_timer: 0,
                pc: PROGRAM_START,
                sp: 0,
                stack: Seq::new(16, |k: int| 0u16),
                keys_down: Seq::new(16, |k: int| false),
                keys_prev: Seq::new(16, |k: int| false),
                fb: Seq::new(2048, |k: int| 0u8),
                quirks: crate::emulator::quirks::Quirks {
                    vf_reset: false,
                    memory_increment: false,
                    clipping: false,
                    shifting: false,
                },
            }),
            c.interval() == nanos_duration(TIMER_INTERVAL_NANOS),
    {
        let mut mem = Memory::new();
        proof {
            mem.lemma_len();
        }

        // Load font set into memory
        let mut i: usize = 0;
        while i < FONTSET.len()
            invariant
                0 <= i <= 80,
                FONTSET@ == font(),
                mem@ == Seq::new(
                    4096,
                    |a: int|
                        if FONTSET_START <= a < FONTSET_START + i {
                            font()[a - FONTSET_START]
                        } else {
                            0u8
                        },
                ),
            decreases 80 - i,
        {
            mem.write_byte(FONTSET_START + i as u16, FONTSET[i]);
            i += 1;
        }

        let c = Chip8 {
            mem,
            v: [0; 16],
            i: 0,
            delay_timer: 0,
            sound_timer: 0,
            timer_interval: Duration::from_nanos(TIMER_INTERVAL_NANOS),
            pc: PROGRAM_START,
            sp: 0,
            stack: [0; 16],
            fb: Framebuffer::new(),
            keypad: [KeyState { prev_state: false, curr_state: false }; 16],
            quirks: Quirks::new(),
        };
        assert(c@.v =~= Seq::new(16, |k: int| 0u8));
        assert(c@.stack =~= Seq::new(16, |k: int| 0u16));
        assert(c@.keys_down =~= Seq::new(16, |k: int| false));
        assert(c@.keys_prev =~= Seq::new(16, |k: int| false));
        c
    }

    /// Copies `rom` to the program area.
    pub fn load_rom(&mut self, rom: &[u8])
        requires
            PROGRAM_START + rom@.len() <= 4096,
        ensures
            final(self)@ == (Machine { mem: loaded_memory(old(self)@.mem, rom@), ..old(self)@ }),
            final(self).interval() == old(self).interval(),
    {
        proof {
            self.lemma_wf();
        }
        let ghost s = self@;
        let mut i: usize = 0;
        while i < rom.len()
            invariant
                PROGRAM_START + rom@.len() <= 4096,
                0 <= i <= rom@.len(),
                s.wf(),
                self@ == (Machine { mem: loaded_memory(s.mem, rom@.take(i as int)), ..s }),
                self.interval() == old(self).interval(),
            decreases rom@.len() - i,
        {
            proof {
                self.lemma_wf();
            }
            self.mem.write_byte(PROGRAM_START + i as u16, rom[i]);
            assert(self@.mem =~= loaded_memory(s.mem, rom@.take(i + 1)));
            i += 1;
        }
        assert(rom@.take(rom@.len() as int) =~= rom@);
    }

    /// One cycle with `rnd` as the random byte that CXKK masks.
    pub fn cycle_with_random(&mut self, rnd: u8) -> (outcome: CycleOutcome)
        requires
            step_ok(old(self)@),
        ensures
            final(self)@ == step(old(self)@, rnd),
            outcome == step_outcome(old(self)@),
            final(self).interval() == old(self).interval(),
    {
        proof {
            self.lemma_wf();
        }
        // Fetch
        let instruction: u16 = self.mem.read_word(self.pc);
        self.pc += 2;

        // Decode & Execute
        if self.run_instruction(instruction, rnd) {
            CycleOutcome::Executed
        } else {
            CycleOutcome::Unrecognized(instruction)
        }
    }

    /// One cycle; CXKK masks a byte drawn from the thread-local random
    /// generator.
    pub fn cycle(&mut self) -> (outcome: CycleOutcome)
        requires
            step_ok(old(self)@),
        ensures
            exists|rnd: u8| final(self)@ == step(old(self)@, rnd),
            !needs_random(old(self)@.word_at_pc()) ==> final(self)@ == step(old(self)@, 0),
            outcome == step_outcome(old(self)@),
            final(self).interval() == old(self).interval(),
    {
        let instruction: u16 = self.mem.read_word(self.pc);
        proof {
            lemma_fields(instruction);
        }
        let rnd = if instruction & 0xF000 == 0xC000 {
            random_byte()
        } else {
            0
        };
        let outcome = self.cycle_with_random(rnd);
        assert(final(self)@ == step(old(self)@, rnd));
        outcome
    }

    /// The next cycle stays in RAM and runs without an overflow, a stack
    /// fault or a key number out of range.
    pub fn can_cycle(&self) -> (ok: bool)
        ensures
            ok == step_ok(self@),
    {
        proof {
            self.lemma_wf();
        }
        if self.pc > 4094 {
            return false;
        }
        let opcode = self.mem.read_word(self.pc);
        proof {
            lemma_fields(opcode);
        }
        let pc = self.pc + 2;
        let x = ((opcode & 0x0F00) >> 8) as usize;
        let y = ((opcode & 0x00F0) >> 4) as usize;
        let kk = (opcode & 0x00FF) as u8;
        let family = opcode & 0xF000;
        if opcode == 0x00EE {
            1 <= self.sp && self.sp < 16
        } else if family == 0x2000 {
            self.sp < 15
        } else if family == 0x3000 {
            self.v[x] != kk || pc <= 0xFFFD
        } else if family == 0x4000 {
            self.v[x] == kk || pc <= 0xFFFD
        } else if family == 0x5000 {
            self.v[x] != self.v[y] || pc <= 0xFFFD
        } else if family == 0x9000 {
            self.v[x] == self.v[y] || pc <= 0xFFFD
        } else if family == 0xD000 {
            let n = (opcode & 0x000F) as u32;
            let pos_y = self.v[y] % 32;
            let fit = if self.quirks.clipping && 32 - (pos_y as u32) < n {
                32 - pos_y as u32
            } else {
                n
            };
            self.i as u32 + fit <= 4096
        } else if family == 0xE000 && (kk == 0x9E || kk == 0xA1) {
            if self.v[x] < 16 {
                let down = self.keypad[self.v[x] as usize].curr_state;
                (if kk == 0x9E { !down } else { down }) || pc <= 0xFFFD
            } else {
                false
            }
        } else if family == 0xF000 {
            if kk == 0x0A {
                pc >= 2
            } else if kk == 0x1E {
                self.i as u32 + self.v[x] as u32 <= 0xFFFF
            } else if kk == 0x33 {
                (self.i as u32) + 2 < 4096
            } else if kk == 0x55 || kk == 0x65 {
                self.i as u32 + x as u32 <= 4095
            } else {
                true
            }
        } else {
            true
        }
    }

    /// Counts both timers down by one, stopping at zero.
    pub fn update_timers(&mut self)
        ensures
            final(self)@ == (Machine {
                delay_timer: if old(self)@.delay_timer > 0 {
                    (old(self)@.delay_timer - 1) as u8
                } else {
                    0
                },
                sound_timer: if old(self)@.sound_timer > 0 {
                    (old(self)@.sound_timer - 1) as u8
                } else {
                    0
                },
                ..old(self)@
            }),
            final(self).interval() == old(self).interval(),
    {
        if self.delay_timer > 0 {
            self.delay_timer -= 1;
        }
        if self.sound_timer > 0 {
            self.sound_timer -= 1;
        }
    }

    /// Starts a keyboard tick: the keys down now become the previous keys.
    pub fn update_keyboard_states(&mut self)
        ensures
            final(self)@ == (Machine { keys_prev: old(self)@.keys_down, ..old(self)@ }),
            final(self).interval() == old(self).interval(),
    {
        let ghost s = self@;
        let mut k: usize = 0;
        while k < 16
            invariant
                0 <= k <= 16,
                s == old(self)@,
                ticked_upto(self.keypad@, s, k as int),
                self@ == (Machine { keys_prev: self@.keys_prev, ..s }),
                self.interval() == old(self).interval(),
            decreases 16 - k,
        {
            let ghost old_keys = self.keypad@;
            assert(ticked_upto(old_keys, s, k as int));
            assert(old_keys[k as int].curr_state == s.keys_down[k as int]);
            let mut state = self.keypad[k];
            state.prev_state = state.curr_state;
            self.keypad[k] = state;
            let ghost kk = k as int;
            k += 1;
            proof {
                lemma_tick_one(old_keys, self.keypad@, s, kk, state);
                assert(self@.keys_down =~= s.keys_down);
            }
        }
        assert(self@.keys_prev =~= s.keys_down);
    }

    /// The sound timer is running.
    pub fn playing_sound(&self) -> (playing: bool)
        ensures
            playing == (self@.sound_timer > 0),
    {
        self.sound_timer > 0
    }

    /// Key `key` goes down.
    pub fn press_key(&mut self, key: u8)
        requires
            key < 16,
        ensures
            final(self)@ == (Machine {
                keys_down: old(self)@.keys_down.update(key as int, true),
                ..old(self)@
            }),
            final(self).interval() == old(self).interval(),
    {
        let ghost s = self@;
        let mut state = self.keypad[key as usize];
        state.curr_state = true;
        self.keypad[key as usize] = state;
        assert(self@.keys_down =~= s.keys_down.update(key as int, true));
        assert(self@.keys_prev =~= s.keys_prev);
    }

    /// Key `key` goes up.
    pub fn release_key(&mut self, key: u8)
        requires
            key < 16,
        ensures
            final(self)@ == (Machine {
                keys_down: old(self)@.keys_down.update(key as int, false),
                ..old(self)@
            }),
            final(self).interval() == old(self).interval(),
    {
        let ghost s = self@;
        let mut state = self.keypad[key as usize];
        state.curr_state = false;
        self.keypad[key as usize] = state;
        assert(self@.keys_down =~= s.keys_down.update(key as int, false));
        assert(self@.keys_prev =~= s.keys_prev);
    }
}

impl Chip8 {
    /// Executes `opcode`; false when the instruction set has no such instruction.
    fn run_instruction(&mut self, instruction: u16, rnd: u8) -> (known: bool)
        requires
            execute_ok(old(self)@, instruction),
            memory_ok(old(self)@, instruction),
        ensures
            final(self)@ == execute(old(self)@, instruction, rnd, old(self)@.lowest_released()),
            known == recognized(instruction),
            final(self).interval() == old(self).interval(),
    {
        proof {
            lemma_fields(instruction);
        }
        match instruction & 0xF000 {
            0x0000 => {
                match instruction {
                    0x00e0 => self.op_00e0(instruction),
                    0x00ee => self.op_00ee(instruction),
                    _ => return false,
                }
            },
            0x1000 => self.op_1nnn(instruction),
            0x2000 => self.op_2nnn(instruction),
            0x3000 => self.op_3xkk(instruction),
            0x4000 => self.op_4xkk(instruction),
            0x5000 => self.op_5xy0(instruction),
            0x6000 => self.op_6xkk(instruction),
            0x7000 => self.op_7xkk(instruction),
            0x8000 => {
                match instruction & 0x000F {
                    0x0 => self.op_8xy0(instruction),
                    0x1 => self.op_8xy1(instruction),
                    0x2 => self.op_8xy2(instruction),
                    0x3 => self.op_8xy3(instruction),
                    0x4 => self.op_8xy4(instruction),
                    0x5 => self.op_8xy5(instruction),
                    0x6 => self.op_8xy6(instruction),
                    0x7 => self.op_8xy7(instruction),
                    0xe => self.op_8xye(instruction),
                    _ => return false,
                }
            },
            0x9000 => self.op_9xy0(instruction),
            0xA000 => self.op_annn(instruction),
            0xB000 => self.op_bnnn(instruction),
            0xC000 => self.op_cxkk(instruction, rnd),
            0xD000 => self.op_dxyn(instruction),
            0xE000 => {
                match instruction & 0x00FF {
                    0x9E => self.op_ex9e(instruction),
                    0xA1 => self.op_exa1(instruction),
                    _ => return false,
                }
            },
            _ => {
                match instruction & 0x00FF {
                    0x07 => self.op_fx07(instruction),
                    0x0A => self.op_fx0a(instruction),
                    0x15 => self.op_fx15(instruction),
                    0x18 => self.op_fx18(instruction),
                    0x1E => self.op_fx1e(instruction),
                    0x29 => self.op_fx29(instruction),
                    0x33 => self.op_fx33(instruction),
                    0x55 => self.op_fx55(instruction),
                    0x65 => self.op_fx65(instruction),
                    _ => return false,
                }
            },
        }
        true
    }

    // --- Operations ---

    /// Clear the display
    fn op_00e0(&mut self, opcode: u16)
        ensures
            final(self)@ == (Machine { fb: Seq::new(2048, |k: int| 0u8), ..old(self)@ }),
            final(self).interval() == old(self).interval(),
    {
        self.fb.clear();
    }

    /// Return from a subroutine
    fn op_00ee(&mut self, opcode: u16)
        requires
            1 <= old(self).sp < 16,
        ensures
            final(self)@ == (Machine {
                pc: old(self)@.stack[old(self)@.sp as int],
                sp: (old(self)@.sp - 1) as u8,
                ..old(self)@
            }),
            final(self).interval() == old(self).interval(),
    {
        self.pc = self.stack[self.sp as usize];
        self.sp -= 1;
    }

    /// Jump to location nnn
    fn op_1nnn(&mut self, opcode: u16)
        ensures
            final(self)@ == old(self)@.set_pc(op_nnn(opcode)),
            final(self).interval() == old(self).interval(),
    {
        proof {
            lemma_fields(opcode);
        }
        self.pc = opcode & 0x0FFF;
    }

    /// Call subroutine at nnn
    fn op_2nnn(&mut self, opcode: u16)
        requires
            old(self).sp + 1 < 16,
        ensures
            final(self)@ == (Machine {
                sp: (old(self)@.sp + 1) as u8,
                stack: old(self)@.stack.update(old(self)@.sp + 1, old(self)@.pc),
                pc: op_nnn(opcode),
                ..old(self)@
            }),
            final(self).interval() == old(self).interval(),
    {
        proof {
            lemma_fields(opcode);
        }
        let nnn = opcode & 0x0FFF;

        self.sp += 1;
        self.stack[self.sp as usize] = self.pc;
        self.pc = nnn;
    }

    /// Skip next instruction if Vx = kk
    fn op_3xkk(&mut self, opcode: u16)
        requires
            (old(self)@.v[op_x(opcode)] == op_kk(opcode)) ==> old(self).pc + 2 <= 0xFFFF,
        ensures
            final(self)@ == old(self)@.skip_if(old(self)@.v[op_x(opcode)] == op_kk(opcode)),
            final(self).interval() == old(self).interval(),
    {
        proof {
            lemma_fields(opcode);
        }
        let x = ((opcode & 0x0F00) >> 8) as usize;
        let kk = (opcode & 0x00FF) as u8;

        if self.v[x] == kk {
            self.pc += 2;
        }
    }

    /// Skip next instruction if Vx != kk
    fn op_4xkk(&mut self, opcode: u16)
        requires
            (old(self)@.v[op_x(opcode)] != op_kk(opcode)) ==> old(self).pc + 2 <= 0xFFFF,
        ensures
            final(self)@ == old(self)@.skip_if(old(self)@.v[op_x(opcode)] != op_kk(opcode)),
            final(self).interval() == old(self).interval(),
    {
        proof {
            lemma_fields(opcode);
        }
        let x = ((opcode & 0x0F00) >> 8) as usize;
        let kk = (opcode & 0x00FF) as u8;

        if self.v[x] != kk {
            self.pc += 2;
        }
    }

    /// Skip next instruction if Vx = Vy
    fn op_5xy0(&mut self, opcode: u16)
        requires
            (old(self)@.v[op_x(opcode)] == old(self)@.v[op_y(opcode)]) ==> old(self).pc + 2 <= 0xFFFF,
        ensures
            final(self)@ == old(self)@.skip_if(
                old(self)@.v[op_x(opcode)] == old(self)@.v[op_y(opcode)],
            ),
            final(self).interval() == old(self).interval(),
    {
        proof {
            lemma_fields(opcode);
        }
        let x = ((opcode & 0x0F00) >> 8) as usize;
        let y = ((opcode & 0x00F0) >> 4) as usize;

        if self.v[x] == self.v[y] {
            self.pc += 2;
        }
    }

    /// Set Vx = kk
    fn op_6xkk(&mut self, opcode: u16)
        ensures
            final(self)@ == old(self)@.set_v(op_x(opcode), op_kk(opcode)),
            final(self).interval() == old(self).interval(),
    {
        proof {
            lemma_fields(opcode);
        }
        let x = ((opcode & 0x0F00) >> 8) as usize;
        let kk = (opcode & 0x00FF) as u8;

        self.v[x] = kk;
    }

    /// Set Vx = Vx + kk
    #[verifier::spinoff_prover]
    #[verifier::rlimit(40)]
    fn op_7xkk(&mut self, opcode: u16)
        ensures
            final(self)@ == old(self)@.set_v(
                op_x(opcode),
                ((old(self)@.v[op_x(opcode)] + op_kk(opcode)) % 256) as u8,
            ),
            final(self).interval() == old(self).interval(),
    {
        proof {
            lemma_fields(opcode);
        }
        let x = ((opcode & 0x0F00) >> 8) as usize;
        let kk = (opcode & 0x00FF) as u8;

        self.v[x] = self.v[x].wrapping_add(kk);
    }

    /// Set Vx = Vy
    fn op_8xy0(&mut self, opcode: u16)
        ensures
            final(self)@ == alu(old(self)@, op_x(opcode), op_y(opcode), 0),
            final(self).interval() == old(self).interval(),
    {
        proof {
            lemma_fields(opcode);
        }
        let x = ((opcode & 0x0F00) >> 8) as usize;
        let y = ((opcode & 0x00F0) >> 4) as usize;

        self.v[x] = self.v[y];
    }

    /// Set Vx = Vx | Vy
    fn op_8xy1(&mut self, opcode: u16)
        ensures
            final(self)@ == alu(old(self)@, op_x(opcode), op_y(opcode), 1),
            final(self).interval() == old(self).interval(),
    {
        proof {
            lemma_fields(opcode);
        }
        let x = ((opcode & 0x0F00) >> 8) as usize;
        let y = ((opcode & 0x00F0) >> 4) as usize;

        self.v[x] |= self.v[y];

        if self.quirks.vf_reset {
            self.v[0xF] = 0;
        }
    }

    /// Set Vx = Vx & Vy
    fn op_8xy2(&mut self, opcode: u16)
        ensures
            final(self)@ == alu(old(self)@, op_x(opcode), op_y(opcode), 2),
            final(self).interval() == old(self).interval(),
    {
        proof {
            lemma_fields(opcode);
        }
        let x = ((opcode & 0x0F00) >> 8) as usize;
        let y = ((opcode & 0x00F0) >> 4) as usize;

        self.v[x] &= self.v[y];

        if self.quirks.vf_reset {
            self.v[0xF] = 0;
        }
    }

    /// Set Vx = Vx ^ Vy
    fn op_8xy3(&mut self, opcode: u16)
        ensures
            final(self)@ == alu(old(self)@, op_x(opcode), op_y(opcode), 3),
            final(self).interval() == old(self).interval(),
    {
        proof {
            lemma_fields(opcode);
        }
        let x = ((opcode & 0x0F00) >> 8) as usize;
        let y = ((opcode & 0x00F0) >> 4) as usize;

        self.v[x] ^= self.v[y];

        if self.quirks.vf_reset {
            self.v[0xF] = 0;
        }
    }

    /// Set Vx = Vx + Vy, set VF = carry
    #[verifier::spinoff_prover]
    #[verifier::rlimit(30)]
    fn op_8xy4(&mut self, opcode: u16)
        ensures
            final(self)@ == alu(old(self)@, op_x(opcode), op_y(opcode), 4),
            final(self).interval() == old(self).interval(),
    {
        proof {
            lemma_fields(opcode);
        }
        let x = ((opcode & 0x0F00) >> 8) as usize;
        let y = ((opcode & 0x00F0) >> 4) as usize;

        let carry = self.v[y] > u8::MAX - self.v[x];
        let result = self.v[x].wrapping_add(self.v[y]);

        self.v[x] = result;
        self.v[0xF] = if carry { 1 } else { 0 };
    }

    /// Set Vx = Vx - Vy, set VF = NOT borrow
    fn op_8xy5(&mut self, opcode: u16)
        ensures
            final(self)@ == alu(old(self)@, op_x(opcode), op_y(opcode), 5),
            final(self).interval() == old(self).interval(),
    {
        proof {
            lemma_fields(opcode);
        }
        let x = ((opcode & 0x0F00) >> 8) as usize;
        let y = ((opcode & 0x00F0) >> 4) as usize;

        let borrow = self.v[x] < self.v[y];
        let result = self.v[x].wrapping_sub(self.v[y]);

        self.v[x] = result;
        self.v[0xF] = if borrow { 0 } else { 1 };
    }

    /// Set Vx = Vx SHR 1
    fn op_8xy6(&mut self, opcode: u16)
        ensures
            final(self)@ == alu(old(self)@, op_x(opcode), op_y(opcode), 6),
            final(self).interval() == old(self).interval(),
    {
        proof {
            lemma_fields(opcode);
        }
        let x = ((opcode & 0x0F00) >> 8) as usize;
        let y = ((opcode & 0x00F0) >> 4) as usize;

        if self.quirks.shifting {
            self.v[x] = self.v[y];
        }

        let vx = self.v[x];
        assert(vx & 0x0001 == vx % 2) by (bit_vector);
        let carry = self.v[x] & 0x0001 == 1;
        self.v[x] /= 2;
        self.v[0xF] = if carry { 1 } else { 0 };
    }

    /// Set Vx = Vy - Vx, set VF = NOT borrow
    fn op_8xy7(&mut self, opcode: u16)
        ensures
            final(self)@ == alu(old(self)@, op_x(opcode), op_y(opcode), 7),
            final(self).interval() == old(self).interval(),
    {
        proof {
            lemma_fields(opcode);
        }
        let x = ((opcode & 0x0F00) >> 8) as usize;
        let y = ((opcode & 0x00F0) >> 4) as usize;

        let borrow = self.v[y] < self.v[x];
        let result = self.v[y].wrapping_sub(self.v[x]);

        self.v[x] = result;
        self.v[0xF] = if borrow { 0 } else { 1 };
    }

    /// Set Vx = Vx SHL 1
    fn op_8xye(&mut self, opcode: u16)
        ensures
            final(self)@ == alu(old(self)@, op_x(opcode), op_y(opcode), 0xE),
            final(self).interval() == old(self).interval(),
    {
        proof {
            lemma_fields(opcode);
        }
        let x = ((opcode & 0x0F00) >> 8) as usize;
        let y = ((opcode & 0x00F0) >> 4) as usize;

        if self.quirks.shifting {
            self.v[x] = self.v[y];
        }

        let vx = self.v[x];
        assert(((vx & 0x80) != 0) == (vx / 128 == 1) && vx / 128 <= 1) by (bit_vector);
        let carry = (self.v[x] & 0x80) != 0;
        self.v[x] = self.v[x].wrapping_mul(2);
        self.v[0xF] = if carry { 1 } else { 0 };
    }

    /// Skip next instruction if Vx != Vy
    fn op_9xy0(&mut self, opcode: u16)
        requires
            (old(self)@.v[op_x(opcode)] != old(self)@.v[op_y(opcode)]) ==> old(self).pc + 2 <= 0xFFFF,
        ensures
            final(self)@ == old(self)@.skip_if(
                old(self)@.v[op_x(opcode)] != old(self)@.v[op_y(opcode)],
            ),
            final(self).interval() == old(self).interval(),
    {
        proof {
            lemma_fields(opcode);
        }
        let x = ((opcode & 0x0F00) >> 8) as usize;
        let y = ((opcode & 0x00F0) >> 4) as usize;

        if self.v[x] != self.v[y] {
            self.pc += 2;
        }
    }

    /// Set I = nnn
    fn op_annn(&mut self, opcode: u16)
        ensures
            final(self)@ == old(self)@.set_i(op_nnn(opcode)),
            final(self).interval() == old(self).interval(),
    {
        proof {
            lemma_fields(opcode);
        }
        self.i = opcode & 0x0FFF;
    }

    /// Jump to location nnn + V0
    fn op_bnnn(&mut self, opcode: u16)
        ensures
            final(self)@ == old(self)@.set_pc((op_nnn(opcode) + old(self)@.v[0]) as u16),
            final(self).interval() == old(self).interval(),
    {
        proof {
            lemma_fields(opcode);
        }
        let nnn = opcode & 0x0FFF;

        self.pc = nnn + self.v[0] as u16;
    }

    /// Set Vx = random byte AND kk
    fn op_cxkk(&mut self, opcode: u16, rnd_value: u8)
        ensures
            final(self)@ == old(self)@.set_v(op_x(opcode), rnd_value & op_kk(opcode)),
            final(self).interval() == old(self).interval(),
    {
        proof {
            lemma_fields(opcode);
        }
        let x = ((opcode & 0x0F00) >> 8) as usize;
        let kk = (opcode & 0x00FF) as u8;

        self.v[x] = rnd_value & kk;
    }

    /// Skip next instruction if key with the value of Vx is pressed
    fn op_ex9e(&mut self, opcode: u16)
        requires
            old(self).v[op_x(opcode)] < 16,
            (old(self)@.key_down(op_x(opcode))) ==> old(self).pc + 2 <= 0xFFFF,
        ensures
            final(self)@ == old(self)@.skip_if(old(self)@.key_down(op_x(opcode))),
            final(self).interval() == old(self).interval(),
    {
        proof {
            lemma_fields(opcode);
        }
        let x = ((opcode & 0x0F00) >> 8) as usize;

        if self.keypad[self.v[x] as usize].curr_state {
            self.pc += 2;
        }
    }

    /// Skip next instruction if key with the value of Vx is not pressed
    fn op_exa1(&mut self, opcode: u16)
        requires
            old(self).v[op_x(opcode)] < 16,
            (!old(self)@.key_down(op_x(opcode))) ==> old(self).pc + 2 <= 0xFFFF,
        ensures
            final(self)@ == old(self)@.skip_if(!old(self)@.key_down(op_x(opcode))),
            final(self).interval() == old(self).interval(),
    {
        proof {
            lemma_fields(opcode);
        }
        let x = ((opcode & 0x0F00) >> 8) as usize;

        if !self.keypad[self.v[x] as usize].curr_state {
            self.pc += 2;
        }
    }

    /// Set Vx = delay timer value
    fn op_fx07(&mut self, opcode: u16)
        ensures
            final(self)@ == old(self)@.set_v(op_x(opcode), old(self)@.delay_timer),
            final(self).interval() == old(self).interval(),
    {
        proof {
            lemma_fields(opcode);
        }
        let x = ((opcode & 0x0F00) >> 8) as usize;

        self.v[x] = self.delay_timer;
    }

    /// Wait for a key press, store the value of the key in Vx
    fn op_fx0a(&mut self, opcode: u16)
        requires
            old(self).pc >= 2,
        ensures
            final(self)@ == (match old(self)@.lowest_released() {
                Some(k) => old(self)@.set_v(op_x(opcode), k),
                None => old(self)@.set_pc((old(self)@.pc - 2) as u16),
            }),
            final(self).interval() == old(self).interval(),
    {
        proof {
            lemma_fields(opcode);
        }
        let x = ((opcode & 0x0F00) >> 8) as usize;
        let ghost s = self@;

        let mut i: usize = 0;
        while i < 16
            invariant
                0 <= i <= 16,
                self@ == s,
                self.interval() == old(self).interval(),
                x == op_x(opcode),
                s == old(self)@,
                s.pc >= 2,
                lowest_released_from(s.keys_down, s.keys_prev, i as int) == s.lowest_released(),
            decreases 16 - i,
        {
            if self.keypad[i].prev_state && !self.keypad[i].curr_state {
                self.v[x] = i as u8;
                return;
            }
            i += 1;
        }

        // Dont move to next instruction
        self.pc -= 2;
    }

    /// Set delay timer = Vx
    fn op_fx15(&mut self, opcode: u16)
        ensures
            final(self)@ == (Machine { delay_timer: old(self)@.v[op_x(opcode)], ..old(self)@ }),
            final(self).interval() == old(self).interval(),
    {
        proof {
            lemma_fields(opcode);
        }
        let x = ((opcode & 0x0F00) >> 8) as usize;

        self.delay_timer = self.v[x];
    }

    /// Set sound timer = Vx
    fn op_fx18(&mut self, opcode: u16)
        ensures
            final(self)@ == (Machine { sound_timer: old(self)@.v[op_x(opcode)], ..old(self)@ }),
            final(self).interval() == old(self).interval(),
    {
        proof {
            lemma_fields(opcode);
        }
        let x = ((opcode & 0x0F00) >> 8) as usize;

        self.sound_timer = self.v[x];
    }

    /// Set I = I + Vx
    fn op_fx1e(&mut self, opcode: u16)
        requires
            old(self).i + old(self).v[op_x(opcode)] <= 0xFFFF,
        ensures
            final(self)@ == old(self)@.set_i((old(self)@.i + old(self)@.v[op_x(opcode)]) as u16),
            final(self).interval() == old(self).interval(),
    {
        proof {
            lemma_fields(opcode);
        }
        let x = ((opcode & 0x0F00) >> 8) as usize;

        self.i += self.v[x] as u16;
    }

    /// Set I = location of sprite for digit Vx
    fn op_fx29(&mut self, opcode: u16)
        ensures
            final(self)@ == old(self)@.set_i((FONTSET_START + 5 * old(self)@.v[op_x(opcode)]) as u16),
            final(self).interval() == old(self).interval(),
    {
        proof {
            lemma_fields(opcode);
        }
        let x = ((opcode & 0x0F00) >> 8) as usize;

        self.i = FONTSET_START + 5 * self.v[x] as u16;
    }

    /// Store BCD representation of Vx in memory locations I, I+1, and I+2
    fn op_fx33(&mut self, opcode: u16)
        requires
            old(self).i + 2 < 4096,
        ensures
            final(self)@ == store_bcd(old(self)@, op_x(opcode)),
            final(self).interval() == old(self).interval(),
    {
        proof {
            lemma_fields(opcode);
        }
        let x = ((opcode & 0x0F00) >> 8) as usize;

        let value = self.v[x];
        self.mem.write_byte(self.i, value / 100);
        self.mem.write_byte(self.i + 1, (value / 10) % 10);
        self.mem.write_byte(self.i + 2, value % 10);
    }

    /// Display n-byte sprite starting at memory location I at (Vx, Vy), set VF = collision
    #[verifier::spinoff_prover]
    #[verifier::rlimit(60)]
    fn op_dxyn(&mut self, opcode: u16)
        requires
            old(self).i + draw_fit(old(self)@, opcode) <= 4096,
        ensures
            final(self)@ == draw(old(self)@, opcode),
            final(self).interval() == old(self).interval(),
    {
        proof {
            self.lemma_wf();
        }
        let ghost s = self@;
        proof {
            lemma_fields(opcode);
        }
        let n = (opcode & 0x000F) as u8;
        let x = ((opcode & 0x0F00) >> 8) as usize;
        let y = ((opcode & 0x00F0) >> 4) as usize;

        let pos_x = self.v[x] % 64;
        let mut pos_y = self.v[y] % 32;

        self.v[0xF] = 0;
        proof {
            lemma_draw_start(s, opcode);
            assert(self.v@ =~= s.v.update(15, 0u8));
        }

        let mut row: u8 = 0;
        let mut done = false;
        while row < n && !done
            invariant
                s.wf(),
                n == op_n(opcode),
                s.i + draw_fit(s, opcode) <= 4096,
                pos_x == draw_x0(s, opcode),
                0 <= row <= draw_rows(s, opcode),
                done ==> row == draw_rows(s, opcode),
                !done && row < n ==> row < draw_fit(s, opcode),
                pos_y == (if s.quirks.clipping {
                    draw_y0(s, opcode) + row
                } else {
                    (draw_y0(s, opcode) + row) % 32
                }),
                self@ == (Machine {
                    fb: draw_fb(s, opcode, row as int, 0),
                    v: s.v.update(15, if draw_hit(s, opcode, row as int, 0) { 1 } else { 0 }),
                    ..s
                }),
                self.interval() == old(self).interval(),
            decreases 2 * (n - row) + (if done { 0int } else { 1 }),
        {
            let index = self.i + row as u16;
            let byte = self.mem.read_byte(index);
            assert(row < draw_rows(s, opcode));
            let mut b: u8 = 0;
            let mut clipped = false;
            while b < 8 && !clipped
                invariant
                    s.wf(),
                    0 <= row < draw_rows(s, opcode),
                    byte == s.mem[s.i + row],
                    s.i + draw_fit(s, opcode) <= 4096,
                    pos_x == draw_x0(s, opcode),
                    pos_y == (if s.quirks.clipping {
                        draw_y0(s, opcode) + row
                    } else {
                        (draw_y0(s, opcode) + row) % 32
                    }),
                    pos_y < 32,
                    0 <= b <= 8,
                    clipped ==> s.quirks.clipping && draw_x0(s, opcode) + b > 63,
                    self@ == (Machine {
                        fb: draw_fb(s, opcode, row as int, b as int),
                        v: s.v.update(
                            15,
                            if draw_hit(s, opcode, row as int, b as int) { 1 } else { 0 },
                        ),
                        ..s
                    }),
                    self.interval() == old(self).interval(),
                decreases 2 * (8 - b) + (if clipped { 0int } else { 1 }),
            {
                // The leftmost pixel is the most significant bit.
                let bit = (byte >> (7 - b)) & 1;

                let mut px = pos_x + b;

                if self.quirks.clipping {
                    if px > 63 {
                        clipped = true;
                    }
                } else {
                    px = px % 64;
                }

                if !clipped {
                    proof {
                        lemma_draw_pixel(s, opcode, row as int, b as int, px as int, pos_y as int);
                    }
                    if self.fb.xor(px, pos_y, bit) {
                        self.v[0xF] = 1;
                    }
                    proof {
                        assert(self.v@ =~= s.v.update(
                            15,
                            if draw_hit(s, opcode, row as int, b + 1) { 1u8 } else { 0u8 },
                        ));
                    }
                    b += 1;
                }
            }
            proof {
                lemma_draw_row_end(s, opcode, row as int, b as int);
            }

            pos_y = pos_y + 1;
            row += 1;

            if self.quirks.clipping {
                if pos_y > 31 {
                    done = true;
                }
            } else {
                pos_y = pos_y % 32;
            }
        }
    }

    /// Store registers V0 through Vx in memory starting at location I
    fn op_fx55(&mut self, opcode: u16)
        requires
            old(self).i + op_x(opcode) < 4096,
        ensures
            final(self)@ == store_registers(old(self)@, op_x(opcode)),
            final(self).interval() == old(self).interval(),
    {
        proof {
            self.lemma_wf();
        }
        let ghost s = self@;
        proof {
            lemma_fields(opcode);
        }
        let x = ((opcode & 0x0F00) >> 8) as usize;

        let mut k: usize = 0;
        while k <= x
            invariant
                s.wf(),
                x == op_x(opcode),
                x < 16,
                k <= x + 1,
                s.i + x < 4096,
                self@ == (Machine {
                    mem: Seq::new(
                        4096,
                        |a: int| if s.i <= a < s.i + k { s.v[a - s.i] } else { s.mem[a] },
                    ),
                    ..s
                }),
                self.interval() == old(self).interval(),
            decreases x + 1 - k,
        {
            self.mem.write_byte(self.i + k as u16, self.v[k]);
            assert(self@.mem =~= Seq::new(
                4096,
                |a: int| if s.i <= a < s.i + k + 1 { s.v[a - s.i] } else { s.mem[a] },
            ));
            k += 1;
        }

        if self.quirks.memory_increment {
            self.i = self.i + x as u16 + 1;
        }
    }

    /// Read registers V0 through Vx from memory starting at location I
    fn op_fx65(&mut self, opcode: u16)
        requires
            old(self).i + op_x(opcode) < 4096,
        ensures
            final(self)@ == load_registers(old(self)@, op_x(opcode)),
            final(self).interval() == old(self).interval(),
    {
        proof {
            self.lemma_wf();
        }
        let ghost s = self@;
        proof {
            lemma_fields(opcode);
        }
        let x = ((opcode & 0x0F00) >> 8) as usize;

        let mut k: usize = 0;
        while k <= x
            invariant
                s.wf(),
                x == op_x(opcode),
                x < 16,
                k <= x + 1,
                s.i + x < 4096,
                self@ == (Machine {
                    v: Seq::new(
                        16,
                        |j: int| if j < k && s.i + j < 4096 { s.mem[s.i + j] } else { s.v[j] },
                    ),
                    ..s
                }),
                self.interval() == old(self).interval(),
            decreases x + 1 - k,
        {
            self.v[k] = self.mem.read_byte(self.i + k as u16);
            assert(self@.v =~= Seq::new(
                16,
                |j: int| if j < k + 1 && s.i + j < 4096 { s.mem[s.i + j] } else { s.v[j] },
            ));
            k += 1;
        }

        if self.quirks.memory_increment {
            self.i = self.i + x as u16 + 1;
        }
    }
}

} // verus!
