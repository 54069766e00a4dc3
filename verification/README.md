# chip8

A CHIP-8 interpreter whose core is verified with Verus.

## Layout

- `src/isa.rs` — the instruction set as a mathematical model: the machine
  state (`Machine`), the effect of every instruction (`execute`, `alu`,
  `draw`, ...), when an instruction runs without a fault (`execute_ok`,
  `memory_ok`), and laws such as "drawing a sprite twice restores the
  display".
- `src/emulator/` — the configurable interpreter (`Chip8`, its `Memory` whose
  reads report addresses outside RAM, its `Quirks`). Each cycle is proved to
  be `step` of the model.
- `src/chip8.rs`, `src/memory.rs` — the interpreter with every quirk off and
  a memory whose accesses must stay in RAM; proved against the same model.
- `src/framebuffer.rs`, `src/keypad.rs` — the 64x32 display and the 16-key
  keypad.
- `src/config.rs`, `src/host.rs` — core settings, instructions per timer
  tick and the keyboard layout.
- `src/rng.rs` — the one call into `rand`, the random byte of CXKK.
- `app/` — the program around the core: window, OpenGL rendering, sound,
  the config file and the main loop.
- `tests/` — tests of the library, mostly small CHIP-8 programs.

## Usage

```bash
./chip8 <path/to/rom>
```

On first launch a default `config.toml` is written: CPU speed, display
colours and quirks.
