//! A CHIP-8 interpreter core: memory, display, keypad and the instruction set.

pub mod chip8;
pub mod config;
pub mod emulator;
pub mod framebuffer;
pub mod host;
pub mod isa;
pub mod keypad;
pub mod laws;
pub mod memory;
mod rng;
