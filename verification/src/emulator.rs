//! The configurable interpreter: quirks chosen by a [`crate::config::Config`],
//! memory reads that report addresses outside RAM instead of failing.

pub mod chip8;
pub mod memory;
pub mod quirks;
