//! An interpreter for the CHIP-8 virtual machine. `semantics` states what each
//! operation does over a mathematical model of the machine, `emulator` carries
//! it out and is proved to agree, and `laws` proves properties of the model.

pub mod display;
pub mod emulator;
pub mod laws;
pub mod semantics;

pub use emulator::Emulator;
pub use semantics::{Chip8Error, SCREEN_HEIGHT, SCREEN_WIDTH};
