//! A CHIP-8 virtual machine: instruction decoder, framebuffer, keypad and
//! interpreter core, with their behaviour stated as contracts.

pub mod chip8;
pub mod color;
pub mod emulator;
pub mod framebuffer;
pub mod instruction;
pub mod keypad;

pub use chip8::{Chip8, Fault, Quirks};
pub use emulator::{Emulator, Options};
pub use framebuffer::Framebuffer;
pub use instruction::Instruction;
pub use keypad::Keypad;
