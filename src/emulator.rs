//! What a front end needs around the machine: its options, and the keyboard
//! layout that feeds the keypad.

use vstd::prelude::*;

use crate::chip8::{initial_state, Chip8, Quirks, MEMORY_SIZE, PROGRAM_START};

verus! {

/// Settings of a front end.
#[derive(Debug, Clone, Copy, PartialEq, Eq, Structural)]
pub struct Options {
    /// Frames per second.
    pub fps: u16,
    /// Instructions executed per frame.
    pub ipf: u16,
    /// Window scale factor.
    pub scale: u32,
    /// Foreground colour (RGBA8888).
    pub fg: u32,
    /// Background colour (RGBA8888).
    pub bg: u32,
    /// Pitch of the buzzer, in Hz.
    pub pitch: u16,
    /// Limit drawing to one sprite operation per frame.
    pub display_wait: bool,
}

/// A machine together with the options of the front end that runs it.
#[derive(Debug)]
pub struct Emulator {
    pub chip: Chip8,
    pub options: Options,
}

impl Emulator {
    /// Loads `rom` into a new machine; fails as `Chip8::new` does.
    pub fn new(rom: &[u8], options: Options, quirks: Quirks) -> (r: Result<Emulator, String>)
        ensures
            r is Err <==> rom@.len() >= MEMORY_SIZE - PROGRAM_START,
            r matches Ok(e) ==> e.chip.wf() && e.chip@ == initial_state(rom@, quirks) && e.options
                == options,
    {
        let chip = Chip8::new(rom, quirks)?;
        Ok(Emulator { chip, options })
    }
}

/// The keypad key under a keyboard key, named by its label on a QWERTY
/// keyboard. The left four columns of rows 1, Q, A and Z stand for the
/// keypad's grid:
///
/// ```text
/// 1 2 3 C      1 2 3 4
/// 4 5 6 D  <-  Q W E R
/// 7 8 9 E      A S D F
/// A 0 B F      Z X C V
/// ```
pub open spec fn keymap_spec(label: char) -> Option<u8> {
    if label == '1' {
        Some(0x1u8)
    } else if label == '2' {
        Some(0x2u8)
    } else if label == '3' {
        Some(0x3u8)
    } else if label == '4' {
        Some(0xCu8)
    } else if label == 'Q' {
        Some(0x4u8)
    } else if label == 'W' {
        Some(0x5u8)
    } else if label == 'E' {
        Some(0x6u8)
    } else if label == 'R' {
        Some(0xDu8)
    } else if label == 'A' {
        Some(0x7u8)
    } else if label == 'S' {
        Some(0x8u8)
    } else if label == 'D' {
        Some(0x9u8)
    } else if label == 'F' {
        Some(0xEu8)
    } else if label == 'Z' {
        Some(0xAu8)
    } else if label == 'X' {
        Some(0x0u8)
    } else if label == 'C' {
        Some(0xBu8)
    } else if label == 'V' {
        Some(0xFu8)
    } else {
        None
    }
}

/// The keypad key under the keyboard key labelled `label`, if any.
pub fn keymap(label: char) -> (r: Option<u8>)
    ensures
        r == keymap_spec(label),
        r matches Some(k) ==> k < 16,
{
    match label {
        '1' => Some(0x1),
        '2' => Some(0x2),
        '3' => Some(0x3),
        '4' => Some(0xC),
        'Q' => Some(0x4),
        'W' => Some(0x5),
        'E' => Some(0x6),
        'R' => Some(0xD),
        'A' => Some(0x7),
        'S' => Some(0x8),
        'D' => Some(0x9),
        'F' => Some(0xE),
        'Z' => Some(0xA),
        'X' => Some(0x0),
        'C' => Some(0xB),
        'V' => Some(0xF),
        _ => None,
    }
}

} // verus!
