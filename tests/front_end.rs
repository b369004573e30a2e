use chip8::emulator::keymap;
use chip8::{Emulator, Keypad, Options, Quirks};

fn options() -> Options {
    Options {
        fps: 60,
        ipf: 10,
        scale: 10,
        fg: 0xFFFFFFFF,
        bg: 0x000000FF,
        pitch: 440,
        display_wait: false,
    }
}

fn quirks() -> Quirks {
    Quirks {
        vf_reset: false,
        memory: false,
        wrap: false,
        shifting: false,
        jumping: false,
    }
}

#[test]
fn emulator_loads_program() {
    let emu = Emulator::new(&[0x12, 0x00], options(), quirks()).expect("fits");
    assert_eq!(emu.chip.memory(0x200), 0x12);
    assert_eq!(emu.options, options());
    assert!(Emulator::new(&vec![0; 4000], options(), quirks()).is_err());
}

#[test]
fn keyboard_layout() {
    assert_eq!(keymap('1'), Some(0x1));
    assert_eq!(keymap('4'), Some(0xC));
    assert_eq!(keymap('Q'), Some(0x4));
    assert_eq!(keymap('X'), Some(0x0));
    assert_eq!(keymap('V'), Some(0xF));
    assert_eq!(keymap('P'), None);
    assert_eq!(keymap('5'), None);
}

#[test]
fn keypad_tracks_keys() {
    let mut keys = Keypad::new();
    assert!(!keys.is_pressed(3));
    keys.key_pressed(3);
    assert!(keys.is_pressed(3));
    keys.key_released(3);
    assert!(!keys.is_pressed(3));
}
