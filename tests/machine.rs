use chip8::chip8::PROGRAM_START;
use chip8::{Chip8, Fault, Quirks};

fn classic() -> Quirks {
    Quirks {
        vf_reset: false,
        memory: false,
        wrap: false,
        shifting: false,
        jumping: false,
    }
}

fn program(words: &[u16]) -> Vec<u8> {
    words.iter().flat_map(|w| w.to_be_bytes()).collect()
}

fn load(words: &[u16], quirks: Quirks) -> Chip8 {
    Chip8::new(&program(words), quirks).expect("program fits")
}

fn run(chip: &mut Chip8, steps: usize) {
    for _ in 0..steps {
        assert_eq!(chip.next_fault(), None);
        chip.step();
    }
}

#[test]
fn add_with_carry_sets_flag() {
    let mut chip = load(&[0x6AFF, 0x6B01, 0x8AB4], classic());
    run(&mut chip, 3);
    assert_eq!(chip.register(0xA), 0x00);
    assert_eq!(chip.register(0xF), 1);
}

#[test]
fn add_without_carry_clears_flag() {
    let mut chip = load(&[0x6F01, 0x6A10, 0x6B20, 0x8AB4], classic());
    run(&mut chip, 4);
    assert_eq!(chip.register(0xA), 0x30);
    assert_eq!(chip.register(0xF), 0);
}

#[test]
fn sub_with_borrow_clears_flag() {
    let mut chip = load(&[0x6A01, 0x6B02, 0x8AB5], classic());
    run(&mut chip, 3);
    assert_eq!(chip.register(0xA), 0xFF);
    assert_eq!(chip.register(0xF), 0);
}

#[test]
fn sub_and_subr_without_borrow_set_flag() {
    let mut chip = load(&[0x6A05, 0x6B03, 0x8AB5, 0x6C03, 0x6D05, 0x8CD7], classic());
    run(&mut chip, 3);
    assert_eq!(chip.register(0xA), 2);
    assert_eq!(chip.register(0xF), 1);
    run(&mut chip, 3);
    assert_eq!(chip.register(0xC), 2);
    assert_eq!(chip.register(0xF), 1);
}

#[test]
fn addb_wraps_without_touching_flag() {
    let mut chip = load(&[0x6F07, 0x6AFF, 0x7A02], classic());
    run(&mut chip, 3);
    assert_eq!(chip.register(0xA), 0x01);
    assert_eq!(chip.register(0xF), 7);
}

#[test]
fn shift_right_without_quirk_reads_vx_only() {
    let mut chip = load(&[0x6A05, 0x6B0C, 0x8AB6], classic());
    run(&mut chip, 3);
    assert_eq!(chip.register(0xA), 2);
    assert_eq!(chip.register(0xF), 1);
    assert_eq!(chip.register(0xB), 0x0C);
}

#[test]
fn shift_right_with_quirk_copies_vy_first() {
    let mut chip = load(&[0x6A05, 0x6B0C, 0x8AB6], Quirks { shifting: true, ..classic() });
    run(&mut chip, 3);
    assert_eq!(chip.register(0xA), 6);
    assert_eq!(chip.register(0xF), 0);
}

#[test]
fn shift_left_sets_flag_to_high_bit() {
    let mut off = load(&[0x6A81, 0x6B01, 0x8ABE], classic());
    run(&mut off, 3);
    assert_eq!(off.register(0xA), 0x02);
    assert_eq!(off.register(0xF), 1);
    let mut on = load(&[0x6A81, 0x6B01, 0x8ABE], Quirks { shifting: true, ..classic() });
    run(&mut on, 3);
    assert_eq!(on.register(0xA), 0x02);
    assert_eq!(on.register(0xF), 0);
}

#[test]
fn bitwise_ops_reset_flag_only_with_quirk() {
    let rom = [0x6F09, 0x6A0C, 0x6B0A, 0x8AB1, 0x8AB2, 0x8AB3];
    let mut off = load(&rom, classic());
    run(&mut off, 4);
    assert_eq!(off.register(0xA), 0x0E);
    assert_eq!(off.register(0xF), 9);
    run(&mut off, 2);
    assert_eq!(off.register(0xA), 0x00);
    let mut on = load(&rom, Quirks { vf_reset: true, ..classic() });
    run(&mut on, 4);
    assert_eq!(on.register(0xA), 0x0E);
    assert_eq!(on.register(0xF), 0);
}

#[test]
fn key_wait_blocks_until_release() {
    let mut chip = load(&[0xF30A, 0x6001], classic());
    chip.keypad.key_pressed(7);
    run(&mut chip, 1);
    assert_eq!(chip.pc(), PROGRAM_START);
    run(&mut chip, 1);
    assert_eq!(chip.pc(), PROGRAM_START);
    chip.keypad.key_released(7);
    run(&mut chip, 1);
    assert_eq!(chip.pc(), PROGRAM_START + 2);
    assert_eq!(chip.register(3), 7);
    run(&mut chip, 1);
    assert_eq!(chip.register(0), 1);
}

#[test]
fn release_before_wait_is_not_taken() {
    let mut chip = load(&[0xF30A], classic());
    chip.keypad.key_pressed(5);
    chip.keypad.key_released(5);
    run(&mut chip, 2);
    assert_eq!(chip.pc(), PROGRAM_START);
    chip.keypad.key_released(9);
    run(&mut chip, 1);
    assert_eq!(chip.register(3), 9);
}

#[test]
fn bcd_digits_reassemble_every_value() {
    for value in 0..=255u8 {
        let mut chip = load(&[0xA300, 0x6000 | value as u16, 0xF033], classic());
        run(&mut chip, 3);
        let (d2, d1, d0) = (chip.memory(0x300), chip.memory(0x301), chip.memory(0x302));
        assert!(d2 < 10 && d1 < 10 && d0 < 10);
        assert_eq!(100 * d2 as u32 + 10 * d1 as u32 + d0 as u32, value as u32);
    }
}

#[test]
fn bcd_of_254() {
    let mut chip = load(&[0xA300, 0x60FE, 0xF033], classic());
    run(&mut chip, 3);
    assert_eq!((chip.memory(0x300), chip.memory(0x301), chip.memory(0x302)), (2, 5, 4));
}

#[test]
fn sixteen_nested_calls_then_overflow() {
    let words: Vec<u16> = (0..17u16).map(|k| 0x2000 | (0x202 + 2 * k)).collect();
    let mut chip = load(&words, classic());
    run(&mut chip, 16);
    assert_eq!(chip.stack_depth(), 16);
    assert_eq!(chip.pc(), PROGRAM_START + 32);
    assert_eq!(chip.next_fault(), Some(Fault::StackOverflow));
}

#[test]
fn return_with_empty_stack_faults() {
    let chip = load(&[0x00EE], classic());
    assert_eq!(chip.next_fault(), Some(Fault::StackUnderflow));
}

#[test]
fn call_and_return() {
    let mut chip = load(&[0x2206, 0x6A01, 0x1204, 0x6B02, 0x00EE], classic());
    run(&mut chip, 1);
    assert_eq!(chip.pc(), 0x206);
    assert_eq!(chip.stack_depth(), 1);
    run(&mut chip, 2);
    assert_eq!(chip.register(0xB), 2);
    assert_eq!(chip.pc(), 0x202);
    assert_eq!(chip.stack_depth(), 0);
    run(&mut chip, 1);
    assert_eq!(chip.register(0xA), 1);
}

#[test]
fn program_too_large_is_rejected() {
    assert!(Chip8::new(&vec![0u8; 4096 - 0x200], classic()).is_err());
    assert!(Chip8::new(&vec![0u8; 4096 - 0x200 - 1], classic()).is_ok());
}

#[test]
fn new_machine_holds_font_and_program() {
    let chip = load(&[0x1234], classic());
    let glyph0: Vec<u8> = (0..5).map(|a| chip.memory(a)).collect();
    assert_eq!(glyph0, vec![0xF0, 0x90, 0x90, 0x90, 0xF0]);
    let glyph_f: Vec<u8> = (75..80).map(|a| chip.memory(a)).collect();
    assert_eq!(glyph_f, vec![0xF0, 0x80, 0xF0, 0x80, 0x80]);
    assert_eq!(chip.memory(0x200), 0x12);
    assert_eq!(chip.memory(0x201), 0x34);
    assert_eq!(chip.memory(0x202), 0);
    assert_eq!(chip.pc(), PROGRAM_START);
    assert_eq!(chip.stack_depth(), 0);
    assert_eq!((chip.dt, chip.st), (0, 0));
}

#[test]
fn font_points_at_glyph() {
    let mut chip = load(&[0x600B, 0xF029], classic());
    run(&mut chip, 2);
    assert_eq!(chip.index(), 55);
}

#[test]
fn faults_are_reported() {
    assert_eq!(load(&[0x6010, 0xF029], classic()).next_fault(), None);
    let mut glyph = load(&[0x6010, 0xF029], classic());
    run(&mut glyph, 1);
    assert_eq!(glyph.next_fault(), Some(Fault::InvalidGlyph));
    let mut key = load(&[0x6010, 0xE09E], classic());
    run(&mut key, 1);
    assert_eq!(key.next_fault(), Some(Fault::InvalidKey));
    let mut bcd = load(&[0xAFFE, 0xF033], classic());
    run(&mut bcd, 1);
    assert_eq!(bcd.next_fault(), Some(Fault::MemoryOutOfBounds));
    let mut store = load(&[0xAFFC, 0xF455], classic());
    run(&mut store, 1);
    assert_eq!(store.next_fault(), Some(Fault::MemoryOutOfBounds));
    let mut draw = load(&[0xAFFC, 0xD015], classic());
    run(&mut draw, 1);
    assert_eq!(draw.next_fault(), Some(Fault::MemoryOutOfBounds));
    let mut fetch = load(&[0x1FFF], classic());
    run(&mut fetch, 1);
    assert_eq!(fetch.next_fault(), Some(Fault::FetchOutOfBounds));
}

#[test]
fn skips() {
    let mut chip = load(&[0x6A05, 0x3A05, 0x6001, 0x4A05, 0x6102, 0x5AA0, 0x6203, 0x9AA0, 0x6304], classic());
    run(&mut chip, 7);
    assert_eq!(chip.register(0), 0);
    assert_eq!(chip.register(1), 2);
    assert_eq!(chip.register(2), 0);
    assert_eq!(chip.register(3), 4);
    assert_eq!(chip.pc(), PROGRAM_START + 18);
}

#[test]
fn key_skips() {
    let mut chip = load(&[0x6004, 0xE09E, 0x6101, 0xE0A1, 0x6202], classic());
    chip.keypad.key_pressed(4);
    run(&mut chip, 4);
    assert_eq!(chip.register(1), 0);
    assert_eq!(chip.register(2), 2);
}

#[test]
fn jump_with_offset_quirk() {
    let rom = [0x6004, 0x6302, 0xB300];
    let mut off = load(&rom, classic());
    run(&mut off, 3);
    assert_eq!(off.pc(), 0x304);
    let mut on = load(&rom, Quirks { jumping: true, ..classic() });
    run(&mut on, 3);
    assert_eq!(on.pc(), 0x302);
}

#[test]
fn store_and_load_registers() {
    let rom = [0x6011, 0x6122, 0x6233, 0xA300, 0xF255, 0x6000, 0x6100, 0x6200, 0xA300, 0xF165];
    let mut off = load(&rom, classic());
    run(&mut off, 5);
    assert_eq!((off.memory(0x300), off.memory(0x301), off.memory(0x302)), (0x11, 0x22, 0x33));
    assert_eq!(off.index(), 0x300);
    run(&mut off, 5);
    assert_eq!((off.register(0), off.register(1), off.register(2)), (0x11, 0x22, 0));
    assert_eq!(off.index(), 0x300);
    let mut on = load(&rom, Quirks { memory: true, ..classic() });
    run(&mut on, 5);
    assert_eq!(on.index(), 0x303);
    run(&mut on, 5);
    assert_eq!(on.index(), 0x302);
}

#[test]
fn timers_and_index() {
    let mut chip = load(&[0x6005, 0xF015, 0xF018, 0xF107, 0xA010, 0xF01E], classic());
    run(&mut chip, 4);
    assert_eq!((chip.dt, chip.st), (5, 5));
    assert_eq!(chip.register(1), 5);
    chip.tick_timers();
    assert_eq!((chip.dt, chip.st), (4, 4));
    run(&mut chip, 2);
    assert_eq!(chip.index(), 0x15);
    let mut idle = load(&[], classic());
    idle.tick_timers();
    assert_eq!((idle.dt, idle.st), (0, 0));
}

#[test]
fn random_is_masked() {
    let mut chip = load(&[0x6AFF, 0xCA00, 0xCB0F], classic());
    run(&mut chip, 3);
    assert_eq!(chip.register(0xA), 0);
    assert!(chip.register(0xB) <= 0x0F);
}

#[test]
fn unknown_and_system_opcodes_do_nothing() {
    let mut chip = load(&[0x5121, 0x0123, 0xF1FF], classic());
    run(&mut chip, 3);
    assert_eq!(chip.pc(), PROGRAM_START + 6);
    assert!((0..16).all(|x| chip.register(x) == 0));
}

#[test]
fn draw_sets_collision_flag() {
    let mut chip = load(&[0xA000, 0xD015, 0xD015, 0x00E0], classic());
    run(&mut chip, 2);
    assert_eq!(chip.register(0xF), 0);
    assert!(chip.fb.pixel(0, 0));
    assert!(chip.fb.updated);
    chip.fb.updated = false;
    run(&mut chip, 1);
    assert_eq!(chip.register(0xF), 1);
    assert!(!chip.fb.pixel(0, 0));
    chip.fb.updated = false;
    run(&mut chip, 1);
    assert!(chip.fb.updated);
}
