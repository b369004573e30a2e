use chip8::instruction::{decode, rom_words};
use chip8::Instruction;

fn encode(instr: Instruction) -> u16 {
    let nnn = |g: u16, a: usize| (g << 12) | a as u16;
    let xnn = |g: u16, x: usize, nn: u8| (g << 12) | ((x as u16) << 8) | nn as u16;
    let xyn = |g: u16, x: usize, y: usize, n: u16| (g << 12) | ((x as u16) << 8) | ((y as u16) << 4) | n;
    match instr {
        Instruction::Sys(a) => nnn(0, a),
        Instruction::Cls => 0x00E0,
        Instruction::Ret => 0x00EE,
        Instruction::Jmp(a) => nnn(1, a),
        Instruction::Call(a) => nnn(2, a),
        Instruction::Skeb(x, b) => xnn(3, x, b),
        Instruction::Skneb(x, b) => xnn(4, x, b),
        Instruction::Ske(x, y) => xyn(5, x, y, 0),
        Instruction::Ldb(x, b) => xnn(6, x, b),
        Instruction::Addb(x, b) => xnn(7, x, b),
        Instruction::Ld(x, y) => xyn(8, x, y, 0),
        Instruction::Or(x, y) => xyn(8, x, y, 1),
        Instruction::And(x, y) => xyn(8, x, y, 2),
        Instruction::Xor(x, y) => xyn(8, x, y, 3),
        Instruction::Add(x, y) => xyn(8, x, y, 4),
        Instruction::Sub(x, y) => xyn(8, x, y, 5),
        Instruction::Shr(x, y) => xyn(8, x, y, 6),
        Instruction::Subr(x, y) => xyn(8, x, y, 7),
        Instruction::Shl(x, y) => xyn(8, x, y, 0xE),
        Instruction::Skne(x, y) => xyn(9, x, y, 0),
        Instruction::Ldi(a) => nnn(0xA, a),
        Instruction::Jmpz(a) => nnn(0xB, a),
        Instruction::Rnd(x, b) => xnn(0xC, x, b),
        Instruction::Draw(x, y, n) => xyn(0xD, x, y, n as u16),
        Instruction::Skp(x) => xnn(0xE, x, 0x9E),
        Instruction::Sknp(x) => xnn(0xE, x, 0xA1),
        Instruction::Ldft(x) => xnn(0xF, x, 0x07),
        Instruction::Ldk(x) => xnn(0xF, x, 0x0A),
        Instruction::Lddt(x) => xnn(0xF, x, 0x15),
        Instruction::Ldst(x) => xnn(0xF, x, 0x18),
        Instruction::Addi(x) => xnn(0xF, x, 0x1E),
        Instruction::Font(x) => xnn(0xF, x, 0x29),
        Instruction::Bcd(x) => xnn(0xF, x, 0x33),
        Instruction::Sreg(x) => xnn(0xF, x, 0x55),
        Instruction::Lreg(x) => xnn(0xF, x, 0x65),
        Instruction::Unknown(op) => op,
    }
}

#[test]
fn every_opcode_decodes_to_one_instruction() {
    for op in 0..=u16::MAX {
        let instr = decode(op);
        assert_eq!(encode(instr), op, "opcode {:#06X}", op);
        assert_eq!(Instruction::from(op), instr);
    }
}

#[test]
fn decodes_system_group() {
    assert_eq!(decode(0x00E0), Instruction::Cls);
    assert_eq!(decode(0x00EE), Instruction::Ret);
    assert_eq!(decode(0x0123), Instruction::Sys(0x123));
    assert_eq!(decode(0x0000), Instruction::Sys(0));
}

#[test]
fn decodes_fields() {
    assert_eq!(decode(0x1ABC), Instruction::Jmp(0xABC));
    assert_eq!(decode(0x2FFF), Instruction::Call(0xFFF));
    assert_eq!(decode(0x3A42), Instruction::Skeb(0xA, 0x42));
    assert_eq!(decode(0x4B07), Instruction::Skneb(0xB, 0x07));
    assert_eq!(decode(0x5120), Instruction::Ske(1, 2));
    assert_eq!(decode(0x8AB4), Instruction::Add(0xA, 0xB));
    assert_eq!(decode(0x8ABE), Instruction::Shl(0xA, 0xB));
    assert_eq!(decode(0x9CD0), Instruction::Skne(0xC, 0xD));
    assert_eq!(decode(0xB123), Instruction::Jmpz(0x123));
    assert_eq!(decode(0xC5F0), Instruction::Rnd(5, 0xF0));
    assert_eq!(decode(0xD125), Instruction::Draw(1, 2, 5));
    assert_eq!(decode(0xE39E), Instruction::Skp(3));
    assert_eq!(decode(0xE3A1), Instruction::Sknp(3));
    assert_eq!(decode(0xF30A), Instruction::Ldk(3));
    assert_eq!(decode(0xF733), Instruction::Bcd(7));
    assert_eq!(decode(0xFE65), Instruction::Lreg(0xE));
}

#[test]
fn malformed_sub_opcodes_are_unknown() {
    assert_eq!(decode(0x5121), Instruction::Unknown(0x5121));
    assert_eq!(decode(0x9121), Instruction::Unknown(0x9121));
    assert_eq!(decode(0x8128), Instruction::Unknown(0x8128));
    assert_eq!(decode(0x812F), Instruction::Unknown(0x812F));
    assert_eq!(decode(0xE1FF), Instruction::Unknown(0xE1FF));
    assert_eq!(decode(0xF1FF), Instruction::Unknown(0xF1FF));
}

#[test]
fn program_words_are_big_endian() {
    assert_eq!(rom_words(&[0x12, 0x34, 0x56]), vec![0x1234, 0x5600]);
    assert_eq!(rom_words(&[0x00, 0xE0]), vec![0x00E0]);
    assert_eq!(rom_words(&[]), Vec::<u16>::new());
}
