//! The CHIP-8 instruction set and its decoder.

use vstd::prelude::*;

verus! {

/// One decoded CHIP-8 instruction.
///
/// Field names follow the usual opcode notation:
///  - `nnn`: the low 12 bits of the opcode (an address)
///  - `nn`: the low 8 bits of the opcode (an immediate byte)
///  - `n`: the low 4 bits of the opcode
///  - `x`: the low nibble of the high byte (a register index)
///  - `y`: the high nibble of the low byte (a register index)
#[derive(Debug, Clone, Copy, PartialEq, Eq, Structural)]
pub enum Instruction {
    /// 0nnn - SYS nnn: machine code routine (ignored).
    Sys(usize),
    /// 00E0 - CLS: clear the display.
    Cls,
    /// 00EE - RET: return from a subroutine.
    Ret,
    /// 1nnn - JMP nnn: jump to nnn.
    Jmp(usize),
    /// 2nnn - CALL nnn: call the subroutine at nnn.
    Call(usize),
    /// 3xnn - SKEB Vx, nn: skip the next instruction if Vx == nn.
    Skeb(usize, u8),
    /// 4xnn - SKNEB Vx, nn: skip the next instruction if Vx != nn.
    Skneb(usize, u8),
    /// 5xy0 - SKE Vx, Vy: skip the next instruction if Vx == Vy.
    Ske(usize, usize),
    /// 6xnn - LDB Vx, nn: Vx = nn.
    Ldb(usize, u8),
    /// 7xnn - ADDB Vx, nn: Vx = Vx + nn, wrapping, flags untouched.
    Addb(usize, u8),
    /// 8xy0 - LD Vx, Vy: Vx = Vy.
    Ld(usize, usize),
    /// 8xy1 - OR Vx, Vy: Vx = Vx | Vy.
    Or(usize, usize),
    /// 8xy2 - AND Vx, Vy: Vx = Vx & Vy.
    And(usize, usize),
    /// 8xy3 - XOR Vx, Vy: Vx = Vx ^ Vy.
    Xor(usize, usize),
    /// 8xy4 - ADD Vx, Vy: Vx = Vx + Vy; VF = carry.
    Add(usize, usize),
    /// 8xy5 - SUB Vx, Vy: Vx = Vx - Vy; VF = no borrow.
    Sub(usize, usize),
    /// 8xy6 - SHR Vx, Vy: VF = low bit of Vx, then Vx = Vx >> 1.
    Shr(usize, usize),
    /// 8xy7 - SUBR Vx, Vy: Vx = Vy - Vx; VF = no borrow.
    Subr(usize, usize),
    /// 8xyE - SHL Vx, Vy: VF = high bit of Vx, then Vx = Vx << 1.
    Shl(usize, usize),
    /// 9xy0 - SKNE Vx, Vy: skip the next instruction if Vx != Vy.
    Skne(usize, usize),
    /// Annn - LDI nnn: I = nnn.
    Ldi(usize),
    /// Bnnn - JMPZ nnn: jump to nnn + V0.
    Jmpz(usize),
    /// Cxnn - RND Vx, nn: Vx = random byte & nn.
    Rnd(usize, u8),
    /// Dxyn - DRAW Vx, Vy, n: draw the n-byte sprite at I to (Vx, Vy).
    Draw(usize, usize, u8),
    /// Ex9E - SKP Vx: skip the next instruction if key Vx is pressed.
    Skp(usize),
    /// ExA1 - SKNP Vx: skip the next instruction if key Vx is not pressed.
    Sknp(usize),
    /// Fx07 - LDFT Vx: Vx = delay timer.
    Ldft(usize),
    /// Fx0A - LDK Vx: wait for a key release and store the key in Vx.
    Ldk(usize),
    /// Fx15 - LDDT Vx: delay timer = Vx.
    Lddt(usize),
    /// Fx18 - LDST Vx: sound timer = Vx.
    Ldst(usize),
    /// Fx1E - ADDI Vx: I = I + Vx.
    Addi(usize),
    /// Fx29 - FONT Vx: I = address of the font glyph for digit Vx.
    Font(usize),
    /// Fx33 - BCD Vx: store the decimal digits of Vx at I, I+1, I+2.
    Bcd(usize),
    /// Fx55 - SREG Vx: store V0..=Vx to memory at I.
    Sreg(usize),
    /// Fx65 - LREG Vx: load V0..=Vx from memory at I.
    Lreg(usize),
    /// Any opcode that is not part of the instruction set.
    Unknown(u16),
}

/// The top nibble of an opcode: the instruction group.
pub open spec fn group(op: u16) -> u16 {
    (op & 0xF000) >> 12
}

/// The `x` field of an opcode.
pub open spec fn field_x(op: u16) -> usize {
    ((op & 0x0F00) >> 8) as usize
}

/// The `y` field of an opcode.
pub open spec fn field_y(op: u16) -> usize {
    ((op & 0x00F0) >> 4) as usize
}

/// The `n` field of an opcode.
pub open spec fn field_n(op: u16) -> u8 {
    (op & 0x000F) as u8
}

/// The `nn` field of an opcode.
pub open spec fn field_nn(op: u16) -> u8 {
    (op & 0x00FF) as u8
}

/// The `nnn` field of an opcode.
pub open spec fn field_nnn(op: u16) -> usize {
    (op & 0x0FFF) as usize
}

/// The instruction that an opcode stands for.
pub open spec fn decode_spec(op: u16) -> Instruction {
    let g = group(op);
    let x = field_x(op);
    let y = field_y(op);
    let n = field_n(op);
    let nn = field_nn(op);
    let nnn = field_nnn(op);
    if g == 0 {
        if nnn == 0x0E0 {
            Instruction::Cls
        } else if nnn == 0x0EE {
            Instruction::Ret
        } else {
            Instruction::Sys(nnn)
        }
    } else if g == 1 {
        Instruction::Jmp(nnn)
    } else if g == 2 {
        Instruction::Call(nnn)
    } else if g == 3 {
        Instruction::Skeb(x, nn)
    } else if g == 4 {
        Instruction::Skneb(x, nn)
    } else if g == 5 {
        if n == 0 {
            Instruction::Ske(x, y)
        } else {
            Instruction::Unknown(op)
        }
    } else if g == 6 {
        Instruction::Ldb(x, nn)
    } else if g == 7 {
        Instruction::Addb(x, nn)
    } else if g == 8 {
        if n == 0 {
            Instruction::Ld(x, y)
        } else if n == 1 {
            Instruction::Or(x, y)
        } else if n == 2 {
            Instruction::And(x, y)
        } else if n == 3 {
            Instruction::Xor(x, y)
        } else if n == 4 {
            Instruction::Add(x, y)
        } else if n == 5 {
            Instruction::Sub(x, y)
        } else if n == 6 {
            Instruction::Shr(x, y)
        } else if n == 7 {
            Instruction::Subr(x, y)
        } else if n == 0xE {
            Instruction::Shl(x, y)
        } else {
            Instruction::Unknown(op)
        }
    } else if g == 9 {
        if n == 0 {
            Instruction::Skne(x, y)
        } else {
            Instruction::Unknown(op)
        }
    } else if g == 0xA {
        Instruction::Ldi(nnn)
    } else if g == 0xB {
        Instruction::Jmpz(nnn)
    } else if g == 0xC {
        Instruction::Rnd(x, nn)
    } else if g == 0xD {
        Instruction::Draw(x, y, n)
    } else if g == 0xE {
        if nn == 0x9E {
            Instruction::Skp(x)
        } else if nn == 0xA1 {
            Instruction::Sknp(x)
        } else {
            Instruction::Unknown(op)
        }
    } else {
        if nn == 0x07 {
            Instruction::Ldft(x)
        } else if nn == 0x0A {
            Instruction::Ldk(x)
        } else if nn == 0x15 {
            Instruction::Lddt(x)
        } else if nn == 0x18 {
            Instruction::Ldst(x)
        } else if nn == 0x1E {
            Instruction::Addi(x)
        } else if nn == 0x29 {
            Instruction::Font(x)
        } else if nn == 0x33 {
            Instruction::Bcd(x)
        } else if nn == 0x55 {
            Instruction::Sreg(x)
        } else if nn == 0x65 {
            Instruction::Lreg(x)
        } else {
            Instruction::Unknown(op)
        }
    }
}

impl Instruction {
    /// Every field is in the range that its opcode field can hold: register
    /// indices and `n` below 16, addresses below 4096.
    pub open spec fn wf(self) -> bool {
        match self {
            Instruction::Sys(nnn) => nnn < 0x1000,
            Instruction::Jmp(nnn) => nnn < 0x1000,
            Instruction::Call(nnn) => nnn < 0x1000,
            Instruction::Ldi(nnn) => nnn < 0x1000,
            Instruction::Jmpz(nnn) => nnn < 0x1000,
            Instruction::Skeb(x, _) => x < 16,
            Instruction::Skneb(x, _) => x < 16,
            Instruction::Ldb(x, _) => x < 16,
            Instruction::Addb(x, _) => x < 16,
            Instruction::Rnd(x, _) => x < 16,
            Instruction::Ske(x, y) => x < 16 && y < 16,
            Instruction::Ld(x, y) => x < 16 && y < 16,
            Instruction::Or(x, y) => x < 16 && y < 16,
            Instruction::And(x, y) => x < 16 && y < 16,
            Instruction::Xor(x, y) => x < 16 && y < 16,
            Instruction::Add(x, y) => x < 16 && y < 16,
            Instruction::Sub(x, y) => x < 16 && y < 16,
            Instruction::Shr(x, y) => x < 16 && y < 16,
            Instruction::Subr(x, y) => x < 16 && y < 16,
            Instruction::Shl(x, y) => x < 16 && y < 16,
            Instruction::Skne(x, y) => x < 16 && y < 16,
            Instruction::Draw(x, y, n) => x < 16 && y < 16 && n < 16,
            Instruction::Skp(x) => x < 16,
            Instruction::Sknp(x) => x < 16,
            Instruction::Ldft(x) => x < 16,
            Instruction::Ldk(x) => x < 16,
            Instruction::Lddt(x) => x < 16,
            Instruction::Ldst(x) => x < 16,
            Instruction::Addi(x) => x < 16,
            Instruction::Font(x) => x < 16,
            Instruction::Bcd(x) => x < 16,
            Instruction::Sreg(x) => x < 16,
            Instruction::Lreg(x) => x < 16,
            _ => true,
        }
    }
}

proof fn lemma_fields_in_range(op: u16)
    ensures
        field_x(op) < 16,
        field_y(op) < 16,
        field_n(op) < 16,
        field_nnn(op) < 0x1000,
        group(op) < 16,
{
    assert((op & 0x0F00) >> 8 < 16) by (bit_vector);
    assert((op & 0x00F0) >> 4 < 16) by (bit_vector);
    assert(op & 0x000F < 16) by (bit_vector);
    assert(op & 0x0FFF < 0x1000) by (bit_vector);
    assert((op & 0xF000) >> 12 < 16) by (bit_vector);
}

/// Packs a group nibble and a 12-bit address into an opcode.
pub open spec fn pack_nnn(g: u16, nnn: u16) -> u16 {
    (g << 12) | nnn
}

/// Packs a group nibble, a register index and a byte into an opcode.
pub open spec fn pack_xnn(g: u16, x: u16, nn: u16) -> u16 {
    (g << 12) | (x << 8) | nn
}

/// Packs a group nibble, two register indices and a nibble into an opcode.
pub open spec fn pack_xyn(g: u16, x: u16, y: u16, n: u16) -> u16 {
    (g << 12) | (x << 8) | (y << 4) | n
}

/// The opcode that encodes an instruction.
pub open spec fn opcode(instr: Instruction) -> u16 {
    match instr {
        Instruction::Sys(nnn) => pack_nnn(0, nnn as u16),
        Instruction::Cls => pack_nnn(0, 0x0E0),
        Instruction::Ret => pack_nnn(0, 0x0EE),
        Instruction::Jmp(nnn) => pack_nnn(1, nnn as u16),
        Instruction::Call(nnn) => pack_nnn(2, nnn as u16),
        Instruction::Skeb(x, nn) => pack_xnn(3, x as u16, nn as u16),
        Instruction::Skneb(x, nn) => pack_xnn(4, x as u16, nn as u16),
        Instruction::Ske(x, y) => pack_xyn(5, x as u16, y as u16, 0),
        Instruction::Ldb(x, nn) => pack_xnn(6, x as u16, nn as u16),
        Instruction::Addb(x, nn) => pack_xnn(7, x as u16, nn as u16),
        Instruction::Ld(x, y) => pack_xyn(8, x as u16, y as u16, 0),
        Instruction::Or(x, y) => pack_xyn(8, x as u16, y as u16, 1),
        Instruction::And(x, y) => pack_xyn(8, x as u16, y as u16, 2),
        Instruction::Xor(x, y) => pack_xyn(8, x as u16, y as u16, 3),
        Instruction::Add(x, y) => pack_xyn(8, x as u16, y as u16, 4),
        Instruction::Sub(x, y) => pack_xyn(8, x as u16, y as u16, 5),
        Instruction::Shr(x, y) => pack_xyn(8, x as u16, y as u16, 6),
        Instruction::Subr(x, y) => pack_xyn(8, x as u16, y as u16, 7),
        Instruction::Shl(x, y) => pack_xyn(8, x as u16, y as u16, 0xE),
        Instruction::Skne(x, y) => pack_xyn(9, x as u16, y as u16, 0),
        Instruction::Ldi(nnn) => pack_nnn(0xA, nnn as u16),
        Instruction::Jmpz(nnn) => pack_nnn(0xB, nnn as u16),
        Instruction::Rnd(x, nn) => pack_xnn(0xC, x as u16, nn as u16),
        Instruction::Draw(x, y, n) => pack_xyn(0xD, x as u16, y as u16, n as u16),
        Instruction::Skp(x) => pack_xnn(0xE, x as u16, 0x9E),
        Instruction::Sknp(x) => pack_xnn(0xE, x as u16, 0xA1),
        Instruction::Ldft(x) => pack_xnn(0xF, x as u16, 0x07),
        Instruction::Ldk(x) => pack_xnn(0xF, x as u16, 0x0A),
        Instruction::Lddt(x) => pack_xnn(0xF, x as u16, 0x15),
        Instruction::Ldst(x) => pack_xnn(0xF, x as u16, 0x18),
        Instruction::Addi(x) => pack_xnn(0xF, x as u16, 0x1E),
        Instruction::Font(x) => pack_xnn(0xF, x as u16, 0x29),
        Instruction::Bcd(x) => pack_xnn(0xF, x as u16, 0x33),
        Instruction::Sreg(x) => pack_xnn(0xF, x as u16, 0x55),
        Instruction::Lreg(x) => pack_xnn(0xF, x as u16, 0x65),
        Instruction::Unknown(op) => op,
    }
}

proof fn lemma_split_opcode(op: u16)
    by (bit_vector)
    ensures
        op == pack_nnn((op & 0xF000) >> 12, op & 0x0FFF),
        op == pack_xnn((op & 0xF000) >> 12, (op & 0x0F00) >> 8, op & 0x00FF),
        op == pack_xyn((op & 0xF000) >> 12, (op & 0x0F00) >> 8, (op & 0x00F0) >> 4, op & 0x000F),
        op & 0x00FF < 0x100,
        op & 0x000F < 0x10,
{
}

/// Decoding loses nothing: every one of the 65536 opcodes decodes to exactly
/// one instruction, and encoding that instruction gives the opcode back.
pub proof fn lemma_decode_total(op: u16)
    ensures
        decode_spec(op).wf(),
        opcode(decode_spec(op)) == op,
{
    lemma_fields_in_range(op);
    lemma_split_opcode(op);
    assert(field_x(op) as u16 == (op & 0x0F00) >> 8);
    assert(field_y(op) as u16 == (op & 0x00F0) >> 4);
    assert(field_n(op) as u16 == op & 0x000F);
    assert(field_nn(op) as u16 == op & 0x00FF);
    assert(field_nnn(op) as u16 == op & 0x0FFF);
}

/// Decodes an opcode. Total: every 16-bit value decodes, unknown ones to `Unknown`.
pub fn decode(op: u16) -> (r: Instruction)
    ensures
        r == decode_spec(op),
        r.wf(),
{
    proof {
        lemma_fields_in_range(op);
    }
    let g = (op & 0xF000) >> 12;
    let x = ((op & 0x0F00) >> 8) as usize;
    let y = ((op & 0x00F0) >> 4) as usize;
    let n = (op & 0x000F) as u8;
    let nn = (op & 0x00FF) as u8;
    let nnn = (op & 0x0FFF) as usize;
    if g == 0 {
        if nnn == 0x0E0 {
            Instruction::Cls
        } else if nnn == 0x0EE {
            Instruction::Ret
        } else {
            Instruction::Sys(nnn)
        }
    } else if g == 1 {
        Instruction::Jmp(nnn)
    } else if g == 2 {
        Instruction::Call(nnn)
    } else if g == 3 {
        Instruction::Skeb(x, nn)
    } else if g == 4 {
        Instruction::Skneb(x, nn)
    } else if g == 5 {
        if n == 0 {
            Instruction::Ske(x, y)
        } else {
            Instruction::Unknown(op)
        }
    } else if g == 6 {
        Instruction::Ldb(x, nn)
    } else if g == 7 {
        Instruction::Addb(x, nn)
    } else if g == 8 {
        if n == 0 {
            Instruction::Ld(x, y)
        } else if n == 1 {
            Instruction::Or(x, y)
        } else if n == 2 {
            Instruction::And(x, y)
        } else if n == 3 {
            Instruction::Xor(x, y)
        } else if n == 4 {
            Instruction::Add(x, y)
        } else if n == 5 {
            Instruction::Sub(x, y)
        } else if n == 6 {
            Instruction::Shr(x, y)
        } else if n == 7 {
            Instruction::Subr(x, y)
        } else if n == 0xE {
            Instruction::Shl(x, y)
        } else {
            Instruction::Unknown(op)
        }
    } else if g == 9 {
        if n == 0 {
            Instruction::Skne(x, y)
        } else {
            Instruction::Unknown(op)
        }
    } else if g == 0xA {
        Instruction::Ldi(nnn)
    } else if g == 0xB {
        Instruction::Jmpz(nnn)
    } else if g == 0xC {
        Instruction::Rnd(x, nn)
    } else if g == 0xD {
        Instruction::Draw(x, y, n)
    } else if g == 0xE {
        if nn == 0x9E {
            Instruction::Skp(x)
        } else if nn == 0xA1 {
            Instruction::Sknp(x)
        } else {
            Instruction::Unknown(op)
        }
    } else {
        if nn == 0x07 {
            Instruction::Ldft(x)
        } else if nn == 0x0A {
            Instruction::Ldk(x)
        } else if nn == 0x15 {
            Instruction::Lddt(x)
        } else if nn == 0x18 {
            Instruction::Ldst(x)
        } else if nn == 0x1E {
            Instruction::Addi(x)
        } else if nn == 0x29 {
            Instruction::Font(x)
        } else if nn == 0x33 {
            Instruction::Bcd(x)
        } else if nn == 0x55 {
            Instruction::Sreg(x)
        } else if nn == 0x65 {
            Instruction::Lreg(x)
        } else {
            Instruction::Unknown(op)
        }
    }
}

/// Word `k` of a program read as big-endian 16-bit words; the missing low
/// byte of a final odd byte reads as zero.
pub open spec fn rom_word(rom: Seq<u8>, k: int) -> u16 {
    let lo = if 2 * k + 1 < rom.len() {
        rom[2 * k + 1]
    } else {
        0u8
    };
    (rom[2 * k] as int * 256 + lo as int) as u16
}

/// The program as a sequence of opcodes, in address order from its start,
/// for disassembly.
pub fn rom_words(rom: &[u8]) -> (r: Vec<u16>)
    ensures
        r@.len() == (rom@.len() + 1) / 2,
        forall|k: int| 0 <= k < r@.len() ==> #[trigger] r@[k] == rom_word(rom@, k),
{
    let mut r: Vec<u16> = Vec::new();
    let len = rom.len();
    let words = len / 2 + len % 2;
    let mut k: usize = 0;
    while k < words
        invariant
            len == rom@.len(),
            words == (rom@.len() + 1) / 2,
            k <= words,
            r@.len() == k,
            forall|j: int| 0 <= j < r@.len() ==> #[trigger] r@[j] == rom_word(rom@, j),
        decreases words - k,
    {
        assert(2 * k < rom@.len() + 1) by (nonlinear_arith)
            requires
                k < (rom@.len() + 1) / 2,
        ;
        let a = 2 * k;
        let lo = if a < len - 1 {
            rom[a + 1]
        } else {
            0
        };
        r.push((rom[a] as u16) * 256 + (lo as u16));
        k = k + 1;
    }
    r
}

impl From<u16> for Instruction {
    fn from(value: u16) -> (r: Instruction) {
        decode(value)
    }
}

impl vstd::std_specs::convert::FromSpecImpl<u16> for Instruction {
    open spec fn obeys_from_spec() -> bool {
        true
    }

    open spec fn from_spec(v: u16) -> Instruction {
        decode_spec(v)
    }
}

} // verus!
