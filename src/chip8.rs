//! The CHIP-8 virtual machine: memory, registers, stack and timers, and the
//! meaning of every instruction.

use rand::Rng;
use vstd::prelude::*;

use crate::framebuffer::{
    blank, draw_spec, Framebuffer, FramebufferView, DISPLAY_SIZE,
};
use crate::instruction::{decode, decode_spec, Instruction};
use crate::keypad::{release_spec, Keypad, KeypadView, KEYPAD_SIZE};

verus! {

/// Memory size in bytes.
pub const MEMORY_SIZE: usize = 4096;

/// Address at which programs are loaded and execution starts.
pub const PROGRAM_START: usize = 0x200;

/// Depth of the return-address stack.
pub const STACK_SIZE: usize = 16;

/// Number of 8-bit general purpose registers.
pub const NUMBER_OF_REGISTERS: usize = 16;

/// The register that doubles as the flags register (VF).
pub const FLAG_REGISTER: usize = 0xF;

/// Number of glyphs in the built-in font.
pub const GLYPH_COUNT: usize = 16;

/// Size in bytes of one glyph of the built-in font.
pub const GLYPH_SIZE: usize = 5;

/// Size in bytes of the built-in font, stored from address 0.
pub const FONT_SIZE: usize = 80;

/// Behaviours on which historical interpreters disagree. Each flag picks the
/// later behaviour when set and the classic one when clear.
#[derive(Debug, Clone, Copy, PartialEq, Eq, Structural)]
pub struct Quirks {
    /// The AND, OR and XOR opcodes (8xy1, 8xy2, 8xy3) reset the flags register to zero.
    pub vf_reset: bool,
    /// The store and load opcodes (Fx55, Fx65) advance the index register.
    pub memory: bool,
    /// Sprites wrap around the display's edges instead of being clipped.
    pub wrap: bool,
    /// The shift opcodes (8xy6, 8xyE) shift Vy into Vx, instead of shifting Vx.
    pub shifting: bool,
    /// The jump with offset opcode (Bnnn) adds Vx, where x is the top nibble of
    /// nnn, instead of V0.
    pub jumping: bool,
}

/// Why the machine cannot carry out an instruction. Each of these stops a run.
#[derive(Debug, Clone, Copy, PartialEq, Eq, Structural)]
pub enum Fault {
    /// The program counter points past the last whole opcode in memory.
    FetchOutOfBounds,
    /// A call with all stack entries in use.
    StackOverflow,
    /// A return with an empty stack.
    StackUnderflow,
    /// A read or write past the end of memory through the index register.
    MemoryOutOfBounds,
    /// A key instruction names a key that does not exist.
    InvalidKey,
    /// A font instruction names a digit that has no glyph.
    InvalidGlyph,
    /// Adding to the index register leaves the machine's address range.
    IndexOverflow,
}

/// The built-in font: glyphs 0 to F, five rows of one byte each.
pub open spec fn font() -> Seq<u8> {
    seq![
        0xF0u8, 0x90, 0x90, 0x90, 0xF0, // 0
        0x20, 0x60, 0x20, 0x20, 0x70, // 1
        0xF0, 0x10, 0xF0, 0x80, 0xF0, // 2
        0xF0, 0x10, 0xF0, 0x10, 0xF0, // 3
        0x90, 0x90, 0xF0, 0x10, 0x10, // 4
        0xF0, 0x80, 0xF0, 0x10, 0xF0, // 5
        0xF0, 0x80, 0xF0, 0x90, 0xF0, // 6
        0xF0, 0x10, 0x20, 0x40, 0x40, // 7
        0xF0, 0x90, 0xF0, 0x90, 0xF0, // 8
        0xF0, 0x90, 0xF0, 0x10, 0xF0, // 9
        0xF0, 0x90, 0xF0, 0x90, 0x90, // A
        0xE0, 0x90, 0xE0, 0x90, 0xE0, // B
        0xF0, 0x80, 0x80, 0x80, 0xF0, // C
        0xE0, 0x90, 0x90, 0x90, 0xE0, // D
        0xF0, 0x80, 0xF0, 0x80, 0xF0, // E
        0xF0, 0x80, 0xF0, 0x80, 0x80, // F
    ]
}

/// The whole state of a machine, as mathematical values.
pub struct Chip8View {
    /// Memory, `MEMORY_SIZE` bytes.
    pub mem: Seq<u8>,
    /// Registers V0 to VF.
    pub v: Seq<u8>,
    /// Index register.
    pub i: int,
    /// Program counter.
    pub pc: int,
    /// Return addresses, oldest first.
    pub stack: Seq<int>,
    /// Delay timer.
    pub dt: u8,
    /// Sound timer.
    pub st: u8,
    /// Display.
    pub fb: FramebufferView,
    /// Keypad.
    pub keypad: KeypadView,
    /// The quirks chosen when the machine was built.
    pub quirks: Quirks,
}

impl Chip8View {
    /// The shape of every reachable state: fixed sizes, at most `STACK_SIZE`
    /// return addresses, each of them inside memory.
    pub open spec fn wf(self) -> bool {
        &&& self.mem.len() == MEMORY_SIZE
        &&& self.v.len() == NUMBER_OF_REGISTERS
        &&& 0 <= self.i <= usize::MAX
        &&& 0 <= self.pc <= usize::MAX
        &&& self.stack.len() <= STACK_SIZE
        &&& forall|k: int| 0 <= k < self.stack.len() ==> 0 <= #[trigger] self.stack[k] < MEMORY_SIZE
        &&& self.fb.pixels.len() == DISPLAY_SIZE
        &&& self.keypad.wf()
    }

    pub open spec fn with_pc(self, pc: int) -> Chip8View {
        Chip8View { pc, ..self }
    }

    pub open spec fn with_i(self, i: int) -> Chip8View {
        Chip8View { i, ..self }
    }

    pub open spec fn with_v(self, x: int, value: u8) -> Chip8View {
        Chip8View { v: self.v.update(x, value), ..self }
    }

    /// Skips the next instruction when `cond` holds.
    pub open spec fn skip_if(self, cond: bool) -> Chip8View {
        if cond {
            self.with_pc(self.pc + 2)
        } else {
            self
        }
    }
}

/// Memory of a freshly loaded machine: the font from address 0, the program
/// from `PROGRAM_START`, zero elsewhere.
pub open spec fn initial_memory(rom: Seq<u8>) -> Seq<u8> {
    Seq::new(
        MEMORY_SIZE as nat,
        |a: int|
            if a < FONT_SIZE {
                font()[a]
            } else if PROGRAM_START <= a < PROGRAM_START + rom.len() {
                rom[a - PROGRAM_START]
            } else {
                0u8
            },
    )
}

/// A freshly loaded machine.
pub open spec fn initial_state(rom: Seq<u8>, quirks: Quirks) -> Chip8View {
    Chip8View {
        mem: initial_memory(rom),
        v: Seq::new(NUMBER_OF_REGISTERS as nat, |r: int| 0u8),
        i: 0,
        pc: PROGRAM_START as int,
        stack: Seq::empty(),
        dt: 0,
        st: 0,
        fb: FramebufferView { pixels: blank(), updated: false },
        keypad: KeypadView {
            keys: Seq::new(KEYPAD_SIZE as nat, |k: int| false),
            wait: false,
            released: None,
        },
        quirks,
    }
}

/// The opcode at the program counter, read big-endian.
pub open spec fn fetch_spec(m: Chip8View) -> u16 {
    (m.mem[m.pc] as int * 256 + m.mem[m.pc + 1] as int) as u16
}

/// The fault that carrying out `instr` in state `m` would raise, if any.
pub open spec fn fault_spec(m: Chip8View, instr: Instruction) -> Option<Fault> {
    if m.pc + 1 >= MEMORY_SIZE {
        Some(Fault::FetchOutOfBounds)
    } else {
        match instr {
            Instruction::Ret => if m.stack.len() == 0 {
                Some(Fault::StackUnderflow)
            } else {
                None
            },
            Instruction::Call(_) => if m.stack.len() == STACK_SIZE {
                Some(Fault::StackOverflow)
            } else {
                None
            },
            Instruction::Draw(_, _, n) => if m.i + n > MEMORY_SIZE {
                Some(Fault::MemoryOutOfBounds)
            } else {
                None
            },
            Instruction::Skp(x) => if m.v[x as int] >= KEYPAD_SIZE {
                Some(Fault::InvalidKey)
            } else {
                None
            },
            Instruction::Sknp(x) => if m.v[x as int] >= KEYPAD_SIZE {
                Some(Fault::InvalidKey)
            } else {
                None
            },
            Instruction::Addi(x) => if m.i + m.v[x as int] > usize::MAX {
                Some(Fault::IndexOverflow)
            } else {
                None
            },
            Instruction::Font(x) => if m.v[x as int] >= GLYPH_COUNT {
                Some(Fault::InvalidGlyph)
            } else {
                None
            },
            Instruction::Bcd(_) => if m.i + 2 >= MEMORY_SIZE {
                Some(Fault::MemoryOutOfBounds)
            } else {
                None
            },
            Instruction::Sreg(x) => if m.i + x >= MEMORY_SIZE {
                Some(Fault::MemoryOutOfBounds)
            } else {
                None
            },
            Instruction::Lreg(x) => if m.i + x >= MEMORY_SIZE {
                Some(Fault::MemoryOutOfBounds)
            } else {
                None
            },
            _ => None,
        }
    }
}

/// The fault that the next step would raise, if any.
pub open spec fn step_fault_spec(m: Chip8View) -> Option<Fault> {
    if m.pc + 1 >= MEMORY_SIZE {
        Some(Fault::FetchOutOfBounds)
    } else {
        fault_spec(m, decode_spec(fetch_spec(m)))
    }
}

/// Sets the flags register to 1 when `b` holds and to 0 otherwise.
pub open spec fn flag(b: bool) -> u8 {
    if b {
        1
    } else {
        0
    }
}

/// The registers after a bitwise operation stored `value` in Vx.
pub open spec fn logic_result(m: Chip8View, x: int, value: u8) -> Chip8View {
    let n = m.with_v(x, value);
    if m.quirks.vf_reset {
        n.with_v(FLAG_REGISTER as int, 0)
    } else {
        n
    }
}

/// The operand that a shift instruction shifts.
pub open spec fn shift_source(m: Chip8View, x: int, y: int) -> u8 {
    if m.quirks.shifting {
        m.v[y]
    } else {
        m.v[x]
    }
}

/// The register added to the target of a jump with offset.
pub open spec fn jump_register(m: Chip8View, nnn: int) -> int {
    if m.quirks.jumping {
        nnn / 256
    } else {
        0
    }
}

/// Index register after a store or load of registers V0 to Vx.
pub open spec fn index_after_block(m: Chip8View, x: int) -> int {
    if m.quirks.memory {
        m.i + x + 1
    } else {
        m.i
    }
}

/// The state after carrying out `instr` in state `m`, the program counter
/// already advanced past it; `random` is the byte that a RND instruction draws.
pub open spec fn execute_spec(m0: Chip8View, instr: Instruction, random: u8) -> Chip8View {
    let m = m0.with_pc(m0.pc + 2);
    match instr {
        Instruction::Sys(_) => m,
        Instruction::Cls => Chip8View { fb: FramebufferView { pixels: blank(), updated: true }, ..m },
        Instruction::Ret => Chip8View {
            pc: m.stack.last() + 2,
            stack: m.stack.drop_last(),
            ..m
        },
        Instruction::Jmp(nnn) => m.with_pc(nnn as int),
        Instruction::Call(nnn) => Chip8View { pc: nnn as int, stack: m.stack.push(m0.pc), ..m },
        Instruction::Skeb(x, nn) => m.skip_if(m.v[x as int] == nn),
        Instruction::Skneb(x, nn) => m.skip_if(m.v[x as int] != nn),
        Instruction::Ske(x, y) => m.skip_if(m.v[x as int] == m.v[y as int]),
        Instruction::Skne(x, y) => m.skip_if(m.v[x as int] != m.v[y as int]),
        Instruction::Ldb(x, nn) => m.with_v(x as int, nn),
        Instruction::Addb(x, nn) => m.with_v(x as int, ((m.v[x as int] + nn) % 256) as u8),
        Instruction::Ld(x, y) => m.with_v(x as int, m.v[y as int]),
        Instruction::Or(x, y) => logic_result(m, x as int, m.v[x as int] | m.v[y as int]),
        Instruction::And(x, y) => logic_result(m, x as int, m.v[x as int] & m.v[y as int]),
        Instruction::Xor(x, y) => logic_result(m, x as int, m.v[x as int] ^ m.v[y as int]),
        Instruction::Add(x, y) => {
            let sum = m.v[x as int] + m.v[y as int];
            m.with_v(x as int, (sum % 256) as u8).with_v(FLAG_REGISTER as int, flag(sum > 255))
        },
        Instruction::Sub(x, y) => {
            let (a, b) = (m.v[x as int], m.v[y as int]);
            m.with_v(x as int, ((a - b + 256) % 256) as u8).with_v(
                FLAG_REGISTER as int,
                flag(a >= b),
            )
        },
        Instruction::Subr(x, y) => {
            let (a, b) = (m.v[x as int], m.v[y as int]);
            m.with_v(x as int, ((b - a + 256) % 256) as u8).with_v(
                FLAG_REGISTER as int,
                flag(b >= a),
            )
        },
        Instruction::Shr(x, y) => {
            let s = shift_source(m, x as int, y as int);
            m.with_v(x as int, s >> 1u8).with_v(FLAG_REGISTER as int, s & 1u8)
        },
        Instruction::Shl(x, y) => {
            let s = shift_source(m, x as int, y as int);
            m.with_v(x as int, s << 1u8).with_v(FLAG_REGISTER as int, (s & 0x80u8) >> 7u8)
        },
        Instruction::Ldi(nnn) => m.with_i(nnn as int),
        Instruction::Jmpz(nnn) => m.with_pc(nnn + m.v[jump_register(m, nnn as int)]),
        Instruction::Rnd(x, nn) => m.with_v(x as int, random & nn),
        Instruction::Draw(x, y, n) => {
            let d = draw_spec(
                m.fb.pixels,
                m.v[x as int] as int % 64,
                m.v[y as int] as int % 32,
                m.mem.subrange(m.i, m.i + n),
                m.quirks.wrap,
            );
            Chip8View {
                fb: FramebufferView { pixels: d.0, updated: m.fb.updated || d.2 },
                ..m
            }.with_v(FLAG_REGISTER as int, flag(d.1))
        },
        Instruction::Skp(x) => m.skip_if(m.keypad.keys[m.v[x as int] as int]),
        Instruction::Sknp(x) => m.skip_if(!m.keypad.keys[m.v[x as int] as int]),
        Instruction::Ldft(x) => m.with_v(x as int, m.dt),
        Instruction::Ldk(x) => if !m.keypad.wait {
            Chip8View { keypad: KeypadView { wait: true, ..m.keypad }, ..m0 }
        } else {
            match m.keypad.released {
                Some(k) => Chip8View {
                    keypad: KeypadView { wait: false, released: None, ..m.keypad },
                    ..m
                }.with_v(x as int, k),
                None => m0,
            }
        },
        Instruction::Lddt(x) => Chip8View { dt: m.v[x as int], ..m },
        Instruction::Ldst(x) => Chip8View { st: m.v[x as int], ..m },
        Instruction::Addi(x) => m.with_i(m.i + m.v[x as int]),
        Instruction::Font(x) => m.with_i(GLYPH_SIZE * m.v[x as int]),
        Instruction::Bcd(x) => {
            let value = m.v[x as int];
            Chip8View {
                mem: m.mem.update(m.i, value / 100).update(m.i + 1, (value / 10) % 10).update(
                    m.i + 2,
                    value % 10,
                ),
                ..m
            }
        },
        Instruction::Sreg(x) => Chip8View {
            mem: Seq::new(
                m.mem.len(),
                |a: int|
                    if m.i <= a <= m.i + x {
                        m.v[a - m.i]
                    } else {
                        m.mem[a]
                    },
            ),
            i: index_after_block(m, x as int),
            ..m
        },
        Instruction::Lreg(x) => Chip8View {
            v: Seq::new(
                m.v.len(),
                |r: int|
                    if r <= x {
                        m.mem[m.i + r]
                    } else {
                        m.v[r]
                    },
            ),
            i: index_after_block(m, x as int),
            ..m
        },
        Instruction::Unknown(_) => m,
    }
}

/// The state after one step: fetch the opcode at the program counter, decode
/// it and carry it out.
pub open spec fn step_spec(m: Chip8View, random: u8) -> Chip8View {
    execute_spec(m, decode_spec(fetch_spec(m)), random)
}

/// The state after the driver's once-per-frame timer tick: both timers count
/// down by one and stop at zero.
pub open spec fn tick_spec(m: Chip8View) -> Chip8View {
    Chip8View {
        dt: if m.dt > 0 {
            (m.dt - 1) as u8
        } else {
            0
        },
        st: if m.st > 0 {
            (m.st - 1) as u8
        } else {
            0
        },
        ..m
    }
}

/// Carry and borrow: ADD sets VF to 1 exactly when the sum passes 255 and
/// keeps the sum modulo 256; SUB sets VF to 1 exactly when Vx ≥ Vy and keeps
/// the difference modulo 256.
pub proof fn lemma_carry_borrow(m: Chip8View, x: usize, y: usize, random: u8)
    requires
        m.wf(),
        x < FLAG_REGISTER,
        y < NUMBER_OF_REGISTERS,
    ensures
        ({
            let (a, b) = (m.v[x as int], m.v[y as int]);
            let add = execute_spec(m, Instruction::Add(x, y), random);
            let sub = execute_spec(m, Instruction::Sub(x, y), random);
            &&& add.v[x as int] == (a + b) % 256
            &&& add.v[FLAG_REGISTER as int] == (if a + b > 255 { 1u8 } else { 0u8 })
            &&& sub.v[x as int] == (a - b + 256) % 256
            &&& sub.v[FLAG_REGISTER as int] == (if a >= b { 1u8 } else { 0u8 })
        }),
{
}

/// The shift quirk. Without it SHR reads Vx alone: it stores Vx >> 1 and the
/// bit shifted out, and whatever Vy holds changes nothing else. With it Vx
/// first takes Vy's value. When Vx ≠ Vy the two give different registers.
pub proof fn lemma_shift_quirk(m: Chip8View, x: usize, y: usize, w: u8, random: u8)
    requires
        m.wf(),
        x < FLAG_REGISTER,
        y < NUMBER_OF_REGISTERS,
    ensures
        ({
            let off = Chip8View { quirks: Quirks { shifting: false, ..m.quirks }, ..m };
            let on = Chip8View { quirks: Quirks { shifting: true, ..m.quirks }, ..m };
            let a = execute_spec(off, Instruction::Shr(x, y), random);
            let b = execute_spec(on, Instruction::Shr(x, y), random);
            &&& a.v[x as int] == m.v[x as int] >> 1u8
            &&& a.v[FLAG_REGISTER as int] == m.v[x as int] & 1u8
            &&& b.v[x as int] == m.v[y as int] >> 1u8
            &&& b.v[FLAG_REGISTER as int] == m.v[y as int] & 1u8
            &&& (y != x && y != FLAG_REGISTER) ==> execute_spec(
                off.with_v(y as int, w),
                Instruction::Shr(x, y),
                random,
            ) == a.with_v(y as int, w)
            &&& m.v[x as int] != m.v[y as int] ==> a.v != b.v
        }),
{
    let off = Chip8View { quirks: Quirks { shifting: false, ..m.quirks }, ..m };
    let on = Chip8View { quirks: Quirks { shifting: true, ..m.quirks }, ..m };
    let a = execute_spec(off, Instruction::Shr(x, y), random);
    let b = execute_spec(on, Instruction::Shr(x, y), random);
    let (p, q) = (m.v[x as int], m.v[y as int]);
    assert(p >> 1u8 == q >> 1u8 && p & 1u8 == q & 1u8 ==> p == q) by (bit_vector);
    if p != q {
        if p >> 1u8 == q >> 1u8 {
            assert(a.v[FLAG_REGISTER as int] != b.v[FLAG_REGISTER as int]);
        } else {
            assert(a.v[x as int] != b.v[x as int]);
        }
    }
    if y != x && y != FLAG_REGISTER {
        assert(execute_spec(off.with_v(y as int, w), Instruction::Shr(x, y), random).v =~= a.with_v(
            y as int,
            w,
        ).v);
    }
}

/// Waiting for a key. The first step on a key-wait instruction arms the
/// keypad's wait and leaves the program counter on the instruction; a step
/// while no key has been released changes nothing; once key `k` is released,
/// the next step stores `k` in Vx, disarms the wait and moves past the
/// instruction.
pub proof fn lemma_key_wait(m: Chip8View, x: usize, k: u8, r1: u8, r2: u8, r3: u8)
    requires
        m.wf(),
        m.pc + 1 < MEMORY_SIZE,
        decode_spec(fetch_spec(m)) == Instruction::Ldk(x),
        !m.keypad.wait,
        k < KEYPAD_SIZE,
    ensures
        ({
            let m1 = step_spec(m, r1);
            let m2 = step_spec(m1, r2);
            let m3 = Chip8View { keypad: release_spec(m2.keypad, k), ..m2 };
            let m4 = step_spec(m3, r3);
            &&& m1.pc == m.pc
            &&& m1.keypad.wait
            &&& m2 == m1
            &&& m4.pc == m.pc + 2
            &&& m4.v[x as int] == k
            &&& !m4.keypad.wait
            &&& m4.keypad.released is None
        }),
{
    crate::instruction::lemma_decode_total(fetch_spec(m));
    let m1 = step_spec(m, r1);
    assert(fetch_spec(m1) == fetch_spec(m));
    let m2 = step_spec(m1, r2);
    let m3 = Chip8View { keypad: release_spec(m2.keypad, k), ..m2 };
    assert(fetch_spec(m3) == fetch_spec(m));
}

/// Decimal digits: for every value of Vx, BCD writes three decimal digits
/// d2, d1, d0 from the index register on, and 100·d2 + 10·d1 + d0 == Vx.
pub proof fn lemma_bcd_digits(m: Chip8View, x: usize, random: u8)
    requires
        m.wf(),
        x < NUMBER_OF_REGISTERS,
        fault_spec(m, Instruction::Bcd(x)) is None,
    ensures
        ({
            let n = execute_spec(m, Instruction::Bcd(x), random);
            let (d2, d1, d0) = (n.mem[m.i], n.mem[m.i + 1], n.mem[m.i + 2]);
            &&& d2 < 10 && d1 < 10 && d0 < 10
            &&& 100 * d2 + 10 * d1 + d0 == m.v[x as int]
        }),
{
    let value = m.v[x as int];
    assert(value / 100 < 10 && (value / 10) % 10 < 10 && value % 10 < 10 && 100 * (value / 100) + 10
        * ((value / 10) % 10) + value % 10 == value) by (nonlinear_arith)
        requires
            value < 256,
    ;
}

/// Stack depth. A call faults exactly when `STACK_SIZE` return addresses are
/// in use, and otherwise adds one; so sixteen nested calls succeed and a
/// seventeenth faults. A return faults exactly when the stack is empty.
pub proof fn lemma_stack_depth(m: Chip8View, nnn: usize, random: u8)
    requires
        m.wf(),
        m.pc + 1 < MEMORY_SIZE,
        nnn < 0x1000,
    ensures
        fault_spec(m, Instruction::Call(nnn)) == Some(Fault::StackOverflow) <==> m.stack.len()
            == STACK_SIZE,
        m.stack.len() < STACK_SIZE ==> fault_spec(m, Instruction::Call(nnn)) is None
            && execute_spec(m, Instruction::Call(nnn), random).stack.len() == m.stack.len() + 1
            && execute_spec(m, Instruction::Call(nnn), random).wf(),
        fault_spec(m, Instruction::Ret) == Some(Fault::StackUnderflow) <==> m.stack.len() == 0,
{
    let n = execute_spec(m, Instruction::Call(nnn), random);
    if m.stack.len() < STACK_SIZE {
        assert forall|k: int| 0 <= k < n.stack.len() implies 0 <= #[trigger] n.stack[k]
            < MEMORY_SIZE by {
            if k < m.stack.len() {
                assert(n.stack[k] == m.stack[k]);
            }
        }
    }
}

/// The state after a CALL to each address of `targets` in turn.
pub open spec fn nested_calls(m: Chip8View, targets: Seq<usize>) -> Chip8View
    decreases targets.len(),
{
    if targets.len() == 0 {
        m
    } else {
        execute_spec(nested_calls(m, targets.drop_last()), Instruction::Call(targets.last()), 0)
    }
}

/// Sixteen nested calls succeed and a seventeenth faults: from an empty
/// stack, each of up to `STACK_SIZE` calls in a row raises no fault and pushes
/// one return address; after `STACK_SIZE` of them any further call overflows.
pub proof fn lemma_nested_calls(m: Chip8View, targets: Seq<usize>)
    requires
        m.wf(),
        m.stack.len() == 0,
        m.pc + 1 < MEMORY_SIZE,
        targets.len() <= STACK_SIZE,
        forall|k: int| 0 <= k < targets.len() ==> #[trigger] targets[k] + 1 < MEMORY_SIZE,
    ensures
        nested_calls(m, targets).wf(),
        nested_calls(m, targets).stack.len() == targets.len(),
        nested_calls(m, targets).pc + 1 < MEMORY_SIZE,
        forall|j: int|
            0 <= j < targets.len() ==> fault_spec(
                nested_calls(m, targets.subrange(0, j)),
                Instruction::Call(#[trigger] targets[j]),
            ) is None,
        targets.len() == STACK_SIZE ==> forall|nnn: usize|
            fault_spec(nested_calls(m, targets), Instruction::Call(nnn)) == Some(
                Fault::StackOverflow,
            ),
    decreases targets.len(),
{
    if targets.len() > 0 {
        let front = targets.drop_last();
        lemma_nested_calls(m, front);
        let before = nested_calls(m, front);
        lemma_stack_depth(before, targets.last(), 0);
        assert forall|j: int| 0 <= j < targets.len() implies fault_spec(
            nested_calls(m, targets.subrange(0, j)),
            Instruction::Call(#[trigger] targets[j]),
        ) is None by {
            if j < front.len() {
                assert(front.subrange(0, j) =~= targets.subrange(0, j));
                assert(front[j] == targets[j]);
            } else {
                assert(targets.subrange(0, j) =~= front);
            }
        }
    }
}

/// Relies on rand's `thread_rng().gen::<u8>()`: a byte drawn uniformly by the
/// thread-local generator. Nothing is known of which byte comes back.
#[verifier::external_body]
fn random_byte() -> u8 {
    rand::thread_rng().gen::<u8>()
}

/// A CHIP-8 machine.
#[derive(Debug)]
pub struct Chip8 {
    /// Memory.
    mem: Vec<u8>,
    /// Display.
    pub fb: Framebuffer,
    /// Registers V0 to VF.
    v: Vec<u8>,
    /// Index register.
    i: usize,
    /// Program counter.
    pc: usize,
    /// Delay timer, counted down by the driver.
    pub dt: u8,
    /// Sound timer, counted down by the driver.
    pub st: u8,
    /// Return addresses; the first `sp` are in use.
    stack: Vec<usize>,
    /// Number of return addresses in use.
    sp: usize,
    /// Keypad.
    pub keypad: Keypad,
    /// Quirks chosen at construction.
    quirks: Quirks,
}

impl View for Chip8 {
    type V = Chip8View;

    closed spec fn view(&self) -> Chip8View {
        Chip8View {
            mem: self.mem@,
            v: self.v@,
            i: self.i as int,
            pc: self.pc as int,
            stack: self.stack@.subrange(0, self.sp as int).map_values(|a: usize| a as int),
            dt: self.dt,
            st: self.st,
            fb: self.fb@,
            keypad: self.keypad@,
            quirks: self.quirks,
        }
    }
}

impl Chip8 {
    /// The stack's storage has room for `STACK_SIZE` entries.
    pub closed spec fn inv(&self) -> bool {
        &&& self.stack@.len() == STACK_SIZE
        &&& self.sp <= STACK_SIZE
    }

    pub open spec fn wf(&self) -> bool {
        self.inv() && self@.wf()
    }

    /// Loads `rom` at `PROGRAM_START`, with the font at address 0. Fails when
    /// the program does not fit in the memory after `PROGRAM_START`.
    pub fn new(rom: &[u8], quirks: Quirks) -> (r: Result<Chip8, String>)
        ensures
            r is Err <==> rom@.len() >= MEMORY_SIZE - PROGRAM_START,
            r matches Ok(c) ==> c.wf() && c@ == initial_state(rom@, quirks),
    {
        if rom.len() >= MEMORY_SIZE - PROGRAM_START {
            return Err("program is too large to fit in memory".to_owned());
        }
        let font_data: Vec<u8> = vec![
            0xF0, 0x90, 0x90, 0x90, 0xF0, // 0
            0x20, 0x60, 0x20, 0x20, 0x70, // 1
            0xF0, 0x10, 0xF0, 0x80, 0xF0, // 2
            0xF0, 0x10, 0xF0, 0x10, 0xF0, // 3
            0x90, 0x90, 0xF0, 0x10, 0x10, // 4
            0xF0, 0x80, 0xF0, 0x10, 0xF0, // 5
            0xF0, 0x80, 0xF0, 0x90, 0xF0, // 6
            0xF0, 0x10, 0x20, 0x40, 0x40, // 7
            0xF0, 0x90, 0xF0, 0x90, 0xF0, // 8
            0xF0, 0x90, 0xF0, 0x10, 0xF0, // 9
            0xF0, 0x90, 0xF0, 0x90, 0x90, // A
            0xE0, 0x90, 0xE0, 0x90, 0xE0, // B
            0xF0, 0x80, 0x80, 0x80, 0xF0, // C
            0xE0, 0x90, 0x90, 0x90, 0xE0, // D
            0xF0, 0x80, 0xF0, 0x80, 0xF0, // E
            0xF0, 0x80, 0xF0, 0x80, 0x80, // F
        ];
        assert(font_data@ =~= font());
        let mut mem: Vec<u8> = Vec::new();
        let mut a: usize = 0;
        while a < MEMORY_SIZE
            invariant
                a <= MEMORY_SIZE,
                rom@.len() < MEMORY_SIZE - PROGRAM_START,
                font_data@ == font(),
                mem@ == initial_memory(rom@).subrange(0, a as int),
            decreases MEMORY_SIZE - a,
        {
            let b = if a < FONT_SIZE {
                font_data[a]
            } else if PROGRAM_START <= a && a < PROGRAM_START + rom.len() {
                rom[a - PROGRAM_START]
            } else {
                0
            };
            mem.push(b);
            a = a + 1;
            assert(mem@ =~= initial_memory(rom@).subrange(0, a as int));
        }
        assert(mem@ =~= initial_memory(rom@));
        let mut v: Vec<u8> = Vec::new();
        let mut stack: Vec<usize> = Vec::new();
        let mut k: usize = 0;
        while k < STACK_SIZE
            invariant
                k <= STACK_SIZE,
                v@ == Seq::new(k as nat, |r: int| 0u8),
                stack@.len() == k,
            decreases STACK_SIZE - k,
        {
            v.push(0);
            stack.push(0);
            k = k + 1;
            assert(v@ =~= Seq::new(k as nat, |r: int| 0u8));
        }
        let c = Chip8 {
            mem,
            fb: Framebuffer::new(),
            v,
            i: 0,
            pc: PROGRAM_START,
            dt: 0,
            st: 0,
            stack,
            sp: 0,
            keypad: Keypad::new(),
            quirks,
        };
        assert(c@.stack =~= Seq::<int>::empty());
        assert(c@ == initial_state(rom@, quirks));
        Ok(c)
    }

    /// The opcode at the program counter.
    fn fetch(&self) -> (r: u16)
        requires
            self.wf(),
            self@.pc + 1 < MEMORY_SIZE,
        ensures
            r == fetch_spec(self@),
    {
        (self.mem[self.pc] as u16) * 256 + (self.mem[self.pc + 1] as u16)
    }

    /// The fault that carrying out `instr` now would raise, if any.
    pub fn fault(&self, instr: Instruction) -> (r: Option<Fault>)
        requires
            self.wf(),
            instr.wf(),
        ensures
            r == fault_spec(self@, instr),
    {
        if self.pc >= MEMORY_SIZE - 1 {
            return Some(Fault::FetchOutOfBounds);
        }
        match instr {
            Instruction::Ret => if self.sp == 0 {
                Some(Fault::StackUnderflow)
            } else {
                None
            },
            Instruction::Call(_) => if self.sp == STACK_SIZE {
                Some(Fault::StackOverflow)
            } else {
                None
            },
            Instruction::Draw(_, _, n) => if self.i > MEMORY_SIZE - n as usize {
                Some(Fault::MemoryOutOfBounds)
            } else {
                None
            },
            Instruction::Skp(x) => if self.v[x] as usize >= KEYPAD_SIZE {
                Some(Fault::InvalidKey)
            } else {
                None
            },
            Instruction::Sknp(x) => if self.v[x] as usize >= KEYPAD_SIZE {
                Some(Fault::InvalidKey)
            } else {
                None
            },
            Instruction::Addi(x) => if self.i > usize::MAX - self.v[x] as usize {
                Some(Fault::IndexOverflow)
            } else {
                None
            },
            Instruction::Font(x) => if self.v[x] as usize >= GLYPH_COUNT {
                Some(Fault::InvalidGlyph)
            } else {
                None
            },
            Instruction::Bcd(_) => if self.i >= MEMORY_SIZE - 2 {
                Some(Fault::MemoryOutOfBounds)
            } else {
                None
            },
            Instruction::Sreg(x) => if self.i >= MEMORY_SIZE - x {
                Some(Fault::MemoryOutOfBounds)
            } else {
                None
            },
            Instruction::Lreg(x) => if self.i >= MEMORY_SIZE - x {
                Some(Fault::MemoryOutOfBounds)
            } else {
                None
            },
            _ => None,
        }
    }

    /// The fault that the next step would raise, if any. A driver checks this
    /// before each step and stops the machine on a fault.
    pub fn next_fault(&self) -> (r: Option<Fault>)
        requires
            self.wf(),
        ensures
            r == step_fault_spec(self@),
    {
        if self.pc >= MEMORY_SIZE - 1 {
            return Some(Fault::FetchOutOfBounds);
        }
        let instr = decode(self.fetch());
        self.fault(instr)
    }

    /// Copies the `n` bytes at the index register and draws them as a sprite
    /// at (Vx, Vy); VF records whether a set pixel was turned off.
    fn exec_draw(&mut self, x: usize, y: usize, n: u8)
        requires
            old(self).wf(),
            x < NUMBER_OF_REGISTERS,
            y < NUMBER_OF_REGISTERS,
            old(self)@.i + n <= MEMORY_SIZE,
        ensures
            final(self).wf(),
            ({
                let m = old(self)@;
                let d = draw_spec(
                    m.fb.pixels,
                    m.v[x as int] as int % 64,
                    m.v[y as int] as int % 32,
                    m.mem.subrange(m.i, m.i + n),
                    m.quirks.wrap,
                );
                final(self)@ == Chip8View {
                    fb: FramebufferView { pixels: d.0, updated: m.fb.updated || d.2 },
                    ..m
                }.with_v(FLAG_REGISTER as int, flag(d.1))
            }),
    {
        let mut sprite: Vec<u8> = Vec::new();
        let mut k: usize = 0;
        while k < n as usize
            invariant
                self.wf(),
                self@.i + n <= MEMORY_SIZE,
                k <= n,
                sprite@ == self@.mem.subrange(self@.i, self@.i + k),
            decreases n - k,
        {
            sprite.push(self.mem[self.i + k]);
            k = k + 1;
            assert(sprite@ =~= self@.mem.subrange(self@.i, self@.i + k));
        }
        let collision = self.fb.draw(self.v[x], self.v[y], n, sprite.as_slice(), self.quirks.wrap);
        self.v.set(FLAG_REGISTER, if collision { 1 } else { 0 });
    }

    /// Stores V0 to Vx in memory from the index register on.
    fn exec_store(&mut self, x: usize)
        requires
            old(self).wf(),
            x < NUMBER_OF_REGISTERS,
            old(self)@.i + x < MEMORY_SIZE,
        ensures
            final(self).wf(),
            ({
                let m = old(self)@;
                final(self)@ == Chip8View {
                    mem: Seq::new(
                        m.mem.len(),
                        |a: int|
                            if m.i <= a <= m.i + x {
                                m.v[a - m.i]
                            } else {
                                m.mem[a]
                            },
                    ),
                    i: index_after_block(m, x as int),
                    ..m
                }
            }),
    {
        let ghost m = self@;
        let mut offset: usize = 0;
        assert(m.mem =~= Seq::new(
            m.mem.len(),
            |a: int|
                if m.i <= a < m.i + 0 {
                    m.v[a - m.i]
                } else {
                    m.mem[a]
                },
        ));
        while offset <= x
            invariant
                self.wf(),
                offset <= x + 1,
                x < NUMBER_OF_REGISTERS,
                m.i + x < MEMORY_SIZE,
                self@ == (Chip8View {
                    mem: Seq::new(
                        m.mem.len(),
                        |a: int|
                            if m.i <= a < m.i + offset {
                                m.v[a - m.i]
                            } else {
                                m.mem[a]
                            },
                    ),
                    ..m
                }),
            decreases x + 1 - offset,
        {
            let value = self.v[offset];
            self.mem.set(self.i + offset, value);
            offset = offset + 1;
            assert(self@.mem =~= Seq::new(
                m.mem.len(),
                |a: int|
                    if m.i <= a < m.i + offset {
                        m.v[a - m.i]
                    } else {
                        m.mem[a]
                    },
            ));
        }
        if self.quirks.memory {
            self.i = self.i + x + 1;
        }
        assert(self@.mem =~= Seq::new(
            m.mem.len(),
            |a: int|
                if m.i <= a <= m.i + x {
                    m.v[a - m.i]
                } else {
                    m.mem[a]
                },
        ));
    }

    /// Loads V0 to Vx from memory from the index register on.
    fn exec_load(&mut self, x: usize)
        requires
            old(self).wf(),
            x < NUMBER_OF_REGISTERS,
            old(self)@.i + x < MEMORY_SIZE,
        ensures
            final(self).wf(),
            ({
                let m = old(self)@;
                final(self)@ == Chip8View {
                    v: Seq::new(
                        m.v.len(),
                        |r: int|
                            if r <= x {
                                m.mem[m.i + r]
                            } else {
                                m.v[r]
                            },
                    ),
                    i: index_after_block(m, x as int),
                    ..m
                }
            }),
    {
        let ghost m = self@;
        let mut offset: usize = 0;
        assert(m.v =~= Seq::new(
            m.v.len(),
            |r: int|
                if r < 0 {
                    m.mem[m.i + r]
                } else {
                    m.v[r]
                },
        ));
        while offset <= x
            invariant
                self.wf(),
                offset <= x + 1,
                x < NUMBER_OF_REGISTERS,
                m.i + x < MEMORY_SIZE,
                self@ == (Chip8View {
                    v: Seq::new(
                        m.v.len(),
                        |r: int|
                            if r < offset {
                                m.mem[m.i + r]
                            } else {
                                m.v[r]
                            },
                    ),
                    ..m
                }),
            decreases x + 1 - offset,
        {
            let value = self.mem[self.i + offset];
            self.v.set(offset, value);
            offset = offset + 1;
            assert(self@.v =~= Seq::new(
                m.v.len(),
                |r: int|
                    if r < offset {
                        m.mem[m.i + r]
                    } else {
                        m.v[r]
                    },
            ));
        }
        if self.quirks.memory {
            self.i = self.i + x + 1;
        }
        assert(self@.v =~= Seq::new(
            m.v.len(),
            |r: int|
                if r <= x {
                    m.mem[m.i + r]
                } else {
                    m.v[r]
                },
        ));
    }

    /// Instructions that only move the program counter or the stack (the no-ops
    /// included), load the index register, or clear the display.
    fn exec_flow(&mut self, instr: Instruction, random: u8)
        requires
            old(self).wf(),
            instr.wf(),
            fault_spec(old(self)@, instr) is None,
            matches!(
                instr,
                Instruction::Sys(..)
                | Instruction::Cls
                | Instruction::Ret
                | Instruction::Jmp(..)
                | Instruction::Call(..)
                | Instruction::Skeb(..)
                | Instruction::Skneb(..)
                | Instruction::Ske(..)
                | Instruction::Skne(..)
                | Instruction::Ldi(..)
                | Instruction::Jmpz(..)
                | Instruction::Unknown(..)
                | Instruction::Skp(..)
                | Instruction::Sknp(..),
            ),
        ensures
            final(self).wf(),
            final(self)@ == execute_spec(old(self)@, instr, random),
    {
        let ghost m0 = self@;
        self.pc = self.pc + 2;
        let ghost m = self@;
        assert(m == m0.with_pc(m0.pc + 2));
        match instr {
            Instruction::Sys(_) => {},
            Instruction::Cls => {
                self.fb.clear();
            },
            Instruction::Ret => {
                self.sp = self.sp - 1;
                self.pc = self.stack[self.sp] + 2;
                assert(self@.stack =~= m.stack.drop_last());
            },
            Instruction::Jmp(nnn) => {
                self.pc = nnn;
            },
            Instruction::Call(nnn) => {
                self.stack.set(self.sp, self.pc - 2);
                self.sp = self.sp + 1;
                self.pc = nnn;
                assert(self@.stack =~= m.stack.push(m0.pc));
            },
            Instruction::Skeb(x, nn) => {
                if self.v[x] == nn {
                    self.pc = self.pc + 2;
                }
            },
            Instruction::Skneb(x, nn) => {
                if self.v[x] != nn {
                    self.pc = self.pc + 2;
                }
            },
            Instruction::Ske(x, y) => {
                if self.v[x] == self.v[y] {
                    self.pc = self.pc + 2;
                }
            },
            Instruction::Skne(x, y) => {
                if self.v[x] != self.v[y] {
                    self.pc = self.pc + 2;
                }
            },
            Instruction::Ldi(nnn) => {
                self.i = nnn;
            },
            Instruction::Jmpz(nnn) => {
                let r = if self.quirks.jumping {
                    nnn >> 8
                } else {
                    0
                };
                assert(nnn < 0x1000 ==> nnn >> 8 == nnn / 256 && nnn / 256 < 16) by (bit_vector);
                self.pc = nnn + self.v[r] as usize;
            },
            Instruction::Skp(x) => {
                let key = self.v[x];
                if self.keypad.is_pressed(key) {
                    self.pc = self.pc + 2;
                }
            },
            Instruction::Sknp(x) => {
                let key = self.v[x];
                if !self.keypad.is_pressed(key) {
                    self.pc = self.pc + 2;
                }
            },
            Instruction::Unknown(_) => {},
            _ => {},
        }
    }

    /// Instructions that compute on registers.
    fn exec_alu(&mut self, instr: Instruction, random: u8)
        requires
            old(self).wf(),
            instr.wf(),
            fault_spec(old(self)@, instr) is None,
            matches!(
                instr,
                Instruction::Ldb(..)
                | Instruction::Addb(..)
                | Instruction::Ld(..)
                | Instruction::Or(..)
                | Instruction::And(..)
                | Instruction::Xor(..)
                | Instruction::Add(..)
                | Instruction::Sub(..)
                | Instruction::Subr(..)
                | Instruction::Shr(..)
                | Instruction::Shl(..)
                | Instruction::Rnd(..),
            ),
        ensures
            final(self).wf(),
            final(self)@ == execute_spec(old(self)@, instr, random),
    {
        let ghost m0 = self@;
        self.pc = self.pc + 2;
        let ghost m = self@;
        assert(m == m0.with_pc(m0.pc + 2));
        match instr {
            Instruction::Ldb(x, nn) => {
                self.v.set(x, nn);
            },
            Instruction::Addb(x, nn) => {
                let value = ((self.v[x] as u16 + nn as u16) % 256) as u8;
                self.v.set(x, value);
            },
            Instruction::Ld(x, y) => {
                let value = self.v[y];
                self.v.set(x, value);
            },
            Instruction::Or(x, y) => {
                let value = self.v[x] | self.v[y];
                self.v.set(x, value);
                if self.quirks.vf_reset {
                    self.v.set(FLAG_REGISTER, 0);
                }
            },
            Instruction::And(x, y) => {
                let value = self.v[x] & self.v[y];
                self.v.set(x, value);
                if self.quirks.vf_reset {
                    self.v.set(FLAG_REGISTER, 0);
                }
            },
            Instruction::Xor(x, y) => {
                let value = self.v[x] ^ self.v[y];
                self.v.set(x, value);
                if self.quirks.vf_reset {
                    self.v.set(FLAG_REGISTER, 0);
                }
            },
            Instruction::Add(x, y) => {
                let sum = self.v[x] as u16 + self.v[y] as u16;
                self.v.set(x, (sum % 256) as u8);
                self.v.set(FLAG_REGISTER, if sum > 255 { 1 } else { 0 });
            },
            Instruction::Sub(x, y) => {
                let a = self.v[x];
                let b = self.v[y];
                self.v.set(x, ((a as u16 + 256 - b as u16) % 256) as u8);
                self.v.set(FLAG_REGISTER, if a >= b { 1 } else { 0 });
            },
            Instruction::Subr(x, y) => {
                let a = self.v[x];
                let b = self.v[y];
                self.v.set(x, ((b as u16 + 256 - a as u16) % 256) as u8);
                self.v.set(FLAG_REGISTER, if b >= a { 1 } else { 0 });
            },
            Instruction::Shr(x, y) => {
                let source = if self.quirks.shifting {
                    self.v[y]
                } else {
                    self.v[x]
                };
                self.v.set(x, source >> 1u8);
                self.v.set(FLAG_REGISTER, source & 1u8);
            },
            Instruction::Shl(x, y) => {
                let source = if self.quirks.shifting {
                    self.v[y]
                } else {
                    self.v[x]
                };
                self.v.set(x, source << 1u8);
                self.v.set(FLAG_REGISTER, (source & 0x80u8) >> 7u8);
            },
            Instruction::Rnd(x, nn) => {
                self.v.set(x, random & nn);
            },
            _ => {},
        }
    }

    /// Instructions on timers, keys, the index register and memory, and sprite drawing.
    fn exec_misc(&mut self, instr: Instruction, random: u8)
        requires
            old(self).wf(),
            instr.wf(),
            fault_spec(old(self)@, instr) is None,
            matches!(
                instr,
                Instruction::Draw(..)
                | Instruction::Ldft(..)
                | Instruction::Ldk(..)
                | Instruction::Lddt(..)
                | Instruction::Ldst(..)
                | Instruction::Addi(..)
                | Instruction::Font(..)
                | Instruction::Bcd(..)
                | Instruction::Sreg(..)
                | Instruction::Lreg(..),
            ),
        ensures
            final(self).wf(),
            final(self)@ == execute_spec(old(self)@, instr, random),
    {
        let ghost m0 = self@;
        self.pc = self.pc + 2;
        let ghost m = self@;
        assert(m == m0.with_pc(m0.pc + 2));
        match instr {
            Instruction::Draw(x, y, n) => {
                self.exec_draw(x, y, n);
            },
            Instruction::Ldft(x) => {
                self.v.set(x, self.dt);
            },
            Instruction::Ldk(x) => {
                if self.keypad.is_waiting() {
                    match self.keypad.released_key() {
                        Some(key) => {
                            self.v.set(x, key);
                            self.keypad.end_wait();
                        },
                        None => {
                            self.pc = self.pc - 2;
                        },
                    }
                } else {
                    self.keypad.start_wait();
                    self.pc = self.pc - 2;
                }
            },
            Instruction::Lddt(x) => {
                self.dt = self.v[x];
            },
            Instruction::Ldst(x) => {
                self.st = self.v[x];
            },
            Instruction::Addi(x) => {
                self.i = self.i + self.v[x] as usize;
            },
            Instruction::Font(x) => {
                let digit = self.v[x] as usize;
                assert(digit < GLYPH_COUNT);
                self.i = GLYPH_SIZE * digit;
            },
            Instruction::Bcd(x) => {
                let value = self.v[x];
                self.mem.set(self.i, value / 100);
                self.mem.set(self.i + 1, (value / 10) % 10);
                self.mem.set(self.i + 2, value % 10);
            },
            Instruction::Sreg(x) => {
                self.exec_store(x);
            },
            Instruction::Lreg(x) => {
                self.exec_load(x);
            },
            _ => {},
        }
    }

    /// Carries out `instr`, which must raise no fault. The program counter
    /// first moves past the instruction; jumps, skips and the key wait then
    /// change it. `random` is the byte that a RND instruction uses.
    pub fn execute(&mut self, instr: Instruction, random: u8)
        requires
            old(self).wf(),
            instr.wf(),
            fault_spec(old(self)@, instr) is None,
        ensures
            final(self).wf(),
            final(self)@ == execute_spec(old(self)@, instr, random),
    {
        match instr {
            Instruction::Sys(..)
            | Instruction::Cls
            | Instruction::Ret
            | Instruction::Jmp(..)
            | Instruction::Call(..)
            | Instruction::Skeb(..)
            | Instruction::Skneb(..)
            | Instruction::Ske(..)
            | Instruction::Skne(..)
            | Instruction::Ldi(..)
            | Instruction::Jmpz(..)
            | Instruction::Unknown(..)
            | Instruction::Skp(..)
            | Instruction::Sknp(..) => self.exec_flow(instr, random),
            Instruction::Ldb(..)
            | Instruction::Addb(..)
            | Instruction::Ld(..)
            | Instruction::Or(..)
            | Instruction::And(..)
            | Instruction::Xor(..)
            | Instruction::Add(..)
            | Instruction::Sub(..)
            | Instruction::Subr(..)
            | Instruction::Shr(..)
            | Instruction::Shl(..)
            | Instruction::Rnd(..) => self.exec_alu(instr, random),
            Instruction::Draw(..)
            | Instruction::Ldft(..)
            | Instruction::Ldk(..)
            | Instruction::Lddt(..)
            | Instruction::Ldst(..)
            | Instruction::Addi(..)
            | Instruction::Font(..)
            | Instruction::Bcd(..)
            | Instruction::Sreg(..)
            | Instruction::Lreg(..) => self.exec_misc(instr, random),
        }
    }

    /// Fetches the opcode at the program counter, decodes it and carries it
    /// out. The next step must raise no fault (see `next_fault`). A RND
    /// instruction draws its byte from the thread-local random generator.
    pub fn step(&mut self)
        requires
            old(self).wf(),
            step_fault_spec(old(self)@) is None,
        ensures
            final(self).wf(),
            exists|random: u8| final(self)@ == step_spec(old(self)@, random),
    {
        let instr = decode(self.fetch());
        let random = if matches!(instr, Instruction::Rnd(_, _)) {
            random_byte()
        } else {
            0
        };
        self.execute(instr, random);
        assert(self@ == step_spec(old(self)@, random));
    }

    /// Counts both timers down by one, stopping at zero. The driver calls this
    /// once per frame.
    pub fn tick_timers(&mut self)
        requires
            old(self).wf(),
        ensures
            final(self).wf(),
            final(self)@ == tick_spec(old(self)@),
    {
        if self.dt > 0 {
            self.dt = self.dt - 1;
        }
        if self.st > 0 {
            self.st = self.st - 1;
        }
    }

    /// Register Vx.
    pub fn register(&self, x: usize) -> (r: u8)
        requires
            self.wf(),
            x < NUMBER_OF_REGISTERS,
        ensures
            r == self@.v[x as int],
    {
        self.v[x]
    }

    /// The byte at address `addr`.
    pub fn memory(&self, addr: usize) -> (r: u8)
        requires
            self.wf(),
            addr < MEMORY_SIZE,
        ensures
            r == self@.mem[addr as int],
    {
        self.mem[addr]
    }

    /// The program counter.
    pub fn pc(&self) -> (r: usize)
        ensures
            r == self@.pc,
    {
        self.pc
    }

    /// The index register.
    pub fn index(&self) -> (r: usize)
        ensures
            r == self@.i,
    {
        self.i
    }

    /// Number of return addresses on the stack.
    pub fn stack_depth(&self) -> (r: usize)
        requires
            self.wf(),
        ensures
            r == self@.stack.len(),
    {
        self.sp
    }
}

} // verus!
