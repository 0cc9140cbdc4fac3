//! Decoding of 16-bit opcodes into the closed instruction set, and the
//! dispatch of decoded instructions onto the machine.

use vstd::prelude::*;

use crate::chip_8::Chip8;
use crate::state::{
    bcd_effect, call_effect, cls_effect, drw_effect, key_pressed, load_regs_effect,
    lowest_key_from, no_key_pressed, ret_effect, shl_wrapped, skip_if, store_regs_effect,
    sub_no_borrow, sub_wrapped, with_alu, with_pc, with_v, State,
};
use crate::state::{add_carry, add_wrapped};

verus! {

/// The recoverable failures of the machine.
#[derive(Clone, Copy, Debug, PartialEq, Eq, Structural)]
pub enum ExecError {
    /// A bit pattern outside the instruction set; carries the raw opcode.
    UnimplementedOpcode(u16),
    /// A subroutine call with the 16-entry stack already full.
    StackOverflow,
    /// A return with nothing on the stack.
    StackUnderflow,
    /// A program counter or memory address outside [0, 4095].
    OutOfBoundsAddress,
    /// A program longer than the memory above the reserved area.
    ProgramTooLarge,
}

/// Outcome of executing one instruction.
pub type OpcodeExec = Result<(), ExecError>;

/// The closed instruction set.  Register operands are indices below 16,
/// `u8` operands are 8-bit immediates, `u16` operands are 12-bit addresses.
/// Every 16-bit value decodes to exactly one variant; patterns outside the
/// set decode to `ERROR` carrying the raw opcode.
#[derive(Clone, Copy, Debug, PartialEq, Eq, Structural)]
pub enum Opcode {
    ERROR(u16),
    CLS,
    RET,
    SYS(u16),
    JP(u16),
    CALL(u16),
    SE(usize, u8),
    SNE(usize, u8),
    SEVy(usize, usize),
    LD(usize, u8),
    ADD(usize, u8),
    LDVy(usize, usize),
    OR(usize, usize),
    AND(usize, usize),
    XOR(usize, usize),
    ADDVy(usize, usize),
    SUB(usize, usize),
    SHR(usize),
    SUBN(usize, usize),
    SHL(usize),
    SNEVy(usize, usize),
    LDI(u16),
    JPV0(u16),
    RND(usize, u8),
    DRW(usize, usize, u8),
    SKP(usize),
    SKNP(usize),
    LDVxDT(usize),
    LDVxK(usize),
    LDDTVx(usize),
    LDSTVx(usize),
    ADDI(usize),
    LDF(usize),
    LDB(usize),
    LDIVx(usize),
    LDVxI(usize),
}

impl Opcode {
    /// Operand ranges that decoding guarantees: register indices below 16,
    /// addresses below 0x1000, sprite heights below 16.
    pub open spec fn wf(self) -> bool {
        match self {
            Opcode::ERROR(_) => true,
            Opcode::CLS => true,
            Opcode::RET => true,
            Opcode::SYS(nnn) => nnn < 0x1000,
            Opcode::JP(nnn) => nnn < 0x1000,
            Opcode::CALL(nnn) => nnn < 0x1000,
            Opcode::SE(x, _) => x < 16,
            Opcode::SNE(x, _) => x < 16,
            Opcode::SEVy(x, y) => x < 16 && y < 16,
            Opcode::LD(x, _) => x < 16,
            Opcode::ADD(x, _) => x < 16,
            Opcode::LDVy(x, y) => x < 16 && y < 16,
            Opcode::OR(x, y) => x < 16 && y < 16,
            Opcode::AND(x, y) => x < 16 && y < 16,
            Opcode::XOR(x, y) => x < 16 && y < 16,
            Opcode::ADDVy(x, y) => x < 16 && y < 16,
            Opcode::SUB(x, y) => x < 16 && y < 16,
            Opcode::SHR(x) => x < 16,
            Opcode::SUBN(x, y) => x < 16 && y < 16,
            Opcode::SHL(x) => x < 16,
            Opcode::SNEVy(x, y) => x < 16 && y < 16,
            Opcode::LDI(nnn) => nnn < 0x1000,
            Opcode::JPV0(nnn) => nnn < 0x1000,
            Opcode::RND(x, _) => x < 16,
            Opcode::DRW(x, y, n) => x < 16 && y < 16 && n < 16,
            Opcode::SKP(x) => x < 16,
            Opcode::SKNP(x) => x < 16,
            Opcode::LDVxDT(x) => x < 16,
            Opcode::LDVxK(x) => x < 16,
            Opcode::LDDTVx(x) => x < 16,
            Opcode::LDSTVx(x) => x < 16,
            Opcode::ADDI(x) => x < 16,
            Opcode::LDF(x) => x < 16,
            Opcode::LDB(x) => x < 16,
            Opcode::LDIVx(x) => x < 16,
            Opcode::LDVxI(x) => x < 16,
        }
    }
}

/// The opcode's 16 bits fetched big-endian from two consecutive memory
/// bytes.
pub open spec fn spec_fetch(mem: Seq<u8>, pc: int) -> u16 {
    (mem[pc] * 256 + mem[pc + 1]) as u16
}

/// The decoder as a mathematical function, dispatching on the four nibbles
/// of the opcode exactly as the instruction-set reference lays the families
/// out.
pub open spec fn spec_decode(op: u16) -> Opcode {
    let n1 = (op >> 12) & 0xF;
    let n2 = (((op >> 8) & 0xF) as usize);
    let n3 = (((op >> 4) & 0xF) as usize);
    let n4 = op & 0xF;
    let nnn = op & 0xFFF;
    let kk = ((op & 0xFF) as u8);
    if op == 0x00E0 {
        Opcode::CLS
    } else if op == 0x00EE {
        Opcode::RET
    } else if n1 == 0x0 {
        Opcode::SYS(nnn)
    } else if n1 == 0x1 {
        Opcode::JP(nnn)
    } else if n1 == 0x2 {
        Opcode::CALL(nnn)
    } else if n1 == 0x3 {
        Opcode::SE(n2, kk)
    } else if n1 == 0x4 {
        Opcode::SNE(n2, kk)
    } else if n1 == 0x5 && n4 == 0x0 {
        Opcode::SEVy(n2, n3)
    } else if n1 == 0x6 {
        Opcode::LD(n2, kk)
    } else if n1 == 0x7 {
        Opcode::ADD(n2, kk)
    } else if n1 == 0x8 && n4 == 0x0 {
        Opcode::LDVy(n2, n3)
    } else if n1 == 0x8 && n4 == 0x1 {
        Opcode::OR(n2, n3)
    } else if n1 == 0x8 && n4 == 0x2 {
        Opcode::AND(n2, n3)
    } else if n1 == 0x8 && n4 == 0x3 {
        Opcode::XOR(n2, n3)
    } else if n1 == 0x8 && n4 == 0x4 {
        Opcode::ADDVy(n2, n3)
    } else if n1 == 0x8 && n4 == 0x5 {
        Opcode::SUB(n2, n3)
    } else if n1 == 0x8 && n4 == 0x6 {
        Opcode::SHR(n2)
    } else if n1 == 0x8 && n4 == 0x7 {
        Opcode::SUBN(n2, n3)
    } else if n1 == 0x8 && n4 == 0xE {
        Opcode::SHL(n2)
    } else if n1 == 0x9 && n4 == 0x0 {
        Opcode::SNEVy(n2, n3)
    } else if n1 == 0xA {
        Opcode::LDI(nnn)
    } else if n1 == 0xB {
        Opcode::JPV0(nnn)
    } else if n1 == 0xC {
        Opcode::RND(n2, kk)
    } else if n1 == 0xD {
        Opcode::DRW(n2, n3, (n4 as u8))
    } else if n1 == 0xE && kk == 0x9E {
        Opcode::SKP(n2)
    } else if n1 == 0xE && kk == 0xA1 {
        Opcode::SKNP(n2)
    } else if n1 == 0xF && kk == 0x07 {
        Opcode::LDVxDT(n2)
    } else if n1 == 0xF && kk == 0x0A {
        Opcode::LDVxK(n2)
    } else if n1 == 0xF && kk == 0x15 {
        Opcode::LDDTVx(n2)
    } else if n1 == 0xF && kk == 0x18 {
        Opcode::LDSTVx(n2)
    } else if n1 == 0xF && kk == 0x1E {
        Opcode::ADDI(n2)
    } else if n1 == 0xF && kk == 0x29 {
        Opcode::LDF(n2)
    } else if n1 == 0xF && kk == 0x33 {
        Opcode::LDB(n2)
    } else if n1 == 0xF && kk == 0x55 {
        Opcode::LDIVx(n2)
    } else if n1 == 0xF && kk == 0x65 {
        Opcode::LDVxI(n2)
    } else {
        Opcode::ERROR(op)
    }
}

/// The nibbles, address and immediate of an opcode stay inside their bit
/// widths.
proof fn lemma_opcode_fields(op: u16)
    by (bit_vector)
    ensures
        (op >> 12) & 0xF < 16,
        (op >> 8) & 0xF < 16,
        (op >> 4) & 0xF < 16,
        op & 0xF < 16,
        op & 0xFFF < 0x1000,
        op & 0xFF < 0x100,
        op & 0xFF == ((op >> 4) & 0xF) * 16 + (op & 0xF),
        op & 0xFFF == ((op >> 8) & 0xF) * 256 + ((op >> 4) & 0xF) * 16 + (op & 0xF),
        op == ((op >> 12) & 0xF) * 4096 + (op & 0xFFF),
{
}

/// Big-endian composition of two bytes agrees with its arithmetic form.
proof fn lemma_fetch_compose(high: u16, low: u16)
    by (bit_vector)
    requires
        high < 256,
        low < 256,
    ensures
        (high << 8u16) | low == high * 256 + low,
{
}

/// Fetches the 16-bit opcode stored big-endian in memory at the program
/// counter.
pub fn fetch_op(memory: &Vec<u8>, pc: &usize) -> (op: u16)
    requires
        memory@.len() == 4096,
        *pc + 1 < 4096,
    ensures
        op == spec_fetch(memory@, *pc as int),
{
    let high = memory[*pc] as u16;
    let low = memory[*pc + 1] as u16;
    proof {
        lemma_fetch_compose(high, low);
    }
    (high << 8u16) | low
}

/// Decodes an opcode: total, pure, and equal to the mathematical decoder on
/// every input.
pub fn match_opcode(op: u16) -> (r: Opcode)
    ensures
        r == spec_decode(op),
        r.wf(),
{
    proof {
        lemma_opcode_fields(op);
    }
    let n1 = (op >> 12) & 0xF;
    let n2 = ((op >> 8) & 0xF) as usize;
    let n3 = ((op >> 4) & 0xF) as usize;
    let n4 = op & 0xF;

    match (n1, n2, n3, n4) {
        (0x0, 0x0, 0xE, 0x0) => Opcode::CLS,
        (0x0, 0x0, 0xE, 0xE) => Opcode::RET,
        (0x0, _, _, _) => Opcode::SYS(nnn_address(op)),
        (0x1, _, _, _) => Opcode::JP(nnn_address(op)),
        (0x2, _, _, _) => Opcode::CALL(nnn_address(op)),
        (0x3, _, _, _) => Opcode::SE(n2, kk(op)),
        (0x4, _, _, _) => Opcode::SNE(n2, kk(op)),
        (0x5, _, _, 0) => Opcode::SEVy(n2, n3),
        (0x6, _, _, _) => Opcode::LD(n2, kk(op)),
        (0x7, _, _, _) => Opcode::ADD(n2, kk(op)),
        (0x8, _, _, 0) => Opcode::LDVy(n2, n3),
        (0x8, _, _, 1) => Opcode::OR(n2, n3),
        (0x8, _, _, 2) => Opcode::AND(n2, n3),
        (0x8, _, _, 3) => Opcode::XOR(n2, n3),
        (0x8, _, _, 4) => Opcode::ADDVy(n2, n3),
        (0x8, _, _, 5) => Opcode::SUB(n2, n3),
        (0x8, _, _, 6) => Opcode::SHR(n2),
        (0x8, _, _, 7) => Opcode::SUBN(n2, n3),
        (0x8, _, _, 0xE) => Opcode::SHL(n2),
        (0x9, _, _, 0) => Opcode::SNEVy(n2, n3),
        (0xA, _, _, _) => Opcode::LDI(nnn_address(op)),
        (0xB, _, _, _) => Opcode::JPV0(nnn_address(op)),
        (0xC, _, _, _) => Opcode::RND(n2, kk(op)),
        (0xD, _, _, _) => Opcode::DRW(n2, n3, n4 as u8),
        (0xE, _, 0x9, 0xE) => Opcode::SKP(n2),
        (0xE, _, 0xA, 0x1) => Opcode::SKNP(n2),
        (0xF, _, 0x0, 0x7) => Opcode::LDVxDT(n2),
        (0xF, _, 0x0, 0xA) => Opcode::LDVxK(n2),
        (0xF, _, 0x1, 0x5) => Opcode::LDDTVx(n2),
        (0xF, _, 0x1, 0x8) => Opcode::LDSTVx(n2),
        (0xF, _, 0x1, 0xE) => Opcode::ADDI(n2),
        (0xF, _, 0x2, 0x9) => Opcode::LDF(n2),
        (0xF, _, 0x3, 0x3) => Opcode::LDB(n2),
        (0xF, _, 0x5, 0x5) => Opcode::LDIVx(n2),
        (0xF, _, 0x6, 0x5) => Opcode::LDVxI(n2),
        (_, _, _, _) => Opcode::ERROR(op),
    }
}

/// The semantics of one decoded instruction as a mathematical function:
/// the machine state after executing `op` in state `s`, paired with the
/// outcome.  `keys` is the host-supplied key mask and `rnd` the
/// host-supplied random byte.  Failing instructions leave the state
/// exactly as it was.
pub open spec fn spec_execute(op: Opcode, s: State, keys: u16, rnd: u8) -> (State, OpcodeExec) {
    match op {
        Opcode::ERROR(raw) => (s, Err(ExecError::UnimplementedOpcode(raw))),
        Opcode::CLS => (cls_effect(s), Ok(())),
        Opcode::RET => if s.sp == 0 {
            (s, Err(ExecError::StackUnderflow))
        } else {
            (ret_effect(s), Ok(()))
        },
        Opcode::SYS(_) => (s, Ok(())),
        Opcode::JP(nnn) => (with_pc(s, nnn), Ok(())),
        Opcode::CALL(nnn) => if s.sp == 16 {
            (s, Err(ExecError::StackOverflow))
        } else {
            (call_effect(s, nnn), Ok(()))
        },
        Opcode::SE(x, kk) => (skip_if(s, s.v[x as int] == kk), Ok(())),
        Opcode::SNE(x, kk) => (skip_if(s, s.v[x as int] != kk), Ok(())),
        Opcode::SEVy(x, y) => (skip_if(s, s.v[x as int] == s.v[y as int]), Ok(())),
        Opcode::LD(x, kk) => (with_v(s, x as int, kk), Ok(())),
        Opcode::ADD(x, kk) => (with_v(s, x as int, add_wrapped(s.v[x as int], kk)), Ok(())),
        Opcode::LDVy(x, y) => (with_v(s, x as int, s.v[y as int]), Ok(())),
        Opcode::OR(x, y) => (with_v(s, x as int, s.v[x as int] | s.v[y as int]), Ok(())),
        Opcode::AND(x, y) => (with_v(s, x as int, s.v[x as int] & s.v[y as int]), Ok(())),
        Opcode::XOR(x, y) => (with_v(s, x as int, s.v[x as int] ^ s.v[y as int]), Ok(())),
        Opcode::ADDVy(x, y) => (
            with_alu(
                s,
                x as int,
                add_wrapped(s.v[x as int], s.v[y as int]),
                add_carry(s.v[x as int], s.v[y as int]),
            ),
            Ok(()),
        ),
        Opcode::SUB(x, y) => (
            with_alu(
                s,
                x as int,
                sub_wrapped(s.v[x as int], s.v[y as int]),
                sub_no_borrow(s.v[x as int], s.v[y as int]),
            ),
            Ok(()),
        ),
        Opcode::SHR(x) => (
            with_alu(s, x as int, s.v[x as int] >> 1u8, s.v[x as int] & 1),
            Ok(()),
        ),
        Opcode::SUBN(x, y) => (
            with_alu(
                s,
                x as int,
                sub_wrapped(s.v[y as int], s.v[x as int]),
                sub_no_borrow(s.v[y as int], s.v[x as int]),
            ),
            Ok(()),
        ),
        Opcode::SHL(x) => (
            with_alu(s, x as int, shl_wrapped(s.v[x as int]), (s.v[x as int] >> 7u8) & 1),
            Ok(()),
        ),
        Opcode::SNEVy(x, y) => (skip_if(s, s.v[x as int] != s.v[y as int]), Ok(())),
        Opcode::LDI(nnn) => (State { i: nnn, ..s }, Ok(())),
        Opcode::JPV0(nnn) => (with_pc(s, (nnn + s.v[0]) as u16), Ok(())),
        Opcode::RND(x, kk) => (with_v(s, x as int, rnd & kk), Ok(())),
        Opcode::DRW(x, y, n) => if s.i + n > 4096 {
            (s, Err(ExecError::OutOfBoundsAddress))
        } else {
            (drw_effect(s, x as int, y as int, n as int), Ok(()))
        },
        Opcode::SKP(x) => (skip_if(s, key_pressed(keys, s.v[x as int])), Ok(())),
        Opcode::SKNP(x) => (skip_if(s, !key_pressed(keys, s.v[x as int])), Ok(())),
        Opcode::LDVxDT(x) => (with_v(s, x as int, s.dt), Ok(())),
        Opcode::LDVxK(x) => if no_key_pressed(keys) {
            (with_pc(s, (s.pc - 2) as u16), Ok(()))
        } else {
            (with_v(s, x as int, lowest_key_from(keys, 0)), Ok(()))
        },
        Opcode::LDDTVx(x) => (State { dt: s.v[x as int], ..s }, Ok(())),
        Opcode::LDSTVx(x) => (State { st: s.v[x as int], ..s }, Ok(())),
        Opcode::ADDI(x) => if s.i + s.v[x as int] > 0xFFF {
            (s, Err(ExecError::OutOfBoundsAddress))
        } else {
            (State { i: (s.i + s.v[x as int]) as u16, ..s }, Ok(()))
        },
        Opcode::LDF(x) => (State { i: (5 * (s.v[x as int] & 0xF)) as u16, ..s }, Ok(())),
        Opcode::LDB(x) => if s.i + 2 >= 4096 {
            (s, Err(ExecError::OutOfBoundsAddress))
        } else {
            (bcd_effect(s, s.v[x as int]), Ok(()))
        },
        Opcode::LDIVx(x) => if s.i + x >= 4096 {
            (s, Err(ExecError::OutOfBoundsAddress))
        } else {
            (store_regs_effect(s, x as int), Ok(()))
        },
        Opcode::LDVxI(x) => if s.i + x >= 4096 {
            (s, Err(ExecError::OutOfBoundsAddress))
        } else {
            (load_regs_effect(s, x as int), Ok(()))
        },
    }
}

impl Opcode {
    /// Executes one decoded instruction on the machine: the transition
    /// performed is exactly `spec_execute`.  The bound on `pc` leaves room
    /// for a conditional skip's extra advance and for the key-wait's step
    /// back.
    pub fn execute_op(&self, chip_8: &mut Chip8, keys: u16, rnd: u8) -> (r: OpcodeExec)
        requires
            old(chip_8).well_formed(),
            self.wf(),
            old(chip_8).pc >= 2,
            old(chip_8).pc + 2 <= 0xFFFF,
        ensures
            final(chip_8).well_formed(),
            (final(chip_8)@, r) == spec_execute(*self, old(chip_8)@, keys, rnd),
    {
        match self {
            Opcode::ERROR(raw) => Err(ExecError::UnimplementedOpcode(*raw)),
            Opcode::CLS => chip_8.opcode_cls(),
            Opcode::RET => chip_8.opcode_ret(),
            Opcode::SYS(nnn) => chip_8.opcode_sys(*nnn),
            Opcode::JP(nnn) => chip_8.opcode_jmp(*nnn),
            Opcode::CALL(nnn) => chip_8.opcode_call(*nnn),
            Opcode::SE(vx, kk) => chip_8.opcode_se(*vx, *kk),
            Opcode::SNE(vx, kk) => chip_8.opcode_sne(*vx, *kk),
            Opcode::SEVy(vx, vy) => chip_8.opcode_se_vy(*vx, *vy),
            Opcode::LD(vx, kk) => chip_8.opcode_ld(*vx, *kk),
            Opcode::ADD(vx, kk) => chip_8.opcode_add(*vx, *kk),
            Opcode::LDVy(vx, vy) => chip_8.opcode_ld_vy(*vx, *vy),
            Opcode::OR(vx, vy) => chip_8.opcode_or(*vx, *vy),
            Opcode::AND(vx, vy) => chip_8.opcode_and(*vx, *vy),
            Opcode::XOR(vx, vy) => chip_8.opcode_xor(*vx, *vy),
            Opcode::ADDVy(vx, vy) => chip_8.opcode_add_vy(*vx, *vy),
            Opcode::SUB(vx, vy) => chip_8.opcode_sub(*vx, *vy),
            Opcode::SHR(vx) => chip_8.opcode_shr(*vx),
            Opcode::SUBN(vx, vy) => chip_8.opcode_subn(*vx, *vy),
            Opcode::SHL(vx) => chip_8.opcode_shl(*vx),
            Opcode::SNEVy(vx, vy) => chip_8.opcode_sne_vy(*vx, *vy),
            Opcode::LDI(nnn) => chip_8.opcode_ld_i(*nnn),
            Opcode::JPV0(nnn) => chip_8.opcode_jp_v0(*nnn),
            Opcode::RND(vx, kk) => chip_8.opcode_rnd(*vx, *kk, rnd),
            Opcode::DRW(vx, vy, n) => chip_8.opcode_drw(*vx, *vy, *n),
            Opcode::SKP(vx) => chip_8.opcode_skp(*vx, keys),
            Opcode::SKNP(vx) => chip_8.opcode_sknp(*vx, keys),
            Opcode::LDVxDT(vx) => chip_8.opcode_ld_vx_dt(*vx),
            Opcode::LDVxK(vx) => chip_8.opcode_ld_vx_k(*vx, keys),
            Opcode::LDDTVx(vx) => chip_8.opcode_ld_dt_vx(*vx),
            Opcode::LDSTVx(vx) => chip_8.opcode_ld_st_vx(*vx),
            Opcode::ADDI(vx) => chip_8.opcode_add_i(*vx),
            Opcode::LDF(vx) => chip_8.opcode_ld_f(*vx),
            Opcode::LDB(vx) => chip_8.opcode_ld_b(*vx),
            Opcode::LDIVx(vx) => chip_8.opcode_ld_i_vx(*vx),
            Opcode::LDVxI(vx) => chip_8.opcode_ld_vx_i(*vx),
        }
    }
}

/// The 12-bit address field of an opcode.
fn nnn_address(op: u16) -> (nnn: u16)
    ensures
        nnn == op & 0xFFF,
{
    op & 0xFFF
}

/// The 8-bit immediate field of an opcode.
fn kk(op: u16) -> (imm: u8)
    ensures
        imm == (op & 0xFF) as u8,
{
    (op & 0xFF) as u8
}

} // verus!
