//! The concrete machine: the state store and the per-instruction
//! operations on it.

use vstd::prelude::*;

use crate::opcodes::{
    fetch_op, match_opcode, spec_decode, spec_execute, spec_fetch, ExecError, Opcode, OpcodeExec,
};
use crate::state::{
    add_carry, add_wrapped, bcd_effect, call_effect, cls_effect, drw_collision, drw_disp,
    drw_effect, drw_hits, drw_target, initial_state, key_pressed, load_program_effect,
    load_regs_effect, lowest_key_from, no_key_pressed, ret_effect, shl_wrapped, skip_if,
    sprite_bit, store_regs_effect, sub_no_borrow, sub_wrapped, timer_tick_effect, with_alu,
    with_pc, with_v, State,
};

verus! {

/// Lowest address a loaded program may occupy; everything below is reserved.
pub const PROGRAM_START_ADDRESS: u16 = 0x200;

/// Size of the machine's memory in bytes.
pub const MEM_SIZE: usize = 4096;

/// Number of general-purpose registers.
pub const NUM_REGS: usize = 16;

/// Capacity of the return-address stack.
pub const STACK_SIZE: usize = 16;

/// Width of the display in pixels.
pub const SCREEN_WIDTH: usize = 64;

/// Height of the display in pixels.
pub const SCREEN_HEIGHT: usize = 32;

/// The CHIP-8 machine state: memory, registers, return stack, display and
/// timers.  `v_reg[15]` doubles as the ALU flag register VF.
pub struct Chip8 {
    pub v_reg: Vec<u8>,
    pub i: u16,
    pub pc: u16,
    pub memory: Vec<u8>,
    pub stack: Vec<u16>,
    pub stack_pointer: u8,
    pub display: Vec<bool>,
    pub delay_timer: u8,
    pub sound_timer: u8,
}

impl View for Chip8 {
    type V = State;

    open spec fn view(&self) -> State {
        State {
            v: self.v_reg@,
            i: self.i,
            pc: self.pc,
            mem: self.memory@,
            stack: self.stack@,
            sp: self.stack_pointer,
            disp: self.display@,
            dt: self.delay_timer,
            st: self.sound_timer,
        }
    }
}

/// A vector of `n` zero bytes.
fn zeroed_bytes(n: usize) -> (v: Vec<u8>)
    ensures
        v@ == Seq::new(n as nat, |a: int| 0u8),
{
    let mut v: Vec<u8> = Vec::new();
    let mut k: usize = 0;
    while k < n
        invariant
            k <= n,
            v@.len() == k,
            forall|a: int| 0 <= a < k ==> v@[a] == 0u8,
        decreases n - k,
    {
        v.push(0u8);
        k = k + 1;
    }
    proof {
        assert(v@ =~= Seq::new(n as nat, |a: int| 0u8));
    }
    v
}

/// A vector of `n` zero words.
fn zeroed_words(n: usize) -> (v: Vec<u16>)
    ensures
        v@ == Seq::new(n as nat, |a: int| 0u16),
{
    let mut v: Vec<u16> = Vec::new();
    let mut k: usize = 0;
    while k < n
        invariant
            k <= n,
            v@.len() == k,
            forall|a: int| 0 <= a < k ==> v@[a] == 0u16,
        decreases n - k,
    {
        v.push(0u16);
        k = k + 1;
    }
    proof {
        assert(v@ =~= Seq::new(n as nat, |a: int| 0u16));
    }
    v
}

/// A vector of `n` unlit pixels.
fn dark_pixels(n: usize) -> (v: Vec<bool>)
    ensures
        v@ == Seq::new(n as nat, |p: int| false),
{
    let mut v: Vec<bool> = Vec::new();
    let mut k: usize = 0;
    while k < n
        invariant
            k <= n,
            v@.len() == k,
            forall|p: int| 0 <= p < k ==> v@[p] == false,
        decreases n - k,
    {
        v.push(false);
        k = k + 1;
    }
    proof {
        assert(v@ =~= Seq::new(n as nat, |p: int| false));
    }
    v
}

impl Default for Chip8 {
    /// A machine after reset: all state zeroed and the program counter at
    /// the program start address.
    fn default() -> (c: Chip8)
        ensures
            c@ == initial_state(),
            c@.wf(),
    {
        Chip8 {
            v_reg: zeroed_bytes(NUM_REGS),
            i: 0,
            pc: PROGRAM_START_ADDRESS,
            memory: zeroed_bytes(MEM_SIZE),
            stack: zeroed_words(STACK_SIZE),
            stack_pointer: 0,
            display: dark_pixels(SCREEN_WIDTH * SCREEN_HEIGHT),
            delay_timer: 0,
            sound_timer: 0,
        }
    }
}

impl Chip8 {
    /// Well-formedness of the concrete machine, inherited from the abstract
    /// state.
    pub open spec fn well_formed(&self) -> bool {
        self@.wf()
    }

    /// Pushes a return address; the caller has checked that the stack has
    /// room.
    pub fn push(&mut self, elem: u16)
        requires
            old(self).well_formed(),
            old(self).stack_pointer < 16,
        ensures
            final(self).well_formed(),
            final(self)@ == (State {
                stack: old(self)@.stack.update(old(self)@.sp as int, elem),
                sp: (old(self)@.sp + 1) as u8,
                ..old(self)@
            }),
    {
        let sp = self.stack_pointer as usize;
        self.stack.set(sp, elem);
        self.stack_pointer = self.stack_pointer + 1;
    }

    /// Pops the most recently pushed return address; the caller has checked
    /// that the stack is not empty.
    pub fn pop(&mut self) -> (r: u16)
        requires
            old(self).well_formed(),
            old(self).stack_pointer > 0,
        ensures
            final(self).well_formed(),
            r == old(self)@.stack[old(self)@.sp - 1],
            final(self)@ == (State { sp: (old(self)@.sp - 1) as u8, ..old(self)@ }),
    {
        self.stack_pointer = self.stack_pointer - 1;
        let sp = self.stack_pointer as usize;
        self.stack[sp]
    }

    /// Sets the program counter.
    fn pc(&mut self, pc: &u16)
        ensures
            final(self)@ == with_pc(old(self)@, *pc),
    {
        self.pc = *pc;
    }

    /// Advances the program counter by one byte.
    fn pc_inc(&mut self)
        requires
            old(self).pc < 0xFFFF,
        ensures
            final(self)@ == with_pc(old(self)@, (old(self).pc + 1) as u16),
    {
        self.pc = self.pc + 1;
    }

    // The instruction set.  Each operation is one proved state transition;
    // the conditional skips also need room for their extra program-counter
    // advance, hence their bound on `pc`.

    /// CLS: clear the display.
    pub fn opcode_cls(&mut self) -> (r: OpcodeExec)
        requires
            old(self).well_formed(),
        ensures
            final(self).well_formed(),
            final(self)@ == cls_effect(old(self)@),
            forall|p: int| 0 <= p < 64 * 32 ==> !final(self).display@[p],
            r == Ok::<(), ExecError>(()),
    {
        self.display = dark_pixels(SCREEN_WIDTH * SCREEN_HEIGHT);
        Ok(())
    }

    /// RET: return from a subroutine, restoring the program counter from
    /// the top of the stack.  Fails with `StackUnderflow` on an empty
    /// stack, leaving the machine untouched.
    pub fn opcode_ret(&mut self) -> (r: OpcodeExec)
        requires
            old(self).well_formed(),
        ensures
            final(self).well_formed(),
            old(self).stack_pointer == 0 ==> r == Err::<(), ExecError>(ExecError::StackUnderflow)
                && final(self)@ == old(self)@,
            old(self).stack_pointer > 0 ==> r == Ok::<(), ExecError>(()) && final(self)@
                == ret_effect(old(self)@),
    {
        if self.stack_pointer == 0 {
            return Err(ExecError::StackUnderflow);
        }
        let new_pc = self.pop();
        self.pc(&new_pc);
        Ok(())
    }

    /// SYS nnn: a legacy machine-code call; ignored, as modern interpreters
    /// do.
    pub fn opcode_sys(&self, _nnn: u16) -> (r: OpcodeExec)
        ensures
            r == Ok::<(), ExecError>(()),
    {
        Ok(())
    }

    /// JP nnn: jump to address `nnn`.
    pub fn opcode_jmp(&mut self, nnn: u16) -> (r: OpcodeExec)
        requires
            old(self).well_formed(),
        ensures
            final(self).well_formed(),
            final(self)@ == with_pc(old(self)@, nnn),
            r == Ok::<(), ExecError>(()),
    {
        self.pc(&nnn);
        Ok(())
    }

    /// CALL nnn: push the current program counter and jump to `nnn`.
    /// Fails with `StackOverflow` on a full stack, leaving the machine
    /// untouched.
    pub fn opcode_call(&mut self, nnn: u16) -> (r: OpcodeExec)
        requires
            old(self).well_formed(),
        ensures
            final(self).well_formed(),
            old(self).stack_pointer == 16 ==> r == Err::<(), ExecError>(ExecError::StackOverflow)
                && final(self)@ == old(self)@,
            old(self).stack_pointer < 16 ==> r == Ok::<(), ExecError>(()) && final(self)@
                == call_effect(old(self)@, nnn),
    {
        if self.stack_pointer >= 16 {
            return Err(ExecError::StackOverflow);
        }
        let here = self.pc;
        self.push(here);
        self.pc(&nnn);
        Ok(())
    }

    /// SE Vx, kk: skip the next instruction when `Vx == kk`.
    pub fn opcode_se(&mut self, x: usize, kk: u8) -> (r: OpcodeExec)
        requires
            old(self).well_formed(),
            x < 16,
            old(self).pc + 2 <= 0xFFFF,
        ensures
            final(self).well_formed(),
            final(self)@ == skip_if(old(self)@, old(self)@.v[x as int] == kk),
            r == Ok::<(), ExecError>(()),
    {
        if self.v_reg[x] == kk {
            self.pc_inc();
            self.pc_inc();
        }
        Ok(())
    }

    /// SNE Vx, kk: skip the next instruction when `Vx != kk`.
    pub fn opcode_sne(&mut self, x: usize, kk: u8) -> (r: OpcodeExec)
        requires
            old(self).well_formed(),
            x < 16,
            old(self).pc + 2 <= 0xFFFF,
        ensures
            final(self).well_formed(),
            final(self)@ == skip_if(old(self)@, old(self)@.v[x as int] != kk),
            r == Ok::<(), ExecError>(()),
    {
        if self.v_reg[x] != kk {
            self.pc_inc();
            self.pc_inc();
        }
        Ok(())
    }

    /// SE Vx, Vy: skip the next instruction when `Vx == Vy`.
    pub fn opcode_se_vy(&mut self, x: usize, y: usize) -> (r: OpcodeExec)
        requires
            old(self).well_formed(),
            x < 16,
            y < 16,
            old(self).pc + 2 <= 0xFFFF,
        ensures
            final(self).well_formed(),
            final(self)@ == skip_if(
                old(self)@,
                old(self)@.v[x as int] == old(self)@.v[y as int],
            ),
            r == Ok::<(), ExecError>(()),
    {
        if self.v_reg[x] == self.v_reg[y] {
            self.pc_inc();
            self.pc_inc();
        }
        Ok(())
    }

    /// SNE Vx, Vy: skip the next instruction when `Vx != Vy`.
    pub fn opcode_sne_vy(&mut self, x: usize, y: usize) -> (r: OpcodeExec)
        requires
            old(self).well_formed(),
            x < 16,
            y < 16,
            old(self).pc + 2 <= 0xFFFF,
        ensures
            final(self).well_formed(),
            final(self)@ == skip_if(
                old(self)@,
                old(self)@.v[x as int] != old(self)@.v[y as int],
            ),
            r == Ok::<(), ExecError>(()),
    {
        if self.v_reg[x] != self.v_reg[y] {
            self.pc_inc();
            self.pc_inc();
        }
        Ok(())
    }

    /// LD Vx, kk: load the immediate `kk` into `Vx`.  A plain load never
    /// touches the flag register unless `Vx` is the flag register itself.
    pub fn opcode_ld(&mut self, x: usize, kk: u8) -> (r: OpcodeExec)
        requires
            old(self).well_formed(),
            x < 16,
        ensures
            final(self).well_formed(),
            final(self)@ == with_v(old(self)@, x as int, kk),
            r == Ok::<(), ExecError>(()),
    {
        self.v_reg.set(x, kk);
        Ok(())
    }

    /// ADD Vx, kk: add the immediate to `Vx` modulo 256; the flag register
    /// is unaffected.
    pub fn opcode_add(&mut self, x: usize, kk: u8) -> (r: OpcodeExec)
        requires
            old(self).well_formed(),
            x < 16,
        ensures
            final(self).well_formed(),
            final(self)@ == with_v(
                old(self)@,
                x as int,
                add_wrapped(old(self)@.v[x as int], kk),
            ),
            r == Ok::<(), ExecError>(()),
    {
        let sum: u16 = self.v_reg[x] as u16 + kk as u16;
        self.v_reg.set(x, (sum % 256) as u8);
        Ok(())
    }

    /// LD Vx, Vy: copy `Vy` into `Vx`.
    pub fn opcode_ld_vy(&mut self, x: usize, y: usize) -> (r: OpcodeExec)
        requires
            old(self).well_formed(),
            x < 16,
            y < 16,
        ensures
            final(self).well_formed(),
            final(self)@ == with_v(old(self)@, x as int, old(self)@.v[y as int]),
            r == Ok::<(), ExecError>(()),
    {
        let vy = self.v_reg[y];
        self.v_reg.set(x, vy);
        Ok(())
    }

    /// OR Vx, Vy: bitwise or, stored in `Vx`; the flag register is
    /// unaffected.
    pub fn opcode_or(&mut self, x: usize, y: usize) -> (r: OpcodeExec)
        requires
            old(self).well_formed(),
            x < 16,
            y < 16,
        ensures
            final(self).well_formed(),
            final(self)@ == with_v(
                old(self)@,
                x as int,
                old(self)@.v[x as int] | old(self)@.v[y as int],
            ),
            r == Ok::<(), ExecError>(()),
    {
        let vx = self.v_reg[x];
        let vy = self.v_reg[y];
        self.v_reg.set(x, vx | vy);
        Ok(())
    }

    /// AND Vx, Vy: bitwise and, stored in `Vx`; the flag register is
    /// unaffected.
    pub fn opcode_and(&mut self, x: usize, y: usize) -> (r: OpcodeExec)
        requires
            old(self).well_formed(),
            x < 16,
            y < 16,
        ensures
            final(self).well_formed(),
            final(self)@ == with_v(
                old(self)@,
                x as int,
                old(self)@.v[x as int] & old(self)@.v[y as int],
            ),
            r == Ok::<(), ExecError>(()),
    {
        let vx = self.v_reg[x];
        let vy = self.v_reg[y];
        self.v_reg.set(x, vx & vy);
        Ok(())
    }

    /// XOR Vx, Vy: bitwise exclusive or, stored in `Vx`; the flag register
    /// is unaffected.
    pub fn opcode_xor(&mut self, x: usize, y: usize) -> (r: OpcodeExec)
        requires
            old(self).well_formed(),
            x < 16,
            y < 16,
        ensures
            final(self).well_formed(),
            final(self)@ == with_v(
                old(self)@,
                x as int,
                old(self)@.v[x as int] ^ old(self)@.v[y as int],
            ),
            r == Ok::<(), ExecError>(()),
    {
        let vx = self.v_reg[x];
        let vy = self.v_reg[y];
        self.v_reg.set(x, vx ^ vy);
        Ok(())
    }

    /// ADD Vx, Vy: add `Vy` into `Vx` modulo 256; VF becomes 1 exactly when
    /// the true sum exceeds 255.
    pub fn opcode_add_vy(&mut self, x: usize, y: usize) -> (r: OpcodeExec)
        requires
            old(self).well_formed(),
            x < 16,
            y < 16,
        ensures
            final(self).well_formed(),
            final(self)@ == with_alu(
                old(self)@,
                x as int,
                add_wrapped(old(self)@.v[x as int], old(self)@.v[y as int]),
                add_carry(old(self)@.v[x as int], old(self)@.v[y as int]),
            ),
            final(self).v_reg@[15] == 1 <==> old(self)@.v[x as int] + old(self)@.v[y as int]
                > 255,
            x != 15 ==> final(self).v_reg@[x as int] == add_wrapped(
                old(self)@.v[x as int],
                old(self)@.v[y as int],
            ),
            r == Ok::<(), ExecError>(()),
    {
        let vx = self.v_reg[x];
        let vy = self.v_reg[y];
        let sum: u16 = vx as u16 + vy as u16;
        let carry: u8 = if sum > 255 {
            1
        } else {
            0
        };
        self.v_reg.set(x, (sum % 256) as u8);
        self.v_reg.set(15, carry);
        Ok(())
    }

    /// SUB Vx, Vy: subtract `Vy` from `Vx` modulo 256; VF becomes 1 exactly
    /// when `Vx >= Vy` (no borrow).
    pub fn opcode_sub(&mut self, x: usize, y: usize) -> (r: OpcodeExec)
        requires
            old(self).well_formed(),
            x < 16,
            y < 16,
        ensures
            final(self).well_formed(),
            final(self)@ == with_alu(
                old(self)@,
                x as int,
                sub_wrapped(old(self)@.v[x as int], old(self)@.v[y as int]),
                sub_no_borrow(old(self)@.v[x as int], old(self)@.v[y as int]),
            ),
            final(self).v_reg@[15] == 1 <==> old(self)@.v[x as int] >= old(self)@.v[y as int],
            x != 15 ==> final(self).v_reg@[x as int] == sub_wrapped(
                old(self)@.v[x as int],
                old(self)@.v[y as int],
            ),
            r == Ok::<(), ExecError>(()),
    {
        let vx = self.v_reg[x];
        let vy = self.v_reg[y];
        let no_borrow: u8 = if vx >= vy {
            1
        } else {
            0
        };
        let res: u8 = if vx >= vy {
            vx - vy
        } else {
            ((256 + vx as u16) - vy as u16) as u8
        };
        self.v_reg.set(x, res);
        self.v_reg.set(15, no_borrow);
        Ok(())
    }

    /// SHR Vx: shift `Vx` right by one; VF becomes the bit shifted out.
    pub fn opcode_shr(&mut self, x: usize) -> (r: OpcodeExec)
        requires
            old(self).well_formed(),
            x < 16,
        ensures
            final(self).well_formed(),
            final(self)@ == with_alu(
                old(self)@,
                x as int,
                old(self)@.v[x as int] >> 1u8,
                old(self)@.v[x as int] & 1,
            ),
            final(self).v_reg@[15] == old(self)@.v[x as int] & 1,
            x != 15 ==> final(self).v_reg@[x as int] == old(self)@.v[x as int] >> 1u8,
            r == Ok::<(), ExecError>(()),
    {
        let vx = self.v_reg[x];
        self.v_reg.set(x, vx >> 1u8);
        self.v_reg.set(15, vx & 1);
        Ok(())
    }

    /// SUBN Vx, Vy: store `Vy - Vx` modulo 256 in `Vx`; VF becomes 1
    /// exactly when `Vy >= Vx` (no borrow).
    pub fn opcode_subn(&mut self, x: usize, y: usize) -> (r: OpcodeExec)
        requires
            old(self).well_formed(),
            x < 16,
            y < 16,
        ensures
            final(self).well_formed(),
            final(self)@ == with_alu(
                old(self)@,
                x as int,
                sub_wrapped(old(self)@.v[y as int], old(self)@.v[x as int]),
                sub_no_borrow(old(self)@.v[y as int], old(self)@.v[x as int]),
            ),
            r == Ok::<(), ExecError>(()),
    {
        let vx = self.v_reg[x];
        let vy = self.v_reg[y];
        let no_borrow: u8 = if vy >= vx {
            1
        } else {
            0
        };
        let res: u8 = if vy >= vx {
            vy - vx
        } else {
            ((256 + vy as u16) - vx as u16) as u8
        };
        self.v_reg.set(x, res);
        self.v_reg.set(15, no_borrow);
        Ok(())
    }

    /// SHL Vx: shift `Vx` left by one modulo 256; VF becomes the bit
    /// shifted out.
    pub fn opcode_shl(&mut self, x: usize) -> (r: OpcodeExec)
        requires
            old(self).well_formed(),
            x < 16,
        ensures
            final(self).well_formed(),
            final(self)@ == with_alu(
                old(self)@,
                x as int,
                shl_wrapped(old(self)@.v[x as int]),
                (old(self)@.v[x as int] >> 7u8) & 1,
            ),
            r == Ok::<(), ExecError>(()),
    {
        let vx = self.v_reg[x];
        let res: u8 = ((vx as u16 * 2) % 256) as u8;
        self.v_reg.set(x, res);
        self.v_reg.set(15, (vx >> 7u8) & 1);
        Ok(())
    }

    /// LD I, nnn: load the 12-bit address `nnn` into the index register.
    pub fn opcode_ld_i(&mut self, nnn: u16) -> (r: OpcodeExec)
        requires
            old(self).well_formed(),
            nnn <= 0xFFF,
        ensures
            final(self).well_formed(),
            final(self)@ == (State { i: nnn, ..old(self)@ }),
            r == Ok::<(), ExecError>(()),
    {
        self.i = nnn;
        Ok(())
    }

    /// JP V0, nnn: jump to `nnn` plus the contents of register 0.
    pub fn opcode_jp_v0(&mut self, nnn: u16) -> (r: OpcodeExec)
        requires
            old(self).well_formed(),
            nnn <= 0xFFF,
        ensures
            final(self).well_formed(),
            final(self)@ == with_pc(old(self)@, (nnn + old(self)@.v[0]) as u16),
            r == Ok::<(), ExecError>(()),
    {
        let target = nnn + self.v_reg[0] as u16;
        self.pc(&target);
        Ok(())
    }

    /// RND Vx, kk: store a random byte masked with `kk` in `Vx`.  The
    /// random byte is supplied by the host so that the transition itself is
    /// deterministic and fully specified.
    pub fn opcode_rnd(&mut self, x: usize, kk: u8, rnd: u8) -> (r: OpcodeExec)
        requires
            old(self).well_formed(),
            x < 16,
        ensures
            final(self).well_formed(),
            final(self)@ == with_v(old(self)@, x as int, rnd & kk),
            r == Ok::<(), ExecError>(()),
    {
        self.v_reg.set(x, rnd & kk);
        Ok(())
    }

    /// SKP Vx: skip the next instruction when the key named by `Vx` is held
    /// in the host-supplied key mask.
    pub fn opcode_skp(&mut self, x: usize, keys: u16) -> (r: OpcodeExec)
        requires
            old(self).well_formed(),
            x < 16,
            old(self).pc + 2 <= 0xFFFF,
        ensures
            final(self).well_formed(),
            final(self)@ == skip_if(old(self)@, key_pressed(keys, old(self)@.v[x as int])),
            r == Ok::<(), ExecError>(()),
    {
        let k = self.v_reg[x] & 0xF;
        proof {
            lemma_low_nibble(self.v_reg@[x as int]);
        }
        if (keys >> (k as u16)) & 1 == 1 {
            self.pc_inc();
            self.pc_inc();
        }
        Ok(())
    }

    /// SKNP Vx: skip the next instruction when the key named by `Vx` is not
    /// held in the host-supplied key mask.
    pub fn opcode_sknp(&mut self, x: usize, keys: u16) -> (r: OpcodeExec)
        requires
            old(self).well_formed(),
            x < 16,
            old(self).pc + 2 <= 0xFFFF,
        ensures
            final(self).well_formed(),
            final(self)@ == skip_if(old(self)@, !key_pressed(keys, old(self)@.v[x as int])),
            r == Ok::<(), ExecError>(()),
    {
        let k = self.v_reg[x] & 0xF;
        proof {
            lemma_low_nibble(self.v_reg@[x as int]);
        }
        if (keys >> (k as u16)) & 1 != 1 {
            self.pc_inc();
            self.pc_inc();
        }
        Ok(())
    }

    /// LD Vx, DT: read the delay timer into `Vx`.
    pub fn opcode_ld_vx_dt(&mut self, x: usize) -> (r: OpcodeExec)
        requires
            old(self).well_formed(),
            x < 16,
        ensures
            final(self).well_formed(),
            final(self)@ == with_v(old(self)@, x as int, old(self)@.dt),
            r == Ok::<(), ExecError>(()),
    {
        let dt = self.delay_timer;
        self.v_reg.set(x, dt);
        Ok(())
    }

    /// LD Vx, K: wait for a key.  With no key held the program counter is
    /// moved back one instruction, so the wait resumes on the next cycle;
    /// with keys held, the lowest held key index lands in `Vx`.
    pub fn opcode_ld_vx_k(&mut self, x: usize, keys: u16) -> (r: OpcodeExec)
        requires
            old(self).well_formed(),
            x < 16,
            old(self).pc >= 2,
        ensures
            final(self).well_formed(),
            no_key_pressed(keys) ==> final(self)@ == with_pc(
                old(self)@,
                (old(self).pc - 2) as u16,
            ),
            !no_key_pressed(keys) ==> final(self)@ == with_v(
                old(self)@,
                x as int,
                lowest_key_from(keys, 0),
            ),
            r == Ok::<(), ExecError>(()),
    {
        let mut k: u8 = 0;
        while k < 16
            invariant
                old(self).well_formed(),
                x < 16,
                k <= 16,
                forall|m: u8| m < k ==> !key_pressed(keys, m),
                *self == *old(self),
            decreases 16 - k,
        {
            proof {
                lemma_low_nibble(k);
            }
            if (keys >> ((k & 0xF) as u16)) & 1 == 1 {
                proof {
                    assert(key_pressed(keys, k));
                    lemma_lowest_key_scan(keys, 0, k);
                }
                self.v_reg.set(x, k);
                return Ok(());
            }
            k = k + 1;
        }
        let back = self.pc - 2;
        self.pc(&back);
        Ok(())
    }

    /// LD DT, Vx: load the delay timer from `Vx`.
    pub fn opcode_ld_dt_vx(&mut self, x: usize) -> (r: OpcodeExec)
        requires
            old(self).well_formed(),
            x < 16,
        ensures
            final(self).well_formed(),
            final(self)@ == (State { dt: old(self)@.v[x as int], ..old(self)@ }),
            r == Ok::<(), ExecError>(()),
    {
        self.delay_timer = self.v_reg[x];
        Ok(())
    }

    /// LD ST, Vx: load the sound timer from `Vx`.
    pub fn opcode_ld_st_vx(&mut self, x: usize) -> (r: OpcodeExec)
        requires
            old(self).well_formed(),
            x < 16,
        ensures
            final(self).well_formed(),
            final(self)@ == (State { st: old(self)@.v[x as int], ..old(self)@ }),
            r == Ok::<(), ExecError>(()),
    {
        self.sound_timer = self.v_reg[x];
        Ok(())
    }

    /// ADD I, Vx: add `Vx` into the index register.  Fails with
    /// `OutOfBoundsAddress` when the sum leaves addressable memory, leaving
    /// the machine untouched.
    pub fn opcode_add_i(&mut self, x: usize) -> (r: OpcodeExec)
        requires
            old(self).well_formed(),
            x < 16,
        ensures
            final(self).well_formed(),
            old(self)@.i + old(self)@.v[x as int] > 0xFFF ==> r == Err::<(), ExecError>(
                ExecError::OutOfBoundsAddress,
            ) && final(self)@ == old(self)@,
            old(self)@.i + old(self)@.v[x as int] <= 0xFFF ==> r == Ok::<(), ExecError>(())
                && final(self)@ == (State {
                i: (old(self)@.i + old(self)@.v[x as int]) as u16,
                ..old(self)@
            }),
    {
        let sum = self.i + self.v_reg[x] as u16;
        if sum > 0xFFF {
            return Err(ExecError::OutOfBoundsAddress);
        }
        self.i = sum;
        Ok(())
    }

    /// LD F, Vx: point the index register at the 5-byte font sprite of the
    /// hexadecimal digit held in the low nibble of `Vx`.
    pub fn opcode_ld_f(&mut self, x: usize) -> (r: OpcodeExec)
        requires
            old(self).well_formed(),
            x < 16,
        ensures
            final(self).well_formed(),
            final(self)@ == (State {
                i: (5 * (old(self)@.v[x as int] & 0xF)) as u16,
                ..old(self)@
            }),
            r == Ok::<(), ExecError>(()),
    {
        let digit = self.v_reg[x] & 0xF;
        proof {
            lemma_low_nibble(self.v_reg@[x as int]);
        }
        self.i = 5 * (digit as u16);
        Ok(())
    }

    /// DRW Vx, Vy, n: XOR-blit an 8-pixel-wide, `n`-row sprite read from
    /// memory at the index register onto the display at `(Vx, Vy)`, with
    /// wraparound at both screen edges.  VF becomes 1 exactly when the
    /// blit unset a previously lit pixel.  Fails with `OutOfBoundsAddress`
    /// when the sprite bytes reach past the end of memory, leaving the
    /// machine untouched.
    pub fn opcode_drw(&mut self, x: usize, y: usize, n: u8) -> (r: OpcodeExec)
        requires
            old(self).well_formed(),
            x < 16,
            y < 16,
            n < 16,
        ensures
            final(self).well_formed(),
            old(self)@.i + n > 4096 ==> r == Err::<(), ExecError>(
                ExecError::OutOfBoundsAddress,
            ) && final(self)@ == old(self)@,
            old(self)@.i + n <= 4096 ==> r == Ok::<(), ExecError>(()) && final(self)@
                == drw_effect(old(self)@, x as int, y as int, n as int),
    {
        let i0 = self.i as usize;
        let nn = n as usize;
        if i0 + nn > MEM_SIZE {
            return Err(ExecError::OutOfBoundsAddress);
        }
        let x0 = self.v_reg[x];
        let y0 = self.v_reg[y];
        let ghost s0: State = self@;
        let mut collided = false;
        let mut row: usize = 0;
        while row < nn
            invariant
                s0 == old(self)@,
                s0.wf(),
                x < 16,
                y < 16,
                nn < 16,
                s0.i + nn <= 4096,
                i0 == s0.i,
                x0 == s0.v[x as int],
                y0 == s0.v[y as int],
                row <= nn,
                self.display@.len() == 64 * 32,
                self@ == (State { disp: self.display@, ..s0 }),
                forall|p: int|
                    0 <= p < 64 * 32 ==> self.display@[p] == (s0.disp[p] != hits_before(
                        s0,
                        x as int,
                        y as int,
                        nn as int,
                        row as int,
                        0,
                        p,
                    )),
                collided == collision_before(s0, x as int, y as int, nn as int, row as int, 0),
            decreases nn - row,
        {
            let byte = self.memory[i0 + row];
            let mut col: usize = 0;
            while col < 8
                invariant
                    s0 == old(self)@,
                    s0.wf(),
                    x < 16,
                    y < 16,
                    nn < 16,
                    s0.i + nn <= 4096,
                    i0 == s0.i,
                    x0 == s0.v[x as int],
                    y0 == s0.v[y as int],
                    row < nn,
                    col <= 8,
                    byte == s0.mem[i0 + row],
                    self.display@.len() == 64 * 32,
                    self@ == (State { disp: self.display@, ..s0 }),
                    forall|p: int|
                        0 <= p < 64 * 32 ==> self.display@[p] == (s0.disp[p] != hits_before(
                            s0,
                            x as int,
                            y as int,
                            nn as int,
                            row as int,
                            col as int,
                            p,
                        )),
                    collided == collision_before(
                        s0,
                        x as int,
                        y as int,
                        nn as int,
                        row as int,
                        col as int,
                    ),
                decreases 8 - col,
            {
                let ghost xi = x as int;
                let ghost yi = y as int;
                let ghost ni = nn as int;
                let ghost ri = row as int;
                let ghost ci = col as int;
                let shift: u8 = (7 - col) as u8;
                let bit = (byte >> shift) & 1 == 1;
                proof {
                    assert(bit == sprite_bit(s0.mem, s0.i as int, ri, ci));
                }
                if bit {
                    let px = (x0 as usize + col) % 64;
                    let py = (y0 as usize + row) % 32;
                    let idx = py * 64 + px;
                    let ghost t = drw_target(s0, xi, yi, ri, ci);
                    proof {
                        assert(idx == t);
                        assert(!hits_before(s0, xi, yi, ni, ri, ci, t)) by {
                            if hits_before(s0, xi, yi, ni, ri, ci, t) {
                                let (row2, col2) = choose|row2: int, col2: int|
                                    0 <= row2 < ni && 0 <= col2 < 8 && (row2 < ri || (row2 == ri
                                        && col2 < ci)) && #[trigger] sprite_bit(
                                        s0.mem,
                                        s0.i as int,
                                        row2,
                                        col2,
                                    ) && t == drw_target(s0, xi, yi, row2, col2);
                                lemma_target_unique(s0, xi, yi, row2, col2, ri, ci);
                            }
                        }
                    }
                    let cur = self.display[idx];
                    if cur {
                        collided = true;
                    }
                    self.display.set(idx, !cur);
                    proof {
                        assert(cur == s0.disp[t]);
                        assert(hits_before(s0, xi, yi, ni, ri, ci + 1, t)) by {
                            assert(sprite_bit(s0.mem, s0.i as int, ri, ci) && t == drw_target(
                                s0,
                                xi,
                                yi,
                                ri,
                                ci,
                            ));
                        }
                        assert forall|p: int| 0 <= p < 64 * 32 implies self.display@[p] == (
                        s0.disp[p] != hits_before(s0, xi, yi, ni, ri, ci + 1, p)) by {
                            if p != t {
                                assert(hits_before(s0, xi, yi, ni, ri, ci + 1, p)
                                    == hits_before(s0, xi, yi, ni, ri, ci, p)) by {
                                    if hits_before(s0, xi, yi, ni, ri, ci + 1, p) {
                                        let (row2, col2) = choose|row2: int, col2: int|
                                            0 <= row2 < ni && 0 <= col2 < 8 && (row2 < ri || (
                                            row2 == ri && col2 < ci + 1)) && #[trigger] sprite_bit(
                                                s0.mem,
                                                s0.i as int,
                                                row2,
                                                col2,
                                            ) && p == drw_target(s0, xi, yi, row2, col2);
                                        assert(!(row2 == ri && col2 == ci));
                                        assert(hits_before(s0, xi, yi, ni, ri, ci, p));
                                    }
                                    if hits_before(s0, xi, yi, ni, ri, ci, p) {
                                        let (row2, col2) = choose|row2: int, col2: int|
                                            0 <= row2 < ni && 0 <= col2 < 8 && (row2 < ri || (
                                            row2 == ri && col2 < ci)) && #[trigger] sprite_bit(
                                                s0.mem,
                                                s0.i as int,
                                                row2,
                                                col2,
                                            ) && p == drw_target(s0, xi, yi, row2, col2);
                                        assert(hits_before(s0, xi, yi, ni, ri, ci + 1, p));
                                    }
                                }
                            }
                        }
                        assert(collided == collision_before(s0, xi, yi, ni, ri, ci + 1)) by {
                            if collided {
                                if s0.disp[t] {
                                    assert(collision_before(s0, xi, yi, ni, ri, ci + 1));
                                } else {
                                    let p = choose|p: int|
                                        0 <= p < 64 * 32 && s0.disp[p] && #[trigger] hits_before(
                                            s0,
                                            xi,
                                            yi,
                                            ni,
                                            ri,
                                            ci,
                                            p,
                                        );
                                    assert(hits_before(s0, xi, yi, ni, ri, ci + 1, p)) by {
                                        let (row2, col2) = choose|row2: int, col2: int|
                                            0 <= row2 < ni && 0 <= col2 < 8 && (row2 < ri || (
                                            row2 == ri && col2 < ci)) && #[trigger] sprite_bit(
                                                s0.mem,
                                                s0.i as int,
                                                row2,
                                                col2,
                                            ) && p == drw_target(s0, xi, yi, row2, col2);
                                    }
                                    assert(collision_before(s0, xi, yi, ni, ri, ci + 1));
                                }
                            }
                            if collision_before(s0, xi, yi, ni, ri, ci + 1) {
                                let p = choose|p: int|
                                    0 <= p < 64 * 32 && s0.disp[p] && #[trigger] hits_before(
                                        s0,
                                        xi,
                                        yi,
                                        ni,
                                        ri,
                                        ci + 1,
                                        p,
                                    );
                                let (row2, col2) = choose|row2: int, col2: int|
                                    0 <= row2 < ni && 0 <= col2 < 8 && (row2 < ri || (row2 == ri
                                        && col2 < ci + 1)) && #[trigger] sprite_bit(
                                        s0.mem,
                                        s0.i as int,
                                        row2,
                                        col2,
                                    ) && p == drw_target(s0, xi, yi, row2, col2);
                                if row2 == ri && col2 == ci {
                                    assert(p == t);
                                    assert(collided);
                                } else {
                                    assert(hits_before(s0, xi, yi, ni, ri, ci, p));
                                    assert(collision_before(s0, xi, yi, ni, ri, ci));
                                    assert(collided);
                                }
                            }
                        }
                    }
                } else {
                    proof {
                        assert forall|p: int| 0 <= p < 64 * 32 implies self.display@[p] == (
                        s0.disp[p] != hits_before(s0, xi, yi, ni, ri, ci + 1, p)) by {
                            assert(hits_before(s0, xi, yi, ni, ri, ci + 1, p) == hits_before(
                                s0,
                                xi,
                                yi,
                                ni,
                                ri,
                                ci,
                                p,
                            )) by {
                                if hits_before(s0, xi, yi, ni, ri, ci + 1, p) {
                                    let (row2, col2) = choose|row2: int, col2: int|
                                        0 <= row2 < ni && 0 <= col2 < 8 && (row2 < ri || (row2
                                            == ri && col2 < ci + 1)) && #[trigger] sprite_bit(
                                            s0.mem,
                                            s0.i as int,
                                            row2,
                                            col2,
                                        ) && p == drw_target(s0, xi, yi, row2, col2);
                                    assert(!(row2 == ri && col2 == ci));
                                    assert(hits_before(s0, xi, yi, ni, ri, ci, p));
                                }
                                if hits_before(s0, xi, yi, ni, ri, ci, p) {
                                    let (row2, col2) = choose|row2: int, col2: int|
                                        0 <= row2 < ni && 0 <= col2 < 8 && (row2 < ri || (row2
                                            == ri && col2 < ci)) && #[trigger] sprite_bit(
                                            s0.mem,
                                            s0.i as int,
                                            row2,
                                            col2,
                                        ) && p == drw_target(s0, xi, yi, row2, col2);
                                    assert(hits_before(s0, xi, yi, ni, ri, ci + 1, p));
                                }
                            }
                        }
                        assert(collided == collision_before(s0, xi, yi, ni, ri, ci + 1)) by {
                            if collided {
                                let p = choose|p: int|
                                    0 <= p < 64 * 32 && s0.disp[p] && #[trigger] hits_before(
                                        s0,
                                        xi,
                                        yi,
                                        ni,
                                        ri,
                                        ci,
                                        p,
                                    );
                                assert(hits_before(s0, xi, yi, ni, ri, ci + 1, p));
                                assert(collision_before(s0, xi, yi, ni, ri, ci + 1));
                            }
                            if collision_before(s0, xi, yi, ni, ri, ci + 1) {
                                let p = choose|p: int|
                                    0 <= p < 64 * 32 && s0.disp[p] && #[trigger] hits_before(
                                        s0,
                                        xi,
                                        yi,
                                        ni,
                                        ri,
                                        ci + 1,
                                        p,
                                    );
                                assert(hits_before(s0, xi, yi, ni, ri, ci, p));
                                assert(collision_before(s0, xi, yi, ni, ri, ci));
                            }
                        }
                    }
                }
                col = col + 1;
            }
            proof {
                lemma_hits_row_step(s0, x as int, y as int, nn as int, row as int);
            }
            row = row + 1;
        }
        proof {
            lemma_hits_done(s0, x as int, y as int, nn as int);
            assert(self.display@ =~= drw_disp(s0, x as int, y as int, nn as int));
        }
        let flag: u8 = if collided {
            1
        } else {
            0
        };
        self.v_reg.set(15, flag);
        Ok(())
    }

    /// LD B, Vx: write the three decimal digits of `Vx` to memory at the
    /// index register, hundreds first.  Fails with `OutOfBoundsAddress`
    /// when the three bytes do not fit below the end of memory, leaving the
    /// machine untouched.
    pub fn opcode_ld_b(&mut self, x: usize) -> (r: OpcodeExec)
        requires
            old(self).well_formed(),
            x < 16,
        ensures
            final(self).well_formed(),
            old(self)@.i + 2 >= 4096 ==> r == Err::<(), ExecError>(
                ExecError::OutOfBoundsAddress,
            ) && final(self)@ == old(self)@,
            old(self)@.i + 2 < 4096 ==> r == Ok::<(), ExecError>(()) && final(self)@
                == bcd_effect(old(self)@, old(self)@.v[x as int]),
    {
        let i = self.i as usize;
        if i + 2 >= MEM_SIZE {
            return Err(ExecError::OutOfBoundsAddress);
        }
        let vx = self.v_reg[x];
        self.memory.set(i, vx / 100);
        self.memory.set(i + 1, (vx / 10) % 10);
        self.memory.set(i + 2, vx % 10);
        Ok(())
    }

    /// LD [I], Vx: copy registers `0..=x` to memory at the index register.
    /// Fails with `OutOfBoundsAddress` when the block does not fit below
    /// the end of memory, leaving the machine untouched.
    pub fn opcode_ld_i_vx(&mut self, x: usize) -> (r: OpcodeExec)
        requires
            old(self).well_formed(),
            x < 16,
        ensures
            final(self).well_formed(),
            old(self)@.i + x >= 4096 ==> r == Err::<(), ExecError>(
                ExecError::OutOfBoundsAddress,
            ) && final(self)@ == old(self)@,
            old(self)@.i + x < 4096 ==> r == Ok::<(), ExecError>(()) && final(self)@
                == store_regs_effect(old(self)@, x as int),
    {
        let i = self.i as usize;
        if i + x >= MEM_SIZE {
            return Err(ExecError::OutOfBoundsAddress);
        }
        let mut j: usize = 0;
        while j <= x
            invariant
                old(self).well_formed(),
                x < 16,
                j <= x + 1,
                i == old(self)@.i,
                i + x < 4096,
                self.memory@.len() == 4096,
                self@ == (State { mem: self.memory@, ..old(self)@ }),
                forall|a: int|
                    0 <= a < 4096 && !(i <= a < i + j) ==> self.memory@[a] == old(
                        self,
                    )@.mem[a],
                forall|m: int| 0 <= m < j ==> self.memory@[i + m] == old(self)@.v[m],
            decreases x + 1 - j,
        {
            let val = self.v_reg[j];
            self.memory.set(i + j, val);
            j = j + 1;
        }
        proof {
            assert(self.memory@ =~= store_regs_effect(old(self)@, x as int).mem);
        }
        Ok(())
    }

    /// LD Vx, [I]: load registers `0..=x` from memory at the index
    /// register.  Fails with `OutOfBoundsAddress` when the block does not
    /// fit below the end of memory, leaving the machine untouched.
    pub fn opcode_ld_vx_i(&mut self, x: usize) -> (r: OpcodeExec)
        requires
            old(self).well_formed(),
            x < 16,
        ensures
            final(self).well_formed(),
            old(self)@.i + x >= 4096 ==> r == Err::<(), ExecError>(
                ExecError::OutOfBoundsAddress,
            ) && final(self)@ == old(self)@,
            old(self)@.i + x < 4096 ==> r == Ok::<(), ExecError>(()) && final(self)@
                == load_regs_effect(old(self)@, x as int),
    {
        let i = self.i as usize;
        if i + x >= MEM_SIZE {
            return Err(ExecError::OutOfBoundsAddress);
        }
        let mut j: usize = 0;
        while j <= x
            invariant
                old(self).well_formed(),
                x < 16,
                j <= x + 1,
                i == old(self)@.i,
                i + x < 4096,
                self.v_reg@.len() == 16,
                self@ == (State { v: self.v_reg@, ..old(self)@ }),
                forall|m: int| 0 <= m < 16 && !(0 <= m < j) ==> self.v_reg@[m] == old(self)@.v[m],
                forall|m: int| 0 <= m < j ==> self.v_reg@[m] == old(self)@.mem[i + m],
            decreases x + 1 - j,
        {
            let val = self.memory[i + j];
            self.v_reg.set(j, val);
            j = j + 1;
        }
        proof {
            assert(self.v_reg@ =~= load_regs_effect(old(self)@, x as int).v);
        }
        Ok(())
    }

    /// Copies a program verbatim into memory at the program start address.
    /// Fails with `ProgramTooLarge` when it does not fit above the reserved
    /// area, leaving the machine untouched.
    pub fn load_program(&mut self, program: &[u8]) -> (r: Result<(), ExecError>)
        requires
            old(self).well_formed(),
        ensures
            final(self).well_formed(),
            program@.len() > 3584 ==> r == Err::<(), ExecError>(ExecError::ProgramTooLarge)
                && final(self)@ == old(self)@,
            program@.len() <= 3584 ==> r == Ok::<(), ExecError>(()) && final(self)@
                == load_program_effect(old(self)@, program@),
    {
        if program.len() > MEM_SIZE - 0x200 {
            return Err(ExecError::ProgramTooLarge);
        }
        let mut j: usize = 0;
        while j < program.len()
            invariant
                old(self).well_formed(),
                program@.len() <= 3584,
                j <= program@.len(),
                self.memory@.len() == 4096,
                self@ == (State { mem: self.memory@, ..old(self)@ }),
                forall|a: int|
                    0 <= a < 4096 && !(0x200 <= a < 0x200 + j) ==> self.memory@[a] == old(
                        self,
                    )@.mem[a],
                forall|m: int| 0 <= m < j ==> self.memory@[0x200 + m] == program@[m],
            decreases program@.len() - j,
        {
            let val = program[j];
            self.memory.set(0x200 + j, val);
            j = j + 1;
        }
        proof {
            assert(self.memory@ =~= load_program_effect(old(self)@, program@).mem);
        }
        Ok(())
    }

    /// One 60 Hz timer tick: both timers decrement, with a floor at zero.
    /// The host drives this on its own cadence, independently of
    /// instruction cycles.
    pub fn tick_timers(&mut self)
        requires
            old(self).well_formed(),
        ensures
            final(self).well_formed(),
            final(self)@ == timer_tick_effect(old(self)@),
    {
        if self.delay_timer > 0 {
            self.delay_timer = self.delay_timer - 1;
        }
        if self.sound_timer > 0 {
            self.sound_timer = self.sound_timer - 1;
        }
    }

    /// The sound signal for the audio collaborator: a beep is active
    /// exactly while the sound timer is above zero.
    pub fn sound_active(&self) -> (b: bool)
        ensures
            b == (self.sound_timer > 0),
    {
        self.sound_timer > 0
    }

    /// One machine cycle: fetch the big-endian opcode at the program
    /// counter, advance past it, decode, and execute.  The transition
    /// performed is exactly `spec_tick`; on any failure the machine is
    /// left exactly as it was.
    pub fn tick(&mut self, keys: u16, rnd: u8) -> (r: OpcodeExec)
        requires
            old(self).well_formed(),
        ensures
            final(self).well_formed(),
            (final(self)@, r) == spec_tick(old(self)@, keys, rnd),
            r is Err ==> final(self)@ == old(self)@,
    {
        if self.pc as usize + 1 >= MEM_SIZE {
            return Err(ExecError::OutOfBoundsAddress);
        }
        let pc0 = self.pc;
        let op = fetch_op(&self.memory, &(self.pc as usize));
        self.pc = self.pc + 2;
        let instr = match_opcode(op);
        let r = instr.execute_op(self, keys, rnd);
        if r.is_err() {
            self.pc(&pc0);
        }
        r
    }
}

/// One machine cycle as a mathematical function: the state after fetching,
/// decoding and executing the instruction at the program counter, paired
/// with the outcome.  The program counter is advanced past the fetched
/// opcode before the instruction runs, so a jump or call lands exactly on
/// its target, a skip adds one extra step, and a failing instruction
/// leaves the state untouched.
pub open spec fn spec_tick(s: State, keys: u16, rnd: u8) -> (State, OpcodeExec) {
    if s.pc + 1 >= 4096 {
        (s, Err(ExecError::OutOfBoundsAddress))
    } else {
        let stepped = with_pc(s, (s.pc + 2) as u16);
        let res = spec_execute(spec_decode(spec_fetch(s.mem, s.pc as int)), stepped, keys, rnd);
        if res.1 is Err {
            (s, res.1)
        } else {
            res
        }
    }
}

/// The address and family bits of a subroutine-call opcode.
proof fn lemma_call_opcode_fields(op: u16, nnn: u16)
    by (bit_vector)
    requires
        nnn < 0x1000,
        op == 0x2000 + nnn,
    ensures
        (op >> 12) & 0xF == 2,
        op & 0xFFF == nnn,
{
}

/// Calling a subroutine and returning from it resumes at the instruction
/// following the call, at any nesting depth the stack admits: from any
/// well-formed state with room on the stack, a CALL opcode fetched at the
/// program counter followed by a RET opcode fetched at the call target
/// lands back at the call site plus two, with the stack pointer, the
/// registers, the memory and the display as they were.
pub proof fn lemma_call_ret_round_trip(
    s: State,
    nnn: u16,
    keys1: u16,
    rnd1: u8,
    keys2: u16,
    rnd2: u8,
)
    requires
        s.wf(),
        s.sp < 16,
        s.pc + 1 < 4096,
        nnn < 0x1000,
        nnn + 1 < 4096,
        spec_fetch(s.mem, s.pc as int) == (0x2000 + nnn) as u16,
        spec_fetch(s.mem, nnn as int) == 0x00EE,
    ensures
        ({
            let (s1, r1) = spec_tick(s, keys1, rnd1);
            let (s2, r2) = spec_tick(s1, keys2, rnd2);
            r1 == Ok::<(), ExecError>(()) && s1.pc == nnn && s1.sp == s.sp + 1 && r2
                == Ok::<(), ExecError>(()) && s2.pc == s.pc + 2 && s2.sp == s.sp && s2.v == s.v
                && s2.mem == s.mem && s2.disp == s.disp
        }),
{
    let op1 = (0x2000 + nnn) as u16;
    lemma_call_opcode_fields(op1, nnn);
    assert(spec_decode(op1) == Opcode::CALL(nnn));
    assert(spec_decode(0x00EE) == Opcode::RET);
}

/// A subroutine call at nesting depth 16 fails with a stack overflow and
/// leaves the machine exactly as it was.
pub proof fn lemma_call_overflow(s: State, nnn: u16, keys: u16, rnd: u8)
    requires
        s.wf(),
        s.sp == 16,
        s.pc + 1 < 4096,
        nnn < 0x1000,
        spec_fetch(s.mem, s.pc as int) == (0x2000 + nnn) as u16,
    ensures
        spec_tick(s, keys, rnd) == (s, Err::<(), ExecError>(ExecError::StackOverflow)),
{
    let op1 = (0x2000 + nnn) as u16;
    lemma_call_opcode_fields(op1, nnn);
    assert(spec_decode(op1) == Opcode::CALL(nnn));
}

// The sprite-draw proof.  The loop walks the sprite pixels in row-major
// order; `hits_before` is the part of `drw_hits` already drawn, and
// `collision_before` the part of `drw_collision` already observed.

/// The sprite pixels strictly before `(r, c)` in drawing order that land
/// lit on display cell `p`.
spec fn hits_before(s: State, x: int, y: int, n: int, r: int, c: int, p: int) -> bool {
    exists|row: int, col: int|
        0 <= row < n && 0 <= col < 8 && (row < r || (row == r && col < c))
            && #[trigger] sprite_bit(s.mem, s.i as int, row, col) && p == drw_target(
            s,
            x,
            y,
            row,
            col,
        )
}

/// Whether a lit display cell was hit by a sprite pixel strictly before
/// `(r, c)` in drawing order.
spec fn collision_before(s: State, x: int, y: int, n: int, r: int, c: int) -> bool {
    exists|p: int|
        0 <= p < 64 * 32 && s.disp[p] && #[trigger] hits_before(s, x, y, n, r, c, p)
}

/// Two integers within a window of width `m` that leave the same remainder
/// are equal.
proof fn lemma_mod_window(a: int, b: int, m: int)
    requires
        m > 0,
        0 <= b - a < m,
        a % m == b % m,
    ensures
        a == b,
{
    vstd::arithmetic::div_mod::lemma_fundamental_div_mod(a, m);
    vstd::arithmetic::div_mod::lemma_fundamental_div_mod(b, m);
    let ka = a / m;
    let kb = b / m;
    assert(b - a == m * (kb - ka)) by (nonlinear_arith)
        requires
            a == m * ka + a % m,
            b == m * kb + b % m,
            a % m == b % m,
    ;
    assert(kb - ka == 0) by (nonlinear_arith)
        requires
            m > 0,
            0 <= m * (kb - ka) < m,
    ;
}

/// Distinct sprite pixels land on distinct display cells: the eight
/// columns are consecutive modulo 64 and the at most sixteen rows
/// consecutive modulo 32, so neither wrap can fold two pixels together.
proof fn lemma_target_unique(
    s: State,
    x: int,
    y: int,
    r1: int,
    c1: int,
    r2: int,
    c2: int,
)
    requires
        0 <= x < 16,
        0 <= y < 16,
        s.v.len() == 16,
        0 <= r1 < 32,
        0 <= c1 < 8,
        0 <= r2 < 32,
        0 <= c2 < 8,
        drw_target(s, x, y, r1, c1) == drw_target(s, x, y, r2, c2),
    ensures
        r1 == r2,
        c1 == c2,
{
    let vy = s.v[y] as int;
    let vx = s.v[x] as int;
    let py1 = (vy + r1) % 32;
    let px1 = (vx + c1) % 64;
    let py2 = (vy + r2) % 32;
    let px2 = (vx + c2) % 64;
    vstd::arithmetic::div_mod::lemma_mod_bound(vy + r1, 32);
    vstd::arithmetic::div_mod::lemma_mod_bound(vy + r2, 32);
    vstd::arithmetic::div_mod::lemma_mod_bound(vx + c1, 64);
    vstd::arithmetic::div_mod::lemma_mod_bound(vx + c2, 64);
    assert(py1 == py2 && px1 == px2) by (nonlinear_arith)
        requires
            py1 * 64 + px1 == py2 * 64 + px2,
            0 <= px1 < 64,
            0 <= px2 < 64,
            0 <= py1 < 32,
            0 <= py2 < 32,
    ;
    if r1 <= r2 {
        lemma_mod_window(vy + r1, vy + r2, 32);
    } else {
        lemma_mod_window(vy + r2, vy + r1, 32);
    }
    if c1 <= c2 {
        lemma_mod_window(vx + c1, vx + c2, 64);
    } else {
        lemma_mod_window(vx + c2, vx + c1, 64);
    }
}

/// After the whole sprite has been walked, the partial notions coincide
/// with the full ones.
proof fn lemma_hits_done(s: State, x: int, y: int, n: int)
    requires
        0 <= n < 16,
    ensures
        forall|p: int| #[trigger]
            hits_before(s, x, y, n, n, 0, p) == drw_hits(s, x, y, n, p),
        collision_before(s, x, y, n, n, 0) == drw_collision(s, x, y, n),
{
    assert forall|p: int| #[trigger]
        hits_before(s, x, y, n, n, 0, p) == drw_hits(s, x, y, n, p) by {
        if hits_before(s, x, y, n, n, 0, p) {
            let (row, col) = choose|row: int, col: int|
                0 <= row < n && 0 <= col < 8 && (row < n || (row == n && col < 0))
                    && #[trigger] sprite_bit(s.mem, s.i as int, row, col) && p == drw_target(
                    s,
                    x,
                    y,
                    row,
                    col,
                );
            assert(drw_hits(s, x, y, n, p));
        }
        if drw_hits(s, x, y, n, p) {
            let (row, col) = choose|row: int, col: int|
                0 <= row < n && 0 <= col < 8 && #[trigger] sprite_bit(
                    s.mem,
                    s.i as int,
                    row,
                    col,
                ) && p == drw_target(s, x, y, row, col);
            assert(hits_before(s, x, y, n, n, 0, p));
        }
    }
    assert(collision_before(s, x, y, n, n, 0) == drw_collision(s, x, y, n)) by {
        if collision_before(s, x, y, n, n, 0) {
            let p = choose|p: int|
                0 <= p < 64 * 32 && s.disp[p] && #[trigger] hits_before(s, x, y, n, n, 0, p);
            assert(drw_hits(s, x, y, n, p));
            assert(drw_collision(s, x, y, n));
        }
        if drw_collision(s, x, y, n) {
            let p = choose|p: int|
                0 <= p < 64 * 32 && s.disp[p] && #[trigger] drw_hits(s, x, y, n, p);
            assert(hits_before(s, x, y, n, n, 0, p));
            assert(collision_before(s, x, y, n, n, 0));
        }
    }
}

/// Crossing a row boundary does not change the set of pixels already
/// drawn.
proof fn lemma_hits_row_step(s: State, x: int, y: int, n: int, r: int)
    requires
        0 <= r < n,
    ensures
        forall|p: int| #[trigger]
            hits_before(s, x, y, n, r + 1, 0, p) == hits_before(s, x, y, n, r, 8, p),
        collision_before(s, x, y, n, r + 1, 0) == collision_before(s, x, y, n, r, 8),
{
    assert forall|p: int| #[trigger]
        hits_before(s, x, y, n, r + 1, 0, p) == hits_before(s, x, y, n, r, 8, p) by {
        if hits_before(s, x, y, n, r + 1, 0, p) {
            let (row, col) = choose|row: int, col: int|
                0 <= row < n && 0 <= col < 8 && (row < r + 1 || (row == r + 1 && col < 0))
                    && #[trigger] sprite_bit(s.mem, s.i as int, row, col) && p == drw_target(
                    s,
                    x,
                    y,
                    row,
                    col,
                );
            assert(hits_before(s, x, y, n, r, 8, p));
        }
        if hits_before(s, x, y, n, r, 8, p) {
            let (row, col) = choose|row: int, col: int|
                0 <= row < n && 0 <= col < 8 && (row < r || (row == r && col < 8))
                    && #[trigger] sprite_bit(s.mem, s.i as int, row, col) && p == drw_target(
                    s,
                    x,
                    y,
                    row,
                    col,
                );
            assert(hits_before(s, x, y, n, r + 1, 0, p));
        }
    }
    assert(collision_before(s, x, y, n, r + 1, 0) == collision_before(s, x, y, n, r, 8)) by {
        if collision_before(s, x, y, n, r + 1, 0) {
            let p = choose|p: int|
                0 <= p < 64 * 32 && s.disp[p] && #[trigger] hits_before(
                    s,
                    x,
                    y,
                    n,
                    r + 1,
                    0,
                    p,
                );
            assert(hits_before(s, x, y, n, r, 8, p));
            assert(collision_before(s, x, y, n, r, 8));
        }
        if collision_before(s, x, y, n, r, 8) {
            let p = choose|p: int|
                0 <= p < 64 * 32 && s.disp[p] && #[trigger] hits_before(s, x, y, n, r, 8, p);
            assert(hits_before(s, x, y, n, r + 1, 0, p));
            assert(collision_before(s, x, y, n, r + 1, 0));
        }
    }
}

/// The low nibble of a byte stays below 16, and masking is the identity on
/// values already below 16.
proof fn lemma_low_nibble(b: u8)
    by (bit_vector)
    ensures
        b & 0xF < 16,
        b < 16 ==> b & 0xF == b,
{
}

/// Scanning upward from `j`, the first held key found is the value of the
/// whole scan from `j`.
proof fn lemma_lowest_key_scan(keys: u16, j: u8, k: u8)
    requires
        j <= k < 16,
        key_pressed(keys, k),
        forall|m: u8| j <= m < k ==> !key_pressed(keys, m),
    ensures
        lowest_key_from(keys, j) == k,
    decreases k - j,
{
    if j < k {
        lemma_lowest_key_scan(keys, (j + 1) as u8, k);
    }
}

} // verus!
