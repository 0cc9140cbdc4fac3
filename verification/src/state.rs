//! The abstract machine state and the transition functions of the
//! instruction set.
//!
//! `State` is the mathematical view of a CHIP-8 machine: every executable
//! operation on the concrete machine is specified as a function from `State`
//! to `State` defined here.

use vstd::prelude::*;

verus! {

/// Abstract view of the whole machine: sixteen 8-bit registers, the index
/// register, the program counter, 4096 bytes of memory, the 16-entry return
/// stack with its pointer, the 64x32 monochrome display, and the two 8-bit
/// timers.
pub struct State {
    pub v: Seq<u8>,
    pub i: u16,
    pub pc: u16,
    pub mem: Seq<u8>,
    pub stack: Seq<u16>,
    pub sp: u8,
    pub disp: Seq<bool>,
    pub dt: u8,
    pub st: u8,
}

impl State {
    /// Structural well-formedness: the fixed sizes of the machine, the stack
    /// pointer within its range, and the index register inside addressable
    /// memory.
    pub open spec fn wf(self) -> bool {
        &&& self.v.len() == 16
        &&& self.mem.len() == 4096
        &&& self.stack.len() == 16
        &&& self.disp.len() == 64 * 32
        &&& self.sp <= 16
        &&& self.i <= 0xFFF
    }
}

/// The machine as it stands after a reset: everything zeroed, the screen
/// dark, and the program counter at the program start address.
pub open spec fn initial_state() -> State {
    State {
        v: Seq::new(16, |j: int| 0u8),
        i: 0u16,
        pc: 0x200u16,
        mem: Seq::new(4096, |a: int| 0u8),
        stack: Seq::new(16, |j: int| 0u16),
        sp: 0u8,
        disp: Seq::new(64 * 32, |p: int| false),
        dt: 0u8,
        st: 0u8,
    }
}

// Small state transformers shared by the instruction semantics.

/// Register `x` set to `val`, everything else untouched.
pub open spec fn with_v(s: State, x: int, val: u8) -> State {
    State { v: s.v.update(x, val), ..s }
}

/// The program counter set to `pc`, everything else untouched.
pub open spec fn with_pc(s: State, pc: u16) -> State {
    State { pc: pc, ..s }
}

/// The extra advance of a conditional skip: two more bytes when the
/// condition holds.
pub open spec fn skip_if(s: State, cond: bool) -> State {
    if cond {
        State { pc: (s.pc + 2) as u16, ..s }
    } else {
        s
    }
}

/// An ALU instruction writing register `x` and then the flag register VF.
/// The flag write is last, so for `x == 15` the flag value wins.
pub open spec fn with_alu(s: State, x: int, val: u8, flag: u8) -> State {
    State { v: s.v.update(x, val).update(15, flag), ..s }
}

/// The screen cleared, everything else untouched.
pub open spec fn cls_effect(s: State) -> State {
    State { disp: Seq::new(64 * 32, |p: int| false), ..s }
}

/// A return from a subroutine: the program counter restored from the top
/// of the stack, which shrinks by one.
pub open spec fn ret_effect(s: State) -> State {
    State { pc: s.stack[s.sp - 1], sp: (s.sp - 1) as u8, ..s }
}

/// A subroutine call: the current program counter pushed, the target
/// address taken.
pub open spec fn call_effect(s: State, nnn: u16) -> State {
    State {
        stack: s.stack.update(s.sp as int, s.pc),
        sp: (s.sp + 1) as u8,
        pc: nnn,
        ..s
    }
}

// 8-bit arithmetic used by the ALU family.

/// Addition modulo 256.
pub open spec fn add_wrapped(a: u8, b: u8) -> u8 {
    ((a + b) % 256) as u8
}

/// The carry flag of an 8-bit addition: 1 exactly when the true sum
/// exceeds 255.
pub open spec fn add_carry(a: u8, b: u8) -> u8 {
    if a + b > 255 {
        1u8
    } else {
        0u8
    }
}

/// Subtraction modulo 256.
pub open spec fn sub_wrapped(a: u8, b: u8) -> u8 {
    if a >= b {
        (a - b) as u8
    } else {
        (a - b + 256) as u8
    }
}

/// The NOT-borrow flag of an 8-bit subtraction: 1 exactly when `a >= b`.
pub open spec fn sub_no_borrow(a: u8, b: u8) -> u8 {
    if a >= b {
        1u8
    } else {
        0u8
    }
}

/// Left shift by one, modulo 256.
pub open spec fn shl_wrapped(a: u8) -> u8 {
    ((a * 2) % 256) as u8
}

// Key state, supplied by the input collaborator as a 16-bit mask with bit
// `k` set when key `k` is held.

/// Whether key `k` (taken modulo 16) is held in `keys`.
pub open spec fn key_pressed(keys: u16, k: u8) -> bool {
    (keys >> ((k & 0xF) as u16)) & 1 == 1
}

/// No key at all is held.
pub open spec fn no_key_pressed(keys: u16) -> bool {
    forall|k: u8| k < 16 ==> !key_pressed(keys, k)
}

/// The smallest held key index, scanning upward from `k`; 16 when none of
/// `k..16` is held.
pub open spec fn lowest_key_from(keys: u16, k: u8) -> u8
    decreases 16 - k,
{
    if k >= 16 {
        16u8
    } else if key_pressed(keys, k) {
        k
    } else {
        lowest_key_from(keys, (k + 1) as u8)
    }
}

// Display geometry and the sprite-draw semantics.

/// Row `row`, bit `col` of the sprite read at memory address `i`: bit 7 of a
/// sprite byte is its leftmost pixel.
pub open spec fn sprite_bit(mem: Seq<u8>, i: int, row: int, col: int) -> bool {
    (mem[i + row] >> ((7 - col) as u8)) & 1 == 1
}

/// The display cell that sprite pixel `(row, col)` of a sprite drawn at
/// `(s.v[x], s.v[y])` lands on.  Coordinates wrap around both screen edges.
pub open spec fn drw_target(s: State, x: int, y: int, row: int, col: int) -> int {
    ((s.v[y] + row) % 32) * 64 + ((s.v[x] + col) % 64)
}

/// Whether the sprite of `n` rows drawn at `(s.v[x], s.v[y])` covers display
/// cell `p` with a lit sprite pixel.
pub open spec fn drw_hits(s: State, x: int, y: int, n: int, p: int) -> bool {
    exists|row: int, col: int|
        0 <= row < n && 0 <= col < 8 && #[trigger] sprite_bit(s.mem, s.i as int, row, col)
            && p == drw_target(s, x, y, row, col)
}

/// The display after the XOR blit of the sprite.
pub open spec fn drw_disp(s: State, x: int, y: int, n: int) -> Seq<bool> {
    Seq::new(64 * 32, |p: int| s.disp[p] != drw_hits(s, x, y, n, p))
}

/// Whether the blit unset a previously lit pixel.
pub open spec fn drw_collision(s: State, x: int, y: int, n: int) -> bool {
    exists|p: int| 0 <= p < 64 * 32 && s.disp[p] && #[trigger] drw_hits(s, x, y, n, p)
}

/// The full effect of the sprite-draw instruction: the blitted display and
/// the collision flag in VF.
pub open spec fn drw_effect(s: State, x: int, y: int, n: int) -> State {
    State {
        disp: drw_disp(s, x, y, n),
        v: s.v.update(15, if drw_collision(s, x, y, n) { 1u8 } else { 0u8 }),
        ..s
    }
}

// Memory transfers.

/// Memory with the three decimal digits of `val` written at addresses
/// `i`, `i + 1`, `i + 2` (hundreds first).
pub open spec fn bcd_effect(s: State, val: u8) -> State {
    State {
        mem: s.mem.update(s.i as int, (val / 100) as u8).update(
            s.i + 1,
            ((val / 10) % 10) as u8,
        ).update(s.i + 2, (val % 10) as u8),
        ..s
    }
}

/// Memory with registers `0..=x` copied to addresses `i..=i + x`.
pub open spec fn store_regs_effect(s: State, x: int) -> State {
    State {
        mem: Seq::new(
            4096,
            |a: int| if s.i <= a <= s.i + x { s.v[a - s.i] } else { s.mem[a] },
        ),
        ..s
    }
}

/// Registers `0..=x` loaded from memory addresses `i..=i + x`.
pub open spec fn load_regs_effect(s: State, x: int) -> State {
    State {
        v: Seq::new(16, |j: int| if 0 <= j <= x { s.mem[s.i + j] } else { s.v[j] }),
        ..s
    }
}

/// Memory with a program of `prog.len()` bytes copied verbatim to addresses
/// starting at 0x200, everything else untouched.
pub open spec fn load_program_effect(s: State, prog: Seq<u8>) -> State {
    State {
        mem: Seq::new(
            4096,
            |a: int| if 0x200 <= a < 0x200 + prog.len() { prog[a - 0x200] } else { s.mem[a] },
        ),
        ..s
    }
}

/// One 60 Hz timer tick: both timers decrement, with a floor at zero.
pub open spec fn timer_tick_effect(s: State) -> State {
    State {
        dt: if s.dt > 0 {
            (s.dt - 1) as u8
        } else {
            0u8
        },
        st: if s.st > 0 {
            (s.st - 1) as u8
        } else {
            0u8
        },
        ..s
    }
}

} // verus!
